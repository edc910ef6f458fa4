use lightboard::text::{chars_of, decimal_text, drop_first_char, split_fields};

#[test]
fn split_fields_splits_at_every_colon() {
    assert_eq!(vec!["a", "b", "c"], split_fields("a:b:c"));
    assert_eq!(vec!["par1", "led", "color"], split_fields("par1:led:color"));
    assert_eq!(vec!["abc"], split_fields("abc"));
    assert_eq!(vec![""], split_fields(""));
    assert_eq!(vec!["", ""], split_fields(":"));
    assert_eq!(vec!["a", ""], split_fields("a:"));
    assert_eq!(vec!["", "a"], split_fields(":a"));
    assert_eq!(vec!["a", "", "b"], split_fields("a::b"));
    assert_eq!(vec!["ä", "ö ü"], split_fields("ä:ö ü"));
}

#[test]
fn split_fields_agrees_with_split() {
    for text in ["", ":", "::", "a:b", "@group:color", "x:y:z:w", "no colon", "端:口"] {
        let expected: Vec<String> = text.split(':').map(|part| part.to_owned()).collect();
        assert_eq!(expected, split_fields(text));
    }
}

#[test]
fn chars_of_lists_the_characters() {
    assert_eq!(vec!['a', 'é', '1'], chars_of("aé1"));
    assert!(chars_of("").is_empty());
}

#[test]
fn drop_first_char_drops_one_character() {
    assert_eq!("group", drop_first_char("@group"));
    assert_eq!("", drop_first_char("@"));
    assert_eq!("", drop_first_char(""));
    assert_eq!("b", drop_first_char("éb"));
}

#[test]
fn decimal_text_writes_numbers_without_leading_zeros() {
    assert_eq!("0", decimal_text(0));
    assert_eq!("7", decimal_text(7));
    assert_eq!("10", decimal_text(10));
    assert_eq!("102", decimal_text(102));
    assert_eq!("9990", decimal_text(9990));
    assert_eq!(usize::MAX.to_string(), decimal_text(usize::MAX));
}
