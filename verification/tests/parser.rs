use lightboard::command_input_parser::{parse, Chunk};
use lightboard::effect::{Action, Command};

fn effect(key: &str) -> Chunk {
    Chunk::Effect(Command { key: key.to_owned(), action: Action::Toggle })
}

#[test]
fn test_parse_basic() {
    assert_eq!(
        vec![
            Chunk::Effect(Command { key: "A1".to_owned(), action: Action::Toggle }),
            Chunk::CueNum(102),
            Chunk::Effect(Command { key: "E52".to_owned(), action: Action::Toggle })
        ],
        parse("a1 102 E52")
    );
}

#[test]
fn parse_takes_effects_that_follow_each_other_directly() {
    assert_eq!(vec![effect("A1"), effect("E52")], parse("a1E52"));
    assert_eq!(vec![effect("B12"), effect("C3"), effect("D4")], parse("b12c3D4"));
}

#[test]
fn parse_single_tokens() {
    assert_eq!(vec![effect("A1")], parse("a1"));
    assert_eq!(vec![effect("A1")], parse("A1"));
    assert_eq!(vec![effect("Z0099")], parse("z0099"));
    assert_eq!(vec![Chunk::CueNum(7)], parse("7"));
    assert_eq!(vec![Chunk::CueNum(7)], parse("007"));
    assert_eq!(vec![Chunk::CueNum(0)], parse("0"));
}

#[test]
fn parse_takes_a_run_of_digits_whole() {
    assert_eq!(vec![effect("A1102")], parse("a1102"));
    assert_eq!(vec![Chunk::CueNum(102), effect("A1")], parse("102a1"));
    assert_eq!(vec![Chunk::CueNum(1), Chunk::CueNum(2)], parse("1 2"));
}

#[test]
fn canonical_key_parses_to_itself() {
    let chunks = parse("a1");
    assert_eq!(1, chunks.len());
    let key = match &chunks[0] {
        Chunk::Effect(command) => command.key.clone(),
        Chunk::CueNum(_) => panic!("a cue number"),
    };
    let (letter, digits) = key.split_at(1);
    assert_eq!(("A", "1"), (letter, digits));
    assert_eq!("A1", format!("{}{}", letter, digits));
    assert_eq!(chunks, parse(&key));
    assert_eq!(vec![effect("Q4711")], parse("Q4711"));
}

#[test]
fn malformed_lines_yield_nothing() {
    let none: Vec<Chunk> = vec![];
    assert_eq!(none, parse(""));
    assert_eq!(none, parse(" "));
    assert_eq!(none, parse("a"));
    assert_eq!(none, parse("a1 "));
    assert_eq!(none, parse(" a1"));
    assert_eq!(none, parse("a1  b2"));
    assert_eq!(none, parse("a1 b"));
    assert_eq!(none, parse("a1,b2"));
    assert_eq!(none, parse("ab1"));
    assert_eq!(none, parse("a1 12x"));
    assert_eq!(none, parse("1 2 "));
    assert_eq!(none, parse("a1\t102"));
    assert_eq!(none, parse("é1"));
    assert_eq!(none, parse("a１"));
    assert_eq!(none, parse("-1"));
}

#[test]
fn a_cue_number_too_large_for_the_machine_is_malformed() {
    let none: Vec<Chunk> = vec![];
    let max = usize::MAX.to_string();
    assert_eq!(vec![Chunk::CueNum(usize::MAX)], parse(&max));
    assert_eq!(none, parse(&format!("{}0", max)));
    assert_eq!(none, parse("a1 340282366920938463463374607431768211456"));
    let mut above = max.into_bytes();
    let last = above.len() - 1;
    above[last] += 1;
    assert_eq!(none, parse(std::str::from_utf8(&above).unwrap()));
}

#[test]
fn lines_of_effect_tokens_yield_effects_only() {
    for line in ["a1", "a1b2", "x9Y88z777", "A0a0"] {
        let chunks = parse(line);
        assert!(!chunks.is_empty());
        assert!(chunks.iter().all(|chunk| matches!(chunk, Chunk::Effect(_))));
    }
}
