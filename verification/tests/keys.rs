use lightboard::command_input_parser::{parse, Chunk};
use lightboard::keys::{mutate_from_key, slot_key, KeyCode};

fn typed(keys: &[KeyCode]) -> String {
    let mut buffer = String::new();
    for key in keys {
        mutate_from_key(&mut buffer, *key);
    }
    buffer
}

#[test]
fn letters_digits_and_space_are_appended() {
    assert_eq!("a1 e52", typed(&[
        KeyCode::A, KeyCode::Key1, KeyCode::Space, KeyCode::E, KeyCode::Numpad5, KeyCode::Key2,
    ]));
    assert_eq!("abcdefghijklmnopqrstuvwxyz", typed(&[
        KeyCode::A, KeyCode::B, KeyCode::C, KeyCode::D, KeyCode::E, KeyCode::F, KeyCode::G,
        KeyCode::H, KeyCode::I, KeyCode::J, KeyCode::K, KeyCode::L, KeyCode::M, KeyCode::N,
        KeyCode::O, KeyCode::P, KeyCode::Q, KeyCode::R, KeyCode::S, KeyCode::T, KeyCode::U,
        KeyCode::V, KeyCode::W, KeyCode::X, KeyCode::Y, KeyCode::Z,
    ]));
    assert_eq!("0123456789", typed(&[
        KeyCode::Key0, KeyCode::Key1, KeyCode::Key2, KeyCode::Key3, KeyCode::Key4, KeyCode::Key5,
        KeyCode::Key6, KeyCode::Key7, KeyCode::Key8, KeyCode::Key9,
    ]));
    assert_eq!("0123456789", typed(&[
        KeyCode::Numpad0, KeyCode::Numpad1, KeyCode::Numpad2, KeyCode::Numpad3, KeyCode::Numpad4,
        KeyCode::Numpad5, KeyCode::Numpad6, KeyCode::Numpad7, KeyCode::Numpad8, KeyCode::Numpad9,
    ]));
}

#[test]
fn back_deletes_one_character() {
    assert_eq!("a", typed(&[KeyCode::A, KeyCode::B, KeyCode::Back]));
    assert_eq!("", typed(&[KeyCode::A, KeyCode::Back, KeyCode::Back]));
    assert_eq!("", typed(&[KeyCode::Back]));
    let mut buffer = "grün".to_owned();
    mutate_from_key(&mut buffer, KeyCode::Back);
    assert_eq!("grü", buffer);
    mutate_from_key(&mut buffer, KeyCode::Back);
    assert_eq!("gr", buffer);
}

#[test]
fn escape_clears_the_line() {
    assert_eq!("", typed(&[KeyCode::A, KeyCode::Key1, KeyCode::Escape]));
    assert_eq!("b", typed(&[KeyCode::A, KeyCode::Escape, KeyCode::B]));
    assert_eq!("", typed(&[KeyCode::Escape]));
}

#[test]
fn other_keys_leave_the_line_alone() {
    assert_eq!("a", typed(&[KeyCode::A, KeyCode::Other, KeyCode::Return, KeyCode::NumpadEnter]));
    assert!(KeyCode::Return.is_commit());
    assert!(KeyCode::NumpadEnter.is_commit());
    assert!(!KeyCode::A.is_commit());
    assert!(!KeyCode::Escape.is_commit());
    assert!(!KeyCode::Other.is_commit());
}

#[test]
fn slots_are_named_by_row_letter_and_column_number() {
    assert_eq!("A1", slot_key(0, 0));
    assert_eq!("A5", slot_key(0, 4));
    assert_eq!("B1", slot_key(1, 0));
    assert_eq!("F10", slot_key(5, 9));
    assert_eq!("C100", slot_key(2, 99));
    assert_eq!(format!("D{}", usize::MAX), slot_key(3, usize::MAX - 1));
}

#[test]
fn slot_keys_are_command_lines_of_their_own() {
    for row in 0..6 {
        for col in [0, 1, 8, 9, 10, 98] {
            let key = slot_key(row, col);
            match parse(&key).as_slice() {
                [Chunk::Effect(command)] => assert_eq!(key, command.key),
                other => panic!("{:?}", other),
            }
        }
    }
}
