//! The keys of the keyboard and what they do to the command line.
use crate::command_input_parser::{is_canonical_key, is_digit, lemma_digits_end_is};
use crate::text::{decimal_digits, decimal_text};
use vstd::prelude::*;

verus! {

/// A key of the keyboard.
#[derive(Clone, Copy, Debug, PartialEq, Eq)]
pub enum KeyCode {
    A,
    B,
    C,
    D,
    E,
    F,
    G,
    H,
    I,
    J,
    K,
    L,
    M,
    N,
    O,
    P,
    Q,
    R,
    S,
    T,
    U,
    V,
    W,
    X,
    Y,
    Z,
    Key0,
    Key1,
    Key2,
    Key3,
    Key4,
    Key5,
    Key6,
    Key7,
    Key8,
    Key9,
    Numpad0,
    Numpad1,
    Numpad2,
    Numpad3,
    Numpad4,
    Numpad5,
    Numpad6,
    Numpad7,
    Numpad8,
    Numpad9,
    Space,
    Back,
    Escape,
    Return,
    NumpadEnter,
    /// Any other key.
    Other,
}

impl KeyCode {
    /// The character that the key types, if it types one: a lower-case
    /// letter, a digit or a space.
    pub open spec fn typed(self) -> Option<char> {
        match self {
            KeyCode::A => Some('a'),
            KeyCode::B => Some('b'),
            KeyCode::C => Some('c'),
            KeyCode::D => Some('d'),
            KeyCode::E => Some('e'),
            KeyCode::F => Some('f'),
            KeyCode::G => Some('g'),
            KeyCode::H => Some('h'),
            KeyCode::I => Some('i'),
            KeyCode::J => Some('j'),
            KeyCode::K => Some('k'),
            KeyCode::L => Some('l'),
            KeyCode::M => Some('m'),
            KeyCode::N => Some('n'),
            KeyCode::O => Some('o'),
            KeyCode::P => Some('p'),
            KeyCode::Q => Some('q'),
            KeyCode::R => Some('r'),
            KeyCode::S => Some('s'),
            KeyCode::T => Some('t'),
            KeyCode::U => Some('u'),
            KeyCode::V => Some('v'),
            KeyCode::W => Some('w'),
            KeyCode::X => Some('x'),
            KeyCode::Y => Some('y'),
            KeyCode::Z => Some('z'),
            KeyCode::Key0 | KeyCode::Numpad0 => Some('0'),
            KeyCode::Key1 | KeyCode::Numpad1 => Some('1'),
            KeyCode::Key2 | KeyCode::Numpad2 => Some('2'),
            KeyCode::Key3 | KeyCode::Numpad3 => Some('3'),
            KeyCode::Key4 | KeyCode::Numpad4 => Some('4'),
            KeyCode::Key5 | KeyCode::Numpad5 => Some('5'),
            KeyCode::Key6 | KeyCode::Numpad6 => Some('6'),
            KeyCode::Key7 | KeyCode::Numpad7 => Some('7'),
            KeyCode::Key8 | KeyCode::Numpad8 => Some('8'),
            KeyCode::Key9 | KeyCode::Numpad9 => Some('9'),
            KeyCode::Space => Some(' '),
            _ => None,
        }
    }

    /// Whether the key commits the command line.
    pub open spec fn commits(self) -> bool {
        self == KeyCode::Return || self == KeyCode::NumpadEnter
    }

    /// Where the character that the key types stands among the typable
    /// characters.
    fn place(self) -> (place: Option<usize>)
        ensures
            match place {
                Some(i) => i < 37 && self.typed() == Some(
                    if i < 26 {
                        ((97 + i) as u32) as char
                    } else if i < 36 {
                        ((22 + i) as u32) as char
                    } else {
                        ' '
                    },
                ),
                None => self.typed() is None,
            },
    {
        match self {
            KeyCode::A => Some(0),
            KeyCode::B => Some(1),
            KeyCode::C => Some(2),
            KeyCode::D => Some(3),
            KeyCode::E => Some(4),
            KeyCode::F => Some(5),
            KeyCode::G => Some(6),
            KeyCode::H => Some(7),
            KeyCode::I => Some(8),
            KeyCode::J => Some(9),
            KeyCode::K => Some(10),
            KeyCode::L => Some(11),
            KeyCode::M => Some(12),
            KeyCode::N => Some(13),
            KeyCode::O => Some(14),
            KeyCode::P => Some(15),
            KeyCode::Q => Some(16),
            KeyCode::R => Some(17),
            KeyCode::S => Some(18),
            KeyCode::T => Some(19),
            KeyCode::U => Some(20),
            KeyCode::V => Some(21),
            KeyCode::W => Some(22),
            KeyCode::X => Some(23),
            KeyCode::Y => Some(24),
            KeyCode::Z => Some(25),
            KeyCode::Key0 | KeyCode::Numpad0 => Some(26),
            KeyCode::Key1 | KeyCode::Numpad1 => Some(27),
            KeyCode::Key2 | KeyCode::Numpad2 => Some(28),
            KeyCode::Key3 | KeyCode::Numpad3 => Some(29),
            KeyCode::Key4 | KeyCode::Numpad4 => Some(30),
            KeyCode::Key5 | KeyCode::Numpad5 => Some(31),
            KeyCode::Key6 | KeyCode::Numpad6 => Some(32),
            KeyCode::Key7 | KeyCode::Numpad7 => Some(33),
            KeyCode::Key8 | KeyCode::Numpad8 => Some(34),
            KeyCode::Key9 | KeyCode::Numpad9 => Some(35),
            KeyCode::Space => Some(36),
            _ => None,
        }
    }

    /// Whether the key commits the command line.
    pub fn is_commit(self) -> (commits: bool)
        ensures
            commits == self.commits(),
    {
        match self {
            KeyCode::Return | KeyCode::NumpadEnter => true,
            _ => false,
        }
    }
}

/// The command line after a key has been pressed: a typing key appends its
/// character, `Back` takes the last character away, `Escape` clears the
/// line, and every other key leaves it as it is.
pub open spec fn edited(text: Seq<char>, key: KeyCode) -> Seq<char> {
    match key.typed() {
        Some(c) => text.push(c),
        None => match key {
            KeyCode::Back => if text.len() > 0 {
                text.drop_last()
            } else {
                text
            },
            KeyCode::Escape => Seq::empty(),
            _ => text,
        },
    }
}

/// The typable character at `place`, as a string.
fn typable_text(place: usize) -> (text: &'static str)
    requires
        place < 37,
    ensures
        text@ == seq![
            if place < 26 {
                ((97 + place) as u32) as char
            } else if place < 36 {
                ((22 + place) as u32) as char
            } else {
                ' '
            },
        ],
{
    let all = "abcdefghijklmnopqrstuvwxyz0123456789 ";
    proof {
        reveal_strlit("abcdefghijklmnopqrstuvwxyz0123456789 ");
    }
    let text = all.substring_char(place, place + 1);
    assert(text@ =~= seq![all@[place as int]]);
    assert(all@[0] == 'a' && all@[1] == 'b' && all@[2] == 'c' && all@[3] == 'd' && all@[4] == 'e'
        && all@[5] == 'f' && all@[6] == 'g' && all@[7] == 'h' && all@[8] == 'i' && all@[9] == 'j'
        && all@[10] == 'k' && all@[11] == 'l' && all@[12] == 'm');
    assert(all@[13] == 'n' && all@[14] == 'o' && all@[15] == 'p' && all@[16] == 'q' && all@[17]
        == 'r' && all@[18] == 's' && all@[19] == 't' && all@[20] == 'u' && all@[21] == 'v'
        && all@[22] == 'w' && all@[23] == 'x' && all@[24] == 'y' && all@[25] == 'z');
    assert(all@[26] == '0' && all@[27] == '1' && all@[28] == '2' && all@[29] == '3' && all@[30]
        == '4' && all@[31] == '5' && all@[32] == '6' && all@[33] == '7' && all@[34] == '8'
        && all@[35] == '9' && all@[36] == ' ');
    text
}

/// Applies a key to the command line.
pub fn mutate_from_key(buffer: &mut String, key: KeyCode)
    ensures
        final(buffer)@ == edited(old(buffer)@, key),
{
    match key.place() {
        Some(place) => {
            let text = typable_text(place);
            buffer.append(text);
            assert(buffer@ =~= old(buffer)@.push(text@[0]));
        },
        None => {
            match key {
                KeyCode::Back => {
                    let n = buffer.as_str().unicode_len();
                    if n > 0 {
                        let shorter = buffer.as_str().substring_char(0, n - 1).to_owned();
                        assert(shorter@ =~= old(buffer)@.drop_last());
                        *buffer = shorter;
                    }
                },
                KeyCode::Escape => {
                    *buffer = String::new();
                },
                _ => {},
            }
        },
    }
}

/// How many rows of effect slots the control surface has at most.
pub const SLOT_ROWS: usize = 6;

/// The letter of a row of effect slots: `A` for the first row.
pub open spec fn row_letter(row: int) -> char {
    ((65 + row) as u32) as char
}

/// The key of the effect slot in row `row` and column `col`, both counted
/// from 0: the letter of the row, and the number of the column counted from 1.
pub open spec fn slot_key_of(row: int, col: int) -> Seq<char> {
    seq![row_letter(row)] + decimal_digits((col + 1) as nat)
}

/// A number is written with digits, and with one at least.
pub proof fn lemma_decimal_digits_are_digits(n: nat)
    ensures
        decimal_digits(n).len() >= 1,
        forall|i: int| 0 <= i < decimal_digits(n).len() ==> is_digit(#[trigger] decimal_digits(n)[i]),
    decreases n,
{
    if n >= 10 {
        lemma_decimal_digits_are_digits(n / 10);
    }
}

/// The key of every slot is canonical, so it is a command line of its own.
pub proof fn lemma_slot_keys_are_canonical(row: int, col: int)
    requires
        0 <= row < SLOT_ROWS,
        0 <= col,
    ensures
        is_canonical_key(slot_key_of(row, col)),
{
    let digits = decimal_digits((col + 1) as nat);
    let key = slot_key_of(row, col);
    lemma_decimal_digits_are_digits((col + 1) as nat);
    assert forall|i: int| 1 <= i < key.len() implies is_digit(#[trigger] key[i]) by {
        assert(key[i] == digits[i - 1]);
    }
    lemma_digits_end_is(key, 1, key.len() as int);
}

/// The key of the effect slot in row `row` and column `col`, both counted
/// from 0.
pub fn slot_key(row: usize, col: usize) -> (key: String)
    requires
        row < SLOT_ROWS,
        col < usize::MAX,
    ensures
        key@ == slot_key_of(row as int, col as int),
        is_canonical_key(key@),
{
    proof {
        lemma_slot_keys_are_canonical(row as int, col as int);
    }
    let letters = "ABCDEF";
    proof {
        reveal_strlit("ABCDEF");
    }
    let letter = letters.substring_char(row, row + 1);
    assert(letter@ =~= seq![letters@[row as int]]);
    assert(letters@[0] == 'A' && letters@[1] == 'B' && letters@[2] == 'C' && letters@[3] == 'D'
        && letters@[4] == 'E' && letters@[5] == 'F');
    let number = decimal_text(col + 1);
    String::from_str(letter).concat(number.as_str())
}

} // verus!
