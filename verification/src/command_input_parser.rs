//! The command line: effect keys and cue numbers.
//!
//! ```text
//! chunks := chunk ( ' '? chunk )*
//! chunk  := effect | cuenum
//! effect := alpha digit+     a letter of either case, then digits
//! cuenum := digit+
//! ```
//!
//! A run of digits is always taken whole. A buffer that is not `chunks` from
//! its first character to its last yields no chunk at all.
use crate::effect::{Action, Command};
use crate::text::chars_of;
use vstd::prelude::*;

verus! {

/// A chunk as a mathematical value.
pub ghost enum ChunkModel {
    /// An effect key in canonical form: an upper-case letter, then digits.
    Effect(Seq<char>),
    /// A cue number, counted from 1.
    CueNum(nat),
}

/// One item of a command line.
#[derive(Debug, PartialEq, Clone)]
pub enum Chunk {
    Effect(Command),
    CueNum(usize),
}

impl View for Chunk {
    type V = ChunkModel;

    open spec fn view(&self) -> ChunkModel {
        match self {
            Chunk::Effect(command) => ChunkModel::Effect(command.key@),
            Chunk::CueNum(n) => ChunkModel::CueNum(*n as nat),
        }
    }
}

/// The models of a sequence of chunks.
pub open spec fn chunk_models(chunks: Seq<Chunk>) -> Seq<ChunkModel> {
    Seq::new(chunks.len(), |i: int| chunks[i]@)
}

pub open spec fn is_lower(c: char) -> bool {
    'a' <= c <= 'z'
}

pub open spec fn is_upper(c: char) -> bool {
    'A' <= c <= 'Z'
}

pub open spec fn is_alpha(c: char) -> bool {
    is_lower(c) || is_upper(c)
}

pub open spec fn is_digit(c: char) -> bool {
    '0' <= c <= '9'
}

/// The upper-case form of a letter.
pub open spec fn upper(c: char) -> char {
    if is_lower(c) {
        ((c as u32) - 32) as char
    } else {
        c
    }
}

/// Where the run of digits that starts at `from` ends.
pub open spec fn digits_end(s: Seq<char>, from: int) -> int
    decreases s.len() - from,
{
    if 0 <= from < s.len() && is_digit(s[from]) {
        digits_end(s, from + 1)
    } else {
        from
    }
}

/// The number that a string of digits spells.
pub open spec fn decimal_value(digits: Seq<char>) -> nat
    decreases digits.len(),
{
    if digits.len() == 0 {
        0
    } else {
        decimal_value(digits.drop_last()) * 10 + ((digits.last() as u32) - ('0' as u32)) as nat
    }
}

/// An upper-case letter followed by at least one digit, and nothing else.
pub open spec fn is_canonical_key(key: Seq<char>) -> bool {
    &&& key.len() >= 2
    &&& is_upper(key[0])
    &&& digits_end(key, 1) == key.len()
}

/// The chunk that starts at `from`, and where it ends. An effect is tried
/// before a cue number.
pub open spec fn chunk_at(s: Seq<char>, from: int) -> Option<(ChunkModel, int)> {
    if 0 <= from < s.len() && is_alpha(s[from]) {
        let end = digits_end(s, from + 1);
        if end > from + 1 {
            Some((ChunkModel::Effect(seq![upper(s[from])] + s.subrange(from + 1, end)), end))
        } else {
            None
        }
    } else {
        let end = digits_end(s, from);
        if end > from && decimal_value(s.subrange(from, end)) <= usize::MAX {
            Some((ChunkModel::CueNum(decimal_value(s.subrange(from, end))), end))
        } else {
            None
        }
    }
}

/// The chunks of `s` from `from` to its end, where a chunk has to start; or
/// nothing, if what stands there is not `chunks`.
pub open spec fn chunks_from(s: Seq<char>, from: int) -> Option<Seq<ChunkModel>>
    decreases s.len() - from,
{
    match chunk_at(s, from) {
        None => None,
        Some((chunk, end)) => {
            if end >= s.len() {
                Some(seq![chunk])
            } else if end <= from {
                None
            } else {
                let next = if s[end] == ' ' {
                    end + 1
                } else {
                    end
                };
                match chunks_from(s, next) {
                    Some(rest) => Some(seq![chunk] + rest),
                    None => None,
                }
            }
        },
    }
}

/// What a command line means: its chunks, or nothing if it is malformed.
pub open spec fn parsed(s: Seq<char>) -> Seq<ChunkModel> {
    match chunks_from(s, 0) {
        Some(chunks) => chunks,
        None => Seq::empty(),
    }
}

/// A run of digits ends at or behind its start, inside the string, with a
/// digit at every place and none behind the last.
pub proof fn lemma_digits_end(s: Seq<char>, from: int)
    requires
        0 <= from <= s.len(),
    ensures
        from <= digits_end(s, from) <= s.len(),
        forall|i: int| from <= i < digits_end(s, from) ==> is_digit(#[trigger] s[i]),
        digits_end(s, from) < s.len() ==> !is_digit(s[digits_end(s, from)]),
    decreases s.len() - from,
{
    if from < s.len() && is_digit(s[from]) {
        lemma_digits_end(s, from + 1);
    }
}

/// A run that is digits up to `end`, where it stops, ends at `end`.
pub proof fn lemma_digits_end_is(s: Seq<char>, from: int, end: int)
    requires
        0 <= from <= end <= s.len(),
        forall|i: int| from <= i < end ==> is_digit(#[trigger] s[i]),
        end < s.len() ==> !is_digit(s[end]),
    ensures
        digits_end(s, from) == end,
    decreases end - from,
{
    if from < end {
        lemma_digits_end_is(s, from + 1, end);
    }
}

/// A longer string of digits does not spell a smaller number.
pub proof fn lemma_decimal_value_grows(s: Seq<char>, from: int, mid: int, end: int)
    requires
        0 <= from <= mid <= end <= s.len(),
        forall|i: int| from <= i < end ==> is_digit(#[trigger] s[i]),
    ensures
        decimal_value(s.subrange(from, mid)) <= decimal_value(s.subrange(from, end)),
    decreases end - mid,
{
    if mid < end {
        lemma_decimal_value_grows(s, from, mid, end - 1);
        let whole = s.subrange(from, end);
        assert(whole.drop_last() =~= s.subrange(from, end - 1));
        assert(whole.last() == s[end - 1]);
    }
}

/// Whether `s`, from `from` on, is effect tokens and nothing else: a letter
/// and digits, again and again, without a space.
pub open spec fn is_effect_run(s: Seq<char>, from: int) -> bool
    decreases s.len() - from,
{
    if from < 0 || from >= s.len() {
        false
    } else if is_alpha(s[from]) && digits_end(s, from + 1) > from + 1 {
        digits_end(s, from + 1) >= s.len() || is_effect_run(s, digits_end(s, from + 1))
    } else {
        false
    }
}

/// Whether every chunk is an effect.
pub open spec fn all_effects(chunks: Seq<ChunkModel>) -> bool {
    forall|i: int| 0 <= i < chunks.len() ==> #[trigger] chunks[i] is Effect
}

/// A line without spaces that is made of effect tokens alone parses, and
/// yields effects only, never a cue number.
pub proof fn lemma_effect_run_yields_effects(s: Seq<char>, from: int)
    requires
        is_effect_run(s, from),
    ensures
        chunks_from(s, from) is Some,
        chunks_from(s, from).unwrap().len() >= 1,
        all_effects(chunks_from(s, from).unwrap()),
    decreases s.len() - from,
{
    let end = digits_end(s, from + 1);
    lemma_digits_end(s, from + 1);
    if end < s.len() {
        assert(s[end] != ' ') by {
            if is_effect_run(s, end) {
                assert(is_alpha(s[end]));
            }
        }
        lemma_effect_run_yields_effects(s, end);
        let rest = chunks_from(s, end).unwrap();
        let all = chunks_from(s, from).unwrap();
        assert(all == seq![chunk_at(s, from).unwrap().0] + rest);
        assert forall|i: int| 0 <= i < all.len() implies #[trigger] all[i] is Effect by {
            if i > 0 {
                assert(all[i] == rest[i - 1]);
            }
        }
    }
}

/// Every effect key that parsing yields is canonical: an upper-case letter
/// followed by digits.
pub proof fn lemma_parsed_keys_are_canonical(s: Seq<char>, from: int)
    requires
        0 <= from <= s.len(),
    ensures
        match chunks_from(s, from) {
            Some(chunks) => forall|i: int|
                0 <= i < chunks.len() ==> match #[trigger] chunks[i] {
                    ChunkModel::Effect(key) => is_canonical_key(key),
                    ChunkModel::CueNum(_) => true,
                },
            None => true,
        },
    decreases s.len() - from,
{
    match chunk_at(s, from) {
        None => {},
        Some((chunk, end)) => {
            if from < s.len() && is_alpha(s[from]) {
                lemma_digits_end(s, from + 1);
                let key = seq![upper(s[from])] + s.subrange(from + 1, end);
                assert(key[0] == upper(s[from]));
                assert(is_upper(key[0])) by {
                    lemma_upper_is_upper(s[from]);
                }
                assert forall|i: int| 1 <= i < key.len() implies is_digit(#[trigger] key[i]) by {
                    assert(key[i] == s[from + i]);
                }
                lemma_digits_end_is(key, 1, key.len() as int);
            } else {
                lemma_digits_end(s, from);
            }
            if end < s.len() && end > from {
                let next = if s[end] == ' ' {
                    end + 1
                } else {
                    end
                };
                lemma_parsed_keys_are_canonical(s, next);
                match chunks_from(s, next) {
                    Some(rest) => {
                        let all = seq![chunk] + rest;
                        assert forall|i: int| 0 <= i < all.len() implies match #[trigger] all[i] {
                            ChunkModel::Effect(key) => is_canonical_key(key),
                            ChunkModel::CueNum(_) => true,
                        } by {
                            if i > 0 {
                                assert(all[i] == rest[i - 1]);
                            }
                        }
                    },
                    None => {},
                }
            }
        },
    }
}

/// The upper-case form of a letter is an upper-case letter, and an
/// upper-case letter is its own upper-case form.
pub proof fn lemma_upper_is_upper(c: char)
    requires
        is_alpha(c),
    ensures
        is_upper(upper(c)),
        is_upper(c) ==> upper(c) == c,
{
}

/// A canonical key is a line of its own: it parses to the one effect with
/// that very key.
pub proof fn lemma_canonical_key_parses_to_itself(key: Seq<char>)
    requires
        is_canonical_key(key),
    ensures
        parsed(key) == seq![ChunkModel::Effect(key)],
{
    lemma_upper_is_upper(key[0]);
    assert(seq![upper(key[0])] + key.subrange(1, key.len() as int) =~= key);
}

fn char_is_digit(c: char) -> (digit: bool)
    ensures
        digit == is_digit(c),
{
    '0' <= c && c <= '9'
}

fn char_is_alpha(c: char) -> (alpha: bool)
    ensures
        alpha == is_alpha(c),
{
    ('a' <= c && c <= 'z') || ('A' <= c && c <= 'Z')
}

/// Where the run of digits that starts at `from` ends.
fn scan_digits(chars: &Vec<char>, from: usize) -> (end: usize)
    requires
        from <= chars.len(),
    ensures
        end == digits_end(chars@, from as int),
        from <= end <= chars.len(),
{
    let mut end = from;
    while end < chars.len() && char_is_digit(chars[end])
        invariant
            from <= end <= chars.len(),
            forall|i: int| from <= i < end ==> is_digit(#[trigger] chars@[i]),
        decreases chars.len() - end,
    {
        end += 1;
    }
    proof {
        lemma_digits_end_is(chars@, from as int, end as int);
    }
    end
}

/// The number that the digits between `from` and `end` spell, unless it is
/// too large for a `usize`.
fn digits_value(chars: &Vec<char>, from: usize, end: usize) -> (value: Option<usize>)
    requires
        from <= end <= chars.len(),
        forall|i: int| from <= i < end ==> is_digit(#[trigger] chars@[i]),
    ensures
        match value {
            Some(v) => v == decimal_value(chars@.subrange(from as int, end as int)),
            None => decimal_value(chars@.subrange(from as int, end as int)) > usize::MAX,
        },
{
    let mut value: usize = 0;
    let mut i = from;
    assert(chars@.subrange(from as int, from as int) =~= Seq::<char>::empty());
    while i < end
        invariant
            from <= i <= end <= chars.len(),
            forall|k: int| from <= k < end ==> is_digit(#[trigger] chars@[k]),
            value == decimal_value(chars@.subrange(from as int, i as int)),
        decreases end - i,
    {
        let c = chars[i];
        assert(is_digit(chars@[i as int]));
        let digit: usize = (c as u32 - '0' as u32) as usize;
        proof {
            let next = chars@.subrange(from as int, i + 1);
            assert(next.drop_last() =~= chars@.subrange(from as int, i as int));
            assert(next.last() == c);
            lemma_decimal_value_grows(chars@, from as int, i + 1, end as int);
        }
        if value > (usize::MAX - digit) / 10 {
            return None;
        }
        value = value * 10 + digit;
        i += 1;
    }
    Some(value)
}

/// The letter at place `index` of the upper-case alphabet, as a string.
fn upper_letter(index: usize) -> (letter: &'static str)
    requires
        index < 26,
    ensures
        letter@ == seq![((65 + index) as u32) as char],
{
    let alphabet = "ABCDEFGHIJKLMNOPQRSTUVWXYZ";
    proof {
        reveal_strlit("ABCDEFGHIJKLMNOPQRSTUVWXYZ");
    }
    let letter = alphabet.substring_char(index, index + 1);
    assert(letter@ =~= seq![alphabet@[index as int]]);
    assert(alphabet@[index as int] == ((65 + index) as u32) as char) by {
        assert(alphabet@[0] == 'A' && alphabet@[1] == 'B' && alphabet@[2] == 'C' && alphabet@[3]
            == 'D' && alphabet@[4] == 'E' && alphabet@[5] == 'F' && alphabet@[6] == 'G'
            && alphabet@[7] == 'H' && alphabet@[8] == 'I' && alphabet@[9] == 'J' && alphabet@[10]
            == 'K' && alphabet@[11] == 'L' && alphabet@[12] == 'M');
        assert(alphabet@[13] == 'N' && alphabet@[14] == 'O' && alphabet@[15] == 'P'
            && alphabet@[16] == 'Q' && alphabet@[17] == 'R' && alphabet@[18] == 'S'
            && alphabet@[19] == 'T' && alphabet@[20] == 'U' && alphabet@[21] == 'V'
            && alphabet@[22] == 'W' && alphabet@[23] == 'X' && alphabet@[24] == 'Y'
            && alphabet@[25] == 'Z');
    }
    letter
}

/// The canonical key of the effect token between `from` and `end`.
fn effect_key(buffer: &str, chars: &Vec<char>, from: usize, end: usize) -> (key: String)
    requires
        chars@ == buffer@,
        from + 1 < end <= chars.len(),
        is_alpha(chars@[from as int]),
    ensures
        key@ == seq![upper(chars@[from as int])] + chars@.subrange(from + 1, end as int),
{
    let c = chars[from];
    let index: usize = if 'a' <= c && c <= 'z' {
        (c as u32 - 'a' as u32) as usize
    } else {
        (c as u32 - 'A' as u32) as usize
    };
    let letter = String::from_str(upper_letter(index));
    letter.concat(buffer.substring_char(from + 1, end))
}

/// Parses a command line into its chunks. A malformed line yields no chunk.
pub fn parse(buffer: &str) -> (chunks: Vec<Chunk>)
    ensures
        chunk_models(chunks@) == parsed(buffer@),
        forall|i: int|
            0 <= i < chunks@.len() ==> match #[trigger] chunks@[i] {
                Chunk::Effect(command) => is_canonical_key(command.key@),
                Chunk::CueNum(_) => true,
            },
{
    proof {
        lemma_parsed_keys_are_canonical(buffer@, 0);
    }
    let chars = chars_of(buffer);
    let n = chars.len();
    let mut chunks: Vec<Chunk> = Vec::new();
    let mut from: usize = 0;
    assert(chunk_models(chunks@) =~= Seq::<ChunkModel>::empty());
    loop
        invariant_except_break
            match chunks_from(chars@, from as int) {
                Some(rest) => chunks_from(chars@, 0) == Some(chunk_models(chunks@) + rest),
                None => chunks_from(chars@, 0) is None,
            },
        invariant
            chars@ == buffer@,
            n == chars@.len(),
            from <= n,
        ensures
            chunk_models(chunks@) == parsed(buffer@),
        decreases n - from,
    {
        let ghost done = chunk_models(chunks@);
        let end: usize;
        if from < n && char_is_alpha(chars[from]) {
            end = scan_digits(&chars, from + 1);
            if end <= from + 1 {
                chunks = Vec::new();
                assert(chunk_models(chunks@) =~= Seq::<ChunkModel>::empty());
                break;
            }
            let key = effect_key(buffer, &chars, from, end);
            chunks.push(Chunk::Effect(Command { key, action: Action::Toggle }));
        } else {
            end = scan_digits(&chars, from);
            if end <= from {
                chunks = Vec::new();
                assert(chunk_models(chunks@) =~= Seq::<ChunkModel>::empty());
                break;
            }
            proof {
                lemma_digits_end(chars@, from as int);
            }
            match digits_value(&chars, from, end) {
                Some(value) => {
                    chunks.push(Chunk::CueNum(value));
                },
                None => {
                    chunks = Vec::new();
                    assert(chunk_models(chunks@) =~= Seq::<ChunkModel>::empty());
                    break;
                },
            }
        }
        let ghost chunk = chunk_at(chars@, from as int).unwrap().0;
        assert(chunk_models(chunks@) =~= done.push(chunk));
        if end >= n {
            assert(done + seq![chunk] =~= done.push(chunk));
            break;
        }
        let next = if chars[end] == ' ' {
            end + 1
        } else {
            end
        };
        proof {
            match chunks_from(chars@, next as int) {
                Some(rest) => {
                    assert(done + (seq![chunk] + rest) =~= done.push(chunk) + rest);
                },
                None => {},
            }
        }
        from = next;
    }
    proof {
        assert forall|i: int| 0 <= i < chunks@.len() implies match #[trigger] chunks@[i] {
            Chunk::Effect(command) => is_canonical_key(command.key@),
            Chunk::CueNum(_) => true,
        } by {
            assert(chunk_models(chunks@)[i] == chunks@[i]@);
        }
    }
    chunks
}

} // verus!
