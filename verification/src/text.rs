//! Work on text: characters, fields between colons, decimal numbers.
use vstd::prelude::*;

verus! {

/// The fields of `s`, which colons separate. There is always at least one
/// field, and a field may be empty.
pub open spec fn fields(s: Seq<char>) -> Seq<Seq<char>>
    decreases s.len(),
{
    if s.len() == 0 {
        seq![Seq::empty()]
    } else {
        let before = fields(s.drop_last());
        if s.last() == ':' {
            before.push(Seq::empty())
        } else {
            before.update(before.len() - 1, before.last().push(s.last()))
        }
    }
}

/// The views of a list of strings.
pub open spec fn views(strings: Seq<String>) -> Seq<Seq<char>> {
    Seq::new(strings.len(), |i: int| strings[i]@)
}

/// There is at least one field.
pub proof fn lemma_fields_len(s: Seq<char>)
    ensures
        fields(s).len() >= 1,
    decreases s.len(),
{
    if s.len() > 0 {
        lemma_fields_len(s.drop_last());
    }
}

/// No field holds a colon.
pub proof fn lemma_fields_have_no_colon(s: Seq<char>)
    ensures
        forall|i: int, k: int|
            0 <= i < fields(s).len() && 0 <= k < fields(s)[i].len() ==> fields(s)[i][k] != ':',
    decreases s.len(),
{
    if s.len() > 0 {
        lemma_fields_have_no_colon(s.drop_last());
        lemma_fields_len(s.drop_last());
    }
}

/// The characters of a string, one by one.
pub fn chars_of(s: &str) -> (chars: Vec<char>)
    ensures
        chars@ == s@,
{
    let n = s.unicode_len();
    let mut chars: Vec<char> = Vec::new();
    let mut i: usize = 0;
    while i < n
        invariant
            i <= n,
            n == s@.len(),
            chars@ == s@.take(i as int),
        decreases n - i,
    {
        chars.push(s.get_char(i));
        assert(s@.take(i + 1) =~= s@.take(i as int).push(s@[i as int]));
        i += 1;
    }
    assert(s@.take(n as int) =~= s@);
    chars
}

/// Splits `s` at its colons.
pub fn split_fields(s: &str) -> (parts: Vec<String>)
    ensures
        views(parts@) == fields(s@),
        parts@.len() >= 1,
{
    let chars = chars_of(s);
    let n = chars.len();
    let mut parts: Vec<String> = Vec::new();
    let mut start: usize = 0;
    let mut i: usize = 0;
    assert(s@.take(0) =~= Seq::<char>::empty());
    assert(views(parts@) =~= fields(s@.take(0)).drop_last());
    assert(s@.subrange(0, 0) =~= fields(s@.take(0)).last());
    while i < n
        invariant
            start <= i <= n,
            n == s@.len(),
            chars@ == s@,
            fields(s@.take(i as int)).len() >= 1,
            views(parts@) == fields(s@.take(i as int)).drop_last(),
            s@.subrange(start as int, i as int) == fields(s@.take(i as int)).last(),
        decreases n - i,
    {
        let ghost before = fields(s@.take(i as int));
        let ghost done = views(parts@);
        proof {
            let next = s@.take(i + 1);
            assert(next.drop_last() =~= s@.take(i as int));
            assert(next.last() == chars@[i as int]);
            lemma_fields_len(next);
        }
        if chars[i] == ':' {
            parts.push(s.substring_char(start, i).to_owned());
            start = i + 1;
            proof {
                let after = fields(s@.take(i + 1));
                assert(after == before.push(Seq::empty()));
                assert(views(parts@) =~= done.push(before.last()));
                assert(done.push(before.last()) =~= before);
                assert(after.drop_last() =~= before);
                assert(s@.subrange(start as int, i + 1) =~= Seq::<char>::empty());
            }
        } else {
            proof {
                let after = fields(s@.take(i + 1));
                assert(after.drop_last() =~= before.drop_last());
                assert(s@.subrange(start as int, i + 1) =~= s@.subrange(start as int, i as int).push(
                    s@[i as int],
                ));
            }
        }
        i += 1;
    }
    let ghost done = views(parts@);
    parts.push(s.substring_char(start, n).to_owned());
    proof {
        assert(s@.take(n as int) =~= s@);
        assert(views(parts@) =~= done.push(fields(s@).last()));
        assert(done.push(fields(s@).last()) =~= fields(s@));
    }
    parts
}

/// `s` without its first character; nothing of an empty string.
pub open spec fn tail(s: Seq<char>) -> Seq<char> {
    if s.len() == 0 {
        s
    } else {
        s.subrange(1, s.len() as int)
    }
}

/// `s` without its first character.
pub fn drop_first_char(s: &str) -> (rest: String)
    ensures
        rest@ == tail(s@),
{
    let n = s.unicode_len();
    if n == 0 {
        s.to_owned()
    } else {
        s.substring_char(1, n).to_owned()
    }
}

/// The character of a digit.
pub open spec fn digit_char(digit: nat) -> char {
    ((48 + digit) as u32) as char
}

/// The decimal form of a number, without leading zeros.
pub open spec fn decimal_digits(n: nat) -> Seq<char>
    decreases n,
{
    if n < 10 {
        seq![digit_char(n)]
    } else {
        decimal_digits(n / 10).push(digit_char(n % 10))
    }
}

/// The digit `digit` as a string.
fn digit_text(digit: usize) -> (text: &'static str)
    requires
        digit < 10,
    ensures
        text@ == seq![digit_char(digit as nat)],
{
    let digits = "0123456789";
    proof {
        reveal_strlit("0123456789");
    }
    let text = digits.substring_char(digit, digit + 1);
    assert(text@ =~= seq![digits@[digit as int]]);
    assert(digits@[digit as int] == digit_char(digit as nat)) by {
        assert(digits@[0] == '0' && digits@[1] == '1' && digits@[2] == '2' && digits@[3] == '3'
            && digits@[4] == '4' && digits@[5] == '5' && digits@[6] == '6' && digits@[7] == '7'
            && digits@[8] == '8' && digits@[9] == '9');
    }
    text
}

/// The decimal form of a number.
pub fn decimal_text(n: usize) -> (text: String)
    ensures
        text@ == decimal_digits(n as nat),
    decreases n,
{
    if n < 10 {
        String::from_str(digit_text(n))
    } else {
        let head = decimal_text(n / 10);
        let text = head.concat(digit_text(n % 10));
        assert(text@ =~= decimal_digits((n / 10) as nat).push(digit_char((n % 10) as nat)));
        text
    }
}

} // verus!
