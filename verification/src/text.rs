//! Characters, words and decimal numbers.

use vstd::prelude::*;
use crate::types;
use crate::types::Square;

verus! {

/// `String::push` appends the character to the end of the string.
pub assume_specification[ String::push ](s: &mut String, ch: char)
    ensures
        final(s)@ == old(s)@.push(ch),
;

/// Appends the name of a square.
pub fn push_square(out: &mut String, sq: Square)
    requires
        sq.wf(),
    ensures
        final(out)@ == old(out)@ + types::square_name(sq.0 as int),
{
    let (f, r) = sq.name_chars();
    out.push(f);
    out.push(r);
    proof {
        assert(out@ =~= old(out)@ + seq![f, r]);
    }
}

/// Appends every character of `cs`.
pub fn push_chars(out: &mut String, cs: &Vec<char>)
    ensures
        final(out)@ == old(out)@ + cs@,
{
    let mut i: usize = 0;
    while i < cs.len()
        invariant
            i <= cs.len(),
            out@ == old(out)@ + cs@.take(i as int),
        decreases cs.len() - i,
    {
        out.push(cs[i]);
        proof {
            assert(cs@.take(i + 1) =~= cs@.take(i as int).push(cs[i as int]));
            assert(out@ =~= old(out)@ + cs@.take(i + 1));
        }
        i = i + 1;
    }
    proof {
        assert(cs@.take(i as int) =~= cs@);
    }
}

/// The characters of `cs` as a string.
pub fn string_of(cs: &Vec<char>) -> (s: String)
    ensures
        s@ == cs@,
{
    let mut out = String::new();
    push_chars(&mut out, cs);
    proof {
        assert(out@ =~= cs@);
    }
    out
}

/// The characters of a string.
pub fn chars_of(s: &str) -> (r: Vec<char>)
    ensures
        r@ == s@,
{
    let mut v: Vec<char> = Vec::new();
    for c in it: s.chars()
        invariant
            v@ == it.seq().take(it.index() as int),
            it.seq() == s@,
    {
        v.push(c);
    }
    v
}

/// Appends a string.
pub fn push_str(out: &mut String, s: &str)
    ensures
        final(out)@ == old(out)@ + s@,
{
    let cs = chars_of(s);
    push_chars(out, &cs);
}

/// The Unicode characters that separate words.
pub open spec fn is_space(c: char) -> bool {
    let n = c as u32;
    ||| 9 <= n <= 13
    ||| n == 32
    ||| n == 0x85
    ||| n == 0xa0
    ||| n == 0x1680
    ||| 0x2000 <= n <= 0x200a
    ||| n == 0x2028
    ||| n == 0x2029
    ||| n == 0x202f
    ||| n == 0x205f
    ||| n == 0x3000
}

pub fn is_whitespace(c: char) -> (r: bool)
    ensures
        r == is_space(c),
{
    let n: u32 = c as u32;
    (9 <= n && n <= 13) || n == 32 || n == 0x85 || n == 0xa0 || n == 0x1680 || (0x2000 <= n && n <= 0x200a) || n
        == 0x2028 || n == 0x2029 || n == 0x202f || n == 0x205f || n == 0x3000
}

/// A word, unless it is empty, as a list of words.
pub open spec fn one_word(w: Seq<char>) -> Seq<Seq<char>> {
    if w.len() == 0 {
        Seq::empty()
    } else {
        seq![w]
    }
}

/// The words of `cs` from place `i` on, the first of which begins with `cur`.
pub open spec fn words_from(cs: Seq<char>, i: int, cur: Seq<char>) -> Seq<Seq<char>>
    decreases cs.len() - i,
{
    if i >= cs.len() {
        one_word(cur)
    } else if is_space(cs[i]) {
        one_word(cur) + words_from(cs, i + 1, Seq::empty())
    } else {
        words_from(cs, i + 1, cur.push(cs[i]))
    }
}

/// The words of a text: its longest runs without white space.
pub open spec fn words_of(cs: Seq<char>) -> Seq<Seq<char>> {
    words_from(cs, 0, Seq::empty())
}

/// The contents of a list of words.
pub open spec fn listed(v: Seq<Vec<char>>) -> Seq<Seq<char>> {
    Seq::new(v.len(), |i: int| v[i]@)
}

/// Splits a text at white space.
pub fn split_words(cs: &Vec<char>) -> (r: Vec<Vec<char>>)
    ensures
        listed(r@) == words_of(cs@),
{
    let mut out: Vec<Vec<char>> = Vec::new();
    let mut cur: Vec<char> = Vec::new();
    let mut i: usize = 0;
    proof {
        assert(listed(out@) + words_from(cs@, 0, cur@) =~= words_of(cs@));
    }
    while i < cs.len()
        invariant
            i <= cs.len(),
            listed(out@) + words_from(cs@, i as int, cur@) == words_of(cs@),
        decreases cs.len() - i,
    {
        let ghost before = listed(out@);
        let ghost word = cur@;
        if is_whitespace(cs[i]) {
            if cur.len() > 0 {
                out.push(cur);
                proof {
                    assert(listed(out@) =~= before.push(word));
                }
            }
            cur = Vec::new();
            proof {
                assert(listed(out@) =~= before + one_word(word));
                assert(before + (one_word(word) + words_from(cs@, i + 1, Seq::empty())) =~= (before + one_word(word))
                    + words_from(cs@, i + 1, Seq::empty()));
            }
        } else {
            cur.push(cs[i]);
        }
        i = i + 1;
    }
    let ghost before = listed(out@);
    let ghost word = cur@;
    if cur.len() > 0 {
        out.push(cur);
        proof {
            assert(listed(out@) =~= before.push(word));
        }
    }
    proof {
        assert(listed(out@) =~= before + one_word(word));
    }
    out
}

// ──────── Decimal numbers ────────

pub open spec fn is_digit(c: char) -> bool {
    '0' <= c <= '9'
}

pub open spec fn digit_value(c: char) -> int {
    c as int - '0' as int
}

pub open spec fn digit_char(d: int) -> char {
    ('0' as int + d) as char
}

/// The number that a string of digits writes.
pub open spec fn decimal_value(cs: Seq<char>) -> int
    decreases cs.len(),
{
    if cs.len() == 0 {
        0
    } else {
        decimal_value(cs.drop_last()) * 10 + digit_value(cs.last())
    }
}

/// A number, leading zeros left out, in decimal digits.
pub open spec fn decimal(n: int) -> Seq<char>
    decreases n,
{
    if n < 10 {
        seq![digit_char(n)]
    } else {
        decimal(n / 10).push(digit_char(n % 10))
    }
}

pub open spec fn all_digits(cs: Seq<char>) -> bool {
    forall|i: int| 0 <= i < cs.len() ==> is_digit(#[trigger] cs[i])
}

/// The digits of a number: all but a leading plus sign.
pub open spec fn unsigned_part(cs: Seq<char>) -> Seq<char> {
    if cs.len() > 0 && cs[0] == '+' {
        cs.drop_first()
    } else {
        cs
    }
}

/// Reads an unsigned number of at most `max`: digits, at least one, behind an optional plus sign.
pub open spec fn number(cs: Seq<char>, max: int) -> Option<int> {
    let ds = unsigned_part(cs);
    if ds.len() > 0 && all_digits(ds) && decimal_value(ds) <= max {
        Some(decimal_value(ds))
    } else {
        None
    }
}

proof fn lemma_value_prefix(cs: Seq<char>, n: int)
    requires
        all_digits(cs),
        0 <= n <= cs.len(),
    ensures
        0 <= decimal_value(cs.take(n)) <= decimal_value(cs),
    decreases cs.len(),
{
    if n < cs.len() {
        let ds = cs.drop_last();
        assert(all_digits(ds)) by {
            assert(forall|i: int| 0 <= i < ds.len() ==> ds[i] == cs[i]);
        }
        lemma_value_prefix(ds, n);
        assert(ds.take(n) =~= cs.take(n));
        assert(is_digit(cs[cs.len() - 1]));
    } else {
        assert(cs.take(n) =~= cs);
        if n > 0 {
            let ds = cs.drop_last();
            assert(all_digits(ds)) by {
                assert(forall|i: int| 0 <= i < ds.len() ==> ds[i] == cs[i]);
            }
            lemma_value_prefix(ds, n - 1);
            assert(ds.take(n - 1) =~= ds);
            assert(is_digit(cs[cs.len() - 1]));
        }
    }
}

pub fn parse_number(cs: &Vec<char>, max: u32) -> (r: Option<u32>)
    requires
        max <= 65535,
    ensures
        r matches Some(n) ==> number(cs@, max as int) == Some(n as int),
        r is None ==> number(cs@, max as int) is None,
{
    let start: usize = if cs.len() > 0 && cs[0] == '+' {
        1
    } else {
        0
    };
    let ghost ds = unsigned_part(cs@);
    if cs.len() == start {
        return None;
    }
    let mut value: u32 = 0;
    let mut i: usize = start;
    while i < cs.len()
        invariant
            start <= i <= cs.len(),
            start < cs.len(),
            start <= 1,
            max <= 65535,
            value <= max,
            ds == unsigned_part(cs@),
            ds.len() == cs.len() - start,
            forall|j: int| 0 <= j < ds.len() ==> ds[j] == cs[j + start],
            value == decimal_value(ds.take(i - start)),
            forall|j: int| 0 <= j < i - start ==> is_digit(#[trigger] ds[j]),
        decreases cs.len() - i,
    {
        let c = cs[i];
        let ghost k = i - start;
        if !(c >= '0' && c <= '9') {
            proof {
                assert(ds[k] == c);
            }
            return None;
        }
        value = value * 10 + (c as u32 - '0' as u32);
        proof {
            assert(ds.take(k + 1).drop_last() =~= ds.take(k));
            assert(ds.take(k + 1).last() == c);
        }
        if value > max {
            proof {
                if all_digits(ds) {
                    lemma_value_prefix(ds, k + 1);
                }
            }
            return None;
        }
        i = i + 1;
    }
    proof {
        assert(ds.take(i - start) =~= ds);
    }
    Some(value)
}

/// Appends a number in decimal digits.
pub fn push_number(out: &mut String, n: u32)
    ensures
        final(out)@ == old(out)@ + decimal(n as int),
    decreases n,
{
    if n >= 10 {
        push_number(out, n / 10);
    }
    out.push(('0' as u8 + (n % 10) as u8) as char);
    proof {
        assert(out@ =~= old(out)@ + decimal(n as int));
    }
}

/// Reading a written number gives it back.
pub proof fn lemma_decimal_round_trip(n: int)
    requires
        n >= 0,
    ensures
        decimal(n).len() > 0,
        all_digits(decimal(n)),
        decimal_value(decimal(n)) == n,
    decreases n,
{
    if n < 10 {
        let s = seq![digit_char(n)];
        assert(s.drop_last() =~= Seq::<char>::empty());
        assert(decimal_value(s.drop_last()) == 0);
    } else {
        lemma_decimal_round_trip(n / 10);
        let s = decimal(n / 10);
        assert(s.push(digit_char(n % 10)).drop_last() =~= s);
    }
}

pub proof fn lemma_number_of_decimal(n: int, max: int)
    requires
        0 <= n <= max,
    ensures
        number(decimal(n), max) == Some(n),
{
    lemma_decimal_round_trip(n);
    assert(is_digit(decimal(n)[0]));
}

} // verus!
