//! Character-level helpers shared by the template transformations.
//!
//! Text is processed as sequences of `char`; the few Unicode classifications
//! that std computes from its own tables are reached through small wrappers
//! whose results are named below.
use vstd::prelude::*;

verus! {

/// Unicode `Uppercase` property of a character, as computed by `char::is_uppercase`.
pub uninterp spec fn char_is_uppercase(c: char) -> bool;

/// Unicode lowercase mapping of a character, as yielded by `char::to_lowercase`.
pub uninterp spec fn char_to_lowercase(c: char) -> Seq<char>;

/// Unicode uppercase mapping of a character, as yielded by `char::to_uppercase`.
pub uninterp spec fn char_to_uppercase(c: char) -> Seq<char>;

/// Unicode `White_Space` property of a character, as computed by
/// `char::is_whitespace`: tab to carriage return, space, next line,
/// no-break space, ogham space mark, en quad to hair space, line and
/// paragraph separators, narrow no-break space, medium mathematical space
/// and ideographic space.
pub open spec fn char_is_whitespace(c: char) -> bool {
    let u = c as u32;
    (0x09 <= u <= 0x0D) || u == 0x20 || u == 0x85 || u == 0xA0 || u == 0x1680 || (0x2000 <= u <= 0x200A)
        || u == 0x2028 || u == 0x2029 || u == 0x202F || u == 0x205F || u == 0x3000
}

/// Calls `char::is_uppercase`; its result is the named Unicode property,
/// which among ASCII characters holds of `A` to `Z` only.
#[verifier::external_body]
pub(crate) fn is_uppercase(c: char) -> (r: bool)
    ensures
        r == char_is_uppercase(c),
        (c as u32) < 128 ==> (r <==> ('A' <= c && c <= 'Z')),
{
    c.is_uppercase()
}

/// Calls `char::to_lowercase` and collects the characters it yields; an
/// ASCII uppercase letter yields its lowercase letter.
#[verifier::external_body]
pub(crate) fn to_lowercase(c: char) -> (r: Vec<char>)
    ensures
        r@ == char_to_lowercase(c),
        'A' <= c && c <= 'Z' ==> r@ == seq![((c as u32) + 32) as char],
{
    c.to_lowercase().collect()
}

/// Calls `char::to_uppercase` and collects the characters it yields; an
/// ASCII lowercase letter yields its uppercase letter.
#[verifier::external_body]
pub(crate) fn to_uppercase(c: char) -> (r: Vec<char>)
    ensures
        r@ == char_to_uppercase(c),
        'a' <= c && c <= 'z' ==> r@ == seq![((c as u32) - 32) as char],
{
    c.to_uppercase().collect()
}

/// Calls `char::is_whitespace`: whether the character has the Unicode
/// `White_Space` property (see [`char_is_whitespace`]).
#[verifier::external_body]
pub(crate) fn is_whitespace_char(c: char) -> (r: bool)
    ensures
        r == char_is_whitespace(c),
{
    c.is_whitespace()
}

/// Collects characters into a `String` (`FromIterator<char>` for `String`);
/// the string holds exactly the given characters.
#[verifier::external_body]
pub(crate) fn chars_to_string(v: &[char]) -> (r: String)
    ensures
        r@ == v@,
{
    v.iter().collect()
}

/// The characters of a string slice, in order.
pub fn str_chars(s: &str) -> (r: Vec<char>)
    ensures
        r@ == s@,
{
    let mut out: Vec<char> = Vec::new();
    for c in it: s.chars()
        invariant
            out@ == it.seq().take(it.index() as int),
            it.seq() == s@,
    {
        out.push(c);
    }
    assert(out@ =~= s@);
    out
}

/// Character-wise equality of two character slices.
pub fn chars_eq(a: &[char], b: &[char]) -> (r: bool)
    ensures
        r == (a@ == b@),
{
    if a.len() != b.len() {
        return false;
    }
    let mut i: usize = 0;
    while i < a.len()
        invariant
            a@.len() == b@.len(),
            0 <= i <= a@.len(),
            forall|j: int| 0 <= j < i ==> a@[j] == b@[j],
        decreases a@.len() - i,
    {
        if a[i] != b[i] {
            return false;
        }
        i = i + 1;
    }
    assert(a@ =~= b@);
    true
}

/// Appends all characters of `src` to `dst`.
pub fn push_all(dst: &mut Vec<char>, src: &[char])
    ensures
        final(dst)@ == old(dst)@ + src@,
{
    let mut i: usize = 0;
    while i < src.len()
        invariant
            0 <= i <= src@.len(),
            dst@ == old(dst)@ + src@.take(i as int),
        decreases src@.len() - i,
    {
        dst.push(src[i]);
        i = i + 1;
        assert(src@.take(i as int) =~= src@.take((i - 1) as int).push(src@[i - 1]));
    }
    assert(src@.take(src@.len() as int) =~= src@);
}

/// Appends the characters of a string slice to `dst`.
pub fn push_str(dst: &mut Vec<char>, s: &str)
    ensures
        final(dst)@ == old(dst)@ + s@,
{
    let v = str_chars(s);
    push_all(dst, v.as_slice());
}

} // verus!

verus! {

/// The ASCII digit for a value below ten.
pub open spec fn digit_char(d: nat) -> char {
    if d == 0 { '0' } else if d == 1 { '1' } else if d == 2 { '2' } else if d == 3 { '3' } else if d == 4 { '4' }
    else if d == 5 { '5' } else if d == 6 { '6' } else if d == 7 { '7' } else if d == 8 { '8' } else { '9' }
}

/// Decimal representation of a natural number, without leading zeros.
pub open spec fn decimal(n: nat) -> Seq<char>
    decreases n,
{
    if n < 10 {
        seq![digit_char(n)]
    } else {
        decimal(n / 10).push(digit_char(n % 10))
    }
}

fn digit(d: usize) -> (r: char)
    requires
        d < 10,
    ensures
        r == digit_char(d as nat),
{
    if d == 0 { '0' } else if d == 1 { '1' } else if d == 2 { '2' } else if d == 3 { '3' } else if d == 4 { '4' }
    else if d == 5 { '5' } else if d == 6 { '6' } else if d == 7 { '7' } else if d == 8 { '8' } else { '9' }
}

/// Decimal representation of `n`.
pub fn decimal_chars(n: usize) -> (r: Vec<char>)
    ensures
        r@ == decimal(n as nat),
{
    let mut m: usize = n;
    let mut rev: Vec<char> = Vec::new();
    while m >= 10
        invariant
            decimal(n as nat) == decimal(m as nat) + rev@.reverse(),
        decreases m,
    {
        let d = digit(m % 10);
        proof {
            assert(rev@.push(d).reverse() =~= seq![d] + rev@.reverse());
            assert(decimal(m as nat) == decimal((m / 10) as nat).push(d));
            assert(decimal((m / 10) as nat).push(d) + rev@.reverse() =~= decimal((m / 10) as nat) + (seq![d] + rev@.reverse()));
        }
        rev.push(d);
        m = m / 10;
    }
    let mut out: Vec<char> = Vec::new();
    out.push(digit(m));
    let ghost first = out@;
    assert(first == decimal(m as nat));
    let ghost rr = rev@.reverse();
    let mut j: usize = 0;
    while j < rev.len()
        invariant
            0 <= j <= rev@.len(),
            rr == rev@.reverse(),
            rr.len() == rev@.len(),
            out@ == first + rr.take(j as int),
        decreases rev@.len() - j,
    {
        let c = rev[rev.len() - 1 - j];
        assert(rr[j as int] == c);
        assert(rr.take(j + 1) =~= rr.take(j as int).push(c));
        out.push(c);
        j = j + 1;
    }
    assert(rr.take(rr.len() as int) =~= rr);
    out
}

} // verus!
