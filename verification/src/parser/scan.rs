//! Position-based scanning primitives over character sequences.
use vstd::prelude::*;

verus! {

/// `p` occurs in `s` at position `at`, entirely before `hi`.
pub open spec fn occurs_at(s: Seq<char>, at: int, hi: int, p: Seq<char>) -> bool {
    0 <= at && at + p.len() <= hi && hi <= s.len() && s.subrange(at, at + p.len()) == p
}

/// First position in `[from, hi)` holding `c`.
pub open spec fn find_char(s: Seq<char>, from: int, hi: int, c: char) -> Option<int>
    decreases hi - from,
{
    if from < 0 || from >= hi || hi > s.len() {
        None
    } else if s[from] == c {
        Some(from)
    } else {
        find_char(s, from + 1, hi, c)
    }
}

/// First position in `[from, hi)` at which `p` occurs entirely before `hi`.
pub open spec fn find_sub(s: Seq<char>, from: int, hi: int, p: Seq<char>) -> Option<int>
    decreases hi - from,
{
    if from < 0 || from >= hi || from + p.len() > hi || hi > s.len() {
        None
    } else if s.subrange(from, from + p.len()) == p {
        Some(from)
    } else {
        find_sub(s, from + 1, hi, p)
    }
}

/// One of the four ASCII whitespace characters.
pub open spec fn is_ws(c: char) -> bool {
    c == ' ' || c == '\t' || c == '\n' || c == '\r'
}

/// Whether `c` is one of the four ASCII whitespace characters.
pub fn is_ws_char(c: char) -> (r: bool)
    ensures
        r == is_ws(c),
{
    c == ' ' || c == '\t' || c == '\n' || c == '\r'
}

/// Whether `p` occurs in `s` at `at`, before `hi`.
pub fn occurs_at_exec(s: &[char], at: usize, hi: usize, p: &[char]) -> (r: bool)
    requires
        hi <= s@.len(),
    ensures
        r == occurs_at(s@, at as int, hi as int, p@),
{
    if at > hi || p.len() > hi - at {
        return false;
    }
    let mut k: usize = 0;
    while k < p.len()
        invariant
            at + p@.len() <= hi <= s@.len(),
            0 <= k <= p@.len(),
            forall|t: int| 0 <= t < k ==> s@[at + t] == p@[t],
        decreases p@.len() - k,
    {
        if s[at + k] != p[k] {
            assert(s@.subrange(at as int, at + p@.len())[k as int] != p@[k as int]);
            return false;
        }
        k = k + 1;
    }
    assert(s@.subrange(at as int, at + p@.len()) =~= p@);
    true
}

/// First position of `c` in `[from, hi)`.
pub fn find_char_exec(s: &[char], from: usize, hi: usize, c: char) -> (r: Option<usize>)
    requires
        hi <= s@.len(),
    ensures
        r matches Some(i) ==> find_char(s@, from as int, hi as int, c) == Some(i as int),
        r is None ==> find_char(s@, from as int, hi as int, c) is None,
{
    let mut i = from;
    while i < hi
        invariant
            from <= i,
            hi <= s@.len(),
            find_char(s@, from as int, hi as int, c) == find_char(s@, i as int, hi as int, c),
        decreases hi - i,
    {
        if s[i] == c {
            return Some(i);
        }
        i = i + 1;
    }
    None
}

/// First position of `p` in `[from, hi)`.
pub fn find_sub_exec(s: &[char], from: usize, hi: usize, p: &[char]) -> (r: Option<usize>)
    requires
        hi <= s@.len(),
    ensures
        r matches Some(i) ==> find_sub(s@, from as int, hi as int, p@) == Some(i as int),
        r is None ==> find_sub(s@, from as int, hi as int, p@) is None,
{
    let mut i = from;
    while i < hi && p.len() <= hi - i
        invariant
            from <= i,
            hi <= s@.len(),
            find_sub(s@, from as int, hi as int, p@) == find_sub(s@, i as int, hi as int, p@),
        decreases hi - i,
    {
        if occurs_at_exec(s, i, hi, p) {
            return Some(i);
        }
        i = i + 1;
    }
    None
}

/// Whether `p` occurs anywhere in `[from, hi)`.
pub fn contains_exec(s: &[char], from: usize, hi: usize, p: &[char]) -> (r: bool)
    requires
        hi <= s@.len(),
    ensures
        r == find_sub(s@, from as int, hi as int, p@) is Some,
{
    find_sub_exec(s, from, hi, p).is_some()
}


/// Last position at or before `j` at which `p` occurs in `s`.
pub open spec fn rfind_sub(s: Seq<char>, j: int, p: Seq<char>) -> Option<int>
    decreases j + 1,
{
    if j < 0 {
        None
    } else if occurs_at(s, j, s.len() as int, p) {
        Some(j)
    } else {
        rfind_sub(s, j - 1, p)
    }
}

/// Last position at which `p` occurs in `s` (as `str::rfind`).
pub fn rfind_sub_exec(s: &[char], p: &[char]) -> (r: Option<usize>)
    ensures
        r matches Some(i) ==> rfind_sub(s@, s@.len() - p@.len(), p@) == Some(i as int),
        r is None ==> rfind_sub(s@, s@.len() - p@.len(), p@) is None,
{
    if p.len() > s.len() {
        return None;
    }
    let mut j: usize = s.len() - p.len();
    loop
        invariant
            j + p@.len() <= s@.len(),
            rfind_sub(s@, s@.len() - p@.len(), p@) == rfind_sub(s@, j as int, p@),
        decreases j,
    {
        if occurs_at_exec(s, j, s.len(), p) {
            return Some(j);
        }
        if j == 0 {
            assert(rfind_sub(s@, -1, p@) is None);
            return None;
        }
        j = j - 1;
    }
}

} // verus!
