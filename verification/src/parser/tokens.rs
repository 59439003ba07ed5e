//! The CSS token list of a protocol: the custom properties that templates
//! reference and do not define, sorted and without repeats.
use vstd::prelude::*;
use crate::protocol::types::strings_view;
use crate::text::str_chars;

verus! {

/// Lexicographic order of character sequences by code point (the order of
/// `String`s, whose UTF-8 bytes compare as their code points do).
pub open spec fn lex_lt(a: Seq<char>, b: Seq<char>) -> bool
    decreases a.len(),
{
    if a.len() == 0 {
        b.len() > 0
    } else if b.len() == 0 {
        false
    } else if a[0] != b[0] {
        (a[0] as u32) < (b[0] as u32)
    } else {
        lex_lt(a.drop_first(), b.drop_first())
    }
}

/// Each element comes strictly before the next.
pub open spec fn strictly_sorted(s: Seq<Seq<char>>) -> bool {
    forall|i: int, j: int| 0 <= i < j < s.len() ==> lex_lt(s[i], s[j])
}

pub proof fn lemma_lex_irreflexive(a: Seq<char>)
    ensures
        !lex_lt(a, a),
    decreases a.len(),
{
    if a.len() > 0 {
        lemma_lex_irreflexive(a.drop_first());
    }
}

pub proof fn lemma_lex_trans(a: Seq<char>, b: Seq<char>, c: Seq<char>)
    requires
        lex_lt(a, b),
        lex_lt(b, c),
    ensures
        lex_lt(a, c),
    decreases a.len(),
{
    if a.len() > 0 && b.len() > 0 && c.len() > 0 && a[0] == b[0] && b[0] == c[0] {
        lemma_lex_trans(a.drop_first(), b.drop_first(), c.drop_first());
    }
}

proof fn lemma_lex_total(a: Seq<char>, b: Seq<char>)
    ensures
        lex_lt(a, b) || lex_lt(b, a) || a == b,
    decreases a.len(),
{
    if a.len() == 0 && b.len() == 0 {
        assert(a =~= b);
    } else if a.len() == 0 || b.len() == 0 {
    } else if a[0] != b[0] {
        vstd::utf8::char_u32_cast(a[0], a[0] as u32);
        vstd::utf8::char_u32_cast(b[0], b[0] as u32);
    } else {
        lemma_lex_total(a.drop_first(), b.drop_first());
        if a.drop_first() == b.drop_first() {
            assert(a =~= b) by {
                assert(a.drop_first().len() == a.len() - 1);
                assert(b.drop_first().len() == b.len() - 1);
                assert(a.len() == b.len());
                assert forall|k: int| 0 <= k < a.len() implies a[k] == b[k] by {
                    if k > 0 {
                        assert(a[k] == a.drop_first()[k - 1]);
                        assert(b[k] == b.drop_first()[k - 1]);
                    }
                }
            }
        }
    }
}

/// Whether `a` comes strictly before `b`.
fn less(a: &Vec<char>, b: &Vec<char>) -> (r: bool)
    ensures
        r == lex_lt(a@, b@),
{
    let mut i: usize = 0;
    assert(a@.skip(0) =~= a@);
    assert(b@.skip(0) =~= b@);
    while i < a.len() && i < b.len() && a[i] == b[i]
        invariant
            0 <= i <= a@.len(),
            i <= b@.len(),
            forall|k: int| 0 <= k < i ==> a@[k] == b@[k],
            lex_lt(a@, b@) == lex_lt(a@.skip(i as int), b@.skip(i as int)),
        decreases a@.len() - i,
    {
        assert(a@.skip(i as int).drop_first() =~= a@.skip(i + 1));
        assert(b@.skip(i as int).drop_first() =~= b@.skip(i + 1));
        i = i + 1;
    }
    if i == a.len() {
        i < b.len()
    } else if i == b.len() {
        false
    } else {
        proof {
            assert(a@.skip(i as int)[0] == a@[i as int]);
            assert(b@.skip(i as int)[0] == b@[i as int]);
        }
        (a[i] as u32) < (b[i] as u32)
    }
}

/// Whether `c` is one of the strings of `v`.
fn holds(v: &Vec<String>, c: &Vec<char>) -> (r: bool)
    ensures
        r == strings_view(v@).contains(c@),
{
    let mut i: usize = 0;
    while i < v.len()
        invariant
            0 <= i <= v@.len(),
            forall|k: int| 0 <= k < i ==> v@[k]@ != c@,
        decreases v@.len() - i,
    {
        let x = str_chars(v[i].as_str());
        if crate::text::chars_eq(x.as_slice(), c.as_slice()) {
            assert(strings_view(v@)[i as int] == c@);
            return true;
        }
        i = i + 1;
    }
    proof {
        if strings_view(v@).contains(c@) {
            let k = choose|k: int| 0 <= k < strings_view(v@).len() && strings_view(v@)[k] == c@;
            assert(v@[k]@ == c@);
        }
    }
    false
}

proof fn lemma_push_contains(s: Seq<Seq<char>>, t: Seq<char>)
    ensures
        forall|x: Seq<char>| s.push(t).contains(x) <==> (s.contains(x) || x == t),
{
    assert forall|x: Seq<char>| s.push(t).contains(x) <==> (s.contains(x) || x == t) by {
        if s.push(t).contains(x) {
            let k = choose|k: int| 0 <= k < s.push(t).len() && s.push(t)[k] == x;
            if k < s.len() {
                assert(s[k] == x);
            }
        }
        if s.contains(x) {
            let k = choose|k: int| 0 <= k < s.len() && s[k] == x;
            assert(s.push(t)[k] == x);
        }
        if x == t {
            assert(s.push(t)[s.len() as int] == x);
        }
    }
}

/// Takes the token store and the token definitions, leaving both empty, and
/// gives the tokens referenced in the store and not defined, in order and
/// each once.
pub fn take_tokens(store: &mut Vec<String>, definitions: &mut Vec<String>) -> (r: Vec<String>)
    ensures
        final(store)@.len() == 0,
        final(definitions)@.len() == 0,
        strictly_sorted(strings_view(r@)),
        forall|t: Seq<char>|
            strings_view(r@).contains(t) <==> (strings_view(old(store)@).contains(t) && !strings_view(
                old(definitions)@,
            ).contains(t)),
{
    let mut s: Vec<String> = Vec::new();
    std::mem::swap(&mut s, store);
    let mut d: Vec<String> = Vec::new();
    std::mem::swap(&mut d, definitions);
    tokens_not_defined(s, d)
}

/// The tokens referenced in `store` and not defined in `definitions`, in
/// order and each once.
fn tokens_not_defined(store: Vec<String>, definitions: Vec<String>) -> (r: Vec<String>)
    ensures
        strictly_sorted(strings_view(r@)),
        forall|t: Seq<char>|
            strings_view(r@).contains(t) <==> (strings_view(store@).contains(t) && !strings_view(
                definitions@,
            ).contains(t)),
{
    let mut out: Vec<String> = Vec::new();
    let mut keys: Vec<Vec<char>> = Vec::new();
    let mut i: usize = 0;
    while i < store.len()
        invariant
            0 <= i <= store@.len(),
            keys@.len() == out@.len(),
            forall|k: int| 0 <= k < out@.len() ==> #[trigger] keys@[k]@ == out@[k]@,
            strictly_sorted(strings_view(out@)),
            forall|t: Seq<char>|
                strings_view(out@).contains(t) <==> (strings_view(store@.take(i as int)).contains(t) && !strings_view(
                    definitions@,
                ).contains(t)),
        decreases store@.len() - i,
    {
        let t = str_chars(store[i].as_str());
        let ghost tv = t@;
        let ghost before = strings_view(out@);
        proof {
            assert(strings_view(store@.take((i + 1) as int)) =~= strings_view(store@.take(i as int)).push(tv));
        }
        if !holds(&definitions, &t) {
            let mut pos: usize = 0;
            while pos < keys.len() && less(&keys[pos], &t)
                invariant
                    0 <= pos <= keys@.len(),
                    keys@.len() == out@.len(),
                    forall|k: int| 0 <= k < out@.len() ==> #[trigger] keys@[k]@ == out@[k]@,
                    before == strings_view(out@),
                    t@ == tv,
                    forall|k: int| 0 <= k < pos ==> lex_lt(#[trigger] before[k], tv),
                decreases keys@.len() - pos,
            {
                assert(before[pos as int] == keys@[pos as int]@);
                pos = pos + 1;
            }
            let dup = pos < keys.len() && crate::text::chars_eq(keys[pos].as_slice(), t.as_slice());
            if !dup {
                proof {
                    if pos < keys@.len() {
                        assert(before[pos as int] == keys@[pos as int]@);
                        lemma_lex_total(before[pos as int], tv);
                        assert(lex_lt(tv, before[pos as int]));
                    }
                    assert forall|j: int| pos <= j < before.len() implies lex_lt(tv, #[trigger] before[j]) by {
                        if j > pos {
                            lemma_lex_trans(tv, before[pos as int], before[j]);
                        }
                    }
                }
                out.insert(pos, store[i].clone());
                keys.insert(pos, t);
                proof {
                    let after = strings_view(out@);
                    assert(after =~= before.insert(pos as int, tv));
                    assert forall|a: int, b: int| 0 <= a < b < after.len() implies lex_lt(after[a], after[b]) by {
                        if b < pos {
                        } else if a < pos && b == pos {
                        } else if a < pos {
                            assert(lex_lt(before[a], tv));
                            assert(lex_lt(tv, before[b - 1]));
                            lemma_lex_trans(after[a], tv, after[b]);
                        } else if a == pos {
                            assert(lex_lt(tv, before[b - 1]));
                        } else {
                            assert(lex_lt(before[a - 1], before[b - 1]));
                        }
                    }
                    assert forall|x: Seq<char>| after.contains(x) <==> (before.contains(x) || x == tv) by {
                        if after.contains(x) {
                            let k = choose|k: int| 0 <= k < after.len() && after[k] == x;
                            if k < pos {
                                assert(before[k] == x);
                            } else if k > pos {
                                assert(before[k - 1] == x);
                            }
                        }
                        if before.contains(x) {
                            let k = choose|k: int| 0 <= k < before.len() && before[k] == x;
                            if k < pos {
                                assert(after[k] == x);
                            } else {
                                assert(after[k + 1] == x);
                            }
                        }
                        if x == tv {
                            assert(after[pos as int] == x);
                        }
                    }
                    assert forall|x: Seq<char>| after.contains(x) <==> (strings_view(store@.take((i + 1) as int)).contains(x)
                        && !strings_view(definitions@).contains(x)) by {
                        assert(strings_view(store@.take((i + 1) as int)).contains(x) <==> (strings_view(store@.take(i as int)).contains(x) || x == tv)) by {
                            let sv = strings_view(store@.take(i as int));
                            if strings_view(store@.take((i + 1) as int)).contains(x) {
                                let k = choose|k: int| 0 <= k < sv.push(tv).len() && sv.push(tv)[k] == x;
                                if k < sv.len() {
                                    assert(sv[k] == x);
                                }
                            }
                            if sv.contains(x) {
                                let k = choose|k: int| 0 <= k < sv.len() && sv[k] == x;
                                assert(sv.push(tv)[k] == x);
                            }
                            if x == tv {
                                assert(sv.push(tv)[sv.len() as int] == x);
                            }
                        }
                    }
                }
            } else {
                proof {
                    assert(before[pos as int] == keys@[pos as int]@);
                    assert(before[pos as int] == tv);
                    lemma_push_contains(strings_view(store@.take(i as int)), tv);
                }
            }
        } else {
            proof {
                lemma_push_contains(strings_view(store@.take(i as int)), tv);
            }
        }
        i = i + 1;
    }
    proof {
        assert(store@.take(store@.len() as int) =~= store@);
    }
    out
}

} // verus!
