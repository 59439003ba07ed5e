//! Rules of the directive parser that do not depend on the HTML syntax
//! tree: fragment id generation, text-node emission, handlebars attribute
//! values, attribute classification and the marking of the first dynamic
//! attribute of a component.
use vstd::prelude::*;
use crate::parser::fast::{spec_trim, trim};
use crate::parser::scan::{contains_exec, find_sub};
use crate::protocol::types::{frag_view, AttrV, FragV, WebUiFragment};
use crate::protocol::web_ui_fragment::Fragment;
use crate::text::{
    char_is_whitespace, chars_eq, chars_to_string, decimal, decimal_chars, digit_char, is_whitespace_char,
    str_chars,
};

verus! {

// ── Fragment ids ───────────────────────────────────────────────────────

/// The id `prefix-n`.
pub open spec fn fragment_id(prefix: Seq<char>, n: nat) -> Seq<char> {
    prefix + seq!['-'] + decimal(n)
}

/// The count recorded for `prefix` in `entries` (the first entry with that
/// prefix), or 0.
pub open spec fn count_in(entries: Seq<(String, usize)>, prefix: Seq<char>) -> nat
    decreases entries.len(),
{
    if entries.len() == 0 {
        0
    } else if entries[0].0@ == prefix {
        entries[0].1 as nat
    } else {
        count_in(entries.drop_first(), prefix)
    }
}

/// Generates fragment ids: one counter per prefix, counting the ids given
/// out with that prefix.
pub struct FragmentIdCounter {
    counters: Vec<(String, usize)>,
}

proof fn lemma_count_update(es: Seq<(String, usize)>, i: int, k: String, v: usize, q: Seq<char>)
    requires
        0 <= i < es.len(),
        es[i].0@ == k@,
        forall|j: int| 0 <= j < i ==> es[j].0@ != k@,
    ensures
        count_in(es.update(i, (k, v)), q) == if q == k@ { v as nat } else { count_in(es, q) },
    decreases es.len(),
{
    if i > 0 {
        assert(es[0].0@ != k@);
        lemma_count_update(es.drop_first(), i - 1, k, v, q);
        assert(es.update(i, (k, v)).drop_first() =~= es.drop_first().update(i - 1, (k, v)));
        assert(es.update(i, (k, v))[0] == es[0]);
    } else {
        assert(es.update(0, (k, v)).drop_first() =~= es.drop_first());
    }
}

proof fn lemma_count_push(es: Seq<(String, usize)>, k: String, q: Seq<char>)
    requires
        forall|j: int| 0 <= j < es.len() ==> es[j].0@ != k@,
    ensures
        count_in(es.push((k, 1)), q) == if q == k@ { 1 } else { count_in(es, q) },
    decreases es.len(),
{
    let e: (String, usize) = (k, 1);
    if es.len() > 0 {
        assert(es[0].0@ != k@);
        lemma_count_push(es.drop_first(), k, q);
        assert(es.push(e).drop_first() =~= es.drop_first().push(e));
        assert(es.push(e)[0] == es[0]);
    } else {
        assert(es.push(e).drop_first() =~= Seq::<(String, usize)>::empty());
        assert(es.push(e)[0] == e);
        assert(count_in(Seq::<(String, usize)>::empty(), q) == 0);
    }
}

proof fn lemma_count_absent(es: Seq<(String, usize)>, q: Seq<char>)
    requires
        forall|j: int| 0 <= j < es.len() ==> es[j].0@ != q,
    ensures
        count_in(es, q) == 0,
    decreases es.len(),
{
    if es.len() > 0 {
        assert(es[0].0@ != q);
        lemma_count_absent(es.drop_first(), q);
    }
}

proof fn lemma_count_first(es: Seq<(String, usize)>, i: int, q: Seq<char>)
    requires
        0 <= i < es.len(),
        es[i].0@ == q,
        forall|j: int| 0 <= j < i ==> es[j].0@ != q,
    ensures
        count_in(es, q) == es[i].1 as nat,
    decreases es.len(),
{
    if i > 0 {
        lemma_count_first(es.drop_first(), i - 1, q);
    }
}

impl FragmentIdCounter {
    /// The number of ids given out with `prefix`.
    pub closed spec fn count_of(self, prefix: Seq<char>) -> nat {
        count_in(self.counters@, prefix)
    }

    /// Position of the first counter for `prefix`, if any.
    fn position(&self, prefix: &str) -> (r: Option<usize>)
        ensures
            r matches Some(i) ==> i < self.counters@.len() && self.counters@[i as int].0@ == prefix@
                && forall|j: int| 0 <= j < i ==> self.counters@[j].0@ != prefix@,
            r is None ==> forall|j: int| 0 <= j < self.counters@.len() ==> self.counters@[j].0@ != prefix@,
    {
        let key = str_chars(prefix);
        let mut i: usize = 0;
        while i < self.counters.len()
            invariant
                0 <= i <= self.counters@.len(),
                key@ == prefix@,
                forall|j: int| 0 <= j < i ==> self.counters@[j].0@ != prefix@,
            decreases self.counters@.len() - i,
        {
            let k = str_chars(self.counters[i].0.as_str());
            if chars_eq(k.as_slice(), key.as_slice()) {
                return Some(i);
            }
            i = i + 1;
        }
        None
    }

    /// A counter that has given out no ids.
    pub fn new() -> (r: Self)
        ensures
            forall|p: Seq<char>| r.count_of(p) == 0,
    {
        FragmentIdCounter { counters: Vec::new() }
    }

    /// A new id `prefix-n`, where `n` counts the ids given out with this
    /// prefix, this one included.
    pub fn next_id(&mut self, prefix: &str) -> (r: String)
        requires
            old(self).count_of(prefix@) < usize::MAX,
        ensures
            final(self).count_of(prefix@) == old(self).count_of(prefix@) + 1,
            forall|q: Seq<char>| q != prefix@ ==> final(self).count_of(q) == old(self).count_of(q),
            r@ == fragment_id(prefix@, final(self).count_of(prefix@)),
    {
        let found = self.position(prefix);
        let ghost before = self.counters@;
        let n: usize = match found {
            Some(i) => {
                proof {
                    lemma_count_first(before, i as int, prefix@);
                }
                let n = self.counters[i].1 + 1;
                let name = self.counters[i].0.clone();
                self.counters.set(i, (name, n));
                proof {
                    assert forall|q: Seq<char>| true implies count_in(self.counters@, q) == if q == prefix@ {
                        n as nat
                    } else {
                        count_in(before, q)
                    } by {
                        lemma_count_update(before, i as int, before[i as int].0, n, q);
                    }
                }
                n
            },
            None => {
                proof {
                    lemma_count_absent(before, prefix@);
                }
                let name = String::from_str(prefix);
                self.counters.push((name, 1));
                proof {
                    assert forall|q: Seq<char>| true implies count_in(self.counters@, q) == if q == prefix@ {
                        1nat
                    } else {
                        count_in(before, q)
                    } by {
                        lemma_count_push(before, name, q);
                    }
                }
                1
            },
        };
        let mut out = str_chars(prefix);
        out.push('-');
        let digits = decimal_chars(n);
        let mut j: usize = 0;
        let ghost base = out@;
        while j < digits.len()
            invariant
                0 <= j <= digits@.len(),
                out@ == base + digits@.take(j as int),
            decreases digits@.len() - j,
        {
            out.push(digits[j]);
            j = j + 1;
            assert(digits@.take(j as int) =~= digits@.take((j - 1) as int).push(digits@[j - 1]));
        }
        assert(digits@.take(digits@.len() as int) =~= digits@);
        assert(out@ =~= fragment_id(prefix@, n as nat));
        chars_to_string(out.as_slice())
    }
}

/// The decimal representation of a number holds only digits and is not
/// empty.
proof fn lemma_decimal_digits(n: nat)
    ensures
        decimal(n).len() >= 1,
        n >= 10 ==> decimal(n).len() >= 2,
        forall|i: int| 0 <= i < decimal(n).len() ==> #[trigger] decimal(n)[i] != '-',
    decreases n,
{
    if n >= 10 {
        lemma_decimal_digits(n / 10);
    }
}

proof fn lemma_digit_injective(x: nat, y: nat)
    requires
        x < 10,
        y < 10,
        digit_char(x) == digit_char(y),
    ensures
        x == y,
{
}

/// Different numbers have different decimal representations.
proof fn lemma_decimal_injective(a: nat, b: nat)
    requires
        decimal(a) == decimal(b),
    ensures
        a == b,
    decreases a,
{
    lemma_decimal_digits(a);
    lemma_decimal_digits(b);
    if a < 10 && b < 10 {
        assert(decimal(a) == seq![digit_char(a)]);
        assert(decimal(b) == seq![digit_char(b)]);
        assert(decimal(a)[0] == digit_char(a));
        assert(decimal(b)[0] == digit_char(b));
        lemma_digit_injective(a, b);
    } else if a >= 10 && b >= 10 {
        let da = decimal(a);
        assert(da.last() == digit_char(a % 10));
        assert(decimal(b).last() == digit_char(b % 10));
        lemma_digit_injective(a % 10, b % 10);
        assert(decimal(a / 10) =~= da.drop_last());
        assert(decimal(b / 10) =~= decimal(b).drop_last());
        lemma_decimal_injective(a / 10, b / 10);
    }
}

/// Fragment ids are unique: an id determines its prefix and its number.
pub proof fn lemma_fragment_ids_unique(p1: Seq<char>, n1: nat, p2: Seq<char>, n2: nat)
    requires
        fragment_id(p1, n1) == fragment_id(p2, n2),
    ensures
        p1 == p2,
        n1 == n2,
{
    let s = fragment_id(p1, n1);
    let s2 = fragment_id(p2, n2);
    let d1 = decimal(n1);
    let d2 = decimal(n2);
    lemma_decimal_digits(n1);
    lemma_decimal_digits(n2);
    assert(s[p1.len() as int] == '-');
    assert(s2[p2.len() as int] == '-');
    if p1.len() < p2.len() {
        let i = p2.len() - p1.len() - 1;
        assert(s.len() == s2.len());
        assert(0 <= i < d1.len());
        assert(s[p2.len() as int] == d1[i]);
        assert(d1[i] != '-');
        assert(false);
    } else if p2.len() < p1.len() {
        let i = p1.len() - p2.len() - 1;
        assert(s.len() == s2.len());
        assert(0 <= i < d2.len());
        assert(s2[p1.len() as int] == d2[i]);
        assert(d2[i] != '-');
        assert(false);
    }
    assert(p1 =~= s.take(p1.len() as int));
    assert(p2 =~= s.take(p2.len() as int));
    assert(decimal(n1) =~= s.skip((p1.len() + 1) as int));
    assert(decimal(n2) =~= s.skip((p2.len() + 1) as int));
    lemma_decimal_injective(n1, n2);
}

// ── Text nodes ─────────────────────────────────────────────────────────

/// Whether a text node goes into the fragment stream: it is not empty, and
/// either holds a non-whitespace character or holds no line break (an
/// inline separator of spaces is kept; formatting with line breaks is not).
pub open spec fn emits_text(s: Seq<char>) -> bool {
    &&& s.len() > 0
    &&& (exists|i: int| 0 <= i < s.len() && !char_is_whitespace(#[trigger] s[i]))
        || (forall|i: int| 0 <= i < s.len() ==> #[trigger] s[i] != '\n' && s[i] != '\r')
}

/// Whether a text node goes into the fragment stream (see [`emits_text`]).
pub fn should_emit_text_content(content: &str) -> (r: bool)
    ensures
        r == emits_text(content@),
{
    let s = str_chars(content);
    if s.len() == 0 {
        return false;
    }
    let mut i: usize = 0;
    let mut has_break = false;
    while i < s.len()
        invariant
            0 <= i <= s@.len(),
            s@ == content@,
            forall|j: int| 0 <= j < i ==> char_is_whitespace(#[trigger] s@[j]),
            has_break == exists|j: int| 0 <= j < i && (#[trigger] s@[j] == '\n' || s@[j] == '\r'),
        decreases s@.len() - i,
    {
        if !is_whitespace_char(s[i]) {
            return true;
        }
        if s[i] == '\n' || s[i] == '\r' {
            has_break = true;
        }
        i = i + 1;
    }
    !has_break
}

// ── Handlebars attribute values ────────────────────────────────────────

/// `s` begins with `p`.
pub open spec fn starts_with(s: Seq<char>, p: Seq<char>) -> bool {
    p.len() <= s.len() && s.take(p.len() as int) == p
}

/// `s` ends with `p`.
pub open spec fn ends_with(s: Seq<char>, p: Seq<char>) -> bool {
    p.len() <= s.len() && s.skip(s.len() - p.len()) == p
}

/// `p` occurs somewhere in `s`.
pub open spec fn contains(s: Seq<char>, p: Seq<char>) -> bool {
    find_sub(s, 0, s.len() as int, p) is Some
}

/// The signal name of an attribute value that is a single `{{name}}`
/// expression (surrounding whitespace allowed, triple braces not): the
/// trimmed text between the braces, when it is not empty and holds no
/// further `{{`.
pub open spec fn single_handlebars(value: Seq<char>) -> Option<Seq<char>> {
    let t = spec_trim(value);
    if starts_with(t, seq!['{', '{']) && ends_with(t, seq!['}', '}']) && !starts_with(t, seq!['{', '{', '{']) {
        let inner = spec_trim(t.subrange(2, t.len() - 2));
        if !contains(inner, seq!['{', '{']) && inner.len() > 0 {
            Some(inner)
        } else {
            None
        }
    } else {
        None
    }
}

/// The signal name of a single-expression attribute value (see
/// [`single_handlebars`]).
pub fn extract_single_handlebars(value: &str) -> (r: Option<String>)
    ensures
        match single_handlebars(value@) {
            Some(n) => r matches Some(x) && x@ == n,
            None => r is None,
        },
{
    let v = str_chars(value);
    let t = trim(v.as_slice());
    let n = t.len();
    let opens = n >= 2 && t[0] == '{' && t[1] == '{';
    let closes = n >= 2 && t[n - 2] == '}' && t[n - 1] == '}';
    let triple = n >= 3 && t[0] == '{' && t[1] == '{' && t[2] == '{';
    proof {
        assert(opens == starts_with(t@, seq!['{', '{'])) by {
            if n >= 2 {
                assert(opens ==> t@.take(2) =~= seq!['{', '{']);
                assert(t@.take(2) == seq!['{', '{'] ==> t@.take(2)[0] == '{' && t@.take(2)[1] == '{');
            }
        }
        assert(closes == ends_with(t@, seq!['}', '}'])) by {
            if n >= 2 {
                assert(closes ==> t@.skip(n - 2) =~= seq!['}', '}']);
                assert(t@.skip(n - 2) == seq!['}', '}'] ==> t@.skip(n - 2)[0] == '}' && t@.skip(n - 2)[1] == '}');
            }
        }
        assert(triple == starts_with(t@, seq!['{', '{', '{'])) by {
            if n >= 3 {
                assert(triple ==> t@.take(3) =~= seq!['{', '{', '{']);
                assert(t@.take(3) == seq!['{', '{', '{'] ==> t@.take(3)[0] == '{' && t@.take(3)[1] == '{'
                    && t@.take(3)[2] == '{');
            }
        }
    }
    if opens && closes && !triple {
        if n < 4 {
            proof {
                assert(false) by {
                    if n == 2 {
                        assert(t@[0] == '}');
                    } else {
                        assert(t@[1] == '}');
                    }
                }
            }
            return None;
        }
        let mut mid: Vec<char> = Vec::new();
        let mut k: usize = 2;
        while k < n - 2
            invariant
                4 <= n == t@.len(),
                2 <= k <= n - 2,
                mid@ == t@.subrange(2, k as int),
            decreases n - 2 - k,
        {
            mid.push(t[k]);
            k = k + 1;
            assert(mid@ =~= t@.subrange(2, k as int));
        }
        let inner = trim(mid.as_slice());
        let brace2 = ['{', '{'];
        let nested = contains_exec(inner.as_slice(), 0, inner.len(), brace2.as_slice());
        proof {
            assert(brace2@ =~= seq!['{', '{']);
        }
        if !nested && inner.len() > 0 {
            return Some(chars_to_string(inner.as_slice()));
        }
    }
    None
}

/// Whether an attribute value holds a `{{` expression.
pub fn contains_handlebars(value: &str) -> (r: bool)
    ensures
        r == contains(value@, seq!['{', '{']),
{
    let v = str_chars(value);
    let brace2 = ['{', '{'];
    assert(brace2@ =~= seq!['{', '{']);
    contains_exec(v.as_slice(), 0, v.len(), brace2.as_slice())
}

// ── Attribute classification ───────────────────────────────────────────

/// Attributes of components that are not bound: `class`, `style`, `role`,
/// and any `data-` or `aria-` attribute.
pub open spec fn skipped_attribute(name: Seq<char>) -> bool {
    name == "class"@ || name == "style"@ || name == "role"@ || starts_with(name, "data-"@) || starts_with(
        name,
        "aria-"@,
    )
}

/// Whether `s` is exactly `lit`.
fn is(s: &Vec<char>, lit: &str) -> (r: bool)
    ensures
        r == (s@ == lit@),
{
    let l = str_chars(lit);
    chars_eq(s.as_slice(), l.as_slice())
}

/// Whether `s` begins with `lit`.
fn begins(s: &Vec<char>, lit: &str) -> (r: bool)
    ensures
        r == starts_with(s@, lit@),
{
    let l = str_chars(lit);
    if l.len() > s.len() {
        return false;
    }
    let mut head: Vec<char> = Vec::new();
    let mut i: usize = 0;
    while i < l.len()
        invariant
            l@.len() <= s@.len(),
            0 <= i <= l@.len(),
            head@ == s@.take(i as int),
        decreases l@.len() - i,
    {
        head.push(s[i]);
        i = i + 1;
        assert(head@ =~= s@.take(i as int));
    }
    chars_eq(head.as_slice(), l.as_slice())
}

/// Whether a component attribute is skipped (see [`skipped_attribute`]).
pub fn is_skipped_attribute(name: &str) -> (r: bool)
    ensures
        r == skipped_attribute(name@),
{
    let s = str_chars(name);
    is(&s, "class") || is(&s, "style") || is(&s, "role") || begins(&s, "data-") || begins(&s, "aria-")
}

/// Properties that `:`-prefixed bindings may never set, as they allow HTML
/// injection or code execution: `innerHTML`, `outerHTML`, `srcdoc`,
/// `content` and every `on...` event handler.
pub open spec fn blocked_complex_property(name: Seq<char>) -> bool {
    name == "innerHTML"@ || name == "outerHTML"@ || name == "srcdoc"@ || name == "content"@ || starts_with(
        name,
        "on"@,
    )
}

/// Whether a complex binding's property is blocked (see
/// [`blocked_complex_property`]).
pub fn is_blocked_complex_property(name: &str) -> (r: bool)
    ensures
        r == blocked_complex_property(name@),
{
    let s = str_chars(name);
    is(&s, "innerHTML") || is(&s, "outerHTML") || is(&s, "srcdoc") || is(&s, "content") || begins(&s, "on")
}

// ── First dynamic attribute ────────────────────────────────────────────

/// A fragment with `attr_start` set, when it is an attribute.
pub open spec fn marked_start(f: FragV) -> FragV {
    match f {
        FragV::Attribute(a) => FragV::Attribute(AttrV { attr_start: true, ..a }),
        _ => f,
    }
}

/// Marks the first dynamic attribute of a component element: while
/// `first_dynamic_emitted` is false, an attribute fragment gets
/// `attr_start`, and the flag is set (whatever the fragment's kind).
pub fn maybe_mark_attr_start(frag: WebUiFragment, first_dynamic_emitted: &mut bool) -> (r: WebUiFragment)
    ensures
        !*old(first_dynamic_emitted) ==> frag_view(r) == marked_start(frag_view(frag)),
        *old(first_dynamic_emitted) ==> r == frag,
        *final(first_dynamic_emitted),
{
    let mut frag = frag;
    if !*first_dynamic_emitted {
        frag = match frag.fragment {
            Some(Fragment::Attribute(a)) => {
                let mut a = a;
                a.attr_start = true;
                WebUiFragment { fragment: Some(Fragment::Attribute(a)) }
            },
            other => WebUiFragment { fragment: other },
        };
        *first_dynamic_emitted = true;
    }
    frag
}

} // verus!
