//! FAST parser plugin: converts WebUI template syntax (`<if>`, `<for>`,
//! `<route>`, `<outlet />`, `:attr="{{expr}}"`) into FAST syntax
//! (`<f-when>`, `<f-repeat>`, `<webui-route>`, `{expr}`) and produces the
//! `<f-template>` blocks of the components it has seen.
//!
//! Text is handled as characters; everything outside the recognised tags and
//! attribute values is copied unchanged.
use vstd::prelude::*;
use super::scan::{contains_exec, find_char, find_char_exec, find_sub, find_sub_exec, is_ws, is_ws_char, occurs_at, occurs_at_exec};
use crate::text::{char_is_whitespace, chars_to_string, is_whitespace_char, push_all, str_chars};
use super::strategy::CssStrategy;

verus! {

/// Appends the character `c`.
pub fn push_char(out: &mut Vec<char>, c: char)
    ensures
        final(out)@ == old(out)@ + seq![c],
{
    out.push(c);
    assert(old(out)@ + seq![c] =~= out@);
}

/// `s[pos..]` starts with `<name` followed by ASCII whitespace or `>`.
pub open spec fn starts_with_tag_name(s: Seq<char>, pos: int, name: Seq<char>) -> bool {
    &&& 0 <= pos < s.len()
    &&& s[pos] == '<'
    &&& occurs_at(s, pos + 1, s.len() as int, name)
    &&& pos + 1 + name.len() < s.len()
    &&& (is_ws(s[pos + 1 + name.len()]) || s[pos + 1 + name.len()] == '>')
}

/// Whether `s[pos..]` starts with `<name` followed by whitespace or `>`.
pub fn starts_with_tag_name_exec(s: &[char], pos: usize, name: &[char]) -> (r: bool)
    ensures
        r == starts_with_tag_name(s@, pos as int, name@),
{
    if pos >= s.len() || s[pos] != '<' {
        return false;
    }
    if !occurs_at_exec(s, pos + 1, s.len(), name) {
        return false;
    }
    let after = pos + 1 + name.len();
    if after >= s.len() {
        return false;
    }
    let next = s[after];
    is_ws_char(next) || next == '>'
}

/// Range `[start, end)` of the value of attribute `name="value"` within
/// the tag `s[lo..hi)`, searching for the name from `from` on. The name
/// must follow whitespace or start the tag and be followed by `=`; a value
/// that is not double-quoted, or has no closing quote, gives `None`.
pub open spec fn attr_value_range(s: Seq<char>, lo: int, hi: int, name: Seq<char>, from: int) -> Option<(int, int)>
    decreases hi - from,
{
    if name.len() == 0 || from < lo {
        None
    } else {
        match find_sub(s, from, hi, name) {
            None => None,
            Some(a) => {
                proof {
                    lemma_find_sub_bounds(s, from, hi, name);
                }
                if a > lo && !is_ws(s[a - 1]) {
                    attr_value_range(s, lo, hi, name, a + name.len())
                } else if !(a + name.len() < hi && s[a + name.len()] == '=') {
                    attr_value_range(s, lo, hi, name, a + name.len())
                } else if a + name.len() + 1 < hi && s[a + name.len() + 1] == '"' {
                    let vs = a + name.len() + 2;
                    match find_char(s, vs, hi, '"') {
                        Some(e) => Some((vs, e)),
                        None => None,
                    }
                } else {
                    None
                }
            },
        }
    }
}

pub proof fn lemma_find_sub_bounds(s: Seq<char>, from: int, hi: int, p: Seq<char>)
    ensures
        find_sub(s, from, hi, p) matches Some(a) ==> from <= a && a + p.len() <= hi && hi <= s.len()
            && s.subrange(a, a + p.len()) == p,
    decreases hi - from,
{
    if !(from < 0 || from >= hi || from + p.len() > hi || hi > s.len()) {
        if s.subrange(from, from + p.len()) != p {
            lemma_find_sub_bounds(s, from + 1, hi, p);
        }
    }
}

pub proof fn lemma_find_char_bounds(s: Seq<char>, from: int, hi: int, c: char)
    ensures
        find_char(s, from, hi, c) matches Some(a) ==> from <= a < hi && hi <= s.len() && s[a] == c,
    decreases hi - from,
{
    if !(from < 0 || from >= hi || hi > s.len()) && s[from] != c {
        lemma_find_char_bounds(s, from + 1, hi, c);
    }
}

/// Range of the value of attribute `name` in the tag `s[lo..hi)`.
pub fn extract_attribute_value(s: &[char], lo: usize, hi: usize, name: &[char]) -> (r: Option<(usize, usize)>)
    requires
        lo <= hi <= s@.len(),
    ensures
        r matches Some((a, b)) ==> attr_value_range(s@, lo as int, hi as int, name@, lo as int) == Some((a as int, b as int)),
        r is None ==> attr_value_range(s@, lo as int, hi as int, name@, lo as int) is None,
        r matches Some((a, b)) ==> lo <= a <= b < hi,
{
    if name.len() == 0 {
        return None;
    }
    let mut from = lo;
    loop
        invariant
            lo <= from,
            lo <= hi <= s@.len(),
            name@.len() > 0,
            attr_value_range(s@, lo as int, hi as int, name@, lo as int)
                == attr_value_range(s@, lo as int, hi as int, name@, from as int),
        decreases hi - from,
    {
        let found = find_sub_exec(s, from, hi, name);
        proof { lemma_find_sub_bounds(s@, from as int, hi as int, name@); }
        match found {
            None => {
                return None;
            },
            Some(a) => {
                let after = a + name.len();
                if a > lo && !is_ws_char(s[a - 1]) {
                    from = after;
                    continue;
                }
                if !(after < hi && s[after] == '=') {
                    from = after;
                    continue;
                }
                if after + 1 < hi && s[after + 1] == '"' {
                    let vs = after + 2;
                    let e = find_char_exec(s, vs, hi, '"');
                    proof { lemma_find_char_bounds(s@, vs as int, hi as int, '"'); }
                    match e {
                        Some(e) => {
                            return Some((vs, e));
                        },
                        None => {
                            return None;
                        },
                    }
                }
                return None;
            },
        }
    }
}

} // verus!

verus! {

/// `<if condition="EXPR" ...>` / `<for each="EXPR" ...>` at `pos`, rewritten
/// as `prefix EXPR }}">`; the count is the number of characters up to and
/// including the first `>`.
pub open spec fn spec_convert_directive(s: Seq<char>, pos: int, name: Seq<char>, prefix: Seq<char>) -> Option<(Seq<char>, int)> {
    match find_char(s, pos, s.len() as int, '>') {
        None => None,
        Some(close) => match attr_value_range(s, pos, close + 1, name, pos) {
            None => None,
            Some((a, b)) => Some((prefix + s.subrange(a, b) + "}}\">"@, close + 1 - pos)),
        },
    }
}

/// Appends `s[a..b)`.
pub(crate) fn push_range(out: &mut Vec<char>, s: &[char], a: usize, b: usize)
    requires
        a <= b <= s@.len(),
    ensures
        final(out)@ == old(out)@ + s@.subrange(a as int, b as int),
{
    let mut i = a;
    while i < b
        invariant
            a <= i <= b <= s@.len(),
            out@ == old(out)@ + s@.subrange(a as int, i as int),
        decreases b - i,
    {
        out.push(s[i]);
        assert(s@.subrange(a as int, i + 1) =~= s@.subrange(a as int, i as int).push(s@[i as int]));
        i = i + 1;
    }
}

/// Appends the characters of `lit`.
fn push_lit(out: &mut Vec<char>, lit: &str)
    ensures
        final(out)@ == old(out)@ + lit@,
{
    let v = str_chars(lit);
    push_all(out, v.as_slice());
}

fn convert_directive(s: &[char], pos: usize, name: &str, prefix: &str, out: &mut Vec<char>) -> (r: Option<usize>)
    ensures
        match spec_convert_directive(s@, pos as int, name@, prefix@) {
            Some((t, c)) => r == Some(c as usize) && final(out)@ == old(out)@ + t,
            None => r is None && final(out)@ == old(out)@,
        },
{
    let close = match find_char_exec(s, pos, s.len(), '>') {
        Some(c) => c,
        None => return None,
    };
    proof { lemma_find_char_bounds(s@, pos as int, s@.len() as int, '>'); }
    let n = str_chars(name);
    let v = extract_attribute_value(s, pos, close + 1, n.as_slice());
    match v {
        None => None,
        Some((a, b)) => {
            let ghost before = out@;
            push_lit(out, prefix);
            push_range(out, s, a, b);
            push_lit(out, "}}\">");
            assert(out@ =~= before + (prefix@ + s@.subrange(a as int, b as int) + "}}\">"@));
            Some(close + 1 - pos)
        },
    }
}

/// Convert `<if condition="EXPR">` to `<f-when value="{{EXPR}}">`.
pub fn convert_if_tag(s: &[char], pos: usize, out: &mut Vec<char>) -> (r: Option<usize>)
    ensures
        match spec_convert_directive(s@, pos as int, "condition"@, "<f-when value=\"{{"@) {
            Some((t, c)) => r == Some(c as usize) && final(out)@ == old(out)@ + t,
            None => r is None && final(out)@ == old(out)@,
        },
{
    convert_directive(s, pos, "condition", "<f-when value=\"{{", out)
}

/// Convert `<for each="EXPR">` to `<f-repeat value="{{EXPR}}">`.
pub fn convert_for_tag(s: &[char], pos: usize, out: &mut Vec<char>) -> (r: Option<usize>)
    ensures
        match spec_convert_directive(s@, pos as int, "each"@, "<f-repeat value=\"{{"@) {
            Some((t, c)) => r == Some(c as usize) && final(out)@ == old(out)@ + t,
            None => r is None && final(out)@ == old(out)@,
        },
{
    convert_directive(s, pos, "each", "<f-repeat value=\"{{", out)
}

/// ` label VALUE"` for a present attribute, nothing otherwise.
#[verifier::opaque]
pub open spec fn opt_attr(s: Seq<char>, lo: int, hi: int, name: Seq<char>, label: Seq<char>) -> Seq<char> {
    match attr_value_range(s, lo, hi, name, lo) {
        Some((a, b)) => label + s.subrange(a, b) + "\""@,
        None => Seq::empty(),
    }
}

/// `s[lo..hi)` contains `p`.
#[verifier::opaque]
pub open spec fn contains_in(s: Seq<char>, lo: int, hi: int, p: Seq<char>) -> bool {
    find_sub(s, lo, hi, p) is Some
}

/// `<route ...>` at `pos` rewritten as a hidden `<webui-route ...>` keeping
/// its `path`, `name`, `component`, `redirectTo` (as `redirectto`),
/// `exact`, `layout` and `query` attributes; a self-closing route becomes
/// an empty `<webui-route ...></webui-route>`.
pub open spec fn spec_convert_route(s: Seq<char>, pos: int) -> Option<(Seq<char>, int)> {
    match find_char(s, pos, s.len() as int, '>') {
        None => None,
        Some(close) => {
            let hi = close + 1;
            let self_closing = close - 1 >= pos && s[close - 1] == '/';
            Some((
                "<webui-route"@
                    + opt_attr(s, pos, hi, "path"@, " path=\""@)
                    + opt_attr(s, pos, hi, "name"@, " name=\""@)
                    + opt_attr(s, pos, hi, "component"@, " component=\""@)
                    + opt_attr(s, pos, hi, "redirectTo"@, " redirectto=\""@)
                    + (if contains_in(s, pos, hi, " exact"@) { " exact"@ } else { Seq::empty() })
                    + (if contains_in(s, pos, hi, " layout"@) { " layout"@ } else { Seq::empty() })
                    + opt_attr(s, pos, hi, "query"@, " query=\""@)
                    + " style=\"display:none\""@
                    + (if self_closing { "></webui-route>"@ } else { ">"@ }),
                hi - pos,
            ))
        },
    }
}

fn push_opt_attr(out: &mut Vec<char>, s: &[char], lo: usize, hi: usize, name: &str, label: &str)
    requires
        lo <= hi <= s@.len(),
    ensures
        final(out)@ == old(out)@ + opt_attr(s@, lo as int, hi as int, name@, label@),
{
    let n = str_chars(name);
    proof { reveal(opt_attr); }
    match extract_attribute_value(s, lo, hi, n.as_slice()) {
        Some((a, b)) => {
            let ghost before = out@;
            push_lit(out, label);
            push_range(out, s, a, b);
            push_lit(out, "\"");
            assert(out@ =~= before + (label@ + s@.subrange(a as int, b as int) + "\""@));
        },
        None => {
            assert(out@ =~= old(out)@ + Seq::<char>::empty());
        },
    }
}

fn push_if_contains(out: &mut Vec<char>, s: &[char], lo: usize, hi: usize, p: &str)
    requires
        lo <= hi <= s@.len(),
    ensures
        final(out)@ == old(out)@ + (if contains_in(s@, lo as int, hi as int, p@) { p@ } else { Seq::empty() }),
{
    proof { reveal(contains_in); }
    let pc = str_chars(p);
    if contains_exec(s, lo, hi, pc.as_slice()) {
        push_lit(out, p);
    } else {
        assert(out@ =~= old(out)@ + Seq::<char>::empty());
    }
}

/// Convert `<route ...>` to a hidden `<webui-route ...>`.
#[verifier::rlimit(80)]
#[verifier::spinoff_prover]
pub fn convert_route_tag(s: &[char], pos: usize, out: &mut Vec<char>) -> (r: Option<usize>)
    ensures
        match spec_convert_route(s@, pos as int) {
            Some((t, c)) => r == Some(c as usize) && final(out)@ == old(out)@ + t,
            None => r is None && final(out)@ == old(out)@,
        },
{
    let close = match find_char_exec(s, pos, s.len(), '>') {
        Some(c) => c,
        None => return None,
    };
    proof { lemma_find_char_bounds(s@, pos as int, s@.len() as int, '>'); }
    let hi = close + 1;
    let self_closing = close >= pos + 1 && s[close - 1] == '/';
    let ghost before = out@;
    push_lit(out, "<webui-route");
    let ghost t1 = "<webui-route"@;
    push_opt_attr(out, s, pos, hi, "path", " path=\"");
    let ghost t2 = t1 + opt_attr(s@, pos as int, hi as int, "path"@, " path=\""@);
    assert(out@ =~= before + t2);
    push_opt_attr(out, s, pos, hi, "name", " name=\"");
    let ghost t3 = t2 + opt_attr(s@, pos as int, hi as int, "name"@, " name=\""@);
    assert(out@ =~= before + t3);
    push_opt_attr(out, s, pos, hi, "component", " component=\"");
    let ghost t4 = t3 + opt_attr(s@, pos as int, hi as int, "component"@, " component=\""@);
    assert(out@ =~= before + t4);
    push_opt_attr(out, s, pos, hi, "redirectTo", " redirectto=\"");
    let ghost t5 = t4 + opt_attr(s@, pos as int, hi as int, "redirectTo"@, " redirectto=\""@);
    assert(out@ =~= before + t5);
    push_if_contains(out, s, pos, hi, " exact");
    let ghost t6 = t5 + (if contains_in(s@, pos as int, hi as int, " exact"@) { " exact"@ } else { Seq::empty() });
    assert(out@ =~= before + t6);
    push_if_contains(out, s, pos, hi, " layout");
    let ghost t7 = t6 + (if contains_in(s@, pos as int, hi as int, " layout"@) { " layout"@ } else { Seq::empty() });
    assert(out@ =~= before + t7);
    push_opt_attr(out, s, pos, hi, "query", " query=\"");
    let ghost t8 = t7 + opt_attr(s@, pos as int, hi as int, "query"@, " query=\""@);
    assert(out@ =~= before + t8);
    push_lit(out, " style=\"display:none\"");
    let ghost t9 = t8 + " style=\"display:none\""@;
    assert(out@ =~= before + t9);
    if self_closing {
        push_lit(out, "></webui-route>");
    } else {
        push_lit(out, ">");
    }
    let ghost t10 = t9 + (if self_closing { "></webui-route>"@ } else { ">"@ });
    assert(out@ =~= before + t10);
    assert(spec_convert_route(s@, pos as int) == Some((t10, (hi - pos) as int)));
    Some(hi - pos)
}

} // verus!

verus! {

/// First position in `[j, hi)` holding `=` or ASCII whitespace, or `hi`.
pub open spec fn skip_attr_name(s: Seq<char>, j: int, hi: int) -> int
    decreases hi - j,
{
    if j < 0 || j >= hi || hi > s.len() || s[j] == '=' || is_ws(s[j]) {
        j
    } else {
        skip_attr_name(s, j + 1, hi)
    }
}

/// First position in `[j, hi)` holding `"`, or `hi`.
pub open spec fn skip_to_quote(s: Seq<char>, j: int, hi: int) -> int
    decreases hi - j,
{
    if j < 0 || j >= hi || hi > s.len() || s[j] == '"' {
        j
    } else {
        skip_to_quote(s, j + 1, hi)
    }
}

/// First position in `[j, hi)` holding ASCII whitespace, or `hi`.
pub open spec fn skip_to_ws(s: Seq<char>, j: int, hi: int) -> int
    decreases hi - j,
{
    if j < 0 || j >= hi || hi > s.len() || is_ws(s[j]) {
        j
    } else {
        skip_to_ws(s, j + 1, hi)
    }
}

/// First position in `[j, hi)` not holding ASCII whitespace, or `hi`.
pub open spec fn skip_ws(s: Seq<char>, j: int, hi: int) -> int
    decreases hi - j,
{
    if j < 0 || j >= hi || hi > s.len() || !is_ws(s[j]) {
        j
    } else {
        skip_ws(s, j + 1, hi)
    }
}

pub proof fn lemma_skip_attr_name(s: Seq<char>, j: int, hi: int)
    requires
        0 <= j <= hi <= s.len(),
    ensures
        j <= skip_attr_name(s, j, hi) <= hi,
        forall|t: int| j <= t < skip_attr_name(s, j, hi) ==> s[t] != '=' && !is_ws(s[t]),
        skip_attr_name(s, j, hi) < hi ==> (s[skip_attr_name(s, j, hi)] == '=' || is_ws(s[skip_attr_name(s, j, hi)])),
    decreases hi - j,
{
    if j < hi && s[j] != '=' && !is_ws(s[j]) {
        lemma_skip_attr_name(s, j + 1, hi);
    }
}

pub proof fn lemma_skip_to_quote(s: Seq<char>, j: int, hi: int)
    requires
        0 <= j <= hi <= s.len(),
    ensures
        j <= skip_to_quote(s, j, hi) <= hi,
    decreases hi - j,
{
    if j < hi && s[j] != '"' {
        lemma_skip_to_quote(s, j + 1, hi);
    }
}

pub proof fn lemma_skip_to_ws(s: Seq<char>, j: int, hi: int)
    requires
        0 <= j <= hi <= s.len(),
    ensures
        j <= skip_to_ws(s, j, hi) <= hi,
    decreases hi - j,
{
    if j < hi && !is_ws(s[j]) {
        lemma_skip_to_ws(s, j + 1, hi);
    }
}

pub proof fn lemma_skip_ws(s: Seq<char>, j: int, hi: int)
    requires
        0 <= j <= hi <= s.len(),
    ensures
        j <= skip_ws(s, j, hi) <= hi,
        forall|t: int| j <= t < skip_ws(s, j, hi) ==> is_ws(s[t]),
    decreases hi - j,
{
    if j < hi && is_ws(s[j]) {
        lemma_skip_ws(s, j + 1, hi);
    }
}

fn skip_attr_name_exec(s: &[char], j: usize, hi: usize) -> (r: usize)
    requires
        j <= hi <= s@.len(),
    ensures
        r == skip_attr_name(s@, j as int, hi as int),
{
    let mut k = j;
    while k < hi && s[k] != '=' && !is_ws_char(s[k])
        invariant
            j <= k <= hi <= s@.len(),
            skip_attr_name(s@, j as int, hi as int) == skip_attr_name(s@, k as int, hi as int),
        decreases hi - k,
    {
        k = k + 1;
    }
    k
}

fn skip_to_quote_exec(s: &[char], j: usize, hi: usize) -> (r: usize)
    requires
        j <= hi <= s@.len(),
    ensures
        r == skip_to_quote(s@, j as int, hi as int),
{
    let mut k = j;
    while k < hi && s[k] != '"'
        invariant
            j <= k <= hi <= s@.len(),
            skip_to_quote(s@, j as int, hi as int) == skip_to_quote(s@, k as int, hi as int),
        decreases hi - k,
    {
        k = k + 1;
    }
    k
}

fn skip_to_ws_exec(s: &[char], j: usize, hi: usize) -> (r: usize)
    requires
        j <= hi <= s@.len(),
    ensures
        r == skip_to_ws(s@, j as int, hi as int),
{
    let mut k = j;
    while k < hi && !is_ws_char(s[k])
        invariant
            j <= k <= hi <= s@.len(),
            skip_to_ws(s@, j as int, hi as int) == skip_to_ws(s@, k as int, hi as int),
        decreases hi - k,
    {
        k = k + 1;
    }
    k
}

fn skip_ws_exec(s: &[char], j: usize, hi: usize) -> (r: usize)
    requires
        j <= hi <= s@.len(),
    ensures
        r == skip_ws(s@, j as int, hi as int),
{
    let mut k = j;
    while k < hi && is_ws_char(s[k])
        invariant
            j <= k <= hi <= s@.len(),
            skip_ws(s@, j as int, hi as int) == skip_ws(s@, k as int, hi as int),
        decreases hi - k,
    {
        k = k + 1;
    }
    k
}

/// The tag `s[lo..hi)` with `{{expr}}` replaced by `{expr}` inside the
/// double-quoted values of `:`-prefixed attributes, scanning from `j`
/// (`in_value` tells whether `j` is inside such a value).
pub open spec fn complex_scan(s: Seq<char>, lo: int, hi: int, j: int, in_value: bool) -> Seq<char>
    decreases hi - j,
{
    if lo < 0 || j < lo || j >= hi || hi > s.len() {
        Seq::empty()
    } else if !in_value {
        if s[j] == ':' && j > lo && is_ws(s[j - 1]) {
            let k = skip_attr_name(s, j + 1, hi);
            proof {
                lemma_skip_attr_name(s, j + 1, hi);
            }
            if k < hi && s[k] == '=' {
                if k + 1 < hi && s[k + 1] == '"' {
                    s.subrange(j, k + 2) + complex_scan(s, lo, hi, k + 2, true)
                } else {
                    s.subrange(j, k + 1) + complex_scan(s, lo, hi, k + 1, false)
                }
            } else {
                s.subrange(j, k) + complex_scan(s, lo, hi, k, false)
            }
        } else {
            seq![s[j]] + complex_scan(s, lo, hi, j + 1, false)
        }
    } else {
        if s[j] == '"' {
            seq!['"'] + complex_scan(s, lo, hi, j + 1, false)
        } else if j + 1 < hi && s[j] == '{' && s[j + 1] == '{' {
            match find_sub(s, j + 2, hi, "}}"@) {
                Some(e) => {
                    proof {
                        reveal_strlit("}}");
                        lemma_find_sub_bounds(s, j + 2, hi, "}}"@);
                    }
                    seq!['{'] + s.subrange(j + 2, e) + seq!['}'] + complex_scan(s, lo, hi, e + 2, true)
                },
                None => seq!['{', '{'] + complex_scan(s, lo, hi, j + 2, true),
            }
        } else {
            seq![s[j]] + complex_scan(s, lo, hi, j + 1, true)
        }
    }
}

/// Appending `piece` keeps "output so far + what remains" unchanged.
pub proof fn lemma_step(out0: Seq<char>, piece: Seq<char>, rest_new: Seq<char>, rest_old: Seq<char>, target: Seq<char>)
    requires
        out0 + rest_old == target,
        rest_old == piece + rest_new,
    ensures
        (out0 + piece) + rest_new == target,
{
    assert((out0 + piece) + rest_new =~= out0 + (piece + rest_new));
}

/// A tag at `pos` holding both `:` and `{{` before its first `>`, with its
/// `:`-attribute values converted by [`complex_scan`].
pub open spec fn spec_convert_complex(s: Seq<char>, pos: int) -> Option<(Seq<char>, int)> {
    match find_char(s, pos, s.len() as int, '>') {
        None => None,
        Some(close) => {
            if !contains_in(s, pos, close + 1, ":"@) || !contains_in(s, pos, close + 1, "{{"@) {
                None
            } else {
                Some((complex_scan(s, pos, close + 1, pos, false), close + 1 - pos))
            }
        },
    }
}

/// Convert `{{expr}}` to `{expr}` in `:`-prefixed attribute values of the
/// tag at `pos`.
pub fn convert_complex_attrs(s: &[char], pos: usize, out: &mut Vec<char>) -> (r: Option<usize>)
    ensures
        match spec_convert_complex(s@, pos as int) {
            Some((t, c)) => r == Some(c as usize) && final(out)@ == old(out)@ + t,
            None => r is None && final(out)@ == old(out)@,
        },
{
    let close = match find_char_exec(s, pos, s.len(), '>') {
        Some(c) => c,
        None => return None,
    };
    proof { lemma_find_char_bounds(s@, pos as int, s@.len() as int, '>'); }
    let hi = close + 1;
    let colon = str_chars(":");
    let braces = str_chars("{{");
    proof { reveal(contains_in); }
    if !contains_exec(s, pos, hi, colon.as_slice()) || !contains_exec(s, pos, hi, braces.as_slice()) {
        return None;
    }
    let close_braces = str_chars("}}");
    let ghost total = complex_scan(s@, pos as int, hi as int, pos as int, false);
    let mut j = pos;
    let mut in_value = false;
    while j < hi
        invariant
            pos <= j <= hi,
            hi <= s@.len(),
            close_braces@ == "}}"@,
            out@ + complex_scan(s@, pos as int, hi as int, j as int, in_value) == old(out)@ + total,
        decreases hi - j,
    {
        let ghost rest = complex_scan(s@, pos as int, hi as int, j as int, in_value);
        let ghost out0 = out@;
        let c = s[j];
        if !in_value {
            if c == ':' && j > pos && is_ws_char(s[j - 1]) {
                let k = skip_attr_name_exec(s, j + 1, hi);
                proof { lemma_skip_attr_name(s@, j + 1, hi as int); }
                if k < hi && s[k] == '=' {
                    if k + 1 < hi && s[k + 1] == '"' {
                        push_range(out, s, j, k + 2);
                        proof { lemma_step(out0, s@.subrange(j as int, k + 2), complex_scan(s@, pos as int, hi as int, k + 2, true), rest, old(out)@ + total); }
                        j = k + 2;
                        in_value = true;
                    } else {
                        push_range(out, s, j, k + 1);
                        proof { lemma_step(out0, s@.subrange(j as int, k + 1), complex_scan(s@, pos as int, hi as int, k + 1, false), rest, old(out)@ + total); }
                        j = k + 1;
                    }
                } else {
                    push_range(out, s, j, k);
                    proof { lemma_step(out0, s@.subrange(j as int, k as int), complex_scan(s@, pos as int, hi as int, k as int, false), rest, old(out)@ + total); }
                    j = k;
                }
            } else {
                push_char(out, c);
                proof { lemma_step(out0, seq![c], complex_scan(s@, pos as int, hi as int, j + 1, false), rest, old(out)@ + total); }
                j = j + 1;
            }
        } else {
            if c == '"' {
                out.push('"');
                proof {
                    assert(out@ == out0 + seq!['"']);
                    lemma_step(out0, seq!['"'], complex_scan(s@, pos as int, hi as int, j + 1, false), rest, old(out)@ + total);
                }
                j = j + 1;
                in_value = false;
            } else if j + 1 < hi && c == '{' && s[j + 1] == '{' {
                let found = find_sub_exec(s, j + 2, hi, close_braces.as_slice());
                proof { reveal_strlit("}}"); lemma_find_sub_bounds(s@, j + 2, hi as int, "}}"@); }
                match found {
                    Some(e) => {
                        out.push('{');
                        push_range(out, s, j + 2, e);
                        out.push('}');
                        proof {
                            let piece = seq!['{'] + s@.subrange(j + 2, e as int) + seq!['}'];
                            assert(out@ =~= out0 + piece);
                            lemma_step(out0, piece, complex_scan(s@, pos as int, hi as int, e + 2, true), rest, old(out)@ + total);
                        }
                        j = e + 2;
                    },
                    None => {
                        out.push('{');
                        out.push('{');
                        proof {
                            assert(out@ =~= out0 + seq!['{', '{']);
                            lemma_step(out0, seq!['{', '{'], complex_scan(s@, pos as int, hi as int, j + 2, true), rest, old(out)@ + total);
                        }
                        j = j + 2;
                    },
                }
            } else {
                push_char(out, c);
                proof { lemma_step(out0, seq![c], complex_scan(s@, pos as int, hi as int, j + 1, true), rest, old(out)@ + total); }
                j = j + 1;
            }
        }
    }
    assert(out@ =~= old(out)@ + total);
    Some(hi - pos)
}

} // verus!

verus! {

/// End of the attribute that starts at `j` inside `[j, hi)`: the name up to
/// `=` or whitespace, then a double-quoted value (through its closing quote
/// when there is one) or an unquoted value up to whitespace.
pub open spec fn attr_end(s: Seq<char>, j: int, hi: int) -> int {
    let k = skip_attr_name(s, j, hi);
    if k < hi && s[k] == '=' {
        if k + 1 < hi && s[k + 1] == '"' {
            let q = skip_to_quote(s, k + 2, hi);
            if q < hi { q + 1 } else { q }
        } else {
            skip_to_ws(s, k + 1, hi)
        }
    } else {
        k
    }
}

pub proof fn lemma_attr_end(s: Seq<char>, j: int, hi: int)
    requires
        0 <= j < hi <= s.len(),
        !is_ws(s[j]),
    ensures
        j < attr_end(s, j, hi) <= hi,
        j <= skip_attr_name(s, j, hi) <= attr_end(s, j, hi),
{
    lemma_skip_attr_name(s, j, hi);
    let k = skip_attr_name(s, j, hi);
    if k < hi && s[k] == '=' {
        if k + 1 < hi && s[k + 1] == '"' {
            lemma_skip_to_quote(s, k + 2, hi);
        } else {
            lemma_skip_to_ws(s, k + 1, hi);
        }
    }
}

/// The attributes in `[j, hi)` of a `<template` tag, each preceded by one
/// space, without any attribute named `shadowrootmode`.
pub open spec fn template_attrs(s: Seq<char>, j: int, hi: int) -> Seq<char>
    decreases hi - j,
{
    if j < 0 || j >= hi || hi > s.len() {
        Seq::empty()
    } else if is_ws(s[j]) {
        template_attrs(s, j + 1, hi)
    } else {
        let k = skip_attr_name(s, j, hi);
        let end = attr_end(s, j, hi);
        proof {
            lemma_attr_end(s, j, hi);
        }
        if s.subrange(j, k) == "shadowrootmode"@ {
            template_attrs(s, end, hi)
        } else {
            seq![' '] + s.subrange(j, end) + template_attrs(s, end, hi)
        }
    }
}

/// A `<template ...>` tag at `pos` that mentions `shadowrootmode`, rebuilt
/// without its `shadowrootmode` attribute.
pub open spec fn spec_strip_shadowrootmode(s: Seq<char>, pos: int) -> Option<(Seq<char>, int)> {
    match find_char(s, pos, s.len() as int, '>') {
        None => None,
        Some(close) => {
            if !contains_in(s, pos, close + 1, "shadowrootmode"@) {
                None
            } else {
                Some((
                    "<template"@ + template_attrs(s, pos + 9, close)
                        + (if close - 1 >= pos && s[close - 1] == '/' { "/>"@ } else { ">"@ }),
                    close + 1 - pos,
                ))
            }
        },
    }
}

/// Strip the `shadowrootmode` attribute from the `<template ...>` tag at `pos`.
pub fn strip_shadowrootmode(s: &[char], pos: usize, out: &mut Vec<char>) -> (r: Option<usize>)
    requires
        starts_with_tag_name(s@, pos as int, "template"@),
    ensures
        match spec_strip_shadowrootmode(s@, pos as int) {
            Some((t, c)) => r == Some(c as usize) && final(out)@ == old(out)@ + t,
            None => r is None && final(out)@ == old(out)@,
        },
{
    let close = match find_char_exec(s, pos, s.len(), '>') {
        Some(c) => c,
        None => return None,
    };
    proof {
        lemma_find_char_bounds(s@, pos as int, s@.len() as int, '>');
        reveal_strlit("template");
        assert(s@.subrange(pos + 1, pos + 9) == "template"@);
        assert forall|t: int| pos <= t < pos + 9 implies s@[t] != '>' by {
            if t > pos {
                assert(s@[t] == s@.subrange(pos + 1, pos + 9)[t - pos - 1]);
            }
        }
        lemma_find_char_first(s@, pos as int, s@.len() as int, '>');
    }
    let hi = close + 1;
    let key = str_chars("shadowrootmode");
    proof { reveal(contains_in); }
    if !contains_exec(s, pos, hi, key.as_slice()) {
        return None;
    }
    let ghost before = out@;
    push_lit(out, "<template");
    let ghost total = template_attrs(s@, pos + 9, close as int);
    let mut j = pos + 9;
    while j < close
        invariant
            pos + 9 <= j <= close,
            close < s@.len(),
            key@ == "shadowrootmode"@,
            out@ + template_attrs(s@, j as int, close as int) == before + "<template"@ + total,
        decreases close - j,
    {
        let ghost rest = template_attrs(s@, j as int, close as int);
        let ghost out0 = out@;
        if is_ws_char(s[j]) {
            j = j + 1;
            proof { assert(out@ + template_attrs(s@, j as int, close as int) == out0 + rest); }
        } else {
            let k = skip_attr_name_exec(s, j, close);
            let mut end = k;
            if k < close && s[k] == '=' {
                end = k + 1;
                if end < close && s[end] == '"' {
                    let q = skip_to_quote_exec(s, k + 2, close);
                    proof { lemma_skip_to_quote(s@, k + 2, close as int); }
                    end = if q < close { q + 1 } else { q };
                } else {
                    end = skip_to_ws_exec(s, k + 1, close);
                }
            }
            proof { lemma_attr_end(s@, j as int, close as int); }
            assert(end == attr_end(s@, j as int, close as int));
            if !occurs_at_exec(s, j, k, key.as_slice()) || k - j != key.len() {
                out.push(' ');
                push_range(out, s, j, end);
                proof {
                    assert(s@.subrange(j as int, k as int) != "shadowrootmode"@) by {
                        if s@.subrange(j as int, k as int) == "shadowrootmode"@ {
                            assert(s@.subrange(j as int, j + key@.len()) =~= s@.subrange(j as int, k as int));
                        }
                    }
                    let piece = seq![' '] + s@.subrange(j as int, end as int);
                    assert(out@ =~= out0 + piece);
                    lemma_step(out0, piece, template_attrs(s@, end as int, close as int), rest, before + "<template"@ + total);
                }
            } else {
                proof {
                    assert(s@.subrange(j as int, k as int) =~= s@.subrange(j as int, j + key@.len()));
                }
            }
            j = end;
        }
    }
    let ghost out1 = out@;
    if close >= pos + 1 && s[close - 1] == '/' {
        push_lit(out, "/>");
    } else {
        push_lit(out, ">");
    }
    proof {
        let tail = if close - 1 >= pos && s@[close - 1] == '/' { "/>"@ } else { ">"@ };
        assert(out1 == before + "<template"@ + total);
        assert(out@ =~= before + ("<template"@ + total + tail));
    }
    Some(hi - pos)
}

/// `find_char` gives the first occurrence.
pub proof fn lemma_find_char_first(s: Seq<char>, from: int, hi: int, c: char)
    ensures
        find_char(s, from, hi, c) matches Some(a) ==> forall|t: int| from <= t < a ==> s[t] != c,
    decreases hi - from,
{
    if !(from < 0 || from >= hi || hi > s.len()) && s[from] != c {
        lemma_find_char_first(s, from + 1, hi, c);
    }
}

} // verus!

verus! {

/// Conversion of the tag starting at `pos` (where `s[pos]` is `<`), with
/// the number of input characters it replaces; `None` when the tag is kept
/// as it is.
pub open spec fn spec_try_convert_tag(s: Seq<char>, pos: int) -> Option<(Seq<char>, int)> {
    if occurs_at(s, pos, s.len() as int, "</if>"@) {
        Some(("</f-when>"@, 5))
    } else if occurs_at(s, pos, s.len() as int, "</for>"@) {
        Some(("</f-repeat>"@, 6))
    } else if occurs_at(s, pos, s.len() as int, "</route>"@) {
        Some(("</webui-route>"@, 8))
    } else if starts_with_tag_name(s, pos, "outlet"@) && find_char(s, pos, s.len() as int, '>') is Some {
        Some(("<outlet></outlet>"@, find_char(s, pos, s.len() as int, '>').unwrap() + 1 - pos))
    } else if starts_with_tag_name(s, pos, "if"@)
        && spec_convert_directive(s, pos, "condition"@, "<f-when value=\"{{"@) is Some {
        spec_convert_directive(s, pos, "condition"@, "<f-when value=\"{{"@)
    } else if starts_with_tag_name(s, pos, "for"@)
        && spec_convert_directive(s, pos, "each"@, "<f-repeat value=\"{{"@) is Some {
        spec_convert_directive(s, pos, "each"@, "<f-repeat value=\"{{"@)
    } else if starts_with_tag_name(s, pos, "route"@) && spec_convert_route(s, pos) is Some {
        spec_convert_route(s, pos)
    } else if starts_with_tag_name(s, pos, "template"@) && spec_strip_shadowrootmode(s, pos) is Some {
        spec_strip_shadowrootmode(s, pos)
    } else {
        spec_convert_complex(s, pos)
    }
}

/// Try to convert the tag starting at `pos`. Returns the number of input
/// characters consumed when a conversion was performed.
pub fn try_convert_tag(s: &[char], pos: usize, out: &mut Vec<char>) -> (r: Option<usize>)
    requires
        pos < s@.len(),
    ensures
        match spec_try_convert_tag(s@, pos as int) {
            Some((t, c)) => r == Some(c as usize) && final(out)@ == old(out)@ + t,
            None => r is None && final(out)@ == old(out)@,
        },
{
    let close_if = str_chars("</if>");
    if occurs_at_exec(s, pos, s.len(), close_if.as_slice()) {
        push_lit(out, "</f-when>");
        return Some(5);
    }
    let close_for = str_chars("</for>");
    if occurs_at_exec(s, pos, s.len(), close_for.as_slice()) {
        push_lit(out, "</f-repeat>");
        return Some(6);
    }
    let close_route = str_chars("</route>");
    if occurs_at_exec(s, pos, s.len(), close_route.as_slice()) {
        push_lit(out, "</webui-route>");
        return Some(8);
    }
    let outlet = str_chars("outlet");
    if starts_with_tag_name_exec(s, pos, outlet.as_slice()) {
        if let Some(close) = find_char_exec(s, pos, s.len(), '>') {
            proof { lemma_find_char_bounds(s@, pos as int, s@.len() as int, '>'); }
            push_lit(out, "<outlet></outlet>");
            return Some(close + 1 - pos);
        }
    }
    let if_name = str_chars("if");
    if starts_with_tag_name_exec(s, pos, if_name.as_slice()) {
        if let Some(c) = convert_if_tag(s, pos, out) {
            return Some(c);
        }
    }
    let for_name = str_chars("for");
    if starts_with_tag_name_exec(s, pos, for_name.as_slice()) {
        if let Some(c) = convert_for_tag(s, pos, out) {
            return Some(c);
        }
    }
    let route_name = str_chars("route");
    if starts_with_tag_name_exec(s, pos, route_name.as_slice()) {
        if let Some(c) = convert_route_tag(s, pos, out) {
            return Some(c);
        }
    }
    let template_name = str_chars("template");
    if starts_with_tag_name_exec(s, pos, template_name.as_slice()) {
        if let Some(c) = strip_shadowrootmode(s, pos, out) {
            return Some(c);
        }
    }
    convert_complex_attrs(s, pos, out)
}

/// Every conversion replaces at least one character and stays within the input.
pub proof fn lemma_try_convert_tag_consumes(s: Seq<char>, pos: int)
    requires
        0 <= pos < s.len(),
    ensures
        spec_try_convert_tag(s, pos) matches Some((t, c)) ==> 1 <= c && pos + c <= s.len(),
{
    reveal_strlit("</if>");
    reveal_strlit("</for>");
    reveal_strlit("</route>");
    lemma_find_char_bounds(s, pos, s.len() as int, '>');
}

/// Conversion of WebUI template syntax to FAST syntax from position `i` on:
/// recognised tags are replaced by their conversion, every other input
/// character is copied as it is.
pub open spec fn convert_from(s: Seq<char>, i: int) -> Seq<char>
    decreases s.len() - i,
{
    if i < 0 || i >= s.len() {
        Seq::empty()
    } else if s[i] == '<' && spec_try_convert_tag(s, i) is Some
        && 1 <= spec_try_convert_tag(s, i).unwrap().1
        && i + spec_try_convert_tag(s, i).unwrap().1 <= s.len() {
        spec_try_convert_tag(s, i).unwrap().0 + convert_from(s, i + spec_try_convert_tag(s, i).unwrap().1)
    } else {
        seq![s[i]] + convert_from(s, i + 1)
    }
}

/// Convert WebUI template syntax to FAST syntax:
/// - `<if condition="EXPR">` becomes `<f-when value="{{EXPR}}">`, `</if>` becomes `</f-when>`
/// - `<for each="EXPR">` becomes `<f-repeat value="{{EXPR}}">`, `</for>` becomes `</f-repeat>`
/// - `<route ...>` becomes a hidden `<webui-route ...>`, `</route>` becomes `</webui-route>`
/// - `<outlet ...>` becomes `<outlet></outlet>`
/// - `{{expr}}` inside `:attr` values becomes `{expr}`
/// - `shadowrootmode` is removed from `<template>` tags
pub fn convert_chars_to_fast(input: &[char]) -> (r: Vec<char>)
    ensures
        r@ == convert_from(input@, 0),
{
    let mut out: Vec<char> = Vec::new();
    let mut i: usize = 0;
    while i < input.len()
        invariant
            0 <= i <= input@.len(),
            out@ + convert_from(input@, i as int) == convert_from(input@, 0),
        decreases input@.len() - i,
    {
        let ghost out0 = out@;
        let ghost rest = convert_from(input@, i as int);
        let c = input[i];
        if c == '<' {
            let r = try_convert_tag(input, i, &mut out);
            proof { lemma_try_convert_tag_consumes(input@, i as int); }
            if let Some(consumed) = r {
                proof {
                    lemma_step(out0, spec_try_convert_tag(input@, i as int).unwrap().0,
                        convert_from(input@, i + consumed), rest, convert_from(input@, 0));
                }
                i = i + consumed;
                continue;
            }
        }
        push_char(&mut out, c);
        proof { lemma_step(out0, seq![c], convert_from(input@, i + 1), rest, convert_from(input@, 0)); }
        i = i + 1;
    }
    assert(out@ =~= out@ + convert_from(input@, i as int));
    out
}

/// Whitespace-only text between `>` and `<`, from position `i` on, removed;
/// every other character is copied as it is.
pub open spec fn minify_from(s: Seq<char>, i: int) -> Seq<char>
    decreases s.len() - i,
{
    if i < 0 || i >= s.len() {
        Seq::empty()
    } else if s[i] == '>' && i + 1 < s.len() {
        let w = skip_ws(s, i + 1, s.len() as int);
        proof {
            lemma_skip_ws(s, i + 1, s.len() as int);
        }
        seq!['>'] + (if w >= s.len() || s[w] != '<' { s.subrange(i + 1, w) } else { Seq::empty() })
            + minify_from(s, w)
    } else {
        seq![s[i]] + minify_from(s, i + 1)
    }
}

/// Collapse whitespace-only text between `>` and `<`, so that an
/// f-template's DOM matches the minified declarative shadow DOM output.
pub fn minify_inter_tag_whitespace(input: &[char]) -> (r: Vec<char>)
    ensures
        r@ == minify_from(input@, 0),
{
    let mut out: Vec<char> = Vec::new();
    let mut i: usize = 0;
    let len = input.len();
    while i < len
        invariant
            0 <= i <= len,
            len == input@.len(),
            out@ + minify_from(input@, i as int) == minify_from(input@, 0),
        decreases len - i,
    {
        let ghost out0 = out@;
        let ghost rest = minify_from(input@, i as int);
        if input[i] == '>' && i + 1 < len {
            out.push('>');
            let w = skip_ws_exec(input, i + 1, len);
            proof { lemma_skip_ws(input@, i + 1, len as int); }
            let keep = w >= len || input[w] != '<';
            if keep {
                push_range(&mut out, input, i + 1, w);
            }
            proof {
                let piece = seq!['>'] + (if keep { input@.subrange(i + 1, w as int) } else { Seq::empty() });
                assert(out@ =~= out0 + piece);
                lemma_step(out0, piece, minify_from(input@, w as int), rest, minify_from(input@, 0));
            }
            i = w;
        } else {
            push_char(&mut out, input[i]);
            proof { lemma_step(out0, seq![input@[i as int]], minify_from(input@, i + 1), rest, minify_from(input@, 0)); }
            i = i + 1;
        }
    }
    assert(out@ =~= out@ + minify_from(input@, i as int));
    out
}

} // verus!

verus! {

/// Index of the first character at or after `i` that is not Unicode whitespace.
pub open spec fn trim_lead(s: Seq<char>, i: int) -> int
    decreases s.len() - i,
{
    if 0 <= i < s.len() && char_is_whitespace(s[i]) {
        trim_lead(s, i + 1)
    } else {
        i
    }
}

/// One past the last character before `j` that is not Unicode whitespace.
pub open spec fn trim_trail(s: Seq<char>, j: int) -> int
    decreases j,
{
    if 0 < j <= s.len() && char_is_whitespace(s[j - 1]) {
        trim_trail(s, j - 1)
    } else {
        j
    }
}

/// `s` without leading and trailing Unicode whitespace (as `str::trim`).
pub open spec fn spec_trim(s: Seq<char>) -> Seq<char> {
    let a = trim_lead(s, 0);
    if a >= s.len() {
        Seq::empty()
    } else {
        s.subrange(a, trim_trail(s, s.len() as int))
    }
}

proof fn lemma_trim_lead(s: Seq<char>, i: int)
    requires
        0 <= i <= s.len(),
    ensures
        i <= trim_lead(s, i) <= s.len(),
        trim_lead(s, i) < s.len() ==> !char_is_whitespace(s[trim_lead(s, i)]),
    decreases s.len() - i,
{
    if i < s.len() && char_is_whitespace(s[i]) {
        lemma_trim_lead(s, i + 1);
    }
}

proof fn lemma_trim_trail(s: Seq<char>, j: int, floor: int)
    requires
        0 <= floor < j <= s.len(),
        !char_is_whitespace(s[floor]),
    ensures
        floor < trim_trail(s, j) <= j,
    decreases j,
{
    if char_is_whitespace(s[j - 1]) {
        lemma_trim_trail(s, j - 1, floor);
    }
}

/// `s` without leading and trailing Unicode whitespace.
pub fn trim(s: &[char]) -> (r: Vec<char>)
    ensures
        r@ == spec_trim(s@),
{
    let mut a: usize = 0;
    while a < s.len() && is_whitespace_char(s[a])
        invariant
            0 <= a <= s@.len(),
            trim_lead(s@, 0) == trim_lead(s@, a as int),
        decreases s@.len() - a,
    {
        a = a + 1;
    }
    if a >= s.len() {
        return Vec::new();
    }
    let mut b: usize = s.len();
    while b > 0 && is_whitespace_char(s[b - 1])
        invariant
            a < s@.len(),
            0 <= b <= s@.len(),
            !char_is_whitespace(s@[a as int]),
            a < b,
            trim_trail(s@, s@.len() as int) == trim_trail(s@, b as int),
        decreases b,
    {
        b = b - 1;
    }
    let mut out = Vec::new();
    push_range(&mut out, s, a, b);
    assert(out@ =~= s@.subrange(a as int, b as int));
    out
}

/// The CSS placed inside the component template for a strategy: a
/// stylesheet link (link), the trimmed CSS in a `<style>` tag (style), or
/// nothing (module, or no CSS).
pub open spec fn css_injection(tag: Seq<char>, css: Option<Seq<char>>, strategy: CssStrategy) -> Option<Seq<char>> {
    match strategy {
        CssStrategy::Link => match css {
            Some(_) => Some("<link rel=\"stylesheet\" href=\"/"@ + tag + ".css\">"@),
            None => None,
        },
        CssStrategy::Style => match css {
            Some(c) => Some("<style>"@ + spec_trim(c) + "</style>"@),
            None => None,
        },
        CssStrategy::Module => None,
    }
}

/// The `shadowrootadoptedstylesheets` attribute, present for the module
/// strategy when the component has CSS.
pub open spec fn adopted_attr(tag: Seq<char>, css: Option<Seq<char>>, strategy: CssStrategy) -> Seq<char> {
    if strategy == CssStrategy::Module && css is Some {
        " shadowrootadoptedstylesheets=\""@ + tag + "\""@
    } else {
        Seq::empty()
    }
}

/// The converted, trimmed and minified component HTML.
pub open spec fn f_template_body(html: Seq<char>) -> Seq<char> {
    let converted = convert_from(html, 0);
    let trimmed = spec_trim(converted);
    minify_from(trimmed, 0)
}

/// The inner `<template>` of an f-template.
pub open spec fn f_template_inner(tag: Seq<char>, html: Seq<char>, css: Option<Seq<char>>, strategy: CssStrategy) -> Seq<char> {
    let body = f_template_body(html);
    let injection = match css_injection(tag, css, strategy) {
        Some(i) => i,
        None => Seq::empty(),
    };
    let adopted = adopted_attr(tag, css, strategy);
    if occurs_at(body, 0, body.len() as int, "<template"@) {
        match find_char(body, 0, body.len() as int, '>') {
            Some(cp) => body.take(cp) + adopted + ">"@ + injection + body.skip(cp + 1),
            None => body,
        }
    } else {
        "<template"@ + adopted + ">"@ + injection + body + "</template>"@
    }
}

/// A complete `<f-template name="TAG">` block for one component.
pub open spec fn spec_f_template(tag: Seq<char>, html: Seq<char>, css: Option<Seq<char>>, strategy: CssStrategy) -> Seq<char> {
    "<f-template name=\""@ + tag + "\">\n"@ + f_template_inner(tag, html, css, strategy) + "\n</f-template>\n"@
}

/// Without CSS, the f-template is the same under every CSS strategy: no
/// stylesheet is injected and no adopted stylesheet attribute is added.
pub proof fn lemma_f_template_without_css(tag: Seq<char>, html: Seq<char>, s1: CssStrategy, s2: CssStrategy)
    ensures
        css_injection(tag, None, s1) is None,
        adopted_attr(tag, None, s1) == Seq::<char>::empty(),
        spec_f_template(tag, html, None, s1) == spec_f_template(tag, html, None, s2),
{
}

fn opt_chars(css: Option<&str>) -> (r: Option<Vec<char>>)
    ensures
        match css {
            Some(c) => r matches Some(v) && v@ == c@,
            None => r is None,
        },
{
    match css {
        Some(c) => Some(str_chars(c)),
        None => None,
    }
}

/// Generate the `<f-template>` block of one component from its tag name,
/// HTML and optional CSS.
#[verifier::spinoff_prover]
#[verifier::rlimit(60)]
pub fn generate_f_template(tag_name: &str, html_content: &str, css_content: Option<&str>, css_strategy: CssStrategy) -> (r: String)
    ensures
        r@ == spec_f_template(tag_name@, html_content@, match css_content {
            Some(c) => Some(c@),
            None => None,
        }, css_strategy),
{
    let ghost css = match css_content {
        Some(c) => Some(c@),
        None => None::<Seq<char>>,
    };
    let mut out: Vec<char> = Vec::new();
    push_lit(&mut out, "<f-template name=\"");
    push_lit(&mut out, tag_name);
    push_lit(&mut out, "\">\n");
    let ghost head = out@;
    let html = str_chars(html_content);
    let converted = convert_chars_to_fast(html.as_slice());
    let trimmed_c = trim(converted.as_slice());
    let body = minify_inter_tag_whitespace(trimmed_c.as_slice());
    let css_v = opt_chars(css_content);
    let mut injection: Vec<char> = Vec::new();
    match css_strategy {
        CssStrategy::Link => {
            if css_v.is_some() {
                push_lit(&mut injection, "<link rel=\"stylesheet\" href=\"/");
                push_lit(&mut injection, tag_name);
                push_lit(&mut injection, ".css\">");
            }
        },
        CssStrategy::Style => {
            if let Some(c) = &css_v {
                push_lit(&mut injection, "<style>");
                let t = trim(c.as_slice());
                push_all(&mut injection, t.as_slice());
                push_lit(&mut injection, "</style>");
            }
        },
        CssStrategy::Module => {},
    }
    proof {
        let expected = match css_injection(tag_name@, css, css_strategy) {
            Some(i) => i,
            None => Seq::<char>::empty(),
        };
        assert(injection@ =~= expected);
    }
    let mut adopted: Vec<char> = Vec::new();
    if css_strategy == CssStrategy::Module && css_v.is_some() {
        push_lit(&mut adopted, " shadowrootadoptedstylesheets=\"");
        push_lit(&mut adopted, tag_name);
        push_lit(&mut adopted, "\"");
    }
    assert(adopted@ =~= adopted_attr(tag_name@, css, css_strategy));
    let tmpl = str_chars("<template");
    let ghost inner_start = out@;
    if occurs_at_exec(body.as_slice(), 0, body.len(), tmpl.as_slice()) {
        match find_char_exec(body.as_slice(), 0, body.len(), '>') {
            Some(cp) => {
                proof { lemma_find_char_bounds(body@, 0, body@.len() as int, '>'); }
                push_range(&mut out, body.as_slice(), 0, cp);
                push_all(&mut out, adopted.as_slice());
                push_lit(&mut out, ">");
                push_all(&mut out, injection.as_slice());
                push_range(&mut out, body.as_slice(), cp + 1, body.len());
                proof {
                    assert(body@.take(cp as int) =~= body@.subrange(0, cp as int));
                    assert(body@.skip(cp + 1) =~= body@.subrange(cp + 1, body@.len() as int));
                }
            },
            None => {
                push_all(&mut out, body.as_slice());
            },
        }
    } else {
        push_lit(&mut out, "<template");
        push_all(&mut out, adopted.as_slice());
        push_lit(&mut out, ">");
        push_all(&mut out, injection.as_slice());
        push_all(&mut out, body.as_slice());
        push_lit(&mut out, "</template>");
    }
    proof {
        let inner = f_template_inner(tag_name@, html_content@, css, css_strategy);
        assert(out@ =~= head + inner);
    }
    push_lit(&mut out, "\n</f-template>\n");
    proof {
        assert(out@ =~= spec_f_template(tag_name@, html_content@, css, css_strategy));
    }
    chars_to_string(out.as_slice())
}

} // verus!

verus! {

/// Convert WebUI template syntax in `input` to FAST syntax; see
/// [`convert_chars_to_fast`].
pub fn convert_btr_to_fast(input: &str) -> (r: String)
    ensures
        r@ == convert_from(input@, 0),
{
    let v = str_chars(input);
    let out = convert_chars_to_fast(v.as_slice());
    chars_to_string(out.as_slice())
}

/// Collapse whitespace-only text between `>` and `<` in `input`; see
/// [`minify_inter_tag_whitespace`].
pub fn minify_html_whitespace(input: &str) -> (r: String)
    ensures
        r@ == minify_from(input@, 0),
{
    let v = str_chars(input);
    let out = minify_inter_tag_whitespace(v.as_slice());
    chars_to_string(out.as_slice())
}

/// Plain ASCII text with no tag passes through the conversion unchanged.
pub proof fn lemma_convert_plain_text(s: Seq<char>)
    requires
        forall|i: int| 0 <= i < s.len() ==> (#[trigger] s[i] as u32) < 128 && s[i] != '<',
    ensures
        convert_from(s, 0) == s,
{
    lemma_convert_plain_from(s, 0);
    assert(s.skip(0) =~= s);
}

proof fn lemma_convert_plain_from(s: Seq<char>, i: int)
    requires
        0 <= i <= s.len(),
        forall|k: int| 0 <= k < s.len() ==> (#[trigger] s[k] as u32) < 128 && s[k] != '<',
    ensures
        convert_from(s, i) == s.skip(i),
    decreases s.len() - i,
{
    if i < s.len() {
        lemma_convert_plain_from(s, i + 1);
        assert(s.skip(i) =~= seq![s[i]] + s.skip(i + 1));
    } else {
        assert(s.skip(i) =~= Seq::<char>::empty());
    }
}

/// Plain ASCII text with no `>` passes through the minification unchanged.
pub proof fn lemma_minify_plain_text(s: Seq<char>)
    requires
        forall|i: int| 0 <= i < s.len() ==> (#[trigger] s[i] as u32) < 128 && s[i] != '>',
    ensures
        minify_from(s, 0) == s,
{
    lemma_minify_plain_from(s, 0);
    assert(s.skip(0) =~= s);
}

proof fn lemma_minify_plain_from(s: Seq<char>, i: int)
    requires
        0 <= i <= s.len(),
        forall|k: int| 0 <= k < s.len() ==> (#[trigger] s[k] as u32) < 128 && s[k] != '>',
    ensures
        minify_from(s, i) == s.skip(i),
    decreases s.len() - i,
{
    if i < s.len() {
        lemma_minify_plain_from(s, i + 1);
        assert(s.skip(i) =~= seq![s[i]] + s.skip(i + 1));
    } else {
        assert(s.skip(i) =~= Seq::<char>::empty());
    }
}

} // verus!
