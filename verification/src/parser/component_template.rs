//! Shaping of component templates: the stylesheet a CSS strategy places in
//! a component, the content of an authored `<template>`, its wrapping in a
//! declarative shadow root (shadow DOM) or plain output (light DOM), and the
//! removal of runtime-only attributes from the opening `<template>` tag.
//!
//! Finding the attributes of the opening tag needs the HTML syntax tree;
//! the functions here take what the tree gives (the positions of those
//! attributes, or the template with them removed) as arguments.
use vstd::prelude::*;
use super::fast::{push_range, spec_trim, trim};
use super::scan::{find_char, find_char_exec, occurs_at, occurs_at_exec, rfind_sub, rfind_sub_exec};
use super::strategy::{CssStrategy, DomStrategy};
use crate::text::{chars_to_string, push_all, push_str, str_chars};

verus! {

/// The text opens with `<template`.
pub open spec fn opens_template(s: Seq<char>) -> bool {
    occurs_at(s, 0, s.len() as int, "<template"@)
}

/// The characters of an optional string slice.
pub open spec fn opt_chars(o: Option<&str>) -> Option<Seq<char>> {
    match o {
        Some(s) => Some(s@),
        None => None,
    }
}

/// The content of a component template. Trimmed HTML that opens with
/// `<template` contributes the part of `stripped` (the same HTML with the
/// runtime attributes of its opening tag removed) after the first `>` and
/// before the last `</template>` (or its end, if it has none), which is
/// empty where those do not enclose any text; where `stripped` has no `>`,
/// the trimmed HTML itself. Other trimmed HTML is the content as it is.
pub open spec fn template_content(trimmed: Seq<char>, stripped: Seq<char>) -> Seq<char> {
    if opens_template(trimmed) {
        match find_char(stripped, 0, stripped.len() as int, '>') {
            Some(o) => {
                let end = match rfind_sub(stripped, stripped.len() - 11, "</template>"@) {
                    Some(e) => e,
                    None => stripped.len() as int,
                };
                if o + 1 < end {
                    stripped.subrange(o + 1, end)
                } else {
                    Seq::empty()
                }
            },
            None => trimmed,
        }
    } else {
        trimmed
    }
}

/// A component template for a DOM strategy. Shadow DOM: the CSS snippet and
/// the content inside `<template shadowrootmode="open">`, which names the
/// adopted stylesheet specifier, if any, in `shadowrootadoptedstylesheets`.
/// Light DOM: the CSS snippet followed by the content.
pub open spec fn shaped_template(
    dom: DomStrategy,
    content: Seq<char>,
    snippet: Seq<char>,
    adopted: Option<Seq<char>>,
) -> Seq<char> {
    match dom {
        DomStrategy::Shadow => {
            let attr = match adopted {
                Some(a) => " shadowrootadoptedstylesheets=\""@ + a + "\""@,
                None => Seq::empty(),
            };
            "<template shadowrootmode=\"open\""@ + attr + ">"@ + snippet + content + "</template>"@
        },
        DomStrategy::Light => snippet + content,
    }
}

/// The component template for `html`: its trimmed form, with `stripped` (or
/// the trimmed form itself, where nothing was stripped) giving the content
/// of an authored `<template>`, shaped for the DOM strategy.
pub open spec fn spec_component_template(
    dom: DomStrategy,
    html: Seq<char>,
    stripped: Option<Seq<char>>,
    snippet: Option<Seq<char>>,
    adopted: Option<Seq<char>>,
) -> Seq<char> {
    let trimmed = spec_trim(html);
    let s = match stripped {
        Some(x) => x,
        None => trimmed,
    };
    let sn = match snippet {
        Some(x) => x,
        None => Seq::empty(),
    };
    shaped_template(dom, template_content(trimmed, s), sn, adopted)
}

/// The stylesheet snippet placed in a component's template: a stylesheet
/// link under the link strategy when the component has CSS and renders in
/// shadow DOM (light DOM links belong in the document head), the trimmed
/// CSS in a `<style>` tag under the style strategy, nothing under the
/// module strategy.
pub open spec fn component_css_snippet(
    css: CssStrategy,
    dom: DomStrategy,
    tag: Seq<char>,
    content: Option<Seq<char>>,
) -> Option<Seq<char>> {
    match css {
        CssStrategy::Link => if content is Some && dom == DomStrategy::Shadow {
            Some("<link rel=\"stylesheet\" href=\"/"@ + tag + ".css\">"@)
        } else {
            None
        },
        CssStrategy::Style => match content {
            Some(c) => Some("<style>"@ + spec_trim(c) + "</style>"@),
            None => None,
        },
        CssStrategy::Module => None,
    }
}

/// The adopted stylesheet specifier of a component: its tag name under the
/// module strategy when it has CSS.
pub open spec fn component_adopted_specifier(css: CssStrategy, tag: Seq<char>, content: Option<Seq<char>>) -> Option<Seq<char>> {
    if css == CssStrategy::Module && content is Some {
        Some(tag)
    } else {
        None
    }
}

fn opt_str_chars(o: Option<&str>) -> (r: Option<Vec<char>>)
    ensures
        match o {
            Some(s) => r matches Some(v) && v@ == s@,
            None => r is None,
        },
{
    match o {
        Some(s) => Some(str_chars(s)),
        None => None,
    }
}

/// The trimmed HTML, where it opens with `<template`: the runtime
/// attributes of its opening tag are to be removed before
/// [`process_component_template`] takes its content.
pub fn template_to_strip(html: &str) -> (r: Option<String>)
    ensures
        r matches Some(t) ==> t@ == spec_trim(html@) && opens_template(spec_trim(html@)),
        r is None ==> !opens_template(spec_trim(html@)),
{
    let h = str_chars(html);
    let t = trim(h.as_slice());
    let open = str_chars("<template");
    if occurs_at_exec(t.as_slice(), 0, t.len(), open.as_slice()) {
        Some(chars_to_string(t.as_slice()))
    } else {
        None
    }
}

fn template_content_exec(trimmed: &[char], stripped: &[char]) -> (r: Vec<char>)
    ensures
        r@ == template_content(trimmed@, stripped@),
{
    let open = str_chars("<template");
    if !occurs_at_exec(trimmed, 0, trimmed.len(), open.as_slice()) {
        return slice_to_vec(trimmed);
    }
    match find_char_exec(stripped, 0, stripped.len(), '>') {
        Some(o) => {
            proof {
                super::fast::lemma_find_char_bounds(stripped@, 0, stripped@.len() as int, '>');
            }
            let close = str_chars("</template>");
            proof {
                reveal_strlit("</template>");
            }
            let end = match rfind_sub_exec(stripped, close.as_slice()) {
                Some(e) => e,
                None => stripped.len(),
            };
            let mut out: Vec<char> = Vec::new();
            if o + 1 < end {
                proof {
                    if rfind_sub(stripped@, stripped@.len() - 11, "</template>"@) is Some {
                        lemma_rfind_sub_bounds(stripped@, stripped@.len() - 11, "</template>"@);
                    }
                }
                push_range(&mut out, stripped, o + 1, end);
            }
            out
        },
        None => slice_to_vec(trimmed),
    }
}

fn slice_to_vec(s: &[char]) -> (r: Vec<char>)
    ensures
        r@ == s@,
{
    let mut out: Vec<char> = Vec::new();
    push_all(&mut out, s);
    out
}

proof fn lemma_rfind_sub_bounds(s: Seq<char>, j: int, p: Seq<char>)
    requires
        rfind_sub(s, j, p) is Some,
    ensures
        0 <= rfind_sub(s, j, p).unwrap() <= j,
        rfind_sub(s, j, p).unwrap() + p.len() <= s.len(),
    decreases j + 1,
{
    if j >= 0 && !occurs_at(s, j, s.len() as int, p) {
        lemma_rfind_sub_bounds(s, j - 1, p);
    }
}

/// Shape a component template for the DOM strategy. The HTML is trimmed;
/// where it opens with `<template`, `stripped` is that trimmed template with
/// the runtime attributes of its opening tag removed (`None`: none were
/// present), and its content is what lies inside the tag. Shadow DOM wraps
/// the CSS snippet and the content in a declarative shadow root, light DOM
/// puts the snippet before the content.
pub fn process_component_template(
    dom_strategy: DomStrategy,
    html: &str,
    stripped: Option<&str>,
    css_snippet: Option<&str>,
    adopted_specifier: Option<&str>,
) -> (r: String)
    ensures
        r@ == spec_component_template(
            dom_strategy,
            html@,
            opt_chars(stripped),
            opt_chars(css_snippet),
            opt_chars(adopted_specifier),
        ),
{
    let h = str_chars(html);
    let trimmed = trim(h.as_slice());
    let content = match stripped {
        Some(s) => {
            let sv = str_chars(s);
            template_content_exec(trimmed.as_slice(), sv.as_slice())
        },
        None => template_content_exec(trimmed.as_slice(), trimmed.as_slice()),
    };
    let mut out: Vec<char> = Vec::new();
    match dom_strategy {
        DomStrategy::Shadow => {
            push_str(&mut out, "<template shadowrootmode=\"open\"");
            if let Some(spec) = adopted_specifier {
                push_str(&mut out, " shadowrootadoptedstylesheets=\"");
                push_str(&mut out, spec);
                push_str(&mut out, "\"");
            }
            push_str(&mut out, ">");
            if let Some(sn) = css_snippet {
                push_str(&mut out, sn);
            }
            push_all(&mut out, content.as_slice());
            push_str(&mut out, "</template>");
        },
        DomStrategy::Light => {
            if let Some(sn) = css_snippet {
                push_str(&mut out, sn);
            }
            push_all(&mut out, content.as_slice());
        },
    }
    proof {
        let expected = spec_component_template(
            dom_strategy,
            html@,
            opt_chars(stripped),
            opt_chars(css_snippet),
            opt_chars(adopted_specifier),
        );
        assert(out@ =~= expected);
    }
    chars_to_string(out.as_slice())
}

/// Build a component's template: the CSS strategy decides the stylesheet
/// snippet and adopted specifier (see [`component_css_snippet`] and
/// [`component_adopted_specifier`]), which [`process_component_template`]
/// places for the DOM strategy.
pub fn build_component_template(
    css_strategy: CssStrategy,
    dom_strategy: DomStrategy,
    tag_name: &str,
    html: &str,
    stripped: Option<&str>,
    css_content: Option<&str>,
) -> (r: String)
    ensures
        r@ == spec_component_template(
            dom_strategy,
            html@,
            opt_chars(stripped),
            component_css_snippet(css_strategy, dom_strategy, tag_name@, opt_chars(css_content)),
            component_adopted_specifier(css_strategy, tag_name@, opt_chars(css_content)),
        ),
{
    let adopted: Option<&str> = if css_strategy == CssStrategy::Module && css_content.is_some() {
        Some(tag_name)
    } else {
        None
    };
    let snippet: Option<String> = match css_strategy {
        CssStrategy::Link => {
            if css_content.is_some() && dom_strategy == DomStrategy::Shadow {
                let mut v: Vec<char> = Vec::new();
                push_str(&mut v, "<link rel=\"stylesheet\" href=\"/");
                push_str(&mut v, tag_name);
                push_str(&mut v, ".css\">");
                Some(chars_to_string(v.as_slice()))
            } else {
                None
            }
        },
        CssStrategy::Style => match css_content {
            Some(css) => {
                let c = str_chars(css);
                let t = trim(c.as_slice());
                let mut v: Vec<char> = Vec::new();
                push_str(&mut v, "<style>");
                push_all(&mut v, t.as_slice());
                push_str(&mut v, "</style>");
                Some(chars_to_string(v.as_slice()))
            },
            None => None,
        },
        CssStrategy::Module => None,
    };
    let r = match &snippet {
        Some(s) => process_component_template(dom_strategy, html, stripped, Some(s.as_str()), adopted),
        None => process_component_template(dom_strategy, html, stripped, None, adopted),
    };
    proof {
        let sn = component_css_snippet(css_strategy, dom_strategy, tag_name@, opt_chars(css_content));
        match snippet {
            Some(s) => assert(sn == Some(s@)),
            None => assert(sn is None),
        }
    }
    r
}


/// An attribute of an opening tag, by character positions in the tag's
/// text: the whole attribute spans `[start, end)`, its name
/// `[name_start, name_end)`.
#[derive(Clone, Copy, Debug)]
pub struct AttributeSpan {
    pub start: usize,
    pub end: usize,
    pub name_start: usize,
    pub name_end: usize,
}

/// The attribute's name begins with `@`, `:` or `?`: it is read at run
/// time only.
pub open spec fn is_runtime_attribute(s: Seq<char>, a: AttributeSpan) -> bool {
    a.name_start < a.name_end && (s[a.name_start as int] == '@' || s[a.name_start as int] == ':'
        || s[a.name_start as int] == '?')
}

/// Where the removal of an attribute starting at `start` begins: the
/// spaces directly before it go with it.
pub open spec fn removal_start(s: Seq<char>, start: int) -> int
    decreases start,
{
    if 0 < start <= s.len() && s[start - 1] == ' ' {
        removal_start(s, start - 1)
    } else {
        start
    }
}

/// The attribute positions fit the text: every name lies within it, every
/// runtime attribute too, and each runtime attribute ends before the
/// removal of any later one begins.
pub open spec fn spans_fit(s: Seq<char>, attrs: Seq<AttributeSpan>) -> bool {
    &&& forall|i: int| 0 <= i < attrs.len() ==> #[trigger] attrs[i].name_start <= attrs[i].name_end <= s.len()
    &&& forall|i: int| 0 <= i < attrs.len() && is_runtime_attribute(s, #[trigger] attrs[i])
        ==> attrs[i].start <= s.len() && attrs[i].end <= s.len()
    &&& forall|i: int, j: int| 0 <= i < j < attrs.len() && is_runtime_attribute(s, #[trigger] attrs[i])
        && is_runtime_attribute(s, #[trigger] attrs[j]) ==> attrs[i].end <= removal_start(s, attrs[j].start as int)
}

/// The text from `pos` on, without the runtime attributes from the `i`-th
/// on (each with the spaces directly before it).
pub open spec fn stripped_from(s: Seq<char>, attrs: Seq<AttributeSpan>, i: int, pos: int) -> Seq<char>
    decreases attrs.len() - i,
{
    if i < 0 || i >= attrs.len() {
        s.subrange(pos, s.len() as int)
    } else if is_runtime_attribute(s, attrs[i]) {
        s.subrange(pos, removal_start(s, attrs[i].start as int)) + stripped_from(s, attrs, i + 1, attrs[i].end as int)
    } else {
        stripped_from(s, attrs, i + 1, pos)
    }
}

proof fn lemma_removal_start_bounds(s: Seq<char>, start: int)
    requires
        0 <= start,
    ensures
        0 <= removal_start(s, start) <= start,
    decreases start,
{
    if 0 < start <= s.len() && s[start - 1] == ' ' {
        lemma_removal_start_bounds(s, start - 1);
    }
}

/// Remove from an opening tag the attributes whose names begin with `@`,
/// `:` or `?`, each with the spaces directly before it; `attrs` are the
/// tag's attributes in order, as the HTML syntax tree gives them.
pub fn strip_runtime_attributes(html: &str, attrs: &[AttributeSpan]) -> (r: String)
    requires
        spans_fit(html@, attrs@),
    ensures
        r@ == stripped_from(html@, attrs@, 0, 0),
{
    let s = str_chars(html);
    let mut out: Vec<char> = Vec::new();
    let mut pos: usize = 0;
    let mut i: usize = 0;
    assert forall|j: int| 0 <= j < attrs@.len() && is_runtime_attribute(s@, #[trigger] attrs@[j])
        implies 0 <= removal_start(s@, attrs@[j].start as int) by {
        lemma_removal_start_bounds(s@, attrs@[j].start as int);
    }
    while i < attrs.len()
        invariant
            s@ == html@,
            spans_fit(s@, attrs@),
            0 <= i <= attrs@.len(),
            pos <= s@.len(),
            forall|j: int| i <= j < attrs@.len() && is_runtime_attribute(s@, #[trigger] attrs@[j])
                ==> pos <= removal_start(s@, attrs@[j].start as int),
            out@ + stripped_from(s@, attrs@, i as int, pos as int) == stripped_from(s@, attrs@, 0, 0),
        decreases attrs@.len() - i,
    {
        let a = attrs[i];
        assert(attrs@[i as int] == a);
        assert(a.name_start <= a.name_end <= s@.len());
        let runtime = a.name_start < a.name_end && (s[a.name_start] == '@' || s[a.name_start] == ':'
            || s[a.name_start] == '?');
        assert(runtime == is_runtime_attribute(s@, a));
        if runtime {
            let mut start = a.start;
            while start > 0 && s[start - 1] == ' '
                invariant
                    start <= a.start <= s@.len(),
                    removal_start(s@, a.start as int) == removal_start(s@, start as int),
                decreases start,
            {
                start = start - 1;
            }
            proof {
                lemma_removal_start_bounds(s@, a.start as int);
                assert forall|j: int| i < j < attrs@.len() && is_runtime_attribute(s@, #[trigger] attrs@[j])
                    implies a.end <= removal_start(s@, attrs@[j].start as int) by {
                    assert(is_runtime_attribute(s@, attrs@[i as int]));
                }
                assert(out@ + s@.subrange(pos as int, start as int) + stripped_from(s@, attrs@, i + 1, a.end as int)
                    =~= out@ + stripped_from(s@, attrs@, i as int, pos as int));
            }
            push_range(&mut out, s.as_slice(), pos, start);
            pos = a.end;
        }
        i = i + 1;
    }
    push_range(&mut out, s.as_slice(), pos, s.len());
    chars_to_string(out.as_slice())
}


/// Whether the attribute positions fit the text (see [`spans_fit`]), as
/// [`strip_runtime_attributes`] requires.
pub fn attribute_spans_fit(html: &str, attrs: &[AttributeSpan]) -> (r: bool)
    ensures
        r == spans_fit(html@, attrs@),
{
    let s = str_chars(html);
    let ghost sv = s@;
    let mut seen_runtime = false;
    let mut max_end: usize = 0;
    let mut j: usize = 0;
    while j < attrs.len()
        invariant
            sv == html@,
            s@ == sv,
            0 <= j <= attrs@.len(),
            forall|i: int| 0 <= i < j ==> #[trigger] attrs@[i].name_start <= attrs@[i].name_end <= sv.len(),
            forall|i: int| 0 <= i < j && is_runtime_attribute(sv, #[trigger] attrs@[i])
                ==> attrs@[i].start <= sv.len() && attrs@[i].end <= sv.len(),
            forall|i: int, k: int| 0 <= i < k < j && is_runtime_attribute(sv, #[trigger] attrs@[i])
                && is_runtime_attribute(sv, #[trigger] attrs@[k]) ==> attrs@[i].end <= removal_start(sv, attrs@[k].start as int),
            forall|i: int| 0 <= i < j && is_runtime_attribute(sv, #[trigger] attrs@[i]) ==> attrs@[i].end <= max_end,
            seen_runtime ==> exists|i: int| 0 <= i < j && is_runtime_attribute(sv, #[trigger] attrs@[i]) && attrs@[i].end == max_end,
            !seen_runtime ==> max_end == 0 && forall|i: int| 0 <= i < j ==> !is_runtime_attribute(sv, #[trigger] attrs@[i]),
        decreases attrs@.len() - j,
    {
        let a = attrs[j];
        assert(attrs@[j as int] == a);
        if a.name_start > a.name_end || a.name_end > s.len() {
            return false;
        }
        let runtime = a.name_start < a.name_end && (s[a.name_start] == '@' || s[a.name_start] == ':'
            || s[a.name_start] == '?');
        assert(runtime == is_runtime_attribute(sv, a));
        if runtime {
            if a.start > s.len() || a.end > s.len() {
                return false;
            }
            let mut start = a.start;
            while start > 0 && s[start - 1] == ' '
                invariant
                    s@ == sv,
                    start <= a.start <= sv.len(),
                    removal_start(sv, a.start as int) == removal_start(sv, start as int),
                decreases start,
            {
                start = start - 1;
            }
            if seen_runtime && max_end > start {
                return false;
            }
            proof {
                lemma_removal_start_bounds(sv, a.start as int);
            }
            if !seen_runtime || a.end > max_end {
                max_end = a.end;
            }
            seen_runtime = true;
        }
        j = j + 1;
    }
    true
}


/// Stripping changes nothing when no attribute is read at run time: the
/// text comes back unchanged.
pub proof fn lemma_strip_without_runtime_attributes(s: Seq<char>, attrs: Seq<AttributeSpan>)
    requires
        forall|i: int| 0 <= i < attrs.len() ==> !is_runtime_attribute(s, #[trigger] attrs[i]),
    ensures
        stripped_from(s, attrs, 0, 0) == s,
{
    lemma_stripped_from_plain(s, attrs, 0);
    assert(s.subrange(0, s.len() as int) =~= s);
}

proof fn lemma_stripped_from_plain(s: Seq<char>, attrs: Seq<AttributeSpan>, i: int)
    requires
        0 <= i,
        forall|k: int| 0 <= k < attrs.len() ==> !is_runtime_attribute(s, #[trigger] attrs[k]),
    ensures
        stripped_from(s, attrs, i, 0) == s.subrange(0, s.len() as int),
    decreases attrs.len() - i,
{
    if i < attrs.len() {
        assert(!is_runtime_attribute(s, attrs[i]));
        lemma_stripped_from_plain(s, attrs, i + 1);
    }
}

} // verus!
