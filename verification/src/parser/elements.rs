//! Reading elements from the HTML syntax tree: the first node of a kind,
//! the attributes of a tag, and the removal of runtime-only attributes
//! from the opening `<template>` tag of a component.
use vstd::prelude::*;
use super::component_template::{attribute_spans_fit, spans_fit, strip_runtime_attributes, stripped_from, AttributeSpan};
use super::html_tree::{html_syntax_tree, node_view, nodes_view, parse_html, HtmlNode, HtmlNodeV};
use super::attribute_plan::{attribute_view, attributes_view, TagAttribute};
use super::directive::{fragment_id, FragmentIdCounter};
use super::error::ParserError;
use super::for_directive::{parse_for_each, spec_for_each};
use super::route_parser::{build_route_fragment, extract_params, spec_extract_params, validate_attributes, RouteAttributes};
use crate::protocol::types::{route_view, routes_view, RouteV, WebUiFragmentRoute};
use crate::text::{chars_eq, str_chars};

verus! {

// ── Positions ──────────────────────────────────────────────────────────

/// Every node of the tree spans an ordered range within a text of `len`
/// characters.
pub open spec fn fits_source(n: HtmlNodeV, len: nat) -> bool
    decreases n, 0int,
{
    n.start <= n.end <= len && children_fit(n.children, 0, len)
}

/// The nodes from the `i`-th on fit (see [`fits_source`]).
pub open spec fn children_fit(ns: Seq<HtmlNodeV>, i: int, len: nat) -> bool
    decreases ns, ns.len() - i,
{
    i < 0 || i >= ns.len() || (fits_source(ns[i], len) && children_fit(ns, i + 1, len))
}

proof fn lemma_children_fit(ns: Seq<HtmlNodeV>, i: int, len: nat)
    requires
        0 <= i,
        children_fit(ns, i, len),
    ensures
        forall|k: int| i <= k < ns.len() ==> fits_source(#[trigger] ns[k], len),
    decreases ns.len() - i,
{
    if i < ns.len() {
        lemma_children_fit(ns, i + 1, len);
    }
}

/// Whether every node of the tree fits a text of `len` characters (see
/// [`fits_source`]).
pub fn node_fits(n: &HtmlNode, len: usize) -> (r: bool)
    ensures
        r == fits_source(node_view(*n), len as nat),
    decreases n,
{
    let ghost v = node_view(*n);
    if n.start > n.end || n.end > len {
        return false;
    }
    proof {
        assert(decreases_to!(*n => n.children@));
    }
    let mut k: usize = 0;
    while k < n.children.len()
        invariant
            0 <= k <= n.children@.len(),
            v == node_view(*n),
            v.children == nodes_view(n.children@),
            decreases_to!(*n => n.children@),
            fits_source(v, len as nat) == (v.start <= v.end <= len && children_fit(v.children, k as int, len as nat)),
        decreases n.children@.len() - k,
    {
        proof {
            assert(decreases_to!(n.children@ => n.children@[k as int]));
            assert(v.children[k as int] == node_view(n.children@[k as int]));
        }
        if !node_fits(&n.children[k], len) {
            return false;
        }
        k = k + 1;
    }
    true
}

// ── The first node of a kind ───────────────────────────────────────────

/// The first node of kind `kind` in preorder: the node itself, or the first
/// found in its children in order.
pub open spec fn first_of_kind(n: HtmlNodeV, kind: Seq<char>) -> Option<HtmlNodeV>
    decreases n, 0int,
{
    if n.kind == kind {
        Some(n)
    } else {
        first_of_kind_in(n.children, 0, kind)
    }
}

/// The first node of kind `kind` in preorder among the trees from the
/// `i`-th on.
pub open spec fn first_of_kind_in(ns: Seq<HtmlNodeV>, i: int, kind: Seq<char>) -> Option<HtmlNodeV>
    decreases ns, ns.len() - i,
{
    if i < 0 || i >= ns.len() {
        None
    } else {
        match first_of_kind(ns[i], kind) {
            Some(x) => Some(x),
            None => first_of_kind_in(ns, i + 1, kind),
        }
    }
}

/// The first node of kind `kind` in preorder (see [`first_of_kind`]).
pub fn find_first_node<'a>(root: &'a HtmlNode, kind: &str) -> (r: Option<&'a HtmlNode>)
    ensures
        match first_of_kind(node_view(*root), kind@) {
            Some(x) => r matches Some(y) && node_view(*y) == x,
            None => r is None,
        },
    decreases root,
{
    let ghost v = node_view(*root);
    let k = str_chars(root.kind.as_str());
    let want = str_chars(kind);
    if chars_eq(k.as_slice(), want.as_slice()) {
        return Some(root);
    }
    proof {
        assert(decreases_to!(*root => root.children@));
    }
    let mut i: usize = 0;
    while i < root.children.len()
        invariant
            0 <= i <= root.children@.len(),
            v == node_view(*root),
            v.kind != kind@,
            v.children == nodes_view(root.children@),
            decreases_to!(*root => root.children@),
            first_of_kind(v, kind@) == first_of_kind_in(v.children, i as int, kind@),
        decreases root.children@.len() - i,
    {
        proof {
            assert(decreases_to!(root.children@ => root.children@[i as int]));
            assert(v.children[i as int] == node_view(root.children@[i as int]));
        }
        match find_first_node(&root.children[i], kind) {
            Some(x) => {
                return Some(x);
            },
            None => {},
        }
        i = i + 1;
    }
    None
}

// ── Attributes of a tag ────────────────────────────────────────────────

/// The span of an attribute node whose first child is its name.
pub open spec fn attribute_span(a: HtmlNodeV) -> AttributeSpan {
    AttributeSpan {
        start: a.start as usize,
        end: a.end as usize,
        name_start: a.children[0].start as usize,
        name_end: a.children[0].end as usize,
    }
}

/// The attribute is a named `attribute` node with at least one child.
pub open spec fn is_attribute_node(c: HtmlNodeV) -> bool {
    c.named && c.kind == "attribute"@ && c.children.len() > 0
}

/// The spans of the attributes among the children of a tag from the `i`-th
/// on: its named `attribute` children with a first child, in order.
pub open spec fn attribute_spans_from(cs: Seq<HtmlNodeV>, i: int) -> Seq<AttributeSpan>
    decreases cs.len() - i,
{
    if i < 0 || i >= cs.len() {
        Seq::empty()
    } else if is_attribute_node(cs[i]) {
        seq![attribute_span(cs[i])] + attribute_spans_from(cs, i + 1)
    } else {
        attribute_spans_from(cs, i + 1)
    }
}

/// The spans of the attributes of a tag node.
pub fn tag_attribute_spans(tag: &HtmlNode) -> (r: Vec<AttributeSpan>)
    ensures
        r@ == attribute_spans_from(node_view(*tag).children, 0),
{
    let ghost cs = node_view(*tag).children;
    let attr = str_chars("attribute");
    let mut out: Vec<AttributeSpan> = Vec::new();
    let mut i: usize = 0;
    while i < tag.children.len()
        invariant
            0 <= i <= tag.children@.len(),
            cs == nodes_view(tag.children@),
            attr@ == "attribute"@,
            out@ + attribute_spans_from(cs, i as int) == attribute_spans_from(cs, 0),
        decreases tag.children@.len() - i,
    {
        let c = &tag.children[i];
        assert(cs[i as int] == node_view(*c));
        let k = str_chars(c.kind.as_str());
        if c.named && chars_eq(k.as_slice(), attr.as_slice()) && c.children.len() > 0 {
            let name = &c.children[0];
            assert(node_view(*c).children[0] == node_view(*name));
            let sp = AttributeSpan { start: c.start, end: c.end, name_start: name.start, name_end: name.end };
            proof {
                assert(sp == attribute_span(cs[i as int]));
                assert(out@.push(sp) + attribute_spans_from(cs, i + 1) =~= out@ + attribute_spans_from(cs, i as int));
            }
            out.push(sp);
        }
        i = i + 1;
    }
    assert(out@ + Seq::<AttributeSpan>::empty() =~= out@);
    out
}

/// A template with the runtime attributes of its first start tag removed,
/// by its syntax tree `t`: without a start tag, or where the attribute
/// positions do not fit the text, it stays as it is.
pub open spec fn strip_with_tree(html: Seq<char>, t: HtmlNodeV) -> Seq<char> {
    match first_of_kind(t, "start_tag"@) {
        None => html,
        Some(tag) => {
            let spans = attribute_spans_from(tag.children, 0);
            if spans_fit(html, spans) {
                stripped_from(html, spans, 0, 0)
            } else {
                html
            }
        },
    }
}

/// Strip the attributes starting with `@`, `:` or `?` (each with the spaces
/// directly before it) from the first start tag of a template, by the
/// template's syntax tree (see [`strip_with_tree`]).
pub fn strip_runtime_attrs_with_tree(html: &str, tree: &HtmlNode) -> (r: String)
    ensures
        r@ == strip_with_tree(html@, node_view(*tree)),
{
    let tag = match find_first_node(tree, "start_tag") {
        Some(t) => t,
        None => return String::from_str(html),
    };
    let spans = tag_attribute_spans(tag);
    if !attribute_spans_fit(html, spans.as_slice()) {
        return String::from_str(html);
    }
    strip_runtime_attributes(html, spans.as_slice())
}

/// Strip the attributes starting with `@`, `:` or `?` from the first start
/// tag of a template, parsing it into its HTML syntax tree (see
/// [`strip_runtime_attrs_with_tree`]).
pub fn strip_runtime_attrs_from_template(html: &str) -> (r: String)
    ensures
        r@ == strip_with_tree(html@, html_syntax_tree(html@)),
{
    let t = parse_html(html);
    strip_runtime_attrs_with_tree(html, &t)
}


// ── Attributes of elements ─────────────────────────────────────────────

/// The text a node spans.
pub open spec fn node_text(s: Seq<char>, n: HtmlNodeV) -> Seq<char> {
    s.subrange(n.start as int, n.end as int)
}

/// The characters of the text a node spans.
fn text_of(s: &Vec<char>, n: &HtmlNode) -> (r: Vec<char>)
    requires
        n.start <= n.end <= s@.len(),
    ensures
        r@ == node_text(s@, node_view(*n)),
{
    let mut out: Vec<char> = Vec::new();
    super::fast::push_range(&mut out, s.as_slice(), n.start, n.end);
    out
}

/// The node is named and of kind `kind`.
pub open spec fn named_kind(n: HtmlNodeV, kind: Seq<char>) -> bool {
    n.named && n.kind == kind
}

/// The index of the first child from the `i`-th on that is a named start
/// tag or self-closing tag.
pub open spec fn tag_index(cs: Seq<HtmlNodeV>, i: int) -> Option<int>
    decreases cs.len() - i,
{
    if i < 0 || i >= cs.len() {
        None
    } else if named_kind(cs[i], "start_tag"@) || named_kind(cs[i], "self_closing_tag"@) {
        Some(i)
    } else {
        tag_index(cs, i + 1)
    }
}

/// The index of the first child from the `i`-th on that is named and of
/// kind `kind`.
pub open spec fn kind_index(cs: Seq<HtmlNodeV>, i: int, kind: Seq<char>) -> Option<int>
    decreases cs.len() - i,
{
    if i < 0 || i >= cs.len() {
        None
    } else if named_kind(cs[i], kind) {
        Some(i)
    } else {
        kind_index(cs, i + 1, kind)
    }
}

/// The value node of an attribute among its children from the `i`-th on:
/// an `attribute_value`, or the `attribute_value` inside a
/// `quoted_attribute_value`.
pub open spec fn value_node(cs: Seq<HtmlNodeV>, i: int) -> Option<HtmlNodeV>
    decreases cs.len() - i,
{
    if i < 0 || i >= cs.len() {
        None
    } else if named_kind(cs[i], "attribute_value"@) {
        Some(cs[i])
    } else if named_kind(cs[i], "quoted_attribute_value"@) && kind_index(cs[i].children, 0, "attribute_value"@) is Some {
        Some(cs[i].children[kind_index(cs[i].children, 0, "attribute_value"@).unwrap()])
    } else {
        value_node(cs, i + 1)
    }
}

/// The name node of an attribute node.
pub open spec fn name_node(a: HtmlNodeV) -> Option<HtmlNodeV> {
    match kind_index(a.children, 0, "attribute_name"@) {
        Some(k) => Some(a.children[k]),
        None => None,
    }
}

/// The attribute node is named `name`.
pub open spec fn attribute_named(s: Seq<char>, a: HtmlNodeV, name: Seq<char>) -> bool {
    &&& named_kind(a, "attribute"@)
    &&& name_node(a) is Some
    &&& node_text(s, name_node(a).unwrap()) == name
}

/// The value of the first attribute named `name` that has a value, among
/// the children of a tag from the `i`-th on.
pub open spec fn valued_attribute_in(cs: Seq<HtmlNodeV>, i: int, s: Seq<char>, name: Seq<char>) -> Option<Seq<char>>
    decreases cs.len() - i,
{
    if i < 0 || i >= cs.len() {
        None
    } else if attribute_named(s, cs[i], name) && value_node(cs[i].children, 0) is Some {
        Some(node_text(s, value_node(cs[i].children, 0).unwrap()))
    } else {
        valued_attribute_in(cs, i + 1, s, name)
    }
}

/// The value of attribute `name` on an element's own tag, if it is there
/// with a value.
pub open spec fn own_attribute_value(e: HtmlNodeV, s: Seq<char>, name: Seq<char>) -> Option<Seq<char>> {
    match tag_index(e.children, 0) {
        Some(t) => valued_attribute_in(e.children[t].children, 0, s, name),
        None => None,
    }
}

/// Some attribute (with or without a value) of an element's own tag is
/// named `name`.
pub open spec fn has_own_attribute(e: HtmlNodeV, s: Seq<char>, name: Seq<char>) -> bool {
    match tag_index(e.children, 0) {
        Some(t) => exists|k: int| 0 <= k < e.children[t].children.len()
            && attribute_named(s, #[trigger] e.children[t].children[k], name),
        None => false,
    }
}

proof fn lemma_has_own_attribute(e: HtmlNodeV, s: Seq<char>, name: Seq<char>, t: int, k: int)
    requires
        tag_index(e.children, 0) == Some(t),
        0 <= t < e.children.len(),
        0 <= k < e.children[t].children.len(),
        attribute_named(s, e.children[t].children[k], name),
    ensures
        has_own_attribute(e, s, name),
{
    let a = e.children[t].children[k];
    assert(attribute_named(s, a, name));
    let tt = tag_index(e.children, 0).unwrap();
    assert(tt == t);
    assert(e.children[tt].children[k] == a);
    assert(exists|j: int| 0 <= j < e.children[tt].children.len()
        && attribute_named(s, #[trigger] e.children[tt].children[j], name));
}

fn is_kind(n: &HtmlNode, kind: &str) -> (r: bool)
    ensures
        r == named_kind(node_view(*n), kind@),
{
    let k = str_chars(n.kind.as_str());
    let want = str_chars(kind);
    n.named && chars_eq(k.as_slice(), want.as_slice())
}

fn find_tag_index(cs: &Vec<HtmlNode>) -> (r: Option<usize>)
    ensures
        r matches Some(t) ==> t < cs@.len() && tag_index(nodes_view(cs@), 0) == Some(t as int),
        r is None ==> tag_index(nodes_view(cs@), 0) is None,
{
    let ghost v = nodes_view(cs@);
    let mut i: usize = 0;
    while i < cs.len()
        invariant
            0 <= i <= cs@.len(),
            v == nodes_view(cs@),
            tag_index(v, 0) == tag_index(v, i as int),
        decreases cs@.len() - i,
    {
        assert(v[i as int] == node_view(cs@[i as int]));
        if is_kind(&cs[i], "start_tag") || is_kind(&cs[i], "self_closing_tag") {
            return Some(i);
        }
        i = i + 1;
    }
    None
}

fn find_kind_index(cs: &Vec<HtmlNode>, kind: &str) -> (r: Option<usize>)
    ensures
        r matches Some(t) ==> t < cs@.len() && kind_index(nodes_view(cs@), 0, kind@) == Some(t as int),
        r is None ==> kind_index(nodes_view(cs@), 0, kind@) is None,
{
    let ghost v = nodes_view(cs@);
    let mut i: usize = 0;
    while i < cs.len()
        invariant
            0 <= i <= cs@.len(),
            v == nodes_view(cs@),
            kind_index(v, 0, kind@) == kind_index(v, i as int, kind@),
        decreases cs@.len() - i,
    {
        assert(v[i as int] == node_view(cs@[i as int]));
        if is_kind(&cs[i], kind) {
            return Some(i);
        }
        i = i + 1;
    }
    None
}

fn find_value_node(cs: &Vec<HtmlNode>) -> (r: Option<&HtmlNode>)
    ensures
        match value_node(nodes_view(cs@), 0) {
            Some(x) => r matches Some(y) && node_view(*y) == x,
            None => r is None,
        },
{
    let ghost v = nodes_view(cs@);
    let mut i: usize = 0;
    while i < cs.len()
        invariant
            0 <= i <= cs@.len(),
            v == nodes_view(cs@),
            value_node(v, 0) == value_node(v, i as int),
        decreases cs@.len() - i,
    {
        let c = &cs[i];
        assert(v[i as int] == node_view(*c));
        if is_kind(c, "attribute_value") {
            return Some(c);
        }
        if is_kind(c, "quoted_attribute_value") {
            if let Some(k) = find_kind_index(&c.children, "attribute_value") {
                assert(node_view(*c).children[k as int] == node_view(c.children@[k as int]));
                return Some(&c.children[k]);
            }
        }
        i = i + 1;
    }
    None
}

/// Whether an attribute node is named `name` (see [`attribute_named`]).
fn is_attribute_named(s: &Vec<char>, a: &HtmlNode, name: &Vec<char>) -> (r: bool)
    requires
        fits_source(node_view(*a), s@.len()),
    ensures
        r == attribute_named(s@, node_view(*a), name@),
{
    if !is_kind(a, "attribute") {
        return false;
    }
    match find_kind_index(&a.children, "attribute_name") {
        Some(k) => {
            let nm = &a.children[k];
            proof {
                lemma_children_fit(node_view(*a).children, 0, s@.len());
                assert(node_view(*a).children[k as int] == node_view(*nm));
            }
            let t = text_of(s, nm);
            chars_eq(t.as_slice(), name.as_slice())
        },
        None => false,
    }
}

/// The value of attribute `name` on an element's own tag (see
/// [`own_attribute_value`]).
fn own_value(s: &Vec<char>, e: &HtmlNode, name: &Vec<char>) -> (r: Option<Vec<char>>)
    requires
        fits_source(node_view(*e), s@.len()),
    ensures
        match own_attribute_value(node_view(*e), s@, name@) {
            Some(v) => r matches Some(x) && x@ == v,
            None => r is None,
        },
{
    let t = match find_tag_index(&e.children) {
        Some(t) => t,
        None => return None,
    };
    proof {
        lemma_children_fit(node_view(*e).children, 0, s@.len());
        assert(node_view(*e).children[t as int] == node_view(e.children@[t as int]));
    }
    let tag = &e.children[t];
    let ghost cs = node_view(*tag).children;
    proof {
        lemma_children_fit(cs, 0, s@.len());
    }
    let mut i: usize = 0;
    while i < tag.children.len()
        invariant
            0 <= i <= tag.children@.len(),
            cs == nodes_view(tag.children@),
            forall|k: int| 0 <= k < cs.len() ==> fits_source(#[trigger] cs[k], s@.len()),
            own_attribute_value(node_view(*e), s@, name@) == valued_attribute_in(cs, i as int, s@, name@),
        decreases tag.children@.len() - i,
    {
        let a = &tag.children[i];
        assert(cs[i as int] == node_view(*a));
        if is_attribute_named(s, a, name) {
            if let Some(v) = find_value_node(&a.children) {
                proof {
                    lemma_children_fit(node_view(*a).children, 0, s@.len());
                    lemma_value_node_fits(node_view(*a).children, 0, s@.len());
                }
                return Some(text_of(s, v));
            }
        }
        i = i + 1;
    }
    None
}

proof fn lemma_value_node_fits(cs: Seq<HtmlNodeV>, i: int, len: nat)
    requires
        forall|k: int| 0 <= k < cs.len() ==> fits_source(#[trigger] cs[k], len),
    ensures
        value_node(cs, i) matches Some(v) ==> v.start <= v.end <= len,
    decreases cs.len() - i,
{
    if 0 <= i < cs.len() {
        if named_kind(cs[i], "quoted_attribute_value"@) && kind_index(cs[i].children, 0, "attribute_value"@) is Some {
            assert(fits_source(cs[i], len));
            lemma_children_fit(cs[i].children, 0, len);
            lemma_kind_index_range(cs[i].children, 0, "attribute_value"@);
        }
        lemma_value_node_fits(cs, i + 1, len);
    }
}

proof fn lemma_kind_index_range(cs: Seq<HtmlNodeV>, i: int, kind: Seq<char>)
    ensures
        kind_index(cs, i, kind) matches Some(k) ==> 0 <= k < cs.len(),
    decreases cs.len() - i,
{
    if 0 <= i < cs.len() && !named_kind(cs[i], kind) {
        lemma_kind_index_range(cs, i + 1, kind);
    }
}

/// The value of attribute `name` on an element's own start or self-closing
/// tag, when it is there with a value (see [`own_attribute_value`]).
pub fn get_element_attribute(node: &HtmlNode, attr_name: &str, source: &str) -> (r: Option<String>)
    requires
        fits_source(node_view(*node), source@.len()),
    ensures
        match own_attribute_value(node_view(*node), source@, attr_name@) {
            Some(v) => r matches Some(x) && x@ == v,
            None => r is None,
        },
{
    let s = str_chars(source);
    let name = str_chars(attr_name);
    match own_value(&s, node, &name) {
        Some(v) => Some(crate::text::chars_to_string(v.as_slice())),
        None => None,
    }
}

/// Whether an element's own tag has attribute `name`, with or without a
/// value (see [`has_own_attribute`]).
pub fn has_element_attribute(node: &HtmlNode, attr_name: &str, source: &str) -> (r: bool)
    requires
        fits_source(node_view(*node), source@.len()),
    ensures
        r == has_own_attribute(node_view(*node), source@, attr_name@),
{
    let s = str_chars(source);
    let name = str_chars(attr_name);
    let t = match find_tag_index(&node.children) {
        Some(t) => t,
        None => return false,
    };
    proof {
        lemma_children_fit(node_view(*node).children, 0, s@.len());
        assert(node_view(*node).children[t as int] == node_view(node.children@[t as int]));
    }
    let tag = &node.children[t];
    let ghost cs = node_view(*tag).children;
    proof {
        lemma_children_fit(cs, 0, s@.len());
    }
    let mut i: usize = 0;
    while i < tag.children.len()
        invariant
            0 <= i <= tag.children@.len(),
            s@ == source@,
            name@ == attr_name@,
            t < node_view(*node).children.len(),
            cs == nodes_view(tag.children@),
            cs == node_view(*node).children[t as int].children,
            tag_index(node_view(*node).children, 0) == Some(t as int),
            forall|k: int| 0 <= k < cs.len() ==> fits_source(#[trigger] cs[k], s@.len()),
            forall|k: int| 0 <= k < i ==> !attribute_named(s@, #[trigger] cs[k], name@),
        decreases tag.children@.len() - i,
    {
        assert(cs[i as int] == node_view(tag.children@[i as int]));
        if is_attribute_named(&s, &tag.children[i], &name) {
            let ghost e = node_view(*node);
            assert(cs.len() == tag.children@.len());
            assert(attribute_named(s@, e.children[t as int].children[i as int], name@));
            proof {
                lemma_has_own_attribute(e, s@, name@, t as int, i as int);
            }
            return true;
        }
        i = i + 1;
    }
    false
}

/// The name of an element's tag: the text of the first named `tag_name`
/// child of the first of its start or self-closing tags that has one.
pub open spec fn tag_name_from(cs: Seq<HtmlNodeV>, i: int, s: Seq<char>) -> Option<Seq<char>>
    decreases cs.len() - i,
{
    if i < 0 || i >= cs.len() {
        None
    } else if (named_kind(cs[i], "start_tag"@) || named_kind(cs[i], "self_closing_tag"@))
        && kind_index(cs[i].children, 0, "tag_name"@) is Some {
        Some(node_text(s, cs[i].children[kind_index(cs[i].children, 0, "tag_name"@).unwrap()]))
    } else {
        tag_name_from(cs, i + 1, s)
    }
}

/// The tag name of an element (see [`tag_name_from`]), or the error for an
/// element without one.
pub fn get_element_tag_name(node: &HtmlNode, source: &str) -> (r: Result<String, super::error::ParserError>)
    requires
        fits_source(node_view(*node), source@.len()),
    ensures
        match tag_name_from(node_view(*node).children, 0, source@) {
            Some(t) => r matches Ok(x) && x@ == t,
            None => r matches Err(super::error::ParserError::Html(m)) && m@ == "Failed to extract tag name"@,
        },
{
    let s = str_chars(source);
    let ghost cs = node_view(*node).children;
    proof {
        lemma_children_fit(cs, 0, s@.len());
    }
    let mut i: usize = 0;
    while i < node.children.len()
        invariant
            0 <= i <= node.children@.len(),
            s@ == source@,
            cs == nodes_view(node.children@),
            forall|k: int| 0 <= k < cs.len() ==> fits_source(#[trigger] cs[k], s@.len()),
            tag_name_from(cs, 0, s@) == tag_name_from(cs, i as int, s@),
        decreases node.children@.len() - i,
    {
        let c = &node.children[i];
        assert(cs[i as int] == node_view(*c));
        if is_kind(c, "start_tag") || is_kind(c, "self_closing_tag") {
            if let Some(k) = find_kind_index(&c.children, "tag_name") {
                proof {
                    lemma_children_fit(node_view(*c).children, 0, s@.len());
                    assert(node_view(*c).children[k as int] == node_view(c.children@[k as int]));
                }
                let t = text_of(&s, &c.children[k]);
                return Ok(crate::text::chars_to_string(t.as_slice()));
            }
        }
        i = i + 1;
    }
    Err(super::error::ParserError::Html(String::from_str("Failed to extract tag name")))
}


// ── Routes ─────────────────────────────────────────────────────────────

/// The text of an optional attribute, empty when it is missing.
pub open spec fn or_empty(o: Option<Seq<char>>) -> Seq<char> {
    match o {
        Some(v) => v,
        None => Seq::empty(),
    }
}

/// The route a `<route>` element describes, with its nested `<route>`
/// elements, or the directive error. Only the element's own tag is read:
/// its `path`, `component` and `query` attributes (empty when without a
/// value; no `query` forwards no query parameters) and whether it has
/// `exact`. The path and the component are required and the path's
/// parameters must be valid.
pub open spec fn spec_route_of(n: HtmlNodeV, s: Seq<char>) -> Result<RouteV, Seq<char>>
    decreases n, 1int,
{
    let path = or_empty(own_attribute_value(n, s, "path"@));
    let component = or_empty(own_attribute_value(n, s, "component"@));
    let exact = has_own_attribute(n, s, "exact"@);
    let query = or_empty(own_attribute_value(n, s, "query"@));
    if !has_own_attribute(n, s, "path"@) {
        Err("Route must have a 'path' attribute"@)
    } else if component.len() == 0 {
        Err("Route '"@ + path + "' must have a 'component' attribute"@)
    } else {
        match spec_extract_params(path) {
            Err(m) => Err(m),
            Ok(_) => match spec_child_routes(n.children, 0, s) {
                Err(m) => Err(m),
                Ok(cs) => Ok(RouteV { path, fragment_id: component, exact, children: cs, allowed_query: query }),
            },
        }
    }
}

/// The routes of the `<route>` elements among the nodes from the `i`-th on,
/// in order, or the first error.
pub open spec fn spec_child_routes(ns: Seq<HtmlNodeV>, i: int, s: Seq<char>) -> Result<Seq<RouteV>, Seq<char>>
    decreases ns, ns.len() - i,
{
    if i < 0 || i >= ns.len() {
        Ok(Seq::empty())
    } else if named_kind(ns[i], "element"@) && tag_name_from(ns[i].children, 0, s) == Some("route"@) {
        match spec_route_of(ns[i], s) {
            Err(m) => Err(m),
            Ok(r) => match spec_child_routes(ns, i + 1, s) {
                Err(m) => Err(m),
                Ok(rs) => Ok(seq![r] + rs),
            },
        }
    } else {
        spec_child_routes(ns, i + 1, s)
    }
}

fn attribute_or_empty(node: &HtmlNode, name: &str, source: &str) -> (r: String)
    requires
        fits_source(node_view(*node), source@.len()),
    ensures
        r@ == or_empty(own_attribute_value(node_view(*node), source@, name@)),
{
    match get_element_attribute(node, name, source) {
        Some(v) => v,
        None => String::new(),
    }
}

/// Parse a `<route>` element into a route fragment with its nested routes
/// (see [`spec_route_of`]). The route's component template is not parsed
/// here: that is the caller's, with its component registry.
pub fn parse_route_as_fragment(node: &HtmlNode, source: &str) -> (r: Result<WebUiFragmentRoute, ParserError>)
    requires
        fits_source(node_view(*node), source@.len()),
    ensures
        match spec_route_of(node_view(*node), source@) {
            Ok(rv) => r matches Ok(x) && route_view(x) == rv,
            Err(m) => r matches Err(ParserError::Directive(x)) && x@ == m,
        },
    decreases node, 1int,
{
    let path = attribute_or_empty(node, "path", source);
    let component = attribute_or_empty(node, "component", source);
    let exact = has_element_attribute(node, "exact", source);
    let query = attribute_or_empty(node, "query", source);
    if !has_element_attribute(node, "path", source) {
        return Err(ParserError::Directive(String::from_str("Route must have a 'path' attribute")));
    }
    let attrs = RouteAttributes { path, component, exact, query };
    match validate_attributes(&attrs) {
        Ok(()) => {},
        Err(e) => return Err(e),
    }
    match extract_params(attrs.path.as_str()) {
        Ok(_) => {},
        Err(e) => return Err(e),
    }
    let children = match parse_child_routes(node, source) {
        Ok(c) => c,
        Err(e) => return Err(e),
    };
    let id = attrs.component.clone();
    Ok(build_route_fragment(&attrs, id, children))
}

/// Parse the nested `<route>` elements among the children of a route
/// element, in order (see [`spec_child_routes`]).
pub fn parse_child_routes(node: &HtmlNode, source: &str) -> (r: Result<Vec<WebUiFragmentRoute>, ParserError>)
    requires
        fits_source(node_view(*node), source@.len()),
    ensures
        match spec_child_routes(node_view(*node).children, 0, source@) {
            Ok(rs) => r matches Ok(v) && routes_view(v@) == rs,
            Err(m) => r matches Err(ParserError::Directive(x)) && x@ == m,
        },
    decreases node, 0int,
{
    let ghost cs = node_view(*node).children;
    proof {
        assert(decreases_to!(*node => node.children@));
        lemma_children_fit(cs, 0, source@.len());
    }
    let mut out: Vec<WebUiFragmentRoute> = Vec::new();
    let mut i: usize = 0;
    while i < node.children.len()
        invariant
            0 <= i <= node.children@.len(),
            cs == node_view(*node).children,
            cs == nodes_view(node.children@),
            decreases_to!(*node => node.children@),
            forall|k: int| 0 <= k < cs.len() ==> fits_source(#[trigger] cs[k], source@.len()),
            match spec_child_routes(cs, 0, source@) {
                Ok(all) => match spec_child_routes(cs, i as int, source@) {
                    Ok(rest) => all == routes_view(out@) + rest,
                    Err(_) => false,
                },
                Err(m) => spec_child_routes(cs, i as int, source@) == Err::<Seq<RouteV>, Seq<char>>(m),
            },
        decreases node.children@.len() - i,
    {
        let c = &node.children[i];
        assert(cs[i as int] == node_view(*c));
        proof {
            assert(decreases_to!(node.children@ => node.children@[i as int]));
        }
        let is_route = if is_kind(c, "element") {
            match get_element_tag_name(c, source) {
                Ok(tag) => {
                    let t = str_chars(tag.as_str());
                    let rt = str_chars("route");
                    chars_eq(t.as_slice(), rt.as_slice())
                },
                Err(_) => false,
            }
        } else {
            false
        };
        if is_route {
            match parse_route_as_fragment(c, source) {
                Ok(route) => {
                    let ghost prev = routes_view(out@);
                    out.push(route);
                    proof {
                        assert(routes_view(out@) =~= prev.push(route_view(route)));
                        match spec_child_routes(cs, 0, source@) {
                            Ok(all) => {
                                let rest = spec_child_routes(cs, i + 1, source@)->Ok_0;
                                assert(prev + (seq![route_view(route)] + rest) =~= routes_view(out@) + rest);
                            },
                            Err(_) => {},
                        }
                    }
                },
                Err(e) => {
                    return Err(e);
                },
            }
        }
        i = i + 1;
    }
    proof {
        if let Ok(all) = spec_child_routes(cs, 0, source@) {
            assert(routes_view(out@) + Seq::<RouteV>::empty() =~= routes_view(out@));
        }
    }
    Ok(out)
}


// ── Directive heads ────────────────────────────────────────────────────

/// Item, collection and body fragment id of a `<for>` element: its `each`
/// attribute read as `item in collection` (see [`spec_for_each`]), and its
/// `template` attribute or else a new `for-n` id. Reading the body is the
/// caller's.
pub fn for_directive_head(node: &HtmlNode, source: &str, ids: &mut FragmentIdCounter) -> (r: Result<
    (String, String, String),
    ParserError,
>)
    requires
        fits_source(node_view(*node), source@.len()),
        old(ids).count_of("for"@) < usize::MAX,
    ensures
        match spec_for_each(own_attribute_value(node_view(*node), source@, "each"@)) {
            Err(m) => r matches Err(ParserError::Directive(x)) && x@ == m && *final(ids) == *old(ids),
            Ok((item, collection)) => r matches Ok((a, b, f)) && a@ == item && b@ == collection && match own_attribute_value(
                node_view(*node),
                source@,
                "template"@,
            ) {
                Some(t) => f@ == t && *final(ids) == *old(ids),
                None => f@ == fragment_id("for"@, final(ids).count_of("for"@))
                    && final(ids).count_of("for"@) == old(ids).count_of("for"@) + 1
                    && forall|q: Seq<char>| q != "for"@ ==> final(ids).count_of(q) == old(ids).count_of(q),
            },
        },
{
    let each = get_element_attribute(node, "each", source);
    let each_str: Option<&str> = match &each {
        Some(e) => Some(e.as_str()),
        None => None,
    };
    let (item, collection) = match parse_for_each(each_str) {
        Ok(p) => p,
        Err(e) => return Err(e),
    };
    let fragment_id = match get_element_attribute(node, "template", source) {
        Some(t) => t,
        None => ids.next_id("for"),
    };
    Ok((item, collection, fragment_id))
}

/// The `condition` attribute of an `<if>` element, or the directive error
/// when it is missing. Parsing the condition and reading the body are the
/// caller's.
pub fn if_directive_condition(node: &HtmlNode, source: &str) -> (r: Result<String, ParserError>)
    requires
        fits_source(node_view(*node), source@.len()),
    ensures
        match own_attribute_value(node_view(*node), source@, "condition"@) {
            Some(c) => r matches Ok(x) && x@ == c,
            None => r matches Err(ParserError::Directive(m)) && m@ == "Missing 'condition' attribute on <if>"@,
        },
{
    match get_element_attribute(node, "condition", source) {
        Some(c) => Ok(c),
        None => Err(ParserError::Directive(String::from_str("Missing 'condition' attribute on <if>"))),
    }
}

// ── The attributes of a tag ────────────────────────────────────────────

/// The index of the first child from the `i`-th on of kind `kind`, named or
/// not.
pub open spec fn any_kind_index(cs: Seq<HtmlNodeV>, i: int, kind: Seq<char>) -> Option<int>
    decreases cs.len() - i,
{
    if i < 0 || i >= cs.len() {
        None
    } else if cs[i].kind == kind {
        Some(i)
    } else {
        any_kind_index(cs, i + 1, kind)
    }
}

/// The value of an attribute node, from its children from the `i`-th on: the
/// text of the `attribute_value` inside the first `quoted_attribute_value`
/// (empty when it has none), or of the first bare `attribute_value`.
pub open spec fn attribute_value_from(cs: Seq<HtmlNodeV>, i: int, s: Seq<char>) -> Option<Seq<char>>
    decreases cs.len() - i,
{
    if i < 0 || i >= cs.len() {
        None
    } else if cs[i].kind == "quoted_attribute_value"@ {
        Some(
            match any_kind_index(cs[i].children, 0, "attribute_value"@) {
                Some(k) => node_text(s, cs[i].children[k]),
                None => Seq::empty(),
            },
        )
    } else if cs[i].kind == "attribute_value"@ {
        Some(node_text(s, cs[i]))
    } else {
        attribute_value_from(cs, i + 1, s)
    }
}

/// The names and values of the attributes of a tag node from its `i`-th
/// child on (its named `attribute` children, in order), or the error for an
/// attribute without a name.
pub open spec fn spec_tag_attributes(cs: Seq<HtmlNodeV>, i: int, s: Seq<char>) -> Result<
    Seq<(Seq<char>, Option<Seq<char>>)>,
    Seq<char>,
>
    decreases cs.len() - i,
{
    if i < 0 || i >= cs.len() {
        Ok(Seq::empty())
    } else if named_kind(cs[i], "attribute"@) {
        match any_kind_index(cs[i].children, 0, "attribute_name"@) {
            None => Err("Attribute node missing attribute_name"@),
            Some(k) => match spec_tag_attributes(cs, i + 1, s) {
                Err(m) => Err(m),
                Ok(rest) => Ok(
                    seq![(node_text(s, cs[i].children[k]), attribute_value_from(cs[i].children, 0, s))] + rest,
                ),
            },
        }
    } else {
        spec_tag_attributes(cs, i + 1, s)
    }
}

proof fn lemma_any_kind_index_range(cs: Seq<HtmlNodeV>, i: int, kind: Seq<char>)
    ensures
        any_kind_index(cs, i, kind) matches Some(k) ==> 0 <= k < cs.len(),
    decreases cs.len() - i,
{
    if 0 <= i < cs.len() && cs[i].kind != kind {
        lemma_any_kind_index_range(cs, i + 1, kind);
    }
}

fn find_any_kind(cs: &Vec<HtmlNode>, kind: &str) -> (r: Option<usize>)
    ensures
        r matches Some(t) ==> t < cs@.len() && any_kind_index(nodes_view(cs@), 0, kind@) == Some(t as int),
        r is None ==> any_kind_index(nodes_view(cs@), 0, kind@) is None,
{
    let ghost v = nodes_view(cs@);
    let want = str_chars(kind);
    let mut i: usize = 0;
    while i < cs.len()
        invariant
            0 <= i <= cs@.len(),
            v == nodes_view(cs@),
            want@ == kind@,
            any_kind_index(v, 0, kind@) == any_kind_index(v, i as int, kind@),
        decreases cs@.len() - i,
    {
        assert(v[i as int] == node_view(cs@[i as int]));
        let k = str_chars(cs[i].kind.as_str());
        if chars_eq(k.as_slice(), want.as_slice()) {
            return Some(i);
        }
        i = i + 1;
    }
    None
}

/// The value of an attribute node (see [`attribute_value_from`]).
fn attribute_value_of(s: &Vec<char>, a: &HtmlNode) -> (r: Option<Vec<char>>)
    requires
        fits_source(node_view(*a), s@.len()),
    ensures
        match attribute_value_from(node_view(*a).children, 0, s@) {
            Some(v) => r matches Some(x) && x@ == v,
            None => r is None,
        },
{
    let ghost cs = node_view(*a).children;
    proof {
        lemma_children_fit(cs, 0, s@.len());
    }
    let quoted = str_chars("quoted_attribute_value");
    let bare = str_chars("attribute_value");
    let mut i: usize = 0;
    while i < a.children.len()
        invariant
            0 <= i <= a.children@.len(),
            cs == nodes_view(a.children@),
            quoted@ == "quoted_attribute_value"@,
            bare@ == "attribute_value"@,
            forall|k: int| 0 <= k < cs.len() ==> fits_source(#[trigger] cs[k], s@.len()),
            attribute_value_from(cs, 0, s@) == attribute_value_from(cs, i as int, s@),
        decreases a.children@.len() - i,
    {
        let c = &a.children[i];
        assert(cs[i as int] == node_view(*c));
        let k = str_chars(c.kind.as_str());
        if chars_eq(k.as_slice(), quoted.as_slice()) {
            match find_any_kind(&c.children, "attribute_value") {
                Some(j) => {
                    proof {
                        lemma_children_fit(node_view(*c).children, 0, s@.len());
                        assert(node_view(*c).children[j as int] == node_view(c.children@[j as int]));
                    }
                    return Some(text_of(s, &c.children[j]));
                },
                None => return Some(Vec::new()),
            }
        }
        if chars_eq(k.as_slice(), bare.as_slice()) {
            return Some(text_of(s, c));
        }
        i = i + 1;
    }
    None
}

/// The names and values of the attributes of a tag node, in order (see
/// [`spec_tag_attributes`]), as the attribute plan reads them.
pub fn tag_attributes(tag: &HtmlNode, source: &str) -> (r: Result<Vec<TagAttribute>, ParserError>)
    requires
        fits_source(node_view(*tag), source@.len()),
    ensures
        match spec_tag_attributes(node_view(*tag).children, 0, source@) {
            Ok(attrs) => r matches Ok(v) && attributes_view(v@) == attrs,
            Err(m) => r matches Err(ParserError::Html(x)) && x@ == m,
        },
{
    let s = str_chars(source);
    let ghost cs = node_view(*tag).children;
    proof {
        lemma_children_fit(cs, 0, s@.len());
    }
    let mut out: Vec<TagAttribute> = Vec::new();
    let mut i: usize = 0;
    while i < tag.children.len()
        invariant
            0 <= i <= tag.children@.len(),
            s@ == source@,
            cs == nodes_view(tag.children@),
            forall|k: int| 0 <= k < cs.len() ==> fits_source(#[trigger] cs[k], s@.len()),
            match spec_tag_attributes(cs, 0, s@) {
                Ok(all) => match spec_tag_attributes(cs, i as int, s@) {
                    Ok(rest) => all == attributes_view(out@) + rest,
                    Err(_) => false,
                },
                Err(m) => spec_tag_attributes(cs, i as int, s@) == Err::<Seq<(Seq<char>, Option<Seq<char>>)>, Seq<char>>(m),
            },
        decreases tag.children@.len() - i,
    {
        let c = &tag.children[i];
        assert(cs[i as int] == node_view(*c));
        if is_kind(c, "attribute") {
            match find_any_kind(&c.children, "attribute_name") {
                None => {
                    return Err(ParserError::Html(String::from_str("Attribute node missing attribute_name")));
                },
                Some(k) => {
                    proof {
                        lemma_children_fit(node_view(*c).children, 0, s@.len());
                        assert(node_view(*c).children[k as int] == node_view(c.children@[k as int]));
                    }
                    let name = text_of(&s, &c.children[k]);
                    let value = match attribute_value_of(&s, c) {
                        Some(v) => Some(crate::text::chars_to_string(v.as_slice())),
                        None => None,
                    };
                    let a = TagAttribute { name: crate::text::chars_to_string(name.as_slice()), value };
                    let ghost prev = attributes_view(out@);
                    let ghost av = attribute_view(a);
                    out.push(a);
                    proof {
                        assert(attributes_view(out@) =~= prev.push(av));
                        if let Ok(all) = spec_tag_attributes(cs, 0, s@) {
                            let rest = spec_tag_attributes(cs, i + 1, s@)->Ok_0;
                            assert(prev + (seq![av] + rest) =~= prev.push(av) + rest);
                        }
                    }
                },
            }
        }
        i = i + 1;
    }
    proof {
        if let Ok(all) = spec_tag_attributes(cs, 0, s@) {
            assert(attributes_view(out@) + Seq::<(Seq<char>, Option<Seq<char>>)>::empty()
                =~= attributes_view(out@));
        }
    }
    Ok(out)
}

/// The closing of an element's opening tag as the parser writes it: `/>`
/// for a self-closing tag whose text ends with `/>`, `>` otherwise.
pub open spec fn opening_tag_close(n: HtmlNodeV, s: Seq<char>) -> Seq<char> {
    match tag_index(n.children, 0) {
        Some(t) => if n.children[t].kind == "self_closing_tag"@ && node_text(s, n.children[t]).len() >= 2
            && node_text(s, n.children[t]).last() == '>' && node_text(s, n.children[t])[node_text(s, n.children[t]).len() - 2] == '/' {
            "/>"@
        } else {
            ">"@
        },
        None => ">"@,
    }
}

/// Whether an element's tag is self-closing, and how its opening tag is
/// closed (see [`opening_tag_close`]).
pub fn element_tag_close(node: &HtmlNode, source: &str) -> (r: (bool, String))
    requires
        fits_source(node_view(*node), source@.len()),
    ensures
        r.0 == (tag_index(node_view(*node).children, 0) matches Some(t)
            && node_view(*node).children[t].kind == "self_closing_tag"@),
        r.1@ == opening_tag_close(node_view(*node), source@),
{
    let t = match find_tag_index(&node.children) {
        Some(t) => t,
        None => return (false, String::from_str(">")),
    };
    proof {
        lemma_children_fit(node_view(*node).children, 0, source@.len());
        assert(node_view(*node).children[t as int] == node_view(node.children@[t as int]));
    }
    let tag = &node.children[t];
    let k = str_chars(tag.kind.as_str());
    let sc = str_chars("self_closing_tag");
    let self_closing = chars_eq(k.as_slice(), sc.as_slice());
    if self_closing {
        let s = str_chars(source);
        let text = text_of(&s, tag);
        let n = text.len();
        if n >= 2 && text[n - 1] == '>' && text[n - 2] == '/' {
            return (true, String::from_str("/>"));
        }
    }
    (self_closing, String::from_str(">"))
}

/// The opening tag of an element: its first named start or self-closing
/// tag child (see [`tag_index`]).
pub fn element_tag<'a>(node: &'a HtmlNode, source: &str) -> (r: Option<&'a HtmlNode>)
    requires
        fits_source(node_view(*node), source@.len()),
    ensures
        match tag_index(node_view(*node).children, 0) {
            Some(t) => r matches Some(x) && node_view(*x) == node_view(*node).children[t]
                && fits_source(node_view(*x), source@.len()),
            None => r is None,
        },
{
    match find_tag_index(&node.children) {
        Some(t) => {
            proof {
                lemma_children_fit(node_view(*node).children, 0, source@.len());
                assert(node_view(*node).children[t as int] == node_view(node.children@[t as int]));
            }
            Some(&node.children[t])
        },
        None => None,
    }
}

/// The source texts of the attributes of a tag, among its children from
/// the `i`-th on, in order.
pub open spec fn spec_attribute_texts(cs: Seq<HtmlNodeV>, i: int, s: Seq<char>) -> Seq<Seq<char>>
    decreases cs.len() - i,
{
    if i < 0 || i >= cs.len() {
        Seq::empty()
    } else if named_kind(cs[i], "attribute"@) {
        seq![node_text(s, cs[i])] + spec_attribute_texts(cs, i + 1, s)
    } else {
        spec_attribute_texts(cs, i + 1, s)
    }
}

/// Where a tag's attributes are read, there is one source text for each.
pub proof fn lemma_attribute_texts_len(cs: Seq<HtmlNodeV>, i: int, s: Seq<char>)
    requires
        0 <= i,
    ensures
        spec_tag_attributes(cs, i, s) matches Ok(a) ==> a.len() == spec_attribute_texts(cs, i, s).len(),
    decreases cs.len() - i,
{
    if i < cs.len() {
        lemma_attribute_texts_len(cs, i + 1, s);
    }
}

/// The source texts of a tag's attributes (see [`spec_attribute_texts`]).
pub fn attribute_texts(tag: &HtmlNode, source: &str) -> (r: Vec<String>)
    requires
        fits_source(node_view(*tag), source@.len()),
    ensures
        r@.map_values(|t: String| t@) == spec_attribute_texts(node_view(*tag).children, 0, source@),
{
    let s = str_chars(source);
    let ghost cs = node_view(*tag).children;
    proof {
        lemma_children_fit(cs, 0, s@.len());
    }
    let mut out: Vec<String> = Vec::new();
    let mut i: usize = 0;
    while i < tag.children.len()
        invariant
            0 <= i <= tag.children@.len(),
            s@ == source@,
            cs == nodes_view(tag.children@),
            forall|k: int| 0 <= k < cs.len() ==> fits_source(#[trigger] cs[k], s@.len()),
            spec_attribute_texts(cs, 0, s@) == out@.map_values(|t: String| t@) + spec_attribute_texts(cs, i as int, s@),
        decreases tag.children@.len() - i,
    {
        let c = &tag.children[i];
        assert(cs[i as int] == node_view(*c));
        if is_kind(c, "attribute") {
            let t = text_of(&s, c);
            let text = crate::text::chars_to_string(t.as_slice());
            let ghost prev = out@.map_values(|t: String| t@);
            let ghost tv = text@;
            out.push(text);
            proof {
                assert(out@.map_values(|t: String| t@) =~= prev.push(tv));
                assert(prev + (seq![tv] + spec_attribute_texts(cs, i + 1, s@))
                    =~= prev.push(tv) + spec_attribute_texts(cs, i + 1, s@));
            }
        }
        i = i + 1;
    }
    proof {
        assert(out@.map_values(|t: String| t@) + Seq::<Seq<char>>::empty() =~= out@.map_values(|t: String| t@));
    }
    out
}

/// An element has an end tag among its named children.
pub open spec fn has_end_tag(n: HtmlNodeV) -> bool {
    exists|k: int| 0 <= k < n.children.len() && named_kind(#[trigger] n.children[k], "end_tag"@)
}

/// Whether an element has an end tag (see [`has_end_tag`]).
pub fn element_has_end_tag(node: &HtmlNode) -> (r: bool)
    ensures
        r == has_end_tag(node_view(*node)),
{
    let ghost cs = node_view(*node).children;
    let mut i: usize = 0;
    while i < node.children.len()
        invariant
            0 <= i <= node.children@.len(),
            cs == nodes_view(node.children@),
            forall|k: int| 0 <= k < i ==> !named_kind(#[trigger] cs[k], "end_tag"@),
        decreases node.children@.len() - i,
    {
        assert(cs[i as int] == node_view(node.children@[i as int]));
        if is_kind(&node.children[i], "end_tag") {
            proof {
                assert(named_kind(node_view(*node).children[i as int], "end_tag"@));
            }
            return true;
        }
        i = i + 1;
    }
    false
}

} // verus!
