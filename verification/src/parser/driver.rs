//! The parser's walk over an HTML syntax tree: the state it keeps (pending
//! raw text, fragment records, fragment ids, CSS tokens), the fragment
//! stream it writes, what it does with each child node, and the opening of
//! a component element.
//!
//! Conditions and handlebars templates are parsed by the caller; what the
//! parsers made of an attribute's expression comes in as a
//! [`ParsedAttribute`].
use vstd::prelude::*;
use super::attribute_plan::{attributes_view, lemma_plans_one_per_attribute, plan_tag_attributes, plan_view, plans_view, spec_plans, AttributePlan, PlanV, TagAttribute};
use super::component_template::{
    build_component_template, component_adopted_specifier, component_css_snippet, opens_template, opt_chars,
    spec_component_template, template_to_strip,
};
use super::directive::{fragment_id, FragmentIdCounter};
use super::comments::{comment_expression, comment_replaced_by, css_piece_view, css_pieces, spec_comment_expression, split_css_comments, CssPiece, CssPieceV};
use super::directive::{emits_text, should_emit_text_content};
use super::elements::{
    attribute_texts, element_has_end_tag, element_tag, element_tag_close, fits_source, get_element_tag_name,
    has_end_tag, if_directive_condition, lemma_attribute_texts_len, opening_tag_close, own_attribute_value,
    parse_route_as_fragment, spec_attribute_texts,
    spec_route_of, spec_tag_attributes, strip_runtime_attrs_from_template, strip_with_tree, tag_attributes, tag_index,
    tag_name_from,
};
use super::error::ParserError;
use super::fast::spec_trim;
use super::fast_plugin::{opt_view, register_step, FastParserPlugin};
use super::html_tree::{html_syntax_tree, node_view, HtmlNode, HtmlNodeV};
use super::plugin::Component;
use super::strategy::{CssStrategy, DomStrategy};
use crate::protocol::plugin::u32_le_bytes;
use crate::protocol::records::StringMap;
use crate::protocol::types::{
    cond_view, frag_view, frags_view, strings_view, AttrV, CondV, ConditionExpr, FragV, FragmentList, WebUiFragment,
    WebUiFragmentAttribute, WebUiFragmentRaw,
};
use crate::protocol::web_ui_fragment::Fragment;
use crate::text::{chars_eq, chars_to_string, str_chars};

verus! {

// ── Parser state and the fragment stream ───────────────────────────────

/// What the parser keeps while it walks a document.
pub struct ParseState {
    /// Raw text not yet written to the fragment stream.
    pub raw_buffer: String,
    /// Fragment lists by fragment id.
    pub records: StringMap<FragmentList>,
    /// Generated fragment ids.
    pub ids: FragmentIdCounter,
    /// CSS custom property names used by the parsed components and inline
    /// styles.
    pub tokens: Vec<String>,
    /// CSS custom property names that inline styles define.
    pub definitions: Vec<String>,
    /// How component CSS is delivered.
    pub css_strategy: CssStrategy,
    /// How component DOM is structured.
    pub dom_strategy: DomStrategy,
}

/// The model of what writing fragments changes: the fragments written, the
/// pending raw text, the records by id, and how many `attr` ids were given
/// out.
pub struct StreamV {
    pub out: Seq<FragV>,
    pub raw: Seq<char>,
    pub records: Map<Seq<char>, FragmentList>,
    pub attr_ids: nat,
}

/// The stream model of a parser state and the fragments it wrote.
pub open spec fn stream_view(st: ParseState, out: Seq<WebUiFragment>) -> StreamV {
    StreamV {
        out: frags_view(out),
        raw: st.raw_buffer@,
        records: st.records.spec_map(),
        attr_ids: st.ids.count_of("attr"@),
    }
}

/// Raw text `t` added to the pending raw text.
pub open spec fn with_raw(st: StreamV, t: Seq<char>) -> StreamV {
    StreamV { raw: st.raw + t, ..st }
}

/// The pending raw text written out as one raw fragment, unless it is
/// empty.
pub open spec fn flushed(st: StreamV) -> StreamV {
    StreamV {
        out: if st.raw.len() == 0 { st.out } else { st.out.push(FragV::Raw(st.raw)) },
        raw: Seq::empty(),
        ..st
    }
}

/// The fragment `f` written after the pending raw text.
pub open spec fn with_fragment(st: StreamV, f: FragV) -> StreamV {
    StreamV { out: flushed(st).out.push(f), ..flushed(st) }
}

/// The parts of a state besides the stream model are those of `b`.
pub open spec fn same_rest(a: ParseState, b: ParseState) -> bool {
    &&& a.tokens == b.tokens
    &&& a.definitions == b.definitions
    &&& a.css_strategy == b.css_strategy
    &&& a.dom_strategy == b.dom_strategy
    &&& forall|q: Seq<char>| q != "attr"@ ==> #[trigger] a.ids.count_of(q) == b.ids.count_of(q)
}

impl ParseState {
    /// A state with nothing pending, no records, no ids given out and no
    /// tokens.
    pub fn new(css_strategy: CssStrategy, dom_strategy: DomStrategy) -> (r: Self)
        ensures
            r.raw_buffer@.len() == 0,
            r.records.spec_entries().len() == 0,
            forall|p: Seq<char>| r.ids.count_of(p) == 0,
            r.tokens@.len() == 0,
            r.definitions@.len() == 0,
            r.css_strategy == css_strategy,
            r.dom_strategy == dom_strategy,
    {
        ParseState {
            raw_buffer: String::new(),
            records: StringMap::new(),
            ids: FragmentIdCounter::new(),
            tokens: Vec::new(),
            definitions: Vec::new(),
            css_strategy,
            dom_strategy,
        }
    }

    /// Add raw text to the pending raw text.
    pub fn add_raw(&mut self, content: &str)
        ensures
            final(self).raw_buffer@ == old(self).raw_buffer@ + content@,
            final(self).records == old(self).records,
            final(self).ids == old(self).ids,
            final(self).tokens == old(self).tokens,
            final(self).definitions == old(self).definitions,
            final(self).css_strategy == old(self).css_strategy,
            final(self).dom_strategy == old(self).dom_strategy,
    {
        self.raw_buffer.append(content);
    }

    /// Write the pending raw text to `out` as one raw fragment, unless it is
    /// empty.
    pub fn flush_raw(&mut self, out: &mut Vec<WebUiFragment>)
        ensures
            stream_view(*final(self), final(out)@) == flushed(stream_view(*old(self), old(out)@)),
            final(self).records == old(self).records,
            final(self).ids == old(self).ids,
            final(self).tokens == old(self).tokens,
            final(self).definitions == old(self).definitions,
            final(self).css_strategy == old(self).css_strategy,
            final(self).dom_strategy == old(self).dom_strategy,
    {
        if !self.raw_buffer.as_str().is_empty() {
            let mut taken = String::new();
            std::mem::swap(&mut taken, &mut self.raw_buffer);
            let ghost before = out@;
            out.push(WebUiFragment { fragment: Some(Fragment::Raw(WebUiFragmentRaw { value: taken })) });
            proof {
                assert(frags_view(out@) =~= frags_view(before).push(FragV::Raw(old(self).raw_buffer@)));
            }
        }
        proof {
            assert(self.raw_buffer@ =~= Seq::<char>::empty());
        }
    }

    /// Write the pending raw text, then the fragment `f`, to `out`.
    pub fn add_fragment(&mut self, f: WebUiFragment, out: &mut Vec<WebUiFragment>)
        ensures
            stream_view(*final(self), final(out)@) == with_fragment(stream_view(*old(self), old(out)@), frag_view(f)),
            final(self).records == old(self).records,
            final(self).ids == old(self).ids,
            final(self).tokens == old(self).tokens,
            final(self).definitions == old(self).definitions,
            final(self).css_strategy == old(self).css_strategy,
            final(self).dom_strategy == old(self).dom_strategy,
    {
        let ghost fv = frag_view(f);
        self.flush_raw(out);
        let ghost before = out@;
        out.push(f);
        proof {
            assert(frags_view(out@) =~= frags_view(before).push(fv));
        }
    }
}

/// No fragment is an empty raw fragment.
pub open spec fn no_empty_raw(out: Seq<FragV>) -> bool {
    forall|i: int| 0 <= i < out.len() && #[trigger] out[i] is Raw ==> out[i]->Raw_0.len() > 0
}

/// Writing through the stream never writes an empty raw fragment: raw text
/// waits in the pending text, a flush writes it only when there is some,
/// and flushing twice writes nothing more.
pub proof fn lemma_stream_writes_no_empty_raw(st: StreamV, t: Seq<char>, f: FragV)
    requires
        no_empty_raw(st.out),
        f is Raw ==> f->Raw_0.len() > 0,
    ensures
        no_empty_raw(with_raw(st, t).out),
        no_empty_raw(flushed(st).out),
        no_empty_raw(with_fragment(st, f).out),
        flushed(flushed(st)) == flushed(st),
{
    let g = flushed(st);
    assert forall|i: int| 0 <= i < g.out.len() && #[trigger] g.out[i] is Raw implies g.out[i]->Raw_0.len() > 0 by {
        if i < st.out.len() {
            assert(g.out[i] == st.out[i]);
        }
    }
    let h = with_fragment(st, f);
    assert forall|i: int| 0 <= i < h.out.len() && #[trigger] h.out[i] is Raw implies h.out[i]->Raw_0.len() > 0 by {
        if i < g.out.len() {
            assert(h.out[i] == g.out[i]);
        }
    }
}

// ── What the parser does with a child node ─────────────────────────────

/// What the parser does with a child node of the tree.
#[derive(Debug, Clone, Copy, PartialEq, Eq, Structural)]
pub enum ChildAction {
    /// A `<for>` loop directive.
    ForDirective,
    /// An `<if>` condition directive.
    IfDirective,
    /// The `<body>` element, with its start and end signals.
    Body,
    /// The `<head>` element, with its end signal.
    Head,
    /// A `<route>` directive.
    Route,
    /// An `<outlet>`: an outlet fragment.
    Outlet,
    /// An element of a registered component.
    Component,
    /// Any other element, with its attributes.
    Element,
    /// A `<style>` element: token extraction and comment signals.
    Style,
    /// Text, parsed for handlebars expressions.
    Text,
    /// A doctype, kept as raw text.
    Doctype,
    /// An HTML comment.
    Comment,
    /// Any other node: its children are walked.
    Descend,
}

/// The action for a node: elements by their tag name (directives, then
/// registered components, then other elements), other nodes by their kind;
/// or the error for an element without a tag name.
pub open spec fn spec_child_action(n: HtmlNodeV, s: Seq<char>, components: Set<Seq<char>>) -> Result<ChildAction, Seq<char>> {
    if n.kind == "element"@ {
        match tag_name_from(n.children, 0, s) {
            None => Err("Failed to extract tag name"@),
            Some(t) => Ok(
                if t == "for"@ {
                    ChildAction::ForDirective
                } else if t == "if"@ {
                    ChildAction::IfDirective
                } else if t == "body"@ {
                    ChildAction::Body
                } else if t == "head"@ {
                    ChildAction::Head
                } else if t == "route"@ {
                    ChildAction::Route
                } else if t == "outlet"@ {
                    ChildAction::Outlet
                } else if components.contains(t) {
                    ChildAction::Component
                } else {
                    ChildAction::Element
                },
            ),
        }
    } else if n.kind == "style_element"@ {
        Ok(ChildAction::Style)
    } else if n.kind == "text"@ || n.kind == "raw_text"@ {
        Ok(ChildAction::Text)
    } else if n.kind == "doctype"@ {
        Ok(ChildAction::Doctype)
    } else if n.kind == "comment"@ {
        Ok(ChildAction::Comment)
    } else {
        Ok(ChildAction::Descend)
    }
}

fn same_text(a: &str, b: &str) -> (r: bool)
    ensures
        r == (a@ == b@),
{
    let x = str_chars(a);
    let y = str_chars(b);
    chars_eq(x.as_slice(), y.as_slice())
}

/// What the parser does with a child node (see [`spec_child_action`]),
/// given the registered components.
pub fn child_node_action(node: &HtmlNode, source: &str, registry: &StringMap<Component>) -> (r: Result<ChildAction, ParserError>)
    requires
        fits_source(node_view(*node), source@.len()),
    ensures
        match spec_child_action(node_view(*node), source@, registry.spec_map().dom()) {
            Ok(a) => r == Ok::<ChildAction, ParserError>(a),
            Err(m) => r matches Err(ParserError::Html(x)) && x@ == m,
        },
{
    let kind = node.kind.as_str();
    if same_text(kind, "element") {
        let t = match get_element_tag_name(node, source) {
            Ok(t) => t,
            Err(e) => return Err(e),
        };
        let t = t.as_str();
        if same_text(t, "for") {
            Ok(ChildAction::ForDirective)
        } else if same_text(t, "if") {
            Ok(ChildAction::IfDirective)
        } else if same_text(t, "body") {
            Ok(ChildAction::Body)
        } else if same_text(t, "head") {
            Ok(ChildAction::Head)
        } else if same_text(t, "route") {
            Ok(ChildAction::Route)
        } else if same_text(t, "outlet") {
            Ok(ChildAction::Outlet)
        } else if registry.contains_key(t) {
            Ok(ChildAction::Component)
        } else {
            Ok(ChildAction::Element)
        }
    } else if same_text(kind, "style_element") {
        Ok(ChildAction::Style)
    } else if same_text(kind, "text") || same_text(kind, "raw_text") {
        Ok(ChildAction::Text)
    } else if same_text(kind, "doctype") {
        Ok(ChildAction::Doctype)
    } else if same_text(kind, "comment") {
        Ok(ChildAction::Comment)
    } else {
        Ok(ChildAction::Descend)
    }
}

/// An `<outlet>`: the pending raw text, then an outlet fragment.
pub fn outlet_directive(state: &mut ParseState, out: &mut Vec<WebUiFragment>)
    ensures
        stream_view(*final(state), final(out)@) == with_fragment(stream_view(*old(state), old(out)@), FragV::Outlet),
        final(state).records == old(state).records,
        final(state).ids == old(state).ids,
        final(state).tokens == old(state).tokens && final(state).definitions == old(state).definitions,
        final(state).css_strategy == old(state).css_strategy,
        final(state).dom_strategy == old(state).dom_strategy,
{
    state.add_fragment(WebUiFragment::outlet(), out);
}

// ── Attributes ─────────────────────────────────────────────────────────

/// What the caller's condition and handlebars parsers made of one
/// attribute's expression. Only a boolean attribute's condition and a
/// template attribute's template are read.
pub struct ParsedAttribute {
    /// For a boolean attribute: the parsed condition, or `None` where the
    /// expression does not parse as a condition.
    pub condition: Option<ConditionExpr>,
    /// For a template attribute: the fragments of its value, or the parse
    /// error.
    pub template: Result<Vec<WebUiFragment>, ParserError>,
}

/// The model of a parser error.
pub enum ErrV {
    Html(Seq<char>),
    Parse(Seq<char>),
    Directive(Seq<char>),
}

/// The model of a parser error.
pub open spec fn err_view(e: ParserError) -> ErrV {
    match e {
        ParserError::Html(m) => ErrV::Html(m@),
        ParserError::Parse(m) => ErrV::Parse(m@),
        ParserError::Directive(m) => ErrV::Directive(m@),
    }
}

/// The condition of a boolean attribute: the parsed one, or the expression
/// as an identifier where it did not parse.
pub open spec fn boolean_condition(parsed: Option<ConditionExpr>, expression: Seq<char>) -> CondV {
    match parsed {
        Some(c) => cond_view(c),
        None => CondV::Identifier(expression),
    }
}

/// An attribute fragment.
pub open spec fn attr_fragment(
    name: Seq<char>,
    value: Seq<char>,
    template: Seq<char>,
    complex: bool,
    attr_start: bool,
    attr_skip: bool,
    raw_value: bool,
    condition_tree: Option<CondV>,
) -> FragV {
    FragV::Attribute(AttrV { name, value, template, complex, attr_start, attr_skip, raw_value, condition_tree })
}

/// What the parser writes for one attribute's plan, given the attribute's
/// name and source text. Dropped and counted attributes write nothing; a
/// native element's static attribute writes its source text, and an
/// attribute without a value its name, as raw text after a space; the
/// others write an attribute fragment. A template
/// attribute's fragments are recorded under the next `attr` id, which the
/// fragment refers to; its parse error is the error, with that id given
/// out. An error comes with the state it leaves.
pub open spec fn emit_plan(st: StreamV, p: PlanV, name: Seq<char>, text: Seq<char>, pa: ParsedAttribute) -> Result<StreamV, (StreamV, ErrV)> {
    match p {
        PlanV::Drop | PlanV::CountBinding => Ok(st),
        PlanV::RawText => Ok(with_raw(st, " "@ + text)),
        PlanV::RawName => Ok(with_raw(st, " "@ + name)),
        PlanV::Boolean { name: n, expression, attr_start } => Ok(with_fragment(st, attr_fragment(
            n, Seq::empty(), Seq::empty(), false, attr_start, false, false,
            Some(boolean_condition(pa.condition, expression)),
        ))),
        PlanV::Complex { name: n, signal, attr_start } => Ok(with_fragment(st, attr_fragment(
            n, signal, Seq::empty(), true, attr_start, false, false, None,
        ))),
        PlanV::Binding { name: n, signal, skip, attr_start } => Ok(with_fragment(st, attr_fragment(
            n, signal, Seq::empty(), false, attr_start, skip, false, None,
        ))),
        PlanV::Static { name: n, value, skip, attr_start } => Ok(with_fragment(st, attr_fragment(
            n, value, Seq::empty(), false, attr_start, skip, true, None,
        ))),
        PlanV::Template { name: n, value: _, skip, attr_start } => match pa.template {
            Err(e) => Err((StreamV { attr_ids: st.attr_ids + 1, ..st }, err_view(e))),
            Ok(fs) => {
                let id = fragment_id("attr"@, st.attr_ids + 1);
                let recorded = StreamV {
                    records: st.records.insert(id, FragmentList { fragments: fs }),
                    attr_ids: st.attr_ids + 1,
                    ..st
                };
                Ok(with_fragment(recorded, attr_fragment(n, Seq::empty(), id, false, attr_start, skip, false, None)))
            },
        },
    }
}

/// What the parser writes for the plans from the `i`-th on, in order (see
/// [`emit_plan`]), or the first error.
pub open spec fn emit_plans(
    st: StreamV,
    ps: Seq<PlanV>,
    attrs: Seq<(Seq<char>, Option<Seq<char>>)>,
    texts: Seq<Seq<char>>,
    parsed: Seq<ParsedAttribute>,
    i: int,
) -> Result<StreamV, (StreamV, ErrV)>
    decreases ps.len() - i,
{
    if i < 0 || i >= ps.len() {
        Ok(st)
    } else {
        match emit_plan(st, ps[i], attrs[i].0, texts[i], parsed[i]) {
            Err(e) => Err(e),
            Ok(next) => emit_plans(next, ps, attrs, texts, parsed, i + 1),
        }
    }
}

fn attribute_fragment(
    name: &str,
    value: &str,
    template: String,
    complex: bool,
    attr_start: bool,
    attr_skip: bool,
    raw_value: bool,
    condition_tree: Option<ConditionExpr>,
) -> (r: WebUiFragment)
    ensures
        frag_view(r) == attr_fragment(name@, value@, template@, complex, attr_start, attr_skip, raw_value,
            match condition_tree {
                Some(c) => Some(cond_view(c)),
                None => None,
            }),
{
    WebUiFragment {
        fragment: Some(Fragment::Attribute(WebUiFragmentAttribute {
            name: String::from_str(name),
            value: String::from_str(value),
            template,
            complex,
            attr_start,
            attr_skip,
            raw_value,
            condition_tree,
        })),
    }
}

/// Write what one attribute's plan calls for (see [`emit_plan`]).
pub fn emit_attribute_plan(
    plan: &AttributePlan,
    attr: &TagAttribute,
    text: &str,
    parsed: ParsedAttribute,
    state: &mut ParseState,
    out: &mut Vec<WebUiFragment>,
) -> (r: Result<(), ParserError>)
    requires
        old(state).ids.count_of("attr"@) < usize::MAX,
    ensures
        match emit_plan(stream_view(*old(state), old(out)@), plan_view(*plan), attr.name@, text@, parsed) {
            Ok(m) => r is Ok && stream_view(*final(state), final(out)@) == m && same_rest(*final(state), *old(state)),
            Err((m, e)) => r matches Err(x) && err_view(x) == e && stream_view(*final(state), final(out)@) == m
                && same_rest(*final(state), *old(state)),
        },
{
    let ghost st0 = stream_view(*state, out@);
    let ghost pa = parsed;
    match plan {
        AttributePlan::Drop | AttributePlan::CountBinding => Ok(()),
        AttributePlan::RawText => {
            state.add_raw(" ");
            state.add_raw(text);
            proof {
                assert(state.raw_buffer@ =~= st0.raw + (" "@ + text@));
            }
            Ok(())
        },
        AttributePlan::RawName => {
            state.add_raw(" ");
            state.add_raw(attr.name.as_str());
            proof {
                assert(state.raw_buffer@ =~= st0.raw + (" "@ + attr.name@));
            }
            Ok(())
        },
        AttributePlan::Boolean { name, expression, attr_start } => {
            let condition = match parsed.condition {
                Some(c) => c,
                None => ConditionExpr::identifier(expression.as_str()),
            };
            let empty = String::new();
            let f = attribute_fragment(name.as_str(), empty.as_str(), String::new(), false, *attr_start, false, false, Some(condition));
            state.add_fragment(f, out);
            Ok(())
        },
        AttributePlan::Complex { name, signal, attr_start } => {
            let f = attribute_fragment(name.as_str(), signal.as_str(), String::new(), true, *attr_start, false, false, None);
            state.add_fragment(f, out);
            Ok(())
        },
        AttributePlan::Binding { name, signal, skip, attr_start } => {
            let f = attribute_fragment(name.as_str(), signal.as_str(), String::new(), false, *attr_start, *skip, false, None);
            state.add_fragment(f, out);
            Ok(())
        },
        AttributePlan::Static { name, value, skip, attr_start } => {
            let f = attribute_fragment(name.as_str(), value.as_str(), String::new(), false, *attr_start, *skip, true, None);
            state.add_fragment(f, out);
            Ok(())
        },
        AttributePlan::Template { name, value: _, skip, attr_start } => {
            let id = state.ids.next_id("attr");
            let fs = match parsed.template {
                Ok(fs) => fs,
                Err(e) => return Err(e),
            };
            let ghost list = FragmentList { fragments: fs };
            state.records.insert(id.clone(), FragmentList { fragments: fs });
            let empty = String::new();
            let f = attribute_fragment(name.as_str(), empty.as_str(), id, false, *attr_start, *skip, false, None);
            state.add_fragment(f, out);
            proof {
                assert(state.records.spec_map() == st0.records.insert(fragment_id("attr"@, st0.attr_ids + 1), list));
            }
            Ok(())
        },
    }
}

/// Write what the plans of a tag's attributes call for, in order (see
/// [`emit_plans`]); `parsed` holds what the caller's parsers made of each
/// attribute, in the same order.
pub fn emit_attribute_plans(
    plans: &Vec<AttributePlan>,
    attrs: &[TagAttribute],
    texts: &[String],
    parsed: Vec<ParsedAttribute>,
    state: &mut ParseState,
    out: &mut Vec<WebUiFragment>,
) -> (r: Result<(), ParserError>)
    requires
        plans@.len() == attrs@.len(),
        texts@.len() == attrs@.len(),
        parsed@.len() == attrs@.len(),
        old(state).ids.count_of("attr"@) + attrs@.len() < usize::MAX,
    ensures
        match emit_plans(
            stream_view(*old(state), old(out)@),
            plans_view(plans@),
            attributes_view(attrs@),
            texts@.map_values(|t: String| t@),
            parsed@,
            0,
        ) {
            Ok(m) => r is Ok && stream_view(*final(state), final(out)@) == m && same_rest(*final(state), *old(state)),
            Err((m, e)) => r matches Err(x) && err_view(x) == e && stream_view(*final(state), final(out)@) == m
                && same_rest(*final(state), *old(state)),
        },
{
    let ghost ps = plans_view(plans@);
    let ghost avs = attributes_view(attrs@);
    let ghost tvs = texts@.map_values(|t: String| t@);
    let ghost all = parsed@;
    let ghost target = emit_plans(stream_view(*state, out@), ps, avs, tvs, all, 0);
    let ghost c0 = state.ids.count_of("attr"@);
    let mut rest = parsed;
    let mut i: usize = 0;
    while i < plans.len()
        invariant
            plans@.len() == attrs@.len(),
            texts@.len() == attrs@.len(),
            all.len() == attrs@.len(),
            0 <= i <= plans@.len(),
            ps == plans_view(plans@),
            avs == attributes_view(attrs@),
            tvs == texts@.map_values(|t: String| t@),
            all == parsed@,
            target == emit_plans(stream_view(*old(state), old(out)@), ps, avs, tvs, all, 0),
            rest@ == all.skip(i as int),
            target == emit_plans(stream_view(*state, out@), ps, avs, tvs, all, i as int),
            same_rest(*state, *old(state)),
            c0 == old(state).ids.count_of("attr"@),
            state.ids.count_of("attr"@) <= c0 + i,
            c0 + attrs@.len() < usize::MAX,
        decreases plans@.len() - i,
    {
        let ghost before = stream_view(*state, out@);
        let ghost prev = *state;
        let pa = rest.remove(0);
        proof {
            assert(pa == all[i as int]);
            assert(ps[i as int] == plan_view(plans@[i as int]));
            assert(avs[i as int].0 == attrs@[i as int].name@);
            assert(tvs[i as int] == texts@[i as int]@);
        }
        match emit_attribute_plan(&plans[i], &attrs[i], texts[i].as_str(), pa, state, out) {
            Ok(()) => {
                proof {
                    let m = emit_plan(before, ps[i as int], avs[i as int].0, tvs[i as int], all[i as int]);
                    assert(m is Ok);
                    assert(stream_view(*state, out@) == m->Ok_0);
                    assert(m->Ok_0.attr_ids <= before.attr_ids + 1);
                    assert forall|q: Seq<char>| q != "attr"@ implies #[trigger] state.ids.count_of(q) == old(state).ids.count_of(q) by {
                        assert(state.ids.count_of(q) == prev.ids.count_of(q));
                    }
                }
            },
            Err(e) => {
                proof {
                    let m = emit_plan(before, ps[i as int], avs[i as int].0, tvs[i as int], all[i as int]);
                    assert(m is Err);
                    assert(err_view(e) == m->Err_0.1);
                    assert(stream_view(*state, out@) == m->Err_0.0);
                    assert(target == m);
                }
                return Err(e);
            },
        }
        i = i + 1;
        proof {
            assert(rest@ =~= all.skip(i as int));
        }
    }
    Ok(())
}

// ── Components ─────────────────────────────────────────────────────────

/// A component's template for the CSS and DOM strategies: where the trimmed
/// HTML opens with `<template`, the runtime attributes of that tag are
/// removed (through its syntax tree) before its content is taken; see
/// [`spec_component_template`].
pub open spec fn spec_built_template(
    css: CssStrategy,
    dom: DomStrategy,
    tag: Seq<char>,
    html: Seq<char>,
    content: Option<Seq<char>>,
) -> Seq<char> {
    let trimmed = spec_trim(html);
    let stripped = if opens_template(trimmed) {
        Some(strip_with_tree(trimmed, html_syntax_tree(trimmed)))
    } else {
        None
    };
    spec_component_template(
        dom,
        html,
        stripped,
        component_css_snippet(css, dom, tag, content),
        component_adopted_specifier(css, tag, content),
    )
}

/// Build a component's template (see [`spec_built_template`]).
pub fn component_template(
    css_strategy: CssStrategy,
    dom_strategy: DomStrategy,
    tag_name: &str,
    html: &str,
    css_content: Option<&str>,
) -> (r: String)
    ensures
        r@ == spec_built_template(css_strategy, dom_strategy, tag_name@, html@, opt_chars(css_content)),
{
    match template_to_strip(html) {
        Some(t) => {
            let stripped = strip_runtime_attrs_from_template(t.as_str());
            build_component_template(css_strategy, dom_strategy, tag_name, html, Some(stripped.as_str()), css_content)
        },
        None => build_component_template(css_strategy, dom_strategy, tag_name, html, None, css_content),
    }
}

/// What a tag's attributes call for after `st`, planned for a component or
/// a native element (the FAST plugin classifying them first when `fast`),
/// then the plugin's element data when it counted bindings; or the first
/// error.
pub open spec fn spec_tag_opening(
    tag: HtmlNodeV,
    s: Seq<char>,
    st: StreamV,
    is_component: bool,
    fast: bool,
    parsed: Seq<ParsedAttribute>,
) -> Result<StreamV, (StreamV, ErrV)> {
    match spec_tag_attributes(tag.children, 0, s) {
        Err(m) => Err((st, ErrV::Html(m))),
        Ok(attrs) => match spec_plans(attrs, is_component, fast, 0, false) {
            Err(m) => Err((st, ErrV::Parse(m))),
            Ok((ps, c)) => match emit_plans(st, ps, attrs, spec_attribute_texts(tag.children, 0, s), parsed, 0) {
                Err(e) => Err(e),
                Ok(written) => Ok(if fast && c > 0 {
                    with_fragment(written, FragV::Plugin(u32_le_bytes(c as u32)))
                } else {
                    written
                }),
            },
        },
    }
}

/// The plugin is kept, with its components and CSS strategy.
pub open spec fn plugin_kept(before: Option<FastParserPlugin>, after: Option<FastParserPlugin>) -> bool {
    &&& after is Some == before is Some
    &&& before matches Some(p) ==> (after matches Some(q) && q.spec_components() == p.spec_components()
        && q.spec_css_strategy() == p.spec_css_strategy())
}

/// Write what a tag's attributes call for (see [`spec_tag_opening`]).
fn tag_opening(
    tag: &HtmlNode,
    source: &str,
    is_component: bool,
    plugin: &mut Option<FastParserPlugin>,
    parsed: Vec<ParsedAttribute>,
    state: &mut ParseState,
    out: &mut Vec<WebUiFragment>,
) -> (r: Result<(), ParserError>)
    requires
        fits_source(node_view(*tag), source@.len()),
        spec_tag_attributes(node_view(*tag).children, 0, source@) matches Ok(a) ==> a.len() <= u32::MAX
            && parsed@.len() == a.len(),
        old(state).ids.count_of("attr"@) + parsed@.len() < usize::MAX,
    ensures
        match spec_tag_opening(node_view(*tag), source@, stream_view(*old(state), old(out)@), is_component,
            *old(plugin) is Some, parsed@) {
            Ok(m) => r is Ok && stream_view(*final(state), final(out)@) == m && same_rest(*final(state), *old(state))
                && plugin_kept(*old(plugin), *final(plugin)),
            Err((m, e)) => r matches Err(x) && err_view(x) == e && stream_view(*final(state), final(out)@) == m
                && same_rest(*final(state), *old(state)) && plugin_kept(*old(plugin), *final(plugin)),
        },
{
    let ghost fast = *plugin is Some;
    let attrs = match tag_attributes(tag, source) {
        Ok(a) => a,
        Err(e) => return Err(e),
    };
    let texts = attribute_texts(tag, source);
    let (plans, count) = match plan_tag_attributes(attrs.as_slice(), is_component, plugin) {
        Ok(x) => x,
        Err(e) => return Err(e),
    };
    proof {
        lemma_plans_one_per_attribute(attributes_view(attrs@), is_component, fast, 0, false);
        lemma_attribute_texts_len(node_view(*tag).children, 0, source@);
        assert(texts@.map_values(|t: String| t@).len() == texts@.len());
    }
    match emit_attribute_plans(&plans, attrs.as_slice(), texts.as_slice(), parsed, state, out) {
        Ok(()) => {},
        Err(e) => return Err(e),
    }
    let ghost s1 = *state;
    match plugin {
        Some(p) => {
            match p.finish_element(count) {
                Some(data) => {
                    state.add_fragment(WebUiFragment::plugin(data), out);
                },
                None => {},
            }
        },
        None => {},
    }
    proof {
        assert(same_rest(*state, s1));
    }
    Ok(())
}

/// The opening of a component element, up to its component fragment: the
/// raw `<tag`, what its tag's attributes call for (see
/// [`spec_tag_opening`]), and the raw close of the opening tag, all written
/// out; or the first error.
pub open spec fn spec_component_opening(
    n: HtmlNodeV,
    s: Seq<char>,
    tag: Seq<char>,
    st: StreamV,
    fast: bool,
    parsed: Seq<ParsedAttribute>,
) -> Result<StreamV, (StreamV, ErrV)> {
    let start = with_raw(st, "<"@ + tag);
    let opened = match tag_index(n.children, 0) {
        None => Ok(start),
        Some(t) => spec_tag_opening(n.children[t], s, start, true, fast, parsed),
    };
    match opened {
        Err(e) => Err(e),
        Ok(o) => Ok(flushed(with_raw(o, opening_tag_close(n, s)))),
    }
}

/// The parser's next steps after a component's opening: the component's
/// template to parse into the records under its tag name, when they do not
/// hold it yet, and whether the element is self-closing (otherwise its
/// children, then `</tag>`, follow).
pub struct ComponentOpening {
    pub template: Option<String>,
    pub self_closing: bool,
}

/// A component element's opening: see [`spec_component_opening`], then,
/// for a registered component, its CSS tokens, its template and plugin
/// registration when the records (after its attributes) do not hold its tag
/// yet, and the component fragment. The caller parses the returned template
/// into the records under the tag name before the element's children. An
/// error comes with the state it leaves.
pub fn component_directive(
    node: &HtmlNode,
    source: &str,
    tag_name: &str,
    registry: &StringMap<Component>,
    plugin: &mut Option<FastParserPlugin>,
    parsed: Vec<ParsedAttribute>,
    state: &mut ParseState,
    out: &mut Vec<WebUiFragment>,
) -> (r: Result<ComponentOpening, ParserError>)
    requires
        fits_source(node_view(*node), source@.len()),
        tag_index(node_view(*node).children, 0) matches Some(t) ==> (spec_tag_attributes(
            node_view(*node).children[t].children, 0, source@) matches Ok(a) ==> a.len() <= u32::MAX
            && parsed@.len() == a.len()),
        old(state).ids.count_of("attr"@) + parsed@.len() < usize::MAX,
    ensures
        match spec_component_opening(node_view(*node), source@, tag_name@, stream_view(*old(state), old(out)@),
            *old(plugin) is Some, parsed@) {
            Err((m, e)) => r matches Err(x) && err_view(x) == e && stream_view(*final(state), final(out)@) == m
                && same_rest(*final(state), *old(state)) && plugin_kept(*old(plugin), *final(plugin)),
            Ok(m) => if !registry.spec_map().dom().contains(tag_name@) {
                &&& r matches Err(ParserError::Directive(x)) && x@ == "Component not found: "@ + tag_name@
                &&& stream_view(*final(state), final(out)@) == m
                &&& same_rest(*final(state), *old(state))
                &&& plugin_kept(*old(plugin), *final(plugin))
            } else {
                let c = registry.spec_map()[tag_name@];
                let held = m.records.dom().contains(tag_name@);
                &&& r matches Ok(o)
                &&& o.self_closing == (tag_index(node_view(*node).children, 0) matches Some(t)
                    && node_view(*node).children[t].kind == "self_closing_tag"@)
                &&& held ==> o.template is None
                &&& !held ==> (o.template matches Some(tp) && tp@ == spec_built_template(old(state).css_strategy,
                    old(state).dom_strategy, tag_name@, c.html_content@, opt_view(c.css_content)))
                &&& stream_view(*final(state), final(out)@) == (StreamV { out: m.out.push(FragV::Component(tag_name@)), ..m })
                &&& strings_view(final(state).tokens@) == strings_view(old(state).tokens@) + strings_view(c.css_tokens@)
                &&& final(state).definitions == old(state).definitions
                &&& final(state).css_strategy == old(state).css_strategy
                &&& final(state).dom_strategy == old(state).dom_strategy
                &&& forall|q: Seq<char>| q != "attr"@ ==> #[trigger] final(state).ids.count_of(q) == old(state).ids.count_of(q)
                &&& *final(plugin) is Some == *old(plugin) is Some
                &&& *old(plugin) matches Some(p) ==> (*final(plugin) matches Some(q)
                    && q.spec_css_strategy() == p.spec_css_strategy()
                    && q.spec_components() == if held {
                        p.spec_components()
                    } else {
                        register_step(p.spec_components(), (tag_name@, c.html_content@, opt_view(c.css_content)))
                    })
            },
        },
{
    let ghost st0 = stream_view(*state, out@);
    state.add_raw("<");
    state.add_raw(tag_name);
    proof {
        assert(state.raw_buffer@ =~= st0.raw + ("<"@ + tag_name@));
        assert(stream_view(*state, out@) == with_raw(st0, "<"@ + tag_name@));
    }
    let (self_closing, close) = element_tag_close(node, source);
    match element_tag(node, source) {
        None => {},
        Some(tag) => {
            match tag_opening(tag, source, true, plugin, parsed, state, out) {
                Ok(()) => {},
                Err(e) => return Err(e),
            }
        },
    }
    state.add_raw(close.as_str());
    state.flush_raw(out);
    let ghost m = stream_view(*state, out@);
    let ghost s2 = *state;
    let comp = match registry.get(tag_name) {
        Some(c) => c,
        None => {
            let mut msg = String::from_str("Component not found: ");
            msg.append(tag_name);
            return Err(ParserError::Directive(msg));
        },
    };
    let ghost tokens0 = state.tokens@;
    let mut i: usize = 0;
    while i < comp.css_tokens.len()
        invariant
            0 <= i <= comp.css_tokens@.len(),
            strings_view(state.tokens@) == strings_view(tokens0) + strings_view(comp.css_tokens@.take(i as int)),
            stream_view(*state, out@) == m,
            state.records == s2.records,
            state.definitions == s2.definitions,
            state.ids == s2.ids,
            state.css_strategy == s2.css_strategy,
            state.dom_strategy == s2.dom_strategy,
        decreases comp.css_tokens@.len() - i,
    {
        let t = comp.css_tokens[i].clone();
        let ghost prev = state.tokens@;
        proof {
            assert(comp.css_tokens@.take(i + 1) =~= comp.css_tokens@.take(i as int).push(comp.css_tokens@[i as int]));
        }
        state.tokens.push(t);
        i = i + 1;
        proof {
            assert(strings_view(state.tokens@) =~= strings_view(prev).push(t@));
            assert(strings_view(comp.css_tokens@.take(i as int)) =~= strings_view(comp.css_tokens@.take(i - 1)).push(t@));
            assert(strings_view(state.tokens@) =~= strings_view(tokens0) + strings_view(comp.css_tokens@.take(i as int)));
        }
    }
    proof {
        assert(comp.css_tokens@.take(comp.css_tokens@.len() as int) =~= comp.css_tokens@);
    }
    let template = if state.records.contains_key(tag_name) {
        None
    } else {
        let css: Option<&str> = match &comp.css_content {
            Some(c) => Some(c.as_str()),
            None => None,
        };
        proof {
            assert(opt_chars(css) == opt_view(comp.css_content));
        }
        let t = component_template(state.css_strategy, state.dom_strategy, tag_name, comp.html_content.as_str(), css);
        match plugin {
            Some(p) => {
                let _ = p.register_component_template(tag_name, comp, t.as_str());
            },
            None => {},
        }
        Some(t)
    };
    state.add_fragment(WebUiFragment::component(tag_name), out);
    Ok(ComponentOpening { template, self_closing })
}

// ── Directives and nodes without outside parsing ───────────────────────

/// A `<route>` directive (see [`spec_route_of`]): the pending raw text,
/// then the route fragment with its nested routes. Parsing the templates of
/// the routes' components into the records is the caller's, as for a
/// component (see [`route_template_needed`]).
pub fn route_directive(
    node: &HtmlNode,
    source: &str,
    state: &mut ParseState,
    out: &mut Vec<WebUiFragment>,
) -> (r: Result<(), ParserError>)
    requires
        fits_source(node_view(*node), source@.len()),
    ensures
        match spec_route_of(node_view(*node), source@) {
            Ok(rv) => r is Ok && stream_view(*final(state), final(out)@)
                == with_fragment(stream_view(*old(state), old(out)@), FragV::Route(rv))
                && final(state).records == old(state).records && final(state).ids == old(state).ids
                && final(state).tokens == old(state).tokens && final(state).definitions == old(state).definitions && final(state).css_strategy == old(state).css_strategy
                && final(state).dom_strategy == old(state).dom_strategy,
            Err(m) => r matches Err(ParserError::Directive(x)) && x@ == m && *final(state) == *old(state)
                && final(out)@ == old(out)@,
        },
{
    let route = match parse_route_as_fragment(node, source) {
        Ok(route) => route,
        Err(e) => return Err(e),
    };
    state.add_fragment(WebUiFragment::route_from(route), out);
    Ok(())
}

/// Whether a route's component template is still to be parsed: the route
/// names a component, the component is registered, and the records do not
/// hold its template yet.
pub fn route_template_needed(component: &str, registry: &StringMap<Component>, state: &ParseState) -> (r: bool)
    ensures
        r == (component@.len() > 0 && registry.spec_map().dom().contains(component@)
            && !state.records.spec_map().dom().contains(component@)),
{
    !component.is_empty() && registry.contains_key(component) && !state.records.contains_key(component)
}

/// The opening of `<body>`: the raw `<body>`, then the body start signal.
pub fn body_start(state: &mut ParseState, out: &mut Vec<WebUiFragment>)
    ensures
        stream_view(*final(state), final(out)@) == with_fragment(
            with_raw(stream_view(*old(state), old(out)@), "<body>"@),
            FragV::Signal("body_start"@, true),
        ),
        final(state).records == old(state).records,
        final(state).ids == old(state).ids,
        final(state).tokens == old(state).tokens && final(state).definitions == old(state).definitions,
        final(state).css_strategy == old(state).css_strategy,
        final(state).dom_strategy == old(state).dom_strategy,
{
    state.add_raw("<body>");
    state.add_fragment(WebUiFragment::signal("body_start", true), out);
}

/// The close of `<body>`: the body end signal, then the raw `</body>`.
pub fn body_end(state: &mut ParseState, out: &mut Vec<WebUiFragment>)
    ensures
        stream_view(*final(state), final(out)@) == with_raw(
            with_fragment(stream_view(*old(state), old(out)@), FragV::Signal("body_end"@, true)),
            "</body>"@,
        ),
        final(state).records == old(state).records,
        final(state).ids == old(state).ids,
        final(state).tokens == old(state).tokens && final(state).definitions == old(state).definitions,
        final(state).css_strategy == old(state).css_strategy,
        final(state).dom_strategy == old(state).dom_strategy,
{
    state.add_fragment(WebUiFragment::signal("body_end", true), out);
    state.add_raw("</body>");
}

/// The close of `<head>`: the head end signal, then the raw `</head>`.
pub fn head_end(state: &mut ParseState, out: &mut Vec<WebUiFragment>)
    ensures
        stream_view(*final(state), final(out)@) == with_raw(
            with_fragment(stream_view(*old(state), old(out)@), FragV::Signal("head_end"@, true)),
            "</head>"@,
        ),
        final(state).records == old(state).records,
        final(state).ids == old(state).ids,
        final(state).tokens == old(state).tokens && final(state).definitions == old(state).definitions,
        final(state).css_strategy == old(state).css_strategy,
        final(state).dom_strategy == old(state).dom_strategy,
{
    state.add_fragment(WebUiFragment::signal("head_end", true), out);
    state.add_raw("</head>");
}

/// Fragments `fs` written in order: raw ones as pending raw text, the
/// others as fragments.
pub open spec fn emit_fragments(st: StreamV, fs: Seq<FragV>) -> StreamV
    decreases fs.len(),
{
    if fs.len() == 0 {
        st
    } else {
        let prev = emit_fragments(st, fs.drop_last());
        match fs.last() {
            FragV::Raw(v) => with_raw(prev, v),
            f => with_fragment(prev, f),
        }
    }
}

fn write_fragments(fragments: Vec<WebUiFragment>, state: &mut ParseState, out: &mut Vec<WebUiFragment>)
    ensures
        stream_view(*final(state), final(out)@) == emit_fragments(stream_view(*old(state), old(out)@), frags_view(fragments@)),
        final(state).records == old(state).records,
        final(state).ids == old(state).ids,
        final(state).tokens == old(state).tokens && final(state).definitions == old(state).definitions,
        final(state).css_strategy == old(state).css_strategy,
        final(state).dom_strategy == old(state).dom_strategy,
{
    let ghost all = frags_view(fragments@);
    let ghost st0 = stream_view(*state, out@);
    let mut rest = fragments;
    let mut i: usize = 0;
    let n = rest.len();
    while i < n
        invariant
            n == all.len(),
            0 <= i <= n,
            frags_view(rest@) == all.skip(i as int),
            stream_view(*state, out@) == emit_fragments(st0, all.take(i as int)),
            state.records == old(state).records,
            state.ids == old(state).ids,
            state.tokens == old(state).tokens,
            state.definitions == old(state).definitions,
            state.css_strategy == old(state).css_strategy,
            state.dom_strategy == old(state).dom_strategy,
        decreases n - i,
    {
        let ghost before = rest@;
        proof {
            assert(frags_view(before).len() == before.len());
            assert(all.skip(i as int).len() == n - i);
            assert(before.len() == n - i);
            assert(frags_view(before)[0] == frag_view(before[0]));
            assert(all.skip(i as int)[0] == all[i as int]);
        }
        let f = rest.remove(0);
        proof {
            assert(f == before[0]);
            assert(frag_view(f) == all[i as int]);
            assert(all.take(i + 1).drop_last() =~= all.take(i as int));
            assert(all.take(i + 1).last() == all[i as int]);
        }
        match f.fragment {
            Some(Fragment::Raw(raw)) => {
                state.add_raw(raw.value.as_str());
            },
            other => {
                state.add_fragment(WebUiFragment { fragment: other }, out);
            },
        }
        i = i + 1;
        proof {
            assert(rest@ =~= before.skip(1));
            assert forall|k: int| 0 <= k < rest@.len() implies #[trigger] frags_view(rest@)[k] == all.skip(i as int)[k] by {
                assert(rest@[k] == before[k + 1]);
                assert(frags_view(before)[k + 1] == frag_view(before[k + 1]));
                assert(all.skip(i - 1)[k + 1] == all[i + k]);
            }
            assert(frags_view(rest@) =~= all.skip(i as int));
        }
    }
    proof {
        assert(all.take(n as int) =~= all);
    }
}

/// A text node: when it goes into the stream (see [`emits_text`]), what the
/// handlebars parser made of it (`parsed`): raw fragments as pending raw
/// text, the others as fragments; the parse error is the error.
pub fn text_node(
    content: &str,
    parsed: Result<Vec<WebUiFragment>, ParserError>,
    state: &mut ParseState,
    out: &mut Vec<WebUiFragment>,
) -> (r: Result<(), ParserError>)
    ensures
        !emits_text(content@) ==> r is Ok && stream_view(*final(state), final(out)@) == stream_view(*old(state), old(out)@),
        emits_text(content@) ==> match parsed {
            Err(e) => r == Err::<(), ParserError>(e),
            Ok(fs) => r is Ok && stream_view(*final(state), final(out)@)
                == emit_fragments(stream_view(*old(state), old(out)@), frags_view(fs@)),
        },
        r is Ok ==> final(state).records == old(state).records && final(state).ids == old(state).ids
            && final(state).tokens == old(state).tokens && final(state).definitions == old(state).definitions && final(state).css_strategy == old(state).css_strategy
            && final(state).dom_strategy == old(state).dom_strategy,
        r is Err ==> *final(state) == *old(state) && final(out)@ == old(out)@,
{
    if !should_emit_text_content(content) {
        return Ok(());
    }
    match parsed {
        Ok(fs) => {
            write_fragments(fs, state, out);
            Ok(())
        },
        Err(e) => Err(e),
    }
}

/// An HTML comment: kept as raw text, unless it holds a `{{` expression
/// (see [`spec_comment_expression`]) whose fragments (`parsed`, what the
/// handlebars parser made of it) replace it, being all signals and at least
/// one (see [`comment_replaced_by`]); the parse error is the error.
pub fn comment_node(
    content: &str,
    parsed: Result<Vec<WebUiFragment>, ParserError>,
    state: &mut ParseState,
    out: &mut Vec<WebUiFragment>,
) -> (r: Result<(), ParserError>)
    ensures
        spec_comment_expression(content@) is None ==> r is Ok && stream_view(*final(state), final(out)@)
            == with_raw(stream_view(*old(state), old(out)@), content@),
        spec_comment_expression(content@) is Some ==> match parsed {
            Err(e) => r == Err::<(), ParserError>(e),
            Ok(fs) => r is Ok && stream_view(*final(state), final(out)@) == if fs@.len() > 0
                && forall|i: int| 0 <= i < fs@.len() ==> frag_view(#[trigger] fs@[i]) is Signal {
                emit_fragments(stream_view(*old(state), old(out)@), frags_view(fs@))
            } else {
                with_raw(stream_view(*old(state), old(out)@), content@)
            },
        },
        r is Ok ==> final(state).records == old(state).records && final(state).ids == old(state).ids
            && final(state).tokens == old(state).tokens && final(state).definitions == old(state).definitions && final(state).css_strategy == old(state).css_strategy
            && final(state).dom_strategy == old(state).dom_strategy,
        r is Err ==> *final(state) == *old(state) && final(out)@ == old(out)@,
{
    match comment_expression(content) {
        None => {
            state.add_raw(content);
            Ok(())
        },
        Some(_) => match parsed {
            Ok(fs) => {
                if comment_replaced_by(fs.as_slice()) {
                    write_fragments(fs, state, out);
                } else {
                    state.add_raw(content);
                }
                Ok(())
            },
            Err(e) => Err(e),
        },
    }
}

/// The opening of an element that is neither a directive nor a component:
/// nothing without an opening tag; otherwise the raw `<tag`, what its
/// tag's attributes call for (see [`spec_tag_opening`]) and the raw close
/// of the opening tag, left pending; or the first error.
pub open spec fn spec_element_opening(
    n: HtmlNodeV,
    s: Seq<char>,
    tag: Seq<char>,
    st: StreamV,
    fast: bool,
    parsed: Seq<ParsedAttribute>,
) -> Result<StreamV, (StreamV, ErrV)> {
    match tag_index(n.children, 0) {
        None => Ok(st),
        Some(t) => match spec_tag_opening(n.children[t], s, with_raw(st, "<"@ + tag), false, fast, parsed) {
            Err(e) => Err(e),
            Ok(o) => Ok(with_raw(o, opening_tag_close(n, s))),
        },
    }
}

/// The opening of an element that is neither a directive nor a component
/// (see [`spec_element_opening`]). The result tells whether the element's
/// children, then `</tag>`, follow: it has an opening tag that is not
/// self-closing, and an end tag (a void element has none).
pub fn element_opening(
    node: &HtmlNode,
    source: &str,
    tag_name: &str,
    plugin: &mut Option<FastParserPlugin>,
    parsed: Vec<ParsedAttribute>,
    state: &mut ParseState,
    out: &mut Vec<WebUiFragment>,
) -> (r: Result<bool, ParserError>)
    requires
        fits_source(node_view(*node), source@.len()),
        tag_index(node_view(*node).children, 0) matches Some(t) ==> (spec_tag_attributes(
            node_view(*node).children[t].children, 0, source@) matches Ok(a) ==> a.len() <= u32::MAX
            && parsed@.len() == a.len()),
        old(state).ids.count_of("attr"@) + parsed@.len() < usize::MAX,
    ensures
        match spec_element_opening(node_view(*node), source@, tag_name@, stream_view(*old(state), old(out)@),
            *old(plugin) is Some, parsed@) {
            Err((m, e)) => r matches Err(x) && err_view(x) == e && stream_view(*final(state), final(out)@) == m
                && same_rest(*final(state), *old(state)) && plugin_kept(*old(plugin), *final(plugin)),
            Ok(m) => {
                &&& r matches Ok(b) && b == (tag_index(node_view(*node).children, 0) matches Some(t)
                    && node_view(*node).children[t].kind != "self_closing_tag"@ && has_end_tag(node_view(*node)))
                &&& stream_view(*final(state), final(out)@) == m
                &&& same_rest(*final(state), *old(state))
                &&& plugin_kept(*old(plugin), *final(plugin))
            },
        },
{
    let ghost st0 = stream_view(*state, out@);
    let (self_closing, close) = element_tag_close(node, source);
    let tag = match element_tag(node, source) {
        None => return Ok(false),
        Some(tag) => tag,
    };
    state.add_raw("<");
    state.add_raw(tag_name);
    proof {
        assert(state.raw_buffer@ =~= st0.raw + ("<"@ + tag_name@));
        assert(stream_view(*state, out@) == with_raw(st0, "<"@ + tag_name@));
    }
    match tag_opening(tag, source, false, plugin, parsed, state, out) {
        Ok(()) => {},
        Err(e) => return Err(e),
    }
    state.add_raw(close.as_str());
    Ok(!self_closing && element_has_end_tag(node))
}

// ── Blocks with a body of their own ───────────────────────────────────

/// The pending raw text of a body read into fragments of its own, written
/// after those fragments.
pub open spec fn body_done(body: Seq<FragV>, raw: Seq<char>) -> Seq<FragV> {
    if raw.len() == 0 { body } else { body.push(FragV::Raw(raw)) }
}

/// An `<if>` block being read: its condition and the id of its body.
pub struct IfBlock {
    pub condition: ConditionExpr,
    pub fragment_id: String,
}

/// The start of an `<if>` block: the `condition` attribute, which the
/// caller's condition parser made into `parsed` (`None`: it does not
/// parse), a new `if` id for the body, and the pending raw text written
/// out before the body is read into fragments of its own.
pub fn if_directive_start(
    node: &HtmlNode,
    source: &str,
    parsed: Option<ConditionExpr>,
    state: &mut ParseState,
    out: &mut Vec<WebUiFragment>,
) -> (r: Result<IfBlock, ParserError>)
    requires
        fits_source(node_view(*node), source@.len()),
        old(state).ids.count_of("if"@) < usize::MAX,
    ensures
        match own_attribute_value(node_view(*node), source@, "condition"@) {
            None => r matches Err(ParserError::Directive(m)) && m@ == "Missing 'condition' attribute on <if>"@
                && *final(state) == *old(state) && final(out)@ == old(out)@,
            Some(c) => match parsed {
                None => r matches Err(ParserError::Directive(m)) && m@ == "Invalid condition expression: "@ + c
                    && *final(state) == *old(state) && final(out)@ == old(out)@,
                Some(e) => {
                    &&& r matches Ok(b) && b.condition == e
                        && b.fragment_id@ == fragment_id("if"@, final(state).ids.count_of("if"@))
                    &&& final(state).ids.count_of("if"@) == old(state).ids.count_of("if"@) + 1
                    &&& forall|q: Seq<char>| q != "if"@ ==> #[trigger] final(state).ids.count_of(q) == old(state).ids.count_of(q)
                    &&& stream_view(*final(state), final(out)@) == flushed(stream_view(*old(state), old(out)@))
                    &&& final(state).records == old(state).records
                    &&& final(state).tokens == old(state).tokens && final(state).definitions == old(state).definitions
                    &&& final(state).css_strategy == old(state).css_strategy
                    &&& final(state).dom_strategy == old(state).dom_strategy
                },
            },
        },
{
    let text = match if_directive_condition(node, source) {
        Ok(t) => t,
        Err(e) => return Err(e),
    };
    let condition = match parsed {
        Some(c) => c,
        None => {
            let mut msg = String::from_str("Invalid condition expression: ");
            msg.append(text.as_str());
            return Err(ParserError::Directive(msg));
        },
    };
    proof {
        reveal_strlit("if");
        reveal_strlit("attr");
        assert("if"@.len() != "attr"@.len());
    }
    let id = state.ids.next_id("if");
    state.flush_raw(out);
    Ok(IfBlock { condition, fragment_id: id })
}

/// The end of an `<if>` block: the body's pending raw text written after
/// its fragments, which are recorded under the block's id; then the if
/// fragment.
pub fn if_directive_end(block: IfBlock, body: Vec<WebUiFragment>, state: &mut ParseState, out: &mut Vec<WebUiFragment>)
    ensures
        exists|v: FragmentList| final(state).records.spec_map() == old(state).records.spec_map().insert(block.fragment_id@, v)
            && frags_view(v.fragments@) == body_done(frags_view(body@), old(state).raw_buffer@),
        frags_view(final(out)@) == frags_view(old(out)@).push(
            FragV::IfCond(Some(cond_view(block.condition)), block.fragment_id@)),
        final(state).raw_buffer@.len() == 0,
        final(state).ids == old(state).ids,
        final(state).tokens == old(state).tokens && final(state).definitions == old(state).definitions,
        final(state).css_strategy == old(state).css_strategy,
        final(state).dom_strategy == old(state).dom_strategy,
{
    let ghost body0 = body@;
    let mut body = body;
    state.flush_raw(&mut body);
    let ghost list = FragmentList { fragments: body };
    let ghost id = block.fragment_id@;
    let ghost cv = cond_view(block.condition);
    let f = WebUiFragment::if_cond(block.condition, block.fragment_id.as_str());
    state.records.insert(block.fragment_id, FragmentList { fragments: body });
    state.add_fragment(f, out);
    proof {
        assert(frags_view(list.fragments@) == body_done(frags_view(body0), old(state).raw_buffer@));
    }
}

/// The start of a `<for>` block's body: the pending raw text is set aside
/// (and returned) while the body is read into fragments of its own.
pub fn for_body_start(state: &mut ParseState) -> (r: String)
    ensures
        r@ == old(state).raw_buffer@,
        final(state).raw_buffer@.len() == 0,
        final(state).records == old(state).records,
        final(state).ids == old(state).ids,
        final(state).tokens == old(state).tokens && final(state).definitions == old(state).definitions,
        final(state).css_strategy == old(state).css_strategy,
        final(state).dom_strategy == old(state).dom_strategy,
{
    let mut taken = String::new();
    std::mem::swap(&mut taken, &mut state.raw_buffer);
    taken
}

/// The end of a `<for>` block: the body's pending raw text is written after
/// its fragments and the set-aside raw text restored. An empty body records
/// and writes nothing; otherwise the body is recorded under `fragment_id`
/// and the for fragment is written after the set-aside text.
pub fn for_directive_end(
    item: &str,
    collection: &str,
    fragment_id: String,
    set_aside: String,
    body: Vec<WebUiFragment>,
    state: &mut ParseState,
    out: &mut Vec<WebUiFragment>,
)
    ensures
        body_done(frags_view(body@), old(state).raw_buffer@).len() == 0 ==> {
            &&& final(state).raw_buffer@ == set_aside@
            &&& final(state).records == old(state).records
            &&& final(out)@ == old(out)@
        },
        body_done(frags_view(body@), old(state).raw_buffer@).len() > 0 ==> {
            &&& exists|v: FragmentList| final(state).records.spec_map() == old(state).records.spec_map().insert(fragment_id@, v)
                && frags_view(v.fragments@) == body_done(frags_view(body@), old(state).raw_buffer@)
            &&& frags_view(final(out)@) == body_done(frags_view(old(out)@), set_aside@).push(
                FragV::ForLoop(item@, collection@, fragment_id@))
            &&& final(state).raw_buffer@.len() == 0
        },
        final(state).ids == old(state).ids,
        final(state).tokens == old(state).tokens && final(state).definitions == old(state).definitions,
        final(state).css_strategy == old(state).css_strategy,
        final(state).dom_strategy == old(state).dom_strategy,
{
    let ghost body0 = body@;
    let mut body = body;
    state.flush_raw(&mut body);
    state.raw_buffer = set_aside;
    if body.len() == 0 {
        return;
    }
    let ghost list = FragmentList { fragments: body };
    let f = WebUiFragment::for_loop(item, collection, fragment_id.as_str());
    state.records.insert(fragment_id, FragmentList { fragments: body });
    state.add_fragment(f, out);
    proof {
        assert(frags_view(list.fragments@) == body_done(frags_view(body0), old(state).raw_buffer@));
    }
}

/// The source text `[from, to)` between nodes, as pending raw text when it
/// goes into the stream (see [`emits_text`]): authored separators that the
/// syntax tree holds in no node.
pub fn source_gap(source: &str, from: usize, to: usize, state: &mut ParseState)
    requires
        from <= to <= source@.len(),
    ensures
        final(state).raw_buffer@ == if emits_text(source@.subrange(from as int, to as int)) {
            old(state).raw_buffer@ + source@.subrange(from as int, to as int)
        } else {
            old(state).raw_buffer@
        },
        final(state).records == old(state).records,
        final(state).ids == old(state).ids,
        final(state).tokens == old(state).tokens && final(state).definitions == old(state).definitions,
        final(state).css_strategy == old(state).css_strategy,
        final(state).dom_strategy == old(state).dom_strategy,
{
    let s = str_chars(source);
    let mut gap: Vec<char> = Vec::new();
    let mut i = from;
    while i < to
        invariant
            from <= i <= to,
            to <= s@.len(),
            gap@ == s@.subrange(from as int, i as int),
        decreases to - i,
    {
        gap.push(s[i]);
        i = i + 1;
        proof {
            assert(gap@ =~= s@.subrange(from as int, i as int));
        }
    }
    let text = chars_to_string(gap.as_slice());
    if should_emit_text_content(text.as_str()) {
        state.add_raw(text.as_str());
    }
}

// ── Inline styles ──────────────────────────────────────────────────────

/// A CSS comment stands for a signal: its trimmed inner text is not empty
/// and the handlebars parser made exactly one fragment of it, a signal.
pub open spec fn comment_signal(inner: Seq<char>, parsed: Result<Vec<WebUiFragment>, ParserError>) -> Option<FragV> {
    match parsed {
        Ok(fs) => if inner.len() > 0 && fs@.len() == 1 && frag_view(fs@[0]) is Signal {
            Some(frag_view(fs@[0]))
        } else {
            None
        },
        Err(_) => None,
    }
}

/// The number of comments among CSS pieces.
pub open spec fn comment_count(ps: Seq<CssPieceV>) -> nat
    decreases ps.len(),
{
    if ps.len() == 0 {
        0
    } else {
        comment_count(ps.drop_last()) + if ps.last() is Comment { 1nat } else { 0nat }
    }
}

/// What the parser writes for CSS pieces, given what the handlebars parser
/// made of each comment's inner text, in order: text as raw text, a comment
/// that stands for a signal as that signal, any other comment as raw text.
pub open spec fn emit_css(st: StreamV, ps: Seq<CssPieceV>, parsed: Seq<Result<Vec<WebUiFragment>, ParserError>>) -> StreamV
    decreases ps.len(),
{
    if ps.len() == 0 {
        st
    } else {
        let prev = emit_css(st, ps.drop_last(), parsed);
        match ps.last() {
            CssPieceV::Text(t) => with_raw(prev, t),
            CssPieceV::Comment { text, inner } => match comment_signal(inner, parsed[comment_count(ps.drop_last()) as int]) {
                Some(f) => with_fragment(prev, f),
                None => with_raw(prev, text),
            },
        }
    }
}

/// The text of a `<style>` element: its CSS token references and
/// definitions, as the caller's CSS parser extracted them (`None`: the CSS
/// did not parse), join the state's; then the CSS is written (see
/// [`emit_css`]), between the raw `<style>` and `</style>`. `comments`
/// holds what the handlebars parser made of each comment's inner text, in
/// order.
pub fn style_element(
    css: &str,
    extracted: Option<(Vec<String>, Vec<String>)>,
    comments: Vec<Result<Vec<WebUiFragment>, ParserError>>,
    state: &mut ParseState,
    out: &mut Vec<WebUiFragment>,
)
    requires
        comments@.len() == comment_count(css_pieces(css@, 0)),
    ensures
        stream_view(*final(state), final(out)@) == with_raw(
            emit_css(with_raw(stream_view(*old(state), old(out)@), "<style>"@), css_pieces(css@, 0), comments@),
            "</style>"@,
        ),
        match extracted {
            Some((ts, ds)) => final(state).tokens@ == old(state).tokens@ + ts@
                && final(state).definitions@ == old(state).definitions@ + ds@,
            None => final(state).tokens == old(state).tokens && final(state).definitions == old(state).definitions,
        },
        final(state).records == old(state).records,
        final(state).ids == old(state).ids,
        final(state).css_strategy == old(state).css_strategy,
        final(state).dom_strategy == old(state).dom_strategy,
{
    state.add_raw("<style>");
    match extracted {
        Some((ts, ds)) => {
            let mut ts = ts;
            let mut ds = ds;
            state.tokens.append(&mut ts);
            state.definitions.append(&mut ds);
        },
        None => {},
    }
    let pieces = split_css_comments(css);
    let ghost pv = css_pieces(css@, 0);
    let ghost all = comments@;
    proof {
        assert(all.len() == comments.len());
    }
    let ghost st0 = stream_view(*state, out@);
    let ghost s0 = *state;
    let mut rest = comments;
    let mut i: usize = 0;
    let mut seen: usize = 0;
    while i < pieces.len()
        invariant
            pieces@.map_values(|p: CssPiece| css_piece_view(p)) == pv,
            all.len() == comment_count(pv),
            all.len() <= usize::MAX,
            0 <= i <= pieces@.len(),
            seen == comment_count(pv.take(i as int)),
            seen <= all.len(),
            rest@ == all.skip(seen as int),
            stream_view(*state, out@) == emit_css(st0, pv.take(i as int), all),
            state.records == s0.records,
            state.ids == s0.ids,
            state.tokens == s0.tokens,
            state.definitions == s0.definitions,
            state.css_strategy == s0.css_strategy,
            state.dom_strategy == s0.dom_strategy,
        decreases pieces@.len() - i,
    {
        proof {
            lemma_comment_count_prefix(pv, i as int);
            assert(pv.take(i + 1).drop_last() =~= pv.take(i as int));
            assert(pv.take(i + 1).last() == pv[i as int]);
            assert(pv[i as int] == css_piece_view(pieces@[i as int]));
        }
        match &pieces[i] {
            CssPiece::Text(t) => {
                state.add_raw(t.as_str());
            },
            CssPiece::Comment { text, inner } => {
                let ghost before = rest@;
                proof {
                    assert(pv[i as int] is Comment);
                    assert(seen < all.len());
                    assert(before[0] == all[seen as int]);
                }
                let parsed = rest.remove(0);
                let signal: Option<WebUiFragment> = match parsed {
                    Ok(fs) => {
                        let mut fs = fs;
                        if !inner.as_str().is_empty() && fs.len() == 1 {
                            let f = fs.remove(0);
                            match &f.fragment {
                                Some(Fragment::Signal(_)) => Some(f),
                                _ => None,
                            }
                        } else {
                            None
                        }
                    },
                    Err(_) => None,
                };
                match signal {
                    Some(f) => state.add_fragment(f, out),
                    None => state.add_raw(text.as_str()),
                }
                seen = seen + 1;
                proof {
                    assert(rest@ =~= all.skip(seen as int));
                }
            },
        }
        i = i + 1;
    }
    proof {
        assert(pv.take(pieces@.len() as int) =~= pv);
    }
    state.add_raw("</style>");
}

proof fn lemma_comment_count_prefix(ps: Seq<CssPieceV>, i: int)
    requires
        0 <= i < ps.len(),
    ensures
        comment_count(ps.take(i + 1)) == comment_count(ps.take(i)) + if ps[i] is Comment { 1nat } else { 0nat },
        comment_count(ps.take(i + 1)) <= comment_count(ps),
{
    assert(ps.take(i + 1).drop_last() =~= ps.take(i));
    lemma_comment_count_monotone(ps, i + 1);
}

proof fn lemma_comment_count_monotone(ps: Seq<CssPieceV>, i: int)
    requires
        0 <= i <= ps.len(),
    ensures
        comment_count(ps.take(i)) <= comment_count(ps),
        i > 0 ==> comment_count(ps.take(i - 1)) <= comment_count(ps.take(i)),
    decreases ps.len() - i,
{
    if i > 0 {
        assert(ps.take(i).drop_last() =~= ps.take(i - 1));
    }
    if i < ps.len() {
        lemma_comment_count_monotone(ps, i + 1);
        assert(ps.take(i + 1).drop_last() =~= ps.take(i));
    } else {
        assert(ps.take(i) =~= ps);
    }
}

} // verus!
