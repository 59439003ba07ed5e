//! The directive parser's decisions for the attributes of a tag: which
//! become fragments (and of which kind), which go to the raw output, which
//! are dropped or rejected, which count as bindings of the element, and
//! which attribute of a component is marked as its first dynamic one.
//!
//! Expressions are handed on as text: conditions go to the condition
//! parser and mixed templates to the handlebars parser by the caller.
use vstd::prelude::*;
use super::directive::{
    blocked_complex_property, contains, contains_handlebars, extract_single_handlebars, is_blocked_complex_property,
    is_skipped_attribute, single_handlebars, skipped_attribute,
};
use super::error::ParserError;
use super::fast_plugin::{is_fast_binding_attribute, FastParserPlugin};
use super::plugin::AttributeAction;
use crate::text::{chars_to_string, push_str, str_chars};

verus! {

/// An attribute of a tag: its name and, if it has one, its value.
pub struct TagAttribute {
    pub name: String,
    pub value: Option<String>,
}

/// What the parser does with one attribute.
#[derive(Debug)]
pub enum AttributePlan {
    /// Nothing: the attribute is dropped.
    Drop,
    /// Nothing is output, but the attribute counts as a binding.
    CountBinding,
    /// A boolean attribute fragment for the condition `expression`.
    Boolean { name: String, expression: String, attr_start: bool },
    /// A complex (`:`) attribute fragment bound to `signal`.
    Complex { name: String, signal: String, attr_start: bool },
    /// An attribute fragment bound to `signal`; `skip` for attributes of a
    /// component that are not bound on the component itself.
    Binding { name: String, signal: String, skip: bool, attr_start: bool },
    /// An attribute fragment whose value is the handlebars template `value`.
    Template { name: String, value: String, skip: bool, attr_start: bool },
    /// An attribute fragment with the static `value`.
    Static { name: String, value: String, skip: bool, attr_start: bool },
    /// The attribute's source text goes to the raw output, after a space.
    RawText,
    /// The attribute's name goes to the raw output, after a space.
    RawName,
}

/// The model of an [`AttributePlan`].
pub enum PlanV {
    Drop,
    CountBinding,
    Boolean { name: Seq<char>, expression: Seq<char>, attr_start: bool },
    Complex { name: Seq<char>, signal: Seq<char>, attr_start: bool },
    Binding { name: Seq<char>, signal: Seq<char>, skip: bool, attr_start: bool },
    Template { name: Seq<char>, value: Seq<char>, skip: bool, attr_start: bool },
    Static { name: Seq<char>, value: Seq<char>, skip: bool, attr_start: bool },
    RawText,
    RawName,
}

/// The model of a plan.
pub open spec fn plan_view(p: AttributePlan) -> PlanV {
    match p {
        AttributePlan::Drop => PlanV::Drop,
        AttributePlan::CountBinding => PlanV::CountBinding,
        AttributePlan::Boolean { name, expression, attr_start } => PlanV::Boolean {
            name: name@,
            expression: expression@,
            attr_start,
        },
        AttributePlan::Complex { name, signal, attr_start } => PlanV::Complex { name: name@, signal: signal@, attr_start },
        AttributePlan::Binding { name, signal, skip, attr_start } => PlanV::Binding {
            name: name@,
            signal: signal@,
            skip,
            attr_start,
        },
        AttributePlan::Template { name, value, skip, attr_start } => PlanV::Template {
            name: name@,
            value: value@,
            skip,
            attr_start,
        },
        AttributePlan::Static { name, value, skip, attr_start } => PlanV::Static {
            name: name@,
            value: value@,
            skip,
            attr_start,
        },
        AttributePlan::RawText => PlanV::RawText,
        AttributePlan::RawName => PlanV::RawName,
    }
}

/// The model of an attribute: its name and optional value.
pub open spec fn attribute_view(a: TagAttribute) -> (Seq<char>, Option<Seq<char>>) {
    (a.name@, match a.value {
        Some(v) => Some(v@),
        None => None,
    })
}

/// The models of a sequence of attributes.
pub open spec fn attributes_view(attrs: Seq<TagAttribute>) -> Seq<(Seq<char>, Option<Seq<char>>)> {
    attrs.map_values(|a: TagAttribute| attribute_view(a))
}

/// The models of a sequence of plans.
pub open spec fn plans_view(plans: Seq<AttributePlan>) -> Seq<PlanV> {
    plans.map_values(|p: AttributePlan| plan_view(p))
}

/// The plan counts as a binding of the element.
pub open spec fn counts_binding(p: PlanV) -> bool {
    match p {
        PlanV::CountBinding | PlanV::Boolean { .. } | PlanV::Complex { .. } | PlanV::Binding { .. }
        | PlanV::Template { .. } => true,
        _ => false,
    }
}

/// The error for a complex binding on a native element.
pub open spec fn native_complex_message(prop: Seq<char>) -> Seq<char> {
    ":"@ + prop + " complex binding is only allowed on custom elements. Use "@ + prop
        + "=\"{{expr}}\" for native HTML elements."@
}

/// The error for a complex binding of a blocked property.
pub open spec fn blocked_complex_message(prop: Seq<char>) -> Seq<char> {
    ":"@ + prop
        + " is not allowed as a complex attribute binding because it enables arbitrary HTML injection. Use {{{expr}}} (triple-brace) syntax for raw HTML."@
}

/// The plan for one attribute, with the flag that records whether a
/// component's first dynamic attribute was marked, before and after; or the
/// error message.
///
/// The plugin's action decides first (`Skip` drops, `SkipAndCountBinding`
/// counts). Then, by the name:
/// - `?name`: a boolean attribute when the value is one `{{expression}}`,
///   otherwise dropped;
/// - `:prop`: an error on a native element or for a blocked property, a
///   complex attribute when the value is one `{{signal}}`, otherwise dropped;
/// - attributes of components that are not bound (`class`, `style`, `role`,
///   `data-*`, `aria-*`): a skipped binding, template or static value;
/// - any other attribute with a `{{` value: a binding when it is one
///   `{{signal}}`, otherwise a template;
/// - any other attribute with a static value: a static attribute fragment
///   on a component, the raw source text on a native element;
/// - an attribute without a value: its raw name (dropped for the
///   not-bound attributes of components).
///
/// On a component, the first boolean, complex, binding, template or static
/// plan that is not a skipped one carries `attr_start`.
pub open spec fn spec_plan(
    name: Seq<char>,
    value: Option<Seq<char>>,
    is_component: bool,
    action: AttributeAction,
    emitted: bool,
) -> Result<(PlanV, bool), Seq<char>> {
    match action {
        AttributeAction::Skip => Ok((PlanV::Drop, emitted)),
        AttributeAction::SkipAndCountBinding => Ok((PlanV::CountBinding, emitted)),
        AttributeAction::Keep => if name.len() > 0 && name[0] == '?' {
            let b = name.skip(1);
            match value {
                Some(v) => match single_handlebars(v) {
                    Some(e) => if is_component {
                        Ok((PlanV::Boolean { name: b, expression: e, attr_start: !emitted }, true))
                    } else {
                        Ok((PlanV::Boolean { name: b, expression: e, attr_start: false }, emitted))
                    },
                    None => Ok((PlanV::Drop, emitted)),
                },
                None => Ok((PlanV::Drop, emitted)),
            }
        } else if name.len() > 0 && name[0] == ':' {
            let p = name.skip(1);
            if !is_component {
                Err(native_complex_message(p))
            } else if blocked_complex_property(p) {
                Err(blocked_complex_message(p))
            } else {
                match value {
                    Some(v) => match single_handlebars(v) {
                        Some(s) => Ok((PlanV::Complex { name, signal: s, attr_start: !emitted }, true)),
                        None => Ok((PlanV::Drop, emitted)),
                    },
                    None => Ok((PlanV::Drop, emitted)),
                }
            }
        } else if is_component && skipped_attribute(name) {
            match value {
                Some(v) => match single_handlebars(v) {
                    Some(s) => Ok((PlanV::Binding { name, signal: s, skip: true, attr_start: false }, emitted)),
                    None => if contains(v, seq!['{', '{']) {
                        Ok((PlanV::Template { name, value: v, skip: true, attr_start: false }, emitted))
                    } else {
                        Ok((PlanV::Static { name, value: v, skip: true, attr_start: false }, emitted))
                    },
                },
                None => Ok((PlanV::Drop, emitted)),
            }
        } else {
            match value {
                Some(v) => if contains(v, seq!['{', '{']) {
                    let start = is_component && !emitted;
                    let e2 = if is_component { true } else { emitted };
                    match single_handlebars(v) {
                        Some(s) => Ok((PlanV::Binding { name, signal: s, skip: false, attr_start: start }, e2)),
                        None => Ok((PlanV::Template { name, value: v, skip: false, attr_start: start }, e2)),
                    }
                } else if is_component {
                    Ok((PlanV::Static { name, value: v, skip: false, attr_start: !emitted }, true))
                } else {
                    Ok((PlanV::RawText, emitted))
                },
                None => Ok((PlanV::RawName, emitted)),
            }
        },
    }
}

/// The characters of `s` after the first.
fn tail(s: &Vec<char>) -> (r: String)
    requires
        s@.len() > 0,
    ensures
        r@ == s@.skip(1),
{
    let mut out: Vec<char> = Vec::new();
    let mut i: usize = 1;
    while i < s.len()
        invariant
            1 <= i <= s@.len(),
            out@ == s@.subrange(1, i as int),
        decreases s@.len() - i,
    {
        out.push(s[i]);
        i = i + 1;
        assert(out@ =~= s@.subrange(1, i as int));
    }
    assert(s@.subrange(1, s@.len() as int) =~= s@.skip(1));
    chars_to_string(out.as_slice())
}

fn message(parts: &[&str]) -> (r: String)
    ensures
        r@ == parts@.fold_left(Seq::<char>::empty(), |acc: Seq<char>, p: &str| acc + p@),
{
    let mut out: Vec<char> = Vec::new();
    let mut i: usize = 0;
    while i < parts.len()
        invariant
            0 <= i <= parts@.len(),
            out@ == parts@.take(i as int).fold_left(Seq::<char>::empty(), |acc: Seq<char>, p: &str| acc + p@),
        decreases parts@.len() - i,
    {
        proof {
            let f = |acc: Seq<char>, p: &str| acc + p@;
            assert(parts@.take(i + 1).drop_last() =~= parts@.take(i as int));
            assert(parts@.take(i + 1).last() == parts@[i as int]);
        }
        push_str(&mut out, parts[i]);
        i = i + 1;
    }
    assert(parts@.take(parts@.len() as int) =~= parts@);
    chars_to_string(out.as_slice())
}

/// The plan for one attribute of a tag (see [`spec_plan`]), given the
/// plugin's action; `first_dynamic_emitted` records whether a component's
/// first dynamic attribute was already marked.
pub fn plan_attribute(
    attr: &TagAttribute,
    is_component: bool,
    action: AttributeAction,
    first_dynamic_emitted: &mut bool,
) -> (r: Result<AttributePlan, ParserError>)
    ensures
        match spec_plan(attr.name@, attribute_view(*attr).1, is_component, action, *old(first_dynamic_emitted)) {
            Ok((p, e)) => r matches Ok(q) && plan_view(q) == p && *final(first_dynamic_emitted) == e,
            Err(m) => r matches Err(ParserError::Parse(s)) && s@ == m
                && *final(first_dynamic_emitted) == *old(first_dynamic_emitted),
        },
{
    match action {
        AttributeAction::Skip => return Ok(AttributePlan::Drop),
        AttributeAction::SkipAndCountBinding => return Ok(AttributePlan::CountBinding),
        AttributeAction::Keep => {},
    }
    let n = str_chars(attr.name.as_str());
    let emitted = *first_dynamic_emitted;
    if n.len() > 0 && n[0] == '?' {
        let b = tail(&n);
        match &attr.value {
            Some(v) => match extract_single_handlebars(v.as_str()) {
                Some(e) => {
                    if is_component {
                        *first_dynamic_emitted = true;
                        Ok(AttributePlan::Boolean { name: b, expression: e, attr_start: !emitted })
                    } else {
                        Ok(AttributePlan::Boolean { name: b, expression: e, attr_start: false })
                    }
                },
                None => Ok(AttributePlan::Drop),
            },
            None => Ok(AttributePlan::Drop),
        }
    } else if n.len() > 0 && n[0] == ':' {
        let p = tail(&n);
        if !is_component {
            let parts = [
                ":",
                p.as_str(),
                " complex binding is only allowed on custom elements. Use ",
                p.as_str(),
                "=\"{{expr}}\" for native HTML elements.",
            ];
            let m = message(&parts);
            proof {
                reveal_with_fuel(Seq::fold_left, 6);
                assert(m@ =~= native_complex_message(p@));
            }
            return Err(ParserError::Parse(m));
        }
        if is_blocked_complex_property(p.as_str()) {
            let parts = [
                ":",
                p.as_str(),
                " is not allowed as a complex attribute binding because it enables arbitrary HTML injection. Use {{{expr}}} (triple-brace) syntax for raw HTML.",
            ];
            let m = message(&parts);
            proof {
                reveal_with_fuel(Seq::fold_left, 4);
                assert(m@ =~= blocked_complex_message(p@));
            }
            return Err(ParserError::Parse(m));
        }
        match &attr.value {
            Some(v) => match extract_single_handlebars(v.as_str()) {
                Some(s) => {
                    *first_dynamic_emitted = true;
                    Ok(AttributePlan::Complex { name: attr.name.clone(), signal: s, attr_start: !emitted })
                },
                None => Ok(AttributePlan::Drop),
            },
            None => Ok(AttributePlan::Drop),
        }
    } else if is_component && is_skipped_attribute(attr.name.as_str()) {
        match &attr.value {
            Some(v) => match extract_single_handlebars(v.as_str()) {
                Some(s) => Ok(AttributePlan::Binding { name: attr.name.clone(), signal: s, skip: true, attr_start: false }),
                None => {
                    if contains_handlebars(v.as_str()) {
                        Ok(AttributePlan::Template { name: attr.name.clone(), value: v.clone(), skip: true, attr_start: false })
                    } else {
                        Ok(AttributePlan::Static { name: attr.name.clone(), value: v.clone(), skip: true, attr_start: false })
                    }
                },
            },
            None => Ok(AttributePlan::Drop),
        }
    } else {
        match &attr.value {
            Some(v) => {
                if contains_handlebars(v.as_str()) {
                    let start = is_component && !emitted;
                    if is_component {
                        *first_dynamic_emitted = true;
                    }
                    match extract_single_handlebars(v.as_str()) {
                        Some(s) => Ok(AttributePlan::Binding { name: attr.name.clone(), signal: s, skip: false, attr_start: start }),
                        None => Ok(AttributePlan::Template { name: attr.name.clone(), value: v.clone(), skip: false, attr_start: start }),
                    }
                } else if is_component {
                    *first_dynamic_emitted = true;
                    Ok(AttributePlan::Static { name: attr.name.clone(), value: v.clone(), skip: false, attr_start: !emitted })
                } else {
                    Ok(AttributePlan::RawText)
                }
            },
            None => Ok(AttributePlan::RawName),
        }
    }
}


/// The plans for the attributes of a tag from the `i`-th on, with the number
/// of bindings among them; or the first error. `fast`: the FAST plugin
/// classifies the attributes first.
pub open spec fn spec_plans(
    attrs: Seq<(Seq<char>, Option<Seq<char>>)>,
    is_component: bool,
    fast: bool,
    i: int,
    emitted: bool,
) -> Result<(Seq<PlanV>, nat), Seq<char>>
    decreases attrs.len() - i,
{
    if i < 0 || i >= attrs.len() {
        Ok((Seq::empty(), 0))
    } else {
        let (name, value) = attrs[i];
        let action = if fast && is_fast_binding_attribute(name) {
            AttributeAction::SkipAndCountBinding
        } else {
            AttributeAction::Keep
        };
        match spec_plan(name, value, is_component, action, emitted) {
            Err(m) => Err(m),
            Ok((p, e)) => match spec_plans(attrs, is_component, fast, i + 1, e) {
                Err(m) => Err(m),
                Ok((ps, n)) => Ok((seq![p] + ps, if counts_binding(p) { n + 1 } else { n })),
            },
        }
    }
}

/// Plans `ps` and `n` bindings followed by the outcome `r`.
pub open spec fn followed_by(
    ps: Seq<PlanV>,
    n: nat,
    r: Result<(Seq<PlanV>, nat), Seq<char>>,
) -> Result<(Seq<PlanV>, nat), Seq<char>> {
    match r {
        Err(m) => Err(m),
        Ok((qs, k)) => Ok((ps + qs, n + k)),
    }
}

proof fn lemma_followed_by_step(ps: Seq<PlanV>, n: nat, p: PlanV, r: Result<(Seq<PlanV>, nat), Seq<char>>)
    ensures
        followed_by(ps, n, match r {
            Err(m) => Err(m),
            Ok((qs, k)) => Ok((seq![p] + qs, if counts_binding(p) { k + 1 } else { k })),
        }) == followed_by(ps.push(p), if counts_binding(p) { n + 1 } else { n }, r),
{
    match r {
        Err(m) => {},
        Ok((qs, k)) => {
            assert(ps + (seq![p] + qs) =~= ps.push(p) + qs);
        },
    }
}

/// The plans for all attributes of a tag, in order, and the number of
/// bindings among them (see [`spec_plans`]), or the first error. The
/// plugin, if any, classifies each attribute first.
pub fn plan_tag_attributes(
    attrs: &[TagAttribute],
    is_component: bool,
    plugin: &mut Option<FastParserPlugin>,
) -> (r: Result<(Vec<AttributePlan>, u32), ParserError>)
    requires
        attrs@.len() <= u32::MAX,
    ensures
        match spec_plans(attributes_view(attrs@), is_component, *old(plugin) is Some, 0, false) {
            Ok((ps, n)) => r matches Ok((v, c)) && plans_view(v@) == ps && c == n,
            Err(m) => r matches Err(ParserError::Parse(s)) && s@ == m,
        },
        *final(plugin) is Some == *old(plugin) is Some,
        *old(plugin) matches Some(p) ==> *final(plugin) matches Some(q) && q.spec_components() == p.spec_components()
            && q.spec_css_strategy() == p.spec_css_strategy(),
{
    let ghost fast = *plugin is Some;
    let ghost views = attributes_view(attrs@);
    let mut out: Vec<AttributePlan> = Vec::new();
    let mut count: u32 = 0;
    let mut emitted = false;
    let mut i: usize = 0;
    while i < attrs.len()
        invariant
            attrs@.len() <= u32::MAX,
            0 <= i <= attrs@.len(),
            count <= i,
            fast == (*plugin is Some),
            fast == (*old(plugin) is Some),
            *old(plugin) matches Some(p) ==> *plugin matches Some(q) && q.spec_components() == p.spec_components()
                && q.spec_css_strategy() == p.spec_css_strategy(),
            views == attributes_view(attrs@),
            spec_plans(views, is_component, fast, 0, false) == followed_by(
                plans_view(out@),
                count as nat,
                spec_plans(views, is_component, fast, i as int, emitted),
            ),
        decreases attrs@.len() - i,
    {
        let attr = &attrs[i];
        let action = match plugin {
            Some(p) => p.classify_attribute(attr.name.as_str()),
            None => AttributeAction::Keep,
        };
        let ghost before = emitted;
        let ghost prev = plans_view(out@);
        match plan_attribute(attr, is_component, action, &mut emitted) {
            Ok(plan) => {
                proof {
                    let res = spec_plan(attr.name@, attribute_view(*attr).1, is_component, action, before);
                    let pv = res->Ok_0.0;
                    let e = res->Ok_0.1;
                    assert(views[i as int] == attribute_view(*attr));
                    lemma_followed_by_step(prev, count as nat, pv, spec_plans(views, is_component, fast, i + 1, e));
                }
                let counted = match &plan {
                    AttributePlan::CountBinding | AttributePlan::Boolean { .. } | AttributePlan::Complex { .. }
                    | AttributePlan::Binding { .. } | AttributePlan::Template { .. } => true,
                    _ => false,
                };
                if counted {
                    count = count + 1;
                }
                out.push(plan);
                proof {
                    assert(plans_view(out@) =~= prev.push(plan_view(out@.last())));
                }
            },
            Err(e) => {
                return Err(e);
            },
        }
        i = i + 1;
    }
    Ok((out, count))
}


/// The plan's fragment can be the first dynamic attribute of a component:
/// a boolean, complex, binding, template or static attribute that is not a
/// skipped one.
pub open spec fn markable(p: PlanV) -> bool {
    match p {
        PlanV::Boolean { .. } | PlanV::Complex { .. } => true,
        PlanV::Binding { skip, .. } | PlanV::Template { skip, .. } | PlanV::Static { skip, .. } => !skip,
        _ => false,
    }
}

/// The plan carries `attr_start`.
pub open spec fn starts(p: PlanV) -> bool {
    match p {
        PlanV::Boolean { attr_start, .. } | PlanV::Complex { attr_start, .. } | PlanV::Binding { attr_start, .. }
        | PlanV::Template { attr_start, .. } | PlanV::Static { attr_start, .. } => attr_start,
        _ => false,
    }
}

/// The number of plans that count as bindings.
pub open spec fn binding_count(ps: Seq<PlanV>) -> nat
    decreases ps.len(),
{
    if ps.len() == 0 {
        0
    } else {
        binding_count(ps.drop_first()) + if counts_binding(ps[0]) { 1nat } else { 0nat }
    }
}

proof fn lemma_plan_marking(name: Seq<char>, value: Option<Seq<char>>, is_component: bool, action: AttributeAction, emitted: bool)
    requires
        spec_plan(name, value, is_component, action, emitted) is Ok,
    ensures
        ({
            let (p, e) = spec_plan(name, value, is_component, action, emitted)->Ok_0;
            &&& starts(p) == (is_component && !emitted && markable(p))
            &&& e == (emitted || (is_component && markable(p)))
        }),
{
}

proof fn lemma_plans_marking(attrs: Seq<(Seq<char>, Option<Seq<char>>)>, is_component: bool, fast: bool, i: int, emitted: bool)
    requires
        0 <= i,
        spec_plans(attrs, is_component, fast, i, emitted) is Ok,
    ensures
        ({
            let (ps, n) = spec_plans(attrs, is_component, fast, i, emitted)->Ok_0;
            &&& n == binding_count(ps)
            &&& forall|k: int| 0 <= k < ps.len() ==> (starts(#[trigger] ps[k]) <==> (is_component && !emitted
                && markable(ps[k]) && forall|j: int| 0 <= j < k ==> !markable(#[trigger] ps[j])))
        }),
    decreases attrs.len() - i,
{
    if i < attrs.len() {
        let (name, value) = attrs[i];
        let action = if fast && is_fast_binding_attribute(name) {
            AttributeAction::SkipAndCountBinding
        } else {
            AttributeAction::Keep
        };
        lemma_plan_marking(name, value, is_component, action, emitted);
        let (p, e) = spec_plan(name, value, is_component, action, emitted)->Ok_0;
        lemma_plans_marking(attrs, is_component, fast, i + 1, e);
        let (qs, m) = spec_plans(attrs, is_component, fast, i + 1, e)->Ok_0;
        let ps = seq![p] + qs;
        assert(ps.drop_first() =~= qs);
        assert forall|k: int| 0 <= k < ps.len() implies (starts(#[trigger] ps[k]) <==> (is_component && !emitted
            && markable(ps[k]) && forall|j: int| 0 <= j < k ==> !markable(#[trigger] ps[j]))) by {
            if k > 0 {
                assert(ps[k] == qs[k - 1]);
                assert(ps[0] == p);
                if is_component && !emitted && markable(ps[k]) && forall|j: int| 0 <= j < k ==> !markable(#[trigger] ps[j]) {
                    assert(!markable(ps[0]));
                    assert forall|j: int| 0 <= j < k - 1 implies !markable(#[trigger] qs[j]) by {
                        assert(qs[j] == ps[j + 1]);
                    }
                }
                if starts(qs[k - 1]) {
                    assert forall|j: int| 0 <= j < k implies !markable(#[trigger] ps[j]) by {
                        if j > 0 {
                            assert(ps[j] == qs[j - 1]);
                        }
                    }
                }
            }
        }
    }
}

/// Of the attributes of a tag, at most the first one that can be marked
/// carries `attr_start`: on a component, the first boolean, complex,
/// binding, template or static attribute that is not a skipped one; on a
/// native element, none. The binding count is the number of plans that
/// count as bindings.
pub proof fn lemma_first_dynamic_attribute_marked(attrs: Seq<(Seq<char>, Option<Seq<char>>)>, is_component: bool, fast: bool)
    requires
        spec_plans(attrs, is_component, fast, 0, false) is Ok,
    ensures
        ({
            let (ps, n) = spec_plans(attrs, is_component, fast, 0, false)->Ok_0;
            &&& n == binding_count(ps)
            &&& forall|k: int| 0 <= k < ps.len() ==> (starts(#[trigger] ps[k]) <==> (is_component && markable(ps[k])
                && forall|j: int| 0 <= j < k ==> !markable(#[trigger] ps[j])))
        }),
{
    lemma_plans_marking(attrs, is_component, fast, 0, false);
}

/// Planning gives one plan per attribute, in order.
pub proof fn lemma_plans_one_per_attribute(
    attrs: Seq<(Seq<char>, Option<Seq<char>>)>,
    is_component: bool,
    fast: bool,
    i: int,
    emitted: bool,
)
    requires
        0 <= i <= attrs.len(),
    ensures
        spec_plans(attrs, is_component, fast, i, emitted) matches Ok((ps, n)) ==> ps.len() == attrs.len() - i,
    decreases attrs.len() - i,
{
    if i < attrs.len() {
        let (name, value) = attrs[i];
        let action = if fast && is_fast_binding_attribute(name) {
            AttributeAction::SkipAndCountBinding
        } else {
            AttributeAction::Keep
        };
        match spec_plan(name, value, is_component, action, emitted) {
            Ok((p, e)) => lemma_plans_one_per_attribute(attrs, is_component, fast, i + 1, e),
            Err(_) => {},
        }
    }
}

} // verus!
