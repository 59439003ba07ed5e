//! The FAST parser plugin: tracks components during parsing and returns
//! their `<f-template>` blocks afterwards.
use vstd::prelude::*;
use super::error::ParserError;
use super::fast::{generate_f_template, spec_f_template};
use super::plugin::{AttributeAction, Component, ParserPluginArtifacts};
use super::strategy::CssStrategy;
use crate::protocol::plugin::{u32_le_bytes, FastElementData};
use crate::protocol::records::keys_distinct;
use crate::text::{chars_eq, str_chars};

verus! {

/// A component tracked for f-template generation.
struct TrackedComponent {
    tag_name: String,
    html_content: String,
    css_content: Option<String>,
}

/// View of an optional string.
pub open spec fn opt_view(s: Option<String>) -> Option<Seq<char>> {
    match s {
        Some(v) => Some(v@),
        None => None,
    }
}

/// FAST parser plugin.
///
/// Skips FAST runtime binding attributes (`@click`, `f-ref`, ...) and
/// counts them, tracks each component once in discovery order, and
/// returns the components' `<f-template>` blocks in FAST syntax.
pub struct FastParserPlugin {
    components: Vec<TrackedComponent>,
    css_strategy: CssStrategy,
}

impl FastParserPlugin {
    #[verifier::type_invariant]
    spec fn tags_unique(self) -> bool {
        keys_distinct(self.spec_tags())
    }

    /// Tracked components as `(tag name, HTML, CSS)`, in discovery order.
    pub closed spec fn spec_components(self) -> Seq<(Seq<char>, Seq<char>, Option<Seq<char>>)> {
        self.components@.map_values(|c: TrackedComponent| (c.tag_name@, c.html_content@, opt_view(c.css_content)))
    }

    /// Tag names of the tracked components.
    pub open spec fn spec_tags(self) -> Seq<Seq<char>> {
        self.spec_components().map_values(|c: (Seq<char>, Seq<char>, Option<Seq<char>>)| c.0)
    }

    /// The CSS delivery strategy of generated templates.
    pub closed spec fn spec_css_strategy(self) -> CssStrategy {
        self.css_strategy
    }

    /// A plugin with no tracked components and the link CSS strategy.
    pub fn new() -> (r: Self)
        ensures
            r.spec_components().len() == 0,
            r.spec_css_strategy() == CssStrategy::Link,
    {
        let r = FastParserPlugin { components: Vec::new(), css_strategy: CssStrategy::Link };
        assert(r.spec_tags() =~= Seq::<Seq<char>>::empty());
        r
    }

    /// Set the CSS delivery strategy for generated f-templates.
    pub fn set_css_strategy(&mut self, strategy: CssStrategy)
        ensures
            final(self).spec_css_strategy() == strategy,
            final(self).spec_components() == old(self).spec_components(),
    {
        proof { use_type_invariant(&*self); }
        self.css_strategy = strategy;
    }

    fn is_tracked(&self, tag_name: &str) -> (r: bool)
        ensures
            r == self.spec_tags().contains(tag_name@),
    {
        let t = str_chars(tag_name);
        let mut i: usize = 0;
        while i < self.components.len()
            invariant
                0 <= i <= self.components@.len(),
                t@ == tag_name@,
                forall|j: int| 0 <= j < i ==> self.spec_tags()[j] != tag_name@,
            decreases self.components@.len() - i,
        {
            let c = str_chars(self.components[i].tag_name.as_str());
            if chars_eq(c.as_slice(), t.as_slice()) {
                assert(self.spec_tags()[i as int] == tag_name@);
                return true;
            }
            i = i + 1;
        }
        false
    }

    /// Track a component for f-template generation. A tag name that is
    /// already tracked is not tracked again.
    pub fn register_component_template(&mut self, tag_name: &str, component: &Component, processed_template: &str) -> (r: Result<(), ParserError>)
        ensures
            r is Ok,
            final(self).spec_css_strategy() == old(self).spec_css_strategy(),
            old(self).spec_tags().contains(tag_name@) ==> final(self).spec_components() == old(self).spec_components(),
            !old(self).spec_tags().contains(tag_name@) ==> final(self).spec_components() == old(self).spec_components().push(
                (tag_name@, component.html_content@, opt_view(component.css_content))),
    {
        proof { use_type_invariant(&*self); }
        if self.is_tracked(tag_name) {
            return Ok(());
        }
        let css = match &component.css_content {
            Some(c) => Some(c.clone()),
            None => None,
        };
        let tc = TrackedComponent { tag_name: String::from_str(tag_name), html_content: component.html_content.clone(), css_content: css };
        let mut comps = Vec::new();
        std::mem::swap(&mut comps, &mut self.components);
        let ghost before = comps@;
        comps.push(tc);
        proof {
            let old_tags = before.map_values(|c: TrackedComponent| c.tag_name@);
            assert(old_tags =~= old(self).spec_tags());
            assert(!old_tags.contains(tag_name@));
            let new_tags = comps@.map_values(|c: TrackedComponent| c.tag_name@);
            assert(new_tags =~= old_tags.push(tag_name@));
            assert(keys_distinct(new_tags)) by {
                assert forall|a: int, b: int| 0 <= a < new_tags.len() && 0 <= b < new_tags.len() && a != b
                    implies new_tags[a] != new_tags[b] by {
                    if a < old_tags.len() && b < old_tags.len() {
                    } else if a < old_tags.len() {
                        assert(old_tags.contains(old_tags[a]));
                    } else {
                        assert(old_tags.contains(old_tags[b]));
                    }
                }
            }
        }
        proof {
            let tuples = comps@.map_values(|c: TrackedComponent| (c.tag_name@, c.html_content@, opt_view(c.css_content)));
            let tags2 = tuples.map_values(|c: (Seq<char>, Seq<char>, Option<Seq<char>>)| c.0);
            assert(tags2 =~= comps@.map_values(|c: TrackedComponent| c.tag_name@));
        }
        self.components = comps;
        proof {
            assert(self.spec_components() =~= old(self).spec_components().push(
                (tag_name@, component.html_content@, opt_view(component.css_content))));
        }
        Ok(())
    }

    /// The `(tag name, f-template)` pairs of the tracked components, one
    /// per distinct tag name, in discovery order.
    pub fn take_component_templates(&self) -> (r: Vec<(String, String)>)
        ensures
            r@.len() == self.spec_components().len(),
            forall|i: int| 0 <= i < r@.len() ==> #[trigger] r@[i].0@ == self.spec_components()[i].0
                && r@[i].1@ == spec_f_template(self.spec_components()[i].0, self.spec_components()[i].1,
                    self.spec_components()[i].2, self.spec_css_strategy()),
            keys_distinct(r@.map_values(|p: (String, String)| p.0@)),
            r@.map_values(|p: (String, String)| (p.0@, p.1@)) == template_pairs(self.spec_components(), self.spec_css_strategy()),
    {
        proof { use_type_invariant(self); }
        let mut out: Vec<(String, String)> = Vec::new();
        let mut i: usize = 0;
        while i < self.components.len()
            invariant
                0 <= i <= self.components@.len(),
                out@.len() == i,
                keys_distinct(self.spec_tags()),
                forall|k: int| 0 <= k < i ==> #[trigger] out@[k].0@ == self.spec_components()[k].0
                    && out@[k].1@ == spec_f_template(self.spec_components()[k].0, self.spec_components()[k].1,
                        self.spec_components()[k].2, self.spec_css_strategy()),
            decreases self.components@.len() - i,
        {
            let comp = &self.components[i];
            let css: Option<&str> = match &comp.css_content {
                Some(c) => Some(c.as_str()),
                None => None,
            };
            let tmpl = generate_f_template(comp.tag_name.as_str(), comp.html_content.as_str(), css, self.css_strategy);
            proof {
                assert(self.spec_components()[i as int] == (comp.tag_name@, comp.html_content@, opt_view(comp.css_content)));
                let cv = match css {
                    Some(c) => Some(c@),
                    None => None::<Seq<char>>,
                };
                assert(cv == opt_view(comp.css_content));
            }
            let name = comp.tag_name.clone();
            let ghost prev = out@;
            out.push((name, tmpl));
            i = i + 1;
            proof {
                assert(out@[i - 1].0@ == self.spec_components()[i - 1].0);
                assert(out@[i - 1].1@ == spec_f_template(self.spec_components()[i - 1].0, self.spec_components()[i - 1].1,
                        self.spec_components()[i - 1].2, self.spec_css_strategy()));
                assert forall|k: int| 0 <= k < i implies #[trigger] out@[k].0@ == self.spec_components()[k].0
                    && out@[k].1@ == spec_f_template(self.spec_components()[k].0, self.spec_components()[k].1,
                        self.spec_components()[k].2, self.spec_css_strategy()) by {
                    if k < i - 1 {
                        assert(out@[k] == prev[k]);
                        let _ = prev[k].0@;
                    }
                }
            }
        }
        proof {
            let names = out@.map_values(|p: (String, String)| p.0@);
            assert(names =~= self.spec_tags());
            assert(out@.map_values(|p: (String, String)| (p.0@, p.1@))
                =~= template_pairs(self.spec_components(), self.spec_css_strategy()));
        }
        out
    }

    /// FAST runtime binding attributes (`@...`, `f-ref`, `f-slotted`,
    /// `f-children`) are skipped and counted; every other attribute is kept.
    pub fn classify_attribute(&mut self, attr_name: &str) -> (r: AttributeAction)
        ensures
            r == (if is_fast_binding_attribute(attr_name@) { AttributeAction::SkipAndCountBinding } else { AttributeAction::Keep }),
            final(self).spec_components() == old(self).spec_components(),
            final(self).spec_css_strategy() == old(self).spec_css_strategy(),
    {
        let n = str_chars(attr_name);
        let at = n.len() > 0 && n[0] == '@';
        let f_ref = str_chars("f-ref");
        let f_slotted = str_chars("f-slotted");
        let f_children = str_chars("f-children");
        if at || chars_eq(n.as_slice(), f_ref.as_slice()) || chars_eq(n.as_slice(), f_slotted.as_slice())
            || chars_eq(n.as_slice(), f_children.as_slice()) {
            AttributeAction::SkipAndCountBinding
        } else {
            AttributeAction::Keep
        }
    }

    /// Plugin data for an element: the binding count as FAST element data
    /// when the element has bindings.
    pub fn finish_element(&mut self, binding_attribute_count: u32) -> (r: Option<Vec<u8>>)
        ensures
            binding_attribute_count > 0 ==> (r matches Some(v) && v@ == u32_le_bytes(binding_attribute_count)),
            binding_attribute_count == 0 ==> r is None,
            final(self).spec_components() == old(self).spec_components(),
            final(self).spec_css_strategy() == old(self).spec_css_strategy(),
    {
        if binding_attribute_count > 0 {
            Some(FastElementData { binding_count: binding_attribute_count }.encode())
        } else {
            None
        }
    }

    /// The component templates as plugin artifacts.
    pub fn into_artifacts(self) -> (r: ParserPluginArtifacts)
        ensures
            r matches ParserPluginArtifacts::ComponentTemplates(v) && v@.len() == self.spec_components().len()
                && forall|i: int| 0 <= i < v@.len() ==> #[trigger] v@[i].0@ == self.spec_components()[i].0
                    && v@[i].1@ == spec_f_template(self.spec_components()[i].0, self.spec_components()[i].1,
                        self.spec_components()[i].2, self.spec_css_strategy()),
    {
        ParserPluginArtifacts::ComponentTemplates(self.take_component_templates())
    }
}

impl Default for FastParserPlugin {
    fn default() -> (r: Self)
        ensures
            r.spec_components().len() == 0,
            r.spec_css_strategy() == CssStrategy::Link,
    {
        Self::new()
    }
}

/// The artifacts of a parser's plugin, which the parser gives up: the FAST
/// plugin's component templates (see [`FastParserPlugin::into_artifacts`]),
/// or none when there is no plugin.
pub fn take_plugin_artifacts(plugin: &mut Option<FastParserPlugin>) -> (r: ParserPluginArtifacts)
    ensures
        *final(plugin) is None,
        match *old(plugin) {
            Some(p) => r matches ParserPluginArtifacts::ComponentTemplates(v) && v@.len() == p.spec_components().len()
                && forall|i: int| 0 <= i < v@.len() ==> #[trigger] v@[i].0@ == p.spec_components()[i].0
                    && v@[i].1@ == spec_f_template(p.spec_components()[i].0, p.spec_components()[i].1,
                        p.spec_components()[i].2, p.spec_css_strategy()),
            None => r is NoArtifacts,
        },
{
    let mut taken: Option<FastParserPlugin> = None;
    std::mem::swap(&mut taken, plugin);
    match taken {
        Some(p) => p.into_artifacts(),
        None => ParserPluginArtifacts::NoArtifacts,
    }
}

/// FAST runtime binding attribute names.
pub open spec fn is_fast_binding_attribute(name: Seq<char>) -> bool {
    (name.len() > 0 && name[0] == '@') || name == "f-ref"@ || name == "f-slotted"@ || name == "f-children"@
}


/// The `(tag name, f-template)` pairs of components `cs` under the CSS
/// strategy `s`, in order.
pub open spec fn template_pairs(
    cs: Seq<(Seq<char>, Seq<char>, Option<Seq<char>>)>,
    s: CssStrategy,
) -> Seq<(Seq<char>, Seq<char>)> {
    cs.map_values(|c: (Seq<char>, Seq<char>, Option<Seq<char>>)| (c.0, spec_f_template(c.0, c.1, c.2, s)))
}

/// The tags of tracked components.
pub open spec fn component_tags(cs: Seq<(Seq<char>, Seq<char>, Option<Seq<char>>)>) -> Seq<Seq<char>> {
    cs.map_values(|c: (Seq<char>, Seq<char>, Option<Seq<char>>)| c.0)
}

/// The components tracked after registering `c` (see
/// [`FastParserPlugin::register_component_template`]): it is added when its
/// tag is not tracked yet.
pub open spec fn register_step(
    cs: Seq<(Seq<char>, Seq<char>, Option<Seq<char>>)>,
    c: (Seq<char>, Seq<char>, Option<Seq<char>>),
) -> Seq<(Seq<char>, Seq<char>, Option<Seq<char>>)> {
    if component_tags(cs).contains(c.0) {
        cs
    } else {
        cs.push(c)
    }
}

/// The components tracked after registering `regs` in order, from `cs`.
pub open spec fn registered(
    cs: Seq<(Seq<char>, Seq<char>, Option<Seq<char>>)>,
    regs: Seq<(Seq<char>, Seq<char>, Option<Seq<char>>)>,
) -> Seq<(Seq<char>, Seq<char>, Option<Seq<char>>)>
    decreases regs.len(),
{
    if regs.len() == 0 {
        cs
    } else {
        registered(register_step(cs, regs[0]), regs.drop_first())
    }
}

/// The registrations whose tag no earlier registration has, in order.
pub open spec fn first_registrations(
    regs: Seq<(Seq<char>, Seq<char>, Option<Seq<char>>)>,
) -> Seq<(Seq<char>, Seq<char>, Option<Seq<char>>)>
    decreases regs.len(),
{
    if regs.len() == 0 {
        Seq::empty()
    } else {
        let prev = first_registrations(regs.drop_last());
        if exists|j: int| 0 <= j < regs.len() - 1 && #[trigger] regs[j].0 == regs.last().0 {
            prev
        } else {
            prev.push(regs.last())
        }
    }
}

proof fn lemma_registered_push(
    cs: Seq<(Seq<char>, Seq<char>, Option<Seq<char>>)>,
    regs: Seq<(Seq<char>, Seq<char>, Option<Seq<char>>)>,
    x: (Seq<char>, Seq<char>, Option<Seq<char>>),
)
    ensures
        registered(cs, regs.push(x)) == register_step(registered(cs, regs), x),
    decreases regs.len(),
{
    if regs.len() == 0 {
        assert(regs.push(x).drop_first() =~= Seq::<(Seq<char>, Seq<char>, Option<Seq<char>>)>::empty());
        assert(regs.push(x)[0] == x);
        let e = Seq::<(Seq<char>, Seq<char>, Option<Seq<char>>)>::empty();
        assert(registered(register_step(cs, x), e) == register_step(cs, x));
        assert(registered(cs, regs.push(x)) == registered(register_step(cs, x), regs.push(x).drop_first()));
    } else {
        assert(regs.push(x).drop_first() =~= regs.drop_first().push(x));
        assert(regs.push(x)[0] == regs[0]);
        lemma_registered_push(register_step(cs, regs[0]), regs.drop_first(), x);
    }
}

proof fn lemma_first_registrations(regs: Seq<(Seq<char>, Seq<char>, Option<Seq<char>>)>)
    ensures
        registered(Seq::empty(), regs) == first_registrations(regs),
        forall|t: Seq<char>| component_tags(first_registrations(regs)).contains(t)
            <==> exists|j: int| 0 <= j < regs.len() && #[trigger] regs[j].0 == t,
        keys_distinct(component_tags(first_registrations(regs))),
    decreases regs.len(),
{
    if regs.len() == 0 {
        assert(component_tags(Seq::<(Seq<char>, Seq<char>, Option<Seq<char>>)>::empty())
            =~= Seq::<Seq<char>>::empty());
    } else {
        let init = regs.drop_last();
        let x = regs.last();
        lemma_first_registrations(init);
        assert(init.push(x) =~= regs);
        lemma_registered_push(Seq::empty(), init, x);
        let prev = first_registrations(init);
        let pt = component_tags(prev);
        let seen = exists|j: int| 0 <= j < regs.len() - 1 && #[trigger] regs[j].0 == x.0;
        assert(seen == pt.contains(x.0)) by {
            if seen {
                let j = choose|j: int| 0 <= j < regs.len() - 1 && #[trigger] regs[j].0 == x.0;
                assert(init[j].0 == x.0);
            }
            if pt.contains(x.0) {
                let j = choose|j: int| 0 <= j < init.len() && #[trigger] init[j].0 == x.0;
                assert(regs[j].0 == x.0);
            }
        }
        if !seen {
            let nt = component_tags(prev.push(x));
            assert(nt =~= pt.push(x.0));
            assert forall|t: Seq<char>| nt.contains(t) <==> exists|j: int| 0 <= j < regs.len() && #[trigger] regs[j].0 == t by {
                if nt.contains(t) {
                    if t == x.0 {
                        assert(regs[regs.len() - 1].0 == t);
                    } else {
                        assert(pt.contains(t)) by {
                            let k = choose|k: int| 0 <= k < nt.len() && nt[k] == t;
                            assert(k < pt.len());
                            assert(pt[k] == t);
                        }
                        let j = choose|j: int| 0 <= j < init.len() && #[trigger] init[j].0 == t;
                        assert(regs[j].0 == t);
                    }
                }
                if exists|j: int| 0 <= j < regs.len() && #[trigger] regs[j].0 == t {
                    let j = choose|j: int| 0 <= j < regs.len() && #[trigger] regs[j].0 == t;
                    if j == regs.len() - 1 {
                        assert(nt[nt.len() - 1] == t);
                    } else {
                        assert(init[j].0 == t);
                        assert(pt.contains(t));
                        let k = choose|k: int| 0 <= k < pt.len() && pt[k] == t;
                        assert(nt[k] == t);
                    }
                }
            }
        } else {
            assert forall|t: Seq<char>| pt.contains(t) <==> exists|j: int| 0 <= j < regs.len() && #[trigger] regs[j].0 == t by {
                if exists|j: int| 0 <= j < regs.len() && #[trigger] regs[j].0 == t {
                    let j = choose|j: int| 0 <= j < regs.len() && #[trigger] regs[j].0 == t;
                    if j < regs.len() - 1 {
                        assert(init[j].0 == t);
                    }
                }
                if pt.contains(t) {
                    let j = choose|j: int| 0 <= j < init.len() && #[trigger] init[j].0 == t;
                    assert(regs[j].0 == t);
                }
            }
        }
    }
}

/// Registering components one after another tracks, in order, the first
/// registration of each distinct tag, and no tag twice: the component
/// templates that come back are one per distinct tag, in order of first
/// registration.
pub proof fn lemma_registrations_keep_first_per_tag(regs: Seq<(Seq<char>, Seq<char>, Option<Seq<char>>)>)
    ensures
        registered(Seq::empty(), regs) == first_registrations(regs),
        keys_distinct(component_tags(registered(Seq::empty(), regs))),
        forall|t: Seq<char>| component_tags(registered(Seq::empty(), regs)).contains(t)
            <==> exists|j: int| 0 <= j < regs.len() && #[trigger] regs[j].0 == t,
{
    lemma_first_registrations(regs);
}

/// Setting the CSS strategy keeps the tracked components, so the templates
/// taken afterwards are those of the same components, in the same order and
/// one per tag, each generated under the new strategy; and, registering
/// components one after another, those are the first registration of each
/// distinct tag.
pub proof fn lemma_css_strategy_then_templates(
    before: FastParserPlugin,
    after: FastParserPlugin,
    s: CssStrategy,
    regs: Seq<(Seq<char>, Seq<char>, Option<Seq<char>>)>,
)
    requires
        after.spec_components() == before.spec_components(),
        after.spec_css_strategy() == s,
    ensures
        template_pairs(after.spec_components(), after.spec_css_strategy()) == template_pairs(before.spec_components(), s),
        template_pairs(before.spec_components(), s).map_values(|p: (Seq<char>, Seq<char>)| p.0)
            == component_tags(before.spec_components()),
        forall|i: int| 0 <= i < before.spec_components().len() ==>
            (#[trigger] template_pairs(before.spec_components(), s)[i]).1 == spec_f_template(
                before.spec_components()[i].0, before.spec_components()[i].1, before.spec_components()[i].2, s),
        before.spec_components() == registered(Seq::empty(), regs) ==>
            template_pairs(before.spec_components(), s) == template_pairs(first_registrations(regs), s),
{
    assert(template_pairs(before.spec_components(), s).map_values(|p: (Seq<char>, Seq<char>)| p.0)
        =~= component_tags(before.spec_components()));
    lemma_first_registrations(regs);
}

} // verus!
