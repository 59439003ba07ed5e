//! The protocol types as messages of the schema: each type's view maps to
//! a message value and back.
use vstd::prelude::*;
use super::records::keys_distinct;
use super::schema::{
    conforms, field_kinds, slot_conforms, Kind, MsgV, SlotV, ATTRIBUTE, COMPONENT, COMPONENT_DATA, COMPOUND,
    CONDITION, FOR_LOOP, FRAGMENT, FRAGMENT_LIST, IDENTIFIER, IF_COND, NOT_CONDITION, OUTLET, PLUGIN,
    PREDICATE, PROTOCOL, RAW, ROUTE, SIGNAL,
};
use super::types::{AttrV, CompV, CondV, FragV, RouteV};

verus! {

/// The view of a whole protocol.
pub struct ProtoV {
    /// Fragment records: id and fragment views, in record order.
    pub fragments: Seq<(Seq<char>, Seq<FragV>)>,
    /// CSS token names.
    pub tokens: Seq<Seq<char>>,
    /// Component records: tag name and data, in record order.
    pub components: Seq<(Seq<char>, CompV)>,
}

// ── Views to messages ──────────────────────────────────────────────────

/// A `string` field.
pub open spec fn text_slot(s: Seq<char>) -> SlotV {
    SlotV::Str(s)
}

/// A condition as a message.
pub open spec fn cond_msg(c: CondV) -> MsgV
    decreases c,
{
    match c {
        CondV::Empty => MsgV::Choice(None),
        CondV::Predicate(l, op, r) => MsgV::Choice(
            Some((0, Box::new(MsgV::Fields(seq![text_slot(l), SlotV::Int(op), text_slot(r)])))),
        ),
        CondV::Not(inner) => MsgV::Choice(Some((1, Box::new(MsgV::Fields(seq![opt_cond_slot(inner)]))))),
        CondV::Compound(l, op, r) => MsgV::Choice(
            Some((2, Box::new(MsgV::Fields(seq![opt_cond_slot(l), SlotV::Int(op), opt_cond_slot(r)])))),
        ),
        CondV::Identifier(v) => MsgV::Choice(Some((3, Box::new(MsgV::Fields(seq![text_slot(v)]))))),
    }
}

/// An optional nested condition as a message field.
pub open spec fn opt_cond_slot(c: Option<Box<CondV>>) -> SlotV
    decreases c,
{
    match c {
        None => SlotV::Msg(None),
        Some(b) => SlotV::Msg(Some(Box::new(cond_msg(*b)))),
    }
}

/// An optional condition as a message field.
pub open spec fn cond_slot(c: Option<CondV>) -> SlotV {
    match c {
        None => SlotV::Msg(None),
        Some(x) => SlotV::Msg(Some(Box::new(cond_msg(x)))),
    }
}

/// A route as a message.
pub open spec fn route_msg(r: RouteV) -> MsgV
    decreases r,
{
    MsgV::Fields(
        seq![
            text_slot(r.path),
            text_slot(r.fragment_id),
            SlotV::Bool(r.exact),
            SlotV::Msgs(Seq::new(r.children.len(), |i: int| if 0 <= i < r.children.len() { route_msg(r.children[i]) } else { arbitrary() })),
            text_slot(r.allowed_query),
        ],
    )
}

/// An attribute as a message.
pub open spec fn attr_msg(a: AttrV) -> MsgV {
    MsgV::Fields(
        seq![
            text_slot(a.name),
            text_slot(a.value),
            text_slot(a.template),
            SlotV::Bool(a.complex),
            SlotV::Bool(a.attr_start),
            SlotV::Bool(a.attr_skip),
            SlotV::Bool(a.raw_value),
            cond_slot(a.condition_tree),
        ],
    )
}

/// A fragment as a message.
pub open spec fn frag_msg(f: FragV) -> MsgV {
    match f {
        FragV::Empty => MsgV::Choice(None),
        FragV::Raw(v) => MsgV::Choice(Some((0, Box::new(MsgV::Fields(seq![text_slot(v)]))))),
        FragV::Component(id) => MsgV::Choice(Some((1, Box::new(MsgV::Fields(seq![text_slot(id)]))))),
        FragV::ForLoop(item, coll, id) => MsgV::Choice(
            Some((2, Box::new(MsgV::Fields(seq![text_slot(item), text_slot(coll), text_slot(id)])))),
        ),
        FragV::Signal(v, raw) => MsgV::Choice(Some((3, Box::new(MsgV::Fields(seq![text_slot(v), SlotV::Bool(raw)]))))),
        FragV::IfCond(c, id) => MsgV::Choice(Some((4, Box::new(MsgV::Fields(seq![cond_slot(c), text_slot(id)]))))),
        FragV::Attribute(a) => MsgV::Choice(Some((5, Box::new(attr_msg(a))))),
        FragV::Plugin(d) => MsgV::Choice(Some((6, Box::new(MsgV::Fields(seq![SlotV::Bytes(d)]))))),
        FragV::Route(r) => MsgV::Choice(Some((7, Box::new(route_msg(r))))),
        FragV::Outlet => MsgV::Choice(Some((8, Box::new(MsgV::Fields(Seq::empty()))))),
    }
}

/// A fragment list as a message.
pub open spec fn list_msg(fs: Seq<FragV>) -> MsgV {
    MsgV::Fields(seq![SlotV::Msgs(fs.map_values(|f: FragV| frag_msg(f)))])
}

/// Component data as a message.
pub open spec fn comp_msg(c: CompV) -> MsgV {
    MsgV::Fields(seq![text_slot(c.template), text_slot(c.css), text_slot(c.css_href)])
}

/// A protocol as a message.
pub open spec fn proto_msg(p: ProtoV) -> MsgV {
    MsgV::Fields(
        seq![
            SlotV::Entries(p.fragments.map_values(|e: (Seq<char>, Seq<FragV>)| (e.0, list_msg(e.1)))),
            SlotV::Strs(p.tokens),
            SlotV::Entries(p.components.map_values(|e: (Seq<char>, CompV)| (e.0, comp_msg(e.1)))),
        ],
    )
}

// ── Messages to views ──────────────────────────────────────────────────

/// The text of a `string` field.
pub open spec fn text_of(s: SlotV) -> Seq<char> {
    match s {
        SlotV::Str(c) => c,
        _ => Seq::empty(),
    }
}

/// The value of a `bool` field.
pub open spec fn bool_of(s: SlotV) -> bool {
    match s {
        SlotV::Bool(b) => b,
        _ => false,
    }
}

/// The value of an `int32` field.
pub open spec fn int_of(s: SlotV) -> i32 {
    match s {
        SlotV::Int(x) => x,
        _ => 0,
    }
}

/// The fields of a message (none for a `oneof`).
pub open spec fn fields_of(m: MsgV) -> Seq<SlotV> {
    match m {
        MsgV::Fields(s) => s,
        _ => Seq::empty(),
    }
}

/// The condition a message holds.
pub open spec fn cond_of(m: MsgV) -> CondV
    decreases m,
{
    match m {
        MsgV::Choice(Some((k, b))) => match *b {
            MsgV::Fields(s) => if k == 0 && s.len() == 3 {
                CondV::Predicate(text_of(s[0]), int_of(s[1]), text_of(s[2]))
            } else if k == 1 && s.len() == 1 {
                CondV::Not(opt_cond_of(s[0]))
            } else if k == 2 && s.len() == 3 {
                CondV::Compound(opt_cond_of(s[0]), int_of(s[1]), opt_cond_of(s[2]))
            } else if k == 3 && s.len() == 1 {
                CondV::Identifier(text_of(s[0]))
            } else {
                CondV::Empty
            },
            _ => CondV::Empty,
        },
        _ => CondV::Empty,
    }
}

/// The optional nested condition a message field holds.
pub open spec fn opt_cond_of(s: SlotV) -> Option<Box<CondV>>
    decreases s,
{
    match s {
        SlotV::Msg(Some(b)) => Some(Box::new(cond_of(*b))),
        _ => None,
    }
}

/// The optional condition a message field holds.
pub open spec fn cond_opt_of(s: SlotV) -> Option<CondV> {
    match s {
        SlotV::Msg(Some(b)) => Some(cond_of(*b)),
        _ => None,
    }
}

/// The route a message holds.
pub open spec fn route_of(m: MsgV) -> RouteV
    decreases m,
{
    match m {
        MsgV::Fields(s) => if s.len() == 5 {
            RouteV {
                path: text_of(s[0]),
                fragment_id: text_of(s[1]),
                exact: bool_of(s[2]),
                children: match s[3] {
                    SlotV::Msgs(ms) => Seq::new(ms.len(), |i: int| if 0 <= i < ms.len() { route_of(ms[i]) } else { arbitrary() }),
                    _ => Seq::empty(),
                },
                allowed_query: text_of(s[4]),
            }
        } else {
            RouteV { path: Seq::empty(), fragment_id: Seq::empty(), exact: false, children: Seq::empty(), allowed_query: Seq::empty() }
        },
        _ => RouteV { path: Seq::empty(), fragment_id: Seq::empty(), exact: false, children: Seq::empty(), allowed_query: Seq::empty() },
    }
}

/// The attribute a message holds.
pub open spec fn attr_of(m: MsgV) -> AttrV {
    let s = fields_of(m);
    AttrV {
        name: text_of(s[0]),
        value: text_of(s[1]),
        template: text_of(s[2]),
        complex: bool_of(s[3]),
        attr_start: bool_of(s[4]),
        attr_skip: bool_of(s[5]),
        raw_value: bool_of(s[6]),
        condition_tree: cond_opt_of(s[7]),
    }
}

/// The fragment a message holds.
pub open spec fn frag_of(m: MsgV) -> FragV {
    match m {
        MsgV::Choice(Some((k, b))) => {
            let s = fields_of(*b);
            if k == 0 {
                FragV::Raw(text_of(s[0]))
            } else if k == 1 {
                FragV::Component(text_of(s[0]))
            } else if k == 2 {
                FragV::ForLoop(text_of(s[0]), text_of(s[1]), text_of(s[2]))
            } else if k == 3 {
                FragV::Signal(text_of(s[0]), bool_of(s[1]))
            } else if k == 4 {
                FragV::IfCond(cond_opt_of(s[0]), text_of(s[1]))
            } else if k == 5 {
                FragV::Attribute(attr_of(*b))
            } else if k == 6 {
                FragV::Plugin(match s[0] {
                    SlotV::Bytes(d) => d,
                    _ => Seq::empty(),
                })
            } else if k == 7 {
                FragV::Route(route_of(*b))
            } else {
                FragV::Outlet
            }
        },
        _ => FragV::Empty,
    }
}

/// The fragments a fragment-list message holds.
pub open spec fn list_of(m: MsgV) -> Seq<FragV> {
    match fields_of(m)[0] {
        SlotV::Msgs(ms) => ms.map_values(|x: MsgV| frag_of(x)),
        _ => Seq::empty(),
    }
}

/// The component data a message holds.
pub open spec fn comp_of(m: MsgV) -> CompV {
    let s = fields_of(m);
    CompV { template: text_of(s[0]), css: text_of(s[1]), css_href: text_of(s[2]) }
}

/// The protocol a message holds.
pub open spec fn proto_of(m: MsgV) -> ProtoV {
    let s = fields_of(m);
    ProtoV {
        fragments: match s[0] {
            SlotV::Entries(es) => es.map_values(|e: (Seq<char>, MsgV)| (e.0, list_of(e.1))),
            _ => Seq::empty(),
        },
        tokens: match s[1] {
            SlotV::Strs(ts) => ts,
            _ => Seq::empty(),
        },
        components: match s[2] {
            SlotV::Entries(es) => es.map_values(|e: (Seq<char>, MsgV)| (e.0, comp_of(e.1))),
            _ => Seq::empty(),
        },
    }
}

// ── Mapping back ───────────────────────────────────────────────────────

/// A condition mapped to a message and back is unchanged.
pub proof fn lemma_cond_back(c: CondV)
    ensures
        cond_of(cond_msg(c)) == c,
    decreases c,
{
    match c {
        CondV::Not(inner) => {
            if let Some(b) = inner {
                lemma_cond_back(*b);
            }
        },
        CondV::Compound(l, _, r) => {
            if let Some(b) = l {
                lemma_cond_back(*b);
            }
            if let Some(b) = r {
                lemma_cond_back(*b);
            }
        },
        _ => {},
    }
}

/// A route mapped to a message and back is unchanged.
pub proof fn lemma_route_back(r: RouteV)
    ensures
        route_of(route_msg(r)) == r,
    decreases r,
{
    assert forall|i: int| 0 <= i < r.children.len() implies route_of(route_msg(#[trigger] r.children[i])) == r.children[i] by {
        lemma_route_back(r.children[i]);
    }
    let back = route_of(route_msg(r));
    assert(back.children =~= r.children);
}

/// A fragment mapped to a message and back is unchanged.
pub proof fn lemma_frag_back(f: FragV)
    ensures
        frag_of(frag_msg(f)) == f,
{
    match f {
        FragV::IfCond(c, _) => {
            if let Some(x) = c {
                lemma_cond_back(x);
            }
        },
        FragV::Attribute(a) => {
            if let Some(x) = a.condition_tree {
                lemma_cond_back(x);
            }
        },
        FragV::Route(r) => {
            lemma_route_back(r);
        },
        _ => {},
    }
}

/// A protocol mapped to a message and back is unchanged.
pub proof fn lemma_proto_back(p: ProtoV)
    ensures
        proto_of(proto_msg(p)) == p,
{
    let back = proto_of(proto_msg(p));
    assert forall|i: int| 0 <= i < p.fragments.len() implies #[trigger] back.fragments[i] == p.fragments[i] by {
        let fs = p.fragments[i].1;
        assert forall|j: int| 0 <= j < fs.len() implies frag_of(frag_msg(#[trigger] fs[j])) == fs[j] by {
            lemma_frag_back(fs[j]);
        }
        assert(list_of(list_msg(fs)) =~= fs);
    }
    assert(back.fragments =~= p.fragments);
    assert(back.components =~= p.components);
}

// ── Conformance ────────────────────────────────────────────────────────

/// An optional nested condition field conforms.
proof fn lemma_opt_cond_conforms(c: Option<Box<CondV>>)
    ensures
        slot_conforms(Kind::Msg(CONDITION), opt_cond_slot(c)),
    decreases c,
{
    if let Some(b) = c {
        lemma_cond_conforms(*b);
        let s = opt_cond_slot(c);
        assert(s == SlotV::Msg(Some(Box::new(cond_msg(*b)))));
    }
}

/// A condition message conforms to the condition type.
pub proof fn lemma_cond_conforms(c: CondV)
    ensures
        conforms(CONDITION, cond_msg(c)),
    decreases c,
{
    let m = cond_msg(c);
    match c {
        CondV::Empty => {},
        CondV::Predicate(l, op, r) => {
            let slots = seq![text_slot(l), SlotV::Int(op), text_slot(r)];
            assert forall|i: int| 0 <= i < 3 implies slot_conforms(field_kinds(PREDICATE)[i], #[trigger] slots[i]) by {
                if i == 0 {
                } else if i == 1 {
                } else {
                }
            }
            assert(conforms(PREDICATE, MsgV::Fields(slots)));
        },
        CondV::Not(x) => {
            lemma_opt_cond_conforms(x);
            let inner = MsgV::Fields(seq![opt_cond_slot(x)]);
            assert(conforms(NOT_CONDITION, inner));
        },
        CondV::Compound(l, op, r) => {
            lemma_opt_cond_conforms(l);
            lemma_opt_cond_conforms(r);
            let slots = seq![opt_cond_slot(l), SlotV::Int(op), opt_cond_slot(r)];
            assert forall|i: int| 0 <= i < 3 implies slot_conforms(field_kinds(COMPOUND)[i], #[trigger] slots[i]) by {
                if i == 0 {
                } else if i == 1 {
                } else {
                }
            }
            assert(conforms(COMPOUND, MsgV::Fields(slots)));
        },
        CondV::Identifier(v) => {
            let slots = seq![text_slot(v)];
            assert(slot_conforms(field_kinds(IDENTIFIER)[0], slots[0]));
            assert(conforms(IDENTIFIER, MsgV::Fields(slots)));
        },
    }
}

/// A route message conforms to the route type.
pub proof fn lemma_route_conforms(r: RouteV)
    ensures
        conforms(ROUTE, route_msg(r)),
    decreases r,
{
    let ms = Seq::new(r.children.len(), |i: int| if 0 <= i < r.children.len() { route_msg(r.children[i]) } else { arbitrary() });
    assert forall|i: int| 0 <= i < ms.len() implies conforms(ROUTE, #[trigger] ms[i]) by {
        lemma_route_conforms(r.children[i]);
    }
    let children = SlotV::Msgs(ms);
    assert(slot_conforms(Kind::Msgs(ROUTE), children));
    let m = route_msg(r);
    let slots = fields_of(m);
    assert(slots[3]->Msgs_0 =~= ms);
    assert forall|i: int| 0 <= i < 5 implies slot_conforms(field_kinds(ROUTE)[i], #[trigger] slots[i]) by {
        if i == 3 {
            assert(slots[3] == children);
        }
    }
}

/// An optional condition field conforms.
proof fn lemma_cond_slot_conforms(c: Option<CondV>)
    ensures
        slot_conforms(Kind::Msg(CONDITION), cond_slot(c)),
{
    if let Some(x) = c {
        lemma_cond_conforms(x);
        assert(cond_slot(c) == SlotV::Msg(Some(Box::new(cond_msg(x)))));
    }
}

/// A fragment message conforms to the fragment type.
pub proof fn lemma_frag_conforms(f: FragV)
    ensures
        conforms(FRAGMENT, frag_msg(f)),
{
    match f {
        FragV::Empty => {},
        FragV::Raw(v) => {
            let slots = seq![text_slot(v)];
            assert(slot_conforms(field_kinds(RAW)[0], slots[0]));
            assert(conforms(RAW, MsgV::Fields(slots)));
        },
        FragV::Component(v) => {
            let slots = seq![text_slot(v)];
            assert(slot_conforms(field_kinds(COMPONENT)[0], slots[0]));
            assert(conforms(COMPONENT, MsgV::Fields(slots)));
        },
        FragV::ForLoop(a, b, c) => {
            let slots = seq![text_slot(a), text_slot(b), text_slot(c)];
            assert forall|i: int| 0 <= i < 3 implies slot_conforms(field_kinds(FOR_LOOP)[i], #[trigger] slots[i]) by {
                if i == 0 {
                } else if i == 1 {
                } else {
                }
            }
            assert(conforms(FOR_LOOP, MsgV::Fields(slots)));
        },
        FragV::Signal(v, raw) => {
            let slots = seq![text_slot(v), SlotV::Bool(raw)];
            assert forall|i: int| 0 <= i < 2 implies slot_conforms(field_kinds(SIGNAL)[i], #[trigger] slots[i]) by {
                if i == 0 {
                } else {
                }
            }
            assert(conforms(SIGNAL, MsgV::Fields(slots)));
        },
        FragV::IfCond(c, id) => {
            lemma_cond_slot_conforms(c);
            let slots = seq![cond_slot(c), text_slot(id)];
            assert forall|i: int| 0 <= i < 2 implies slot_conforms(field_kinds(IF_COND)[i], #[trigger] slots[i]) by {
                if i == 0 {
                } else {
                }
            }
            assert(conforms(IF_COND, MsgV::Fields(slots)));
        },
        FragV::Attribute(a) => {
            lemma_cond_slot_conforms(a.condition_tree);
            let slots = fields_of(attr_msg(a));
            assert forall|i: int| 0 <= i < 8 implies slot_conforms(field_kinds(ATTRIBUTE)[i], #[trigger] slots[i]) by {
                if i == 0 {
                } else if i == 1 {
                } else if i == 2 {
                } else if i == 3 {
                } else if i == 4 {
                } else if i == 5 {
                } else if i == 6 {
                } else {
                }
            }
            assert(conforms(ATTRIBUTE, attr_msg(a)));
        },
        FragV::Plugin(d) => {
            let slots = seq![SlotV::Bytes(d)];
            assert(slot_conforms(field_kinds(PLUGIN)[0], slots[0]));
            assert(conforms(PLUGIN, MsgV::Fields(slots)));
        },
        FragV::Route(r) => {
            lemma_route_conforms(r);
        },
        FragV::Outlet => {
            assert(conforms(OUTLET, MsgV::Fields(Seq::empty())));
        },
    }
}

/// A fragment-list message conforms to its type.
pub proof fn lemma_list_conforms(fs: Seq<FragV>)
    ensures
        conforms(FRAGMENT_LIST, list_msg(fs)),
{
    let ms = fs.map_values(|f: FragV| frag_msg(f));
    assert forall|i: int| 0 <= i < ms.len() implies conforms(FRAGMENT, #[trigger] ms[i]) by {
        lemma_frag_conforms(fs[i]);
    }
    let slots = seq![SlotV::Msgs(ms)];
    assert(slot_conforms(field_kinds(FRAGMENT_LIST)[0], slots[0]));
    assert(conforms(FRAGMENT_LIST, MsgV::Fields(slots)));
}

/// A component-data message conforms to its type.
pub proof fn lemma_comp_conforms(c: CompV)
    ensures
        conforms(COMPONENT_DATA, comp_msg(c)),
{
    let slots = fields_of(comp_msg(c));
    assert forall|i: int| 0 <= i < 3 implies slot_conforms(field_kinds(COMPONENT_DATA)[i], #[trigger] slots[i]) by {
        if i == 0 {
        } else if i == 1 {
        } else {
        }
    }
}

/// The keys of a protocol's fragment records.
pub open spec fn fragment_ids(p: ProtoV) -> Seq<Seq<char>> {
    p.fragments.map_values(|e: (Seq<char>, Seq<FragV>)| e.0)
}

/// The keys of a protocol's component records.
pub open spec fn component_tags(p: ProtoV) -> Seq<Seq<char>> {
    p.components.map_values(|e: (Seq<char>, CompV)| e.0)
}

/// A protocol message conforms to the protocol type when its record keys
/// are distinct.
pub proof fn lemma_proto_conforms(p: ProtoV)
    requires
        keys_distinct(fragment_ids(p)),
        keys_distinct(component_tags(p)),
    ensures
        conforms(PROTOCOL, proto_msg(p)),
{
    let fes = p.fragments.map_values(|e: (Seq<char>, Seq<FragV>)| (e.0, list_msg(e.1)));
    let ces = p.components.map_values(|e: (Seq<char>, CompV)| (e.0, comp_msg(e.1)));
    assert(fes.map_values(|e: (Seq<char>, MsgV)| e.0) =~= fragment_ids(p));
    assert(ces.map_values(|e: (Seq<char>, MsgV)| e.0) =~= component_tags(p));
    assert forall|i: int| 0 <= i < fes.len() implies conforms(FRAGMENT_LIST, #[trigger] fes[i].1) by {
        lemma_list_conforms(p.fragments[i].1);
    }
    assert forall|i: int| 0 <= i < ces.len() implies conforms(COMPONENT_DATA, #[trigger] ces[i].1) by {
        lemma_comp_conforms(p.components[i].1);
    }
    let slots = fields_of(proto_msg(p));
    assert(slot_conforms(Kind::Entries(FRAGMENT_LIST), SlotV::Entries(fes)));
    assert(slot_conforms(Kind::Entries(COMPONENT_DATA), SlotV::Entries(ces)));
    assert forall|i: int| 0 <= i < 3 implies slot_conforms(field_kinds(PROTOCOL)[i], #[trigger] slots[i]) by {
        if i == 0 {
        } else if i == 1 {
        } else {
        }
    }
}

/// A repeated message field whose messages conform to type `c`.
pub open spec fn slot_conforms_msgs(c: usize, s: SlotV) -> bool {
    super::schema::slot_conforms(Kind::Msgs(c), s)
}

} // verus!
