//! Conversion between the protocol types and message values of the schema.
use vstd::prelude::*;
use super::condition_expr::Expr;
use super::messages::{
    attr_msg, attr_of, bool_of, comp_msg, comp_of, cond_msg, cond_of, cond_opt_of, cond_slot, fields_of,
    frag_msg, frag_of, int_of, list_msg, list_of, opt_cond_of, opt_cond_slot, route_msg, route_of, text_of,
    text_slot,
};
use super::schema::{
    conforms, field_kinds, msg_view, msgs_view, slot_conforms, slot_view, variants, Kind, Msg, MsgV, Slot,
    SlotV, ATTRIBUTE, COMPONENT_DATA, CONDITION, FRAGMENT, FRAGMENT_LIST,
    ROUTE, };
use super::types::{
    attr_view, comp_view, cond_view, frag_view, frags_view, opt_cond, opt_cond_view, route_view,
    routes_view, ComponentData, CompoundCondition, ConditionExpr, FragmentList, IdentifierCondition,
    NotCondition, Predicate, WebUiFragment, WebUiFragmentAttribute, WebUiFragmentComponent,
    WebUiFragmentFor, WebUiFragmentIf, WebUiFragmentOutlet, WebUiFragmentPlugin, WebUiFragmentRaw,
    WebUiFragmentRoute, WebUiFragmentSignal,
};
use super::web_ui_fragment::Fragment;

verus! {

// ── Building messages ──────────────────────────────────────────────────

/// A message of one field.
fn msg1(a: Slot) -> (r: Msg)
    ensures
        msg_view(r) == MsgV::Fields(seq![slot_view(a)]),
{
    let ghost av = slot_view(a);
    let mut v: Vec<Slot> = Vec::new();
    v.push(a);
    let r = Msg::Fields(v);
    assert(fields_of(msg_view(r)) =~= seq![av]);
    r
}

/// A message of two fields.
fn msg2(a: Slot, b: Slot) -> (r: Msg)
    ensures
        msg_view(r) == MsgV::Fields(seq![slot_view(a), slot_view(b)]),
{
    let ghost (av, bv) = (slot_view(a), slot_view(b));
    let mut v: Vec<Slot> = Vec::new();
    v.push(a);
    v.push(b);
    let r = Msg::Fields(v);
    assert(fields_of(msg_view(r)) =~= seq![av, bv]);
    r
}

/// A message of three fields.
fn msg3(a: Slot, b: Slot, c: Slot) -> (r: Msg)
    ensures
        msg_view(r) == MsgV::Fields(seq![slot_view(a), slot_view(b), slot_view(c)]),
{
    let ghost (av, bv, cv) = (slot_view(a), slot_view(b), slot_view(c));
    let mut v: Vec<Slot> = Vec::new();
    v.push(a);
    v.push(b);
    v.push(c);
    let r = Msg::Fields(v);
    assert(fields_of(msg_view(r)) =~= seq![av, bv, cv]);
    r
}

/// A message whose fields are the given values, in order.
fn msg_of(v: Vec<Slot>) -> (r: Msg)
    ensures
        fields_of(msg_view(r)) == Seq::new(v@.len(), |i: int| slot_view(v@[i])),
        msg_view(r) is Fields,
{
    let ghost vv = v@;
    let r = Msg::Fields(v);
    assert(fields_of(msg_view(r)) =~= Seq::new(vv.len(), |i: int| slot_view(vv[i])));
    r
}

/// A `oneof` message with variant `k` set to `m`.
fn variant(k: usize, m: Msg) -> (r: Msg)
    ensures
        msg_view(r) == MsgV::Choice(Some((k, Box::new(msg_view(m))))),
{
    Msg::Choice(Some((k, Box::new(m))))
}

/// A `string` field.
fn text(s: &String) -> (r: Slot)
    ensures
        slot_view(r) == text_slot(s@),
{
    Slot::Str(s.clone())
}

// ── Protocol types to messages ─────────────────────────────────────────

/// A condition as a message.
pub fn cond_to_msg(c: &ConditionExpr) -> (r: Msg)
    ensures
        msg_view(r) == cond_msg(cond_view(*c)),
    decreases c,
{
    match &c.expr {
        None => Msg::Choice(None),
        Some(Expr::Predicate(p)) => variant(0, msg3(text(&p.left), Slot::Int(p.operator), text(&p.right))),
        Some(Expr::Not(n)) => variant(1, msg1(opt_cond_to_slot(&n.condition))),
        Some(Expr::Compound(b)) => variant(
            2,
            msg3(opt_cond_to_slot(&b.left), Slot::Int(b.op), opt_cond_to_slot(&b.right)),
        ),
        Some(Expr::Identifier(i)) => variant(3, msg1(text(&i.value))),
    }
}

/// An optional nested condition as a message field.
fn opt_cond_to_slot(c: &Option<Box<ConditionExpr>>) -> (r: Slot)
    ensures
        slot_view(r) == opt_cond_slot(opt_cond_view(*c)),
    decreases c,
{
    match c {
        None => Slot::Msg(None),
        Some(b) => Slot::Msg(Some(Box::new(cond_to_msg(b)))),
    }
}

/// An optional condition as a message field.
fn cond_opt_to_slot(c: &Option<ConditionExpr>) -> (r: Slot)
    ensures
        slot_view(r) == cond_slot(opt_cond(*c)),
{
    match c {
        None => Slot::Msg(None),
        Some(x) => Slot::Msg(Some(Box::new(cond_to_msg(x)))),
    }
}

/// A route as a message.
pub fn route_to_msg(r: &WebUiFragmentRoute) -> (m: Msg)
    ensures
        msg_view(m) == route_msg(route_view(*r)),
    decreases r,
{
    let mut children: Vec<Msg> = Vec::new();
    let mut i: usize = 0;
    proof {
        assert(decreases_to!(*r => r.children@));
    }
    while i < r.children.len()
        invariant
            0 <= i <= r.children@.len(),
            decreases_to!(*r => r.children@),
            children@.len() == i,
            forall|j: int| 0 <= j < i ==> msg_view(#[trigger] children@[j]) == route_msg(route_view(r.children@[j])),
        decreases r.children@.len() - i,
    {
        proof {
            assert(decreases_to!(r.children@ => r.children@[i as int]));
        }
        children.push(route_to_msg(&r.children[i]));
        i = i + 1;
    }
    let ghost rv = route_view(*r);
    let m = msg_of(vec5(text(&r.path), text(&r.fragment_id), Slot::Bool(r.exact), Slot::Msgs(children), text(&r.allowed_query)));
    proof {
        let cs = Seq::new(rv.children.len(), |i: int| if 0 <= i < rv.children.len() { route_msg(rv.children[i]) } else { arbitrary() });
        assert(rv.children =~= routes_view(r.children@));
        assert(msgs_view(children@) =~= cs);
        let want = fields_of(route_msg(rv));
        let got = fields_of(msg_view(m));
        assert(got.len() == 5);
        assert(want.len() == 5);
        assert(got[3]->Msgs_0 =~= want[3]->Msgs_0);
        assert(got =~= want);
    }
    m
}

/// Five field values in order.
fn vec5(a: Slot, b: Slot, c: Slot, d: Slot, e: Slot) -> (r: Vec<Slot>)
    ensures
        r@ == seq![a, b, c, d, e],
{
    let mut v: Vec<Slot> = Vec::new();
    v.push(a);
    v.push(b);
    v.push(c);
    v.push(d);
    v.push(e);
    assert(v@ =~= seq![a, b, c, d, e]);
    v
}

/// An attribute as a message.
fn attr_to_msg(a: &WebUiFragmentAttribute) -> (r: Msg)
    ensures
        msg_view(r) == attr_msg(attr_view(*a)),
{
    let mut v: Vec<Slot> = Vec::new();
    v.push(text(&a.name));
    v.push(text(&a.value));
    v.push(text(&a.template));
    v.push(Slot::Bool(a.complex));
    v.push(Slot::Bool(a.attr_start));
    v.push(Slot::Bool(a.attr_skip));
    v.push(Slot::Bool(a.raw_value));
    v.push(cond_opt_to_slot(&a.condition_tree));
    let r = msg_of(v);
    assert(fields_of(msg_view(r)) =~= fields_of(attr_msg(attr_view(*a))));
    r
}

/// A fragment as a message.
pub fn frag_to_msg(f: &WebUiFragment) -> (r: Msg)
    ensures
        msg_view(r) == frag_msg(frag_view(*f)),
{
    match &f.fragment {
        None => Msg::Choice(None),
        Some(Fragment::Raw(x)) => variant(0, msg1(text(&x.value))),
        Some(Fragment::Component(x)) => variant(1, msg1(text(&x.fragment_id))),
        Some(Fragment::ForLoop(x)) => variant(2, msg3(text(&x.item), text(&x.collection), text(&x.fragment_id))),
        Some(Fragment::Signal(x)) => variant(3, msg2(text(&x.value), Slot::Bool(x.raw))),
        Some(Fragment::IfCond(x)) => variant(4, msg2(cond_opt_to_slot(&x.condition), text(&x.fragment_id))),
        Some(Fragment::Attribute(x)) => variant(5, attr_to_msg(x)),
        Some(Fragment::Plugin(x)) => variant(6, msg1(Slot::Bytes(vstd::slice::slice_to_vec(x.data.as_slice())))),
        Some(Fragment::Route(x)) => variant(7, route_to_msg(x)),
        Some(Fragment::Outlet(_)) => {
            let m = msg_of(Vec::new());
            assert(fields_of(msg_view(m)) =~= Seq::<SlotV>::empty());
            variant(8, m)
        },
    }
}

/// A fragment list as a message.
pub fn list_to_msg(l: &FragmentList) -> (r: Msg)
    ensures
        msg_view(r) == list_msg(frags_view(l.fragments@)),
{
    let mut ms: Vec<Msg> = Vec::new();
    let mut i: usize = 0;
    while i < l.fragments.len()
        invariant
            0 <= i <= l.fragments@.len(),
            ms@.len() == i,
            forall|j: int| 0 <= j < i ==> msg_view(#[trigger] ms@[j]) == frag_msg(frag_view(l.fragments@[j])),
        decreases l.fragments@.len() - i,
    {
        ms.push(frag_to_msg(&l.fragments[i]));
        i = i + 1;
    }
    let ghost mv = msgs_view(ms@);
    let r = msg1(Slot::Msgs(ms));
    assert(mv =~= frags_view(l.fragments@).map_values(|f: super::types::FragV| frag_msg(f)));
    r
}

/// Component data as a message.
pub fn comp_to_msg(c: &ComponentData) -> (r: Msg)
    ensures
        msg_view(r) == comp_msg(comp_view(*c)),
{
    msg3(text(&c.template), text(&c.css), text(&c.css_href))
}

// ── Messages to protocol types ─────────────────────────────────────────

/// The text of a `string` field.
fn text_from(s: &Slot) -> (r: String)
    ensures
        r@ == text_of(slot_view(*s)),
{
    match s {
        Slot::Str(x) => x.clone(),
        _ => String::new(),
    }
}

/// The value of a `bool` field.
fn bool_from(s: &Slot) -> (r: bool)
    ensures
        r == bool_of(slot_view(*s)),
{
    match s {
        Slot::Bool(b) => *b,
        _ => false,
    }
}

/// The value of an `int32` field.
fn int_from(s: &Slot) -> (r: i32)
    ensures
        r == int_of(slot_view(*s)),
{
    match s {
        Slot::Int(x) => *x,
        _ => 0,
    }
}

/// The fields of a message of type `id`, which has fields.
proof fn lemma_fields(id: usize, m: Msg)
    requires
        conforms(id, msg_view(m)),
        m is Fields,
    ensures
        fields_of(msg_view(m)).len() == field_kinds(id).len(),
        m->Fields_0@.len() == field_kinds(id).len(),
        forall|i: int| 0 <= i < m->Fields_0@.len() ==> slot_view(#[trigger] m->Fields_0@[i]) == fields_of(msg_view(m))[i],
        forall|i: int| 0 <= i < field_kinds(id).len() ==> slot_conforms(field_kinds(id)[i], #[trigger] fields_of(msg_view(m))[i]),
{
}

/// The condition a message holds.
pub fn cond_from_msg(m: &Msg) -> (r: ConditionExpr)
    requires
        conforms(CONDITION, msg_view(*m)),
    ensures
        cond_view(r) == cond_of(msg_view(*m)),
    decreases m,
{
    match m {
        Msg::Choice(Some((k, b))) => {
            let ghost bv = msg_view(**b);
            proof {
                assert(msg_view(*m) == MsgV::Choice(Some((*k, Box::new(bv)))));
                assert(conforms(variants(CONDITION)[*k as int], bv));
            }
            match &**b {
                Msg::Fields(v) => {
                    proof {
                        lemma_fields(variants(CONDITION)[*k as int], **b);
                        assert(decreases_to!(*m => v@));
                    }
                    if *k == 0 {
                        let left = text_from(&v[0]);
                        let operator = int_from(&v[1]);
                        let right = text_from(&v[2]);
                        ConditionExpr { expr: Some(Expr::Predicate(Predicate { left, operator, right })) }
                    } else if *k == 1 {
                        proof {
                            assert(decreases_to!(v@ => v@[0]));
                        }
                        let c = opt_cond_from(&v[0]);
                        ConditionExpr { expr: Some(Expr::Not(Box::new(NotCondition { condition: c }))) }
                    } else if *k == 2 {
                        proof {
                            assert(decreases_to!(v@ => v@[0]));
                            assert(decreases_to!(v@ => v@[2]));
                        }
                        let left = opt_cond_from(&v[0]);
                        let op = int_from(&v[1]);
                        let right = opt_cond_from(&v[2]);
                        ConditionExpr { expr: Some(Expr::Compound(Box::new(CompoundCondition { left, op, right }))) }
                    } else {
                        let value = text_from(&v[0]);
                        ConditionExpr { expr: Some(Expr::Identifier(IdentifierCondition { value })) }
                    }
                },
                Msg::Choice(_) => {
                    proof {
                        assert(false);
                    }
                    ConditionExpr { expr: None }
                },
            }
        },
        _ => ConditionExpr { expr: None },
    }
}

/// The optional nested condition a message field holds.
fn opt_cond_from(s: &Slot) -> (r: Option<Box<ConditionExpr>>)
    requires
        slot_conforms(Kind::Msg(CONDITION), slot_view(*s)),
    ensures
        opt_cond_view(r) == opt_cond_of(slot_view(*s)),
    decreases s,
{
    match s {
        Slot::Msg(Some(b)) => {
            proof {
                assert(slot_view(*s) == SlotV::Msg(Some(Box::new(msg_view(**b)))));
            }
            Some(Box::new(cond_from_msg(b)))
        },
        _ => None,
    }
}

/// The optional condition a message field holds.
fn cond_opt_from(s: &Slot) -> (r: Option<ConditionExpr>)
    requires
        slot_conforms(Kind::Msg(CONDITION), slot_view(*s)),
    ensures
        opt_cond(r) == cond_opt_of(slot_view(*s)),
{
    match s {
        Slot::Msg(Some(b)) => {
            proof {
                assert(slot_view(*s) == SlotV::Msg(Some(Box::new(msg_view(**b)))));
            }
            Some(cond_from_msg(b))
        },
        _ => None,
    }
}

/// The route a message holds.
pub fn route_from_msg(m: &Msg) -> (r: WebUiFragmentRoute)
    requires
        conforms(ROUTE, msg_view(*m)),
    ensures
        route_view(r) == route_of(msg_view(*m)),
    decreases m,
{
    match m {
        Msg::Fields(v) => {
            proof {
                lemma_fields(ROUTE, *m);
                assert(decreases_to!(*m => v@));
                assert(decreases_to!(v@ => v@[3]));
            }
            let path = text_from(&v[0]);
            let fragment_id = text_from(&v[1]);
            let exact = bool_from(&v[2]);
            let allowed_query = text_from(&v[4]);
            let mut children: Vec<WebUiFragmentRoute> = Vec::new();
            match &v[3] {
                Slot::Msgs(ms) => {
                    let ghost mv = msgs_view(ms@);
                    proof {
                        assert(slot_view(v@[3]) == SlotV::Msgs(mv));
                        let sv = SlotV::Msgs(mv);
                        assert(sv->Msgs_0 == mv);
                        assert(slot_conforms(Kind::Msgs(ROUTE), sv));
                        assert(forall|j: int| 0 <= j < mv.len() ==> conforms(ROUTE, #[trigger] mv[j]));
                        assert(decreases_to!(v@[3] => ms@));
                    }
                    let mut i: usize = 0;
                    while i < ms.len()
                        invariant
                            0 <= i <= ms@.len(),
                            mv == msgs_view(ms@),
                            forall|j: int| 0 <= j < mv.len() ==> conforms(ROUTE, #[trigger] mv[j]),
                            decreases_to!(*m => ms@),
                            children@.len() == i,
                            forall|j: int| 0 <= j < i ==> route_view(#[trigger] children@[j]) == route_of(mv[j]),
                        decreases ms@.len() - i,
                    {
                        proof {
                            assert(decreases_to!(ms@ => ms@[i as int]));
                            assert(mv[i as int] == msg_view(ms@[i as int]));
                        }
                        children.push(route_from_msg(&ms[i]));
                        i = i + 1;
                    }
                    let r = WebUiFragmentRoute { path, fragment_id, exact, children, allowed_query };
                    proof {
                        let rv = route_of(msg_view(*m));
                        assert(route_view(r).children =~= rv.children);
                    }
                    r
                },
                _ => {
                    proof {
                        assert(false);
                    }
                    WebUiFragmentRoute { path, fragment_id, exact, children, allowed_query }
                },
            }
        },
        Msg::Choice(_) => {
            proof {
                assert(false);
            }
            WebUiFragmentRoute {
                path: String::new(),
                fragment_id: String::new(),
                exact: false,
                children: Vec::new(),
                allowed_query: String::new(),
            }
        },
    }
}

/// The attribute a message holds.
fn attr_from_msg(m: &Msg) -> (r: WebUiFragmentAttribute)
    requires
        conforms(ATTRIBUTE, msg_view(*m)),
    ensures
        attr_view(r) == attr_of(msg_view(*m)),
{
    match m {
        Msg::Fields(v) => {
            proof {
                lemma_fields(ATTRIBUTE, *m);
            }
            WebUiFragmentAttribute {
                name: text_from(&v[0]),
                value: text_from(&v[1]),
                template: text_from(&v[2]),
                complex: bool_from(&v[3]),
                attr_start: bool_from(&v[4]),
                attr_skip: bool_from(&v[5]),
                raw_value: bool_from(&v[6]),
                condition_tree: cond_opt_from(&v[7]),
            }
        },
        Msg::Choice(_) => {
            proof {
                assert(false);
            }
            WebUiFragmentAttribute {
                name: String::new(),
                value: String::new(),
                template: String::new(),
                complex: false,
                attr_start: false,
                attr_skip: false,
                raw_value: false,
                condition_tree: None,
            }
        },
    }
}

/// The fields of the set variant of a `oneof` message of type `id`.
proof fn lemma_variant(id: usize, m: Msg)
    requires
        conforms(id, msg_view(m)),
        m matches Msg::Choice(Some(_)),
    ensures
        ({
            let (k, b) = m->Choice_0.unwrap();
            &&& k < variants(id).len()
            &&& conforms(variants(id)[k as int], msg_view(*b))
            &&& msg_view(m) == MsgV::Choice(Some((k, Box::new(msg_view(*b)))))
        }),
{
}

/// The fragment a message holds.
pub fn frag_from_msg(m: &Msg) -> (r: WebUiFragment)
    requires
        conforms(FRAGMENT, msg_view(*m)),
    ensures
        frag_view(r) == frag_of(msg_view(*m)),
{
    match m {
        Msg::Choice(Some((k, b))) => {
            proof {
                lemma_variant(FRAGMENT, *m);
            }
            let inner: &Msg = b;
            if *k == 5 {
                let a = attr_from_msg(inner);
                return WebUiFragment { fragment: Some(Fragment::Attribute(a)) };
            }
            if *k == 7 {
                let x = route_from_msg(inner);
                return WebUiFragment { fragment: Some(Fragment::Route(x)) };
            }
            match inner {
                Msg::Fields(v) => {
                    proof {
                        lemma_fields(variants(FRAGMENT)[*k as int], *inner);
                    }
                    let f = if *k == 0 {
                        Fragment::Raw(WebUiFragmentRaw { value: text_from(&v[0]) })
                    } else if *k == 1 {
                        Fragment::Component(WebUiFragmentComponent { fragment_id: text_from(&v[0]) })
                    } else if *k == 2 {
                        Fragment::ForLoop(
                            WebUiFragmentFor {
                                item: text_from(&v[0]),
                                collection: text_from(&v[1]),
                                fragment_id: text_from(&v[2]),
                            },
                        )
                    } else if *k == 3 {
                        Fragment::Signal(WebUiFragmentSignal { value: text_from(&v[0]), raw: bool_from(&v[1]) })
                    } else if *k == 4 {
                        Fragment::IfCond(
                            WebUiFragmentIf { condition: cond_opt_from(&v[0]), fragment_id: text_from(&v[1]) },
                        )
                    } else if *k == 6 {
                        let data = match &v[0] {
                            Slot::Bytes(d) => vstd::slice::slice_to_vec(d.as_slice()),
                            _ => Vec::new(),
                        };
                        Fragment::Plugin(WebUiFragmentPlugin { data })
                    } else {
                        Fragment::Outlet(WebUiFragmentOutlet {})
                    };
                    WebUiFragment { fragment: Some(f) }
                },
                Msg::Choice(_) => {
                    proof {
                        assert(false);
                    }
                    WebUiFragment { fragment: None }
                },
            }
        },
        _ => WebUiFragment { fragment: None },
    }
}

/// The fragment list a message holds.
pub fn list_from_msg(m: &Msg) -> (r: FragmentList)
    requires
        conforms(FRAGMENT_LIST, msg_view(*m)),
    ensures
        frags_view(r.fragments@) == list_of(msg_view(*m)),
{
    match m {
        Msg::Fields(v) => {
            proof {
                lemma_fields(FRAGMENT_LIST, *m);
            }
            match &v[0] {
                Slot::Msgs(ms) => {
                    let ghost mv = msgs_view(ms@);
                    proof {
                        let sv = SlotV::Msgs(mv);
                        assert(slot_view(v@[0]) == sv);
                        assert(sv->Msgs_0 == mv);
                        assert(slot_conforms(Kind::Msgs(FRAGMENT), sv));
                        assert(forall|j: int| 0 <= j < mv.len() ==> conforms(FRAGMENT, #[trigger] mv[j]));
                    }
                    let mut fragments: Vec<WebUiFragment> = Vec::new();
                    let mut i: usize = 0;
                    while i < ms.len()
                        invariant
                            0 <= i <= ms@.len(),
                            mv == msgs_view(ms@),
                            forall|j: int| 0 <= j < mv.len() ==> conforms(FRAGMENT, #[trigger] mv[j]),
                            fragments@.len() == i,
                            forall|j: int| 0 <= j < i ==> frag_view(#[trigger] fragments@[j]) == frag_of(mv[j]),
                        decreases ms@.len() - i,
                    {
                        proof {
                            assert(mv[i as int] == msg_view(ms@[i as int]));
                        }
                        fragments.push(frag_from_msg(&ms[i]));
                        i = i + 1;
                    }
                    let r = FragmentList { fragments };
                    assert(frags_view(r.fragments@) =~= list_of(msg_view(*m)));
                    r
                },
                _ => {
                    proof {
                        assert(false);
                    }
                    FragmentList { fragments: Vec::new() }
                },
            }
        },
        Msg::Choice(_) => {
            proof {
                assert(false);
            }
            FragmentList { fragments: Vec::new() }
        },
    }
}

/// The component data a message holds.
pub fn comp_from_msg(m: &Msg) -> (r: ComponentData)
    requires
        conforms(COMPONENT_DATA, msg_view(*m)),
    ensures
        comp_view(r) == comp_of(msg_view(*m)),
{
    match m {
        Msg::Fields(v) => {
            proof {
                lemma_fields(COMPONENT_DATA, *m);
            }
            ComponentData { template: text_from(&v[0]), css: text_from(&v[1]), css_href: text_from(&v[2]) }
        },
        Msg::Choice(_) => {
            proof {
                assert(false);
            }
            ComponentData { template: String::new(), css: String::new(), css_href: String::new() }
        },
    }
}

} // verus!
