//! The message schema of the protocol and a uniform representation of
//! message values, on which one encoder and one decoder work for every
//! message type.
//!
//! A message type is either a sequence of fields, numbered from 1 in
//! declaration order, or a single `oneof` whose variants are numbered from
//! 1 in declaration order.
use vstd::prelude::*;
use super::records::keys_distinct;

verus! {

/// The kind of a message field.
#[derive(Debug, Clone, Copy, PartialEq, Eq)]
pub enum Kind {
    /// `string`
    Str,
    /// `bool`
    Bool,
    /// `int32` (enumerations)
    Int,
    /// `bytes`
    Bytes,
    /// A singular message of the given type.
    Msg(usize),
    /// A repeated message of the given type.
    Msgs(usize),
    /// `repeated string`
    Strs,
    /// `map<string, M>` with values of the given message type.
    Entries(usize),
}

/// Message type numbers.
pub const PROTOCOL: usize = 0;
pub const FRAGMENT_LIST: usize = 1;
pub const FRAGMENT: usize = 2;
pub const RAW: usize = 3;
pub const COMPONENT: usize = 4;
pub const FOR_LOOP: usize = 5;
pub const SIGNAL: usize = 6;
pub const IF_COND: usize = 7;
pub const ATTRIBUTE: usize = 8;
pub const PLUGIN: usize = 9;
pub const ROUTE: usize = 10;
pub const OUTLET: usize = 11;
pub const COMPONENT_DATA: usize = 12;
pub const CONDITION: usize = 13;
pub const PREDICATE: usize = 14;
pub const NOT_CONDITION: usize = 15;
pub const COMPOUND: usize = 16;
pub const IDENTIFIER: usize = 17;

/// The shape of a message type.
pub enum Shape {
    /// Fields numbered 1, 2, ... in order.
    Fields(Seq<Kind>),
    /// A `oneof` whose variants, numbered 1, 2, ... in order, are messages
    /// of the given types.
    Choice(Seq<usize>),
}

/// The schema: the shape of each message type.
pub open spec fn shape(id: usize) -> Shape {
    if id == PROTOCOL {
        Shape::Fields(seq![Kind::Entries(FRAGMENT_LIST), Kind::Strs, Kind::Entries(COMPONENT_DATA)])
    } else if id == FRAGMENT_LIST {
        Shape::Fields(seq![Kind::Msgs(FRAGMENT)])
    } else if id == FRAGMENT {
        Shape::Choice(seq![RAW, COMPONENT, FOR_LOOP, SIGNAL, IF_COND, ATTRIBUTE, PLUGIN, ROUTE, OUTLET])
    } else if id == RAW || id == COMPONENT || id == IDENTIFIER {
        Shape::Fields(seq![Kind::Str])
    } else if id == FOR_LOOP || id == COMPONENT_DATA {
        Shape::Fields(seq![Kind::Str, Kind::Str, Kind::Str])
    } else if id == SIGNAL {
        Shape::Fields(seq![Kind::Str, Kind::Bool])
    } else if id == IF_COND {
        Shape::Fields(seq![Kind::Msg(CONDITION), Kind::Str])
    } else if id == ATTRIBUTE {
        Shape::Fields(seq![
            Kind::Str, Kind::Str, Kind::Str, Kind::Bool, Kind::Bool, Kind::Bool, Kind::Bool,
            Kind::Msg(CONDITION),
        ])
    } else if id == PLUGIN {
        Shape::Fields(seq![Kind::Bytes])
    } else if id == ROUTE {
        Shape::Fields(seq![Kind::Str, Kind::Str, Kind::Bool, Kind::Msgs(ROUTE), Kind::Str])
    } else if id == OUTLET {
        Shape::Fields(Seq::empty())
    } else if id == CONDITION {
        Shape::Choice(seq![PREDICATE, NOT_CONDITION, COMPOUND, IDENTIFIER])
    } else if id == PREDICATE {
        Shape::Fields(seq![Kind::Str, Kind::Int, Kind::Str])
    } else if id == NOT_CONDITION {
        Shape::Fields(seq![Kind::Msg(CONDITION)])
    } else if id == COMPOUND {
        Shape::Fields(seq![Kind::Msg(CONDITION), Kind::Int, Kind::Msg(CONDITION)])
    } else {
        Shape::Fields(Seq::empty())
    }
}

/// The kinds of the fields of a message type (none for a `oneof`).
pub open spec fn field_kinds(id: usize) -> Seq<Kind> {
    match shape(id) {
        Shape::Fields(ks) => ks,
        Shape::Choice(_) => Seq::empty(),
    }
}

/// The variant types of a `oneof` message type (none for fields).
pub open spec fn variants(id: usize) -> Seq<usize> {
    match shape(id) {
        Shape::Fields(_) => Seq::empty(),
        Shape::Choice(vs) => vs,
    }
}

/// Whether the message type is a `oneof`.
pub open spec fn is_choice(id: usize) -> bool {
    shape(id) is Choice
}

/// The kind of field `tag` of message type `id`, if it has one.
pub fn field_kind(id: usize, tag: u32) -> (r: Option<Kind>)
    ensures
        r == (if 1 <= tag <= field_kinds(id).len() { Some(field_kinds(id)[tag - 1]) } else { None::<Kind> }),
{
    if id == PROTOCOL {
        if tag == 1 {
            Some(Kind::Entries(FRAGMENT_LIST))
        } else if tag == 2 {
            Some(Kind::Strs)
        } else if tag == 3 {
            Some(Kind::Entries(COMPONENT_DATA))
        } else {
            None
        }
    } else if id == FRAGMENT_LIST {
        if tag == 1 { Some(Kind::Msgs(FRAGMENT)) } else { None }
    } else if id == FRAGMENT || id == CONDITION {
        None
    } else if id == RAW || id == COMPONENT || id == IDENTIFIER {
        if tag == 1 { Some(Kind::Str) } else { None }
    } else if id == FOR_LOOP || id == COMPONENT_DATA {
        if 1 <= tag && tag <= 3 { Some(Kind::Str) } else { None }
    } else if id == SIGNAL {
        if tag == 1 {
            Some(Kind::Str)
        } else if tag == 2 {
            Some(Kind::Bool)
        } else {
            None
        }
    } else if id == IF_COND {
        if tag == 1 {
            Some(Kind::Msg(CONDITION))
        } else if tag == 2 {
            Some(Kind::Str)
        } else {
            None
        }
    } else if id == ATTRIBUTE {
        if 1 <= tag && tag <= 3 {
            Some(Kind::Str)
        } else if 4 <= tag && tag <= 7 {
            Some(Kind::Bool)
        } else if tag == 8 {
            Some(Kind::Msg(CONDITION))
        } else {
            None
        }
    } else if id == PLUGIN {
        if tag == 1 { Some(Kind::Bytes) } else { None }
    } else if id == ROUTE {
        if tag == 1 || tag == 2 || tag == 5 {
            Some(Kind::Str)
        } else if tag == 3 {
            Some(Kind::Bool)
        } else if tag == 4 {
            Some(Kind::Msgs(ROUTE))
        } else {
            None
        }
    } else if id == PREDICATE {
        if tag == 1 || tag == 3 {
            Some(Kind::Str)
        } else if tag == 2 {
            Some(Kind::Int)
        } else {
            None
        }
    } else if id == NOT_CONDITION {
        if tag == 1 { Some(Kind::Msg(CONDITION)) } else { None }
    } else if id == COMPOUND {
        if tag == 1 || tag == 3 {
            Some(Kind::Msg(CONDITION))
        } else if tag == 2 {
            Some(Kind::Int)
        } else {
            None
        }
    } else {
        None
    }
}

/// The number of fields of message type `id` (none for a `oneof`).
pub fn field_count(id: usize) -> (r: usize)
    ensures
        r == field_kinds(id).len(),
        r <= 8,
{
    if id == PROTOCOL || id == FOR_LOOP || id == COMPONENT_DATA || id == PREDICATE || id == COMPOUND {
        3
    } else if id == FRAGMENT_LIST || id == RAW || id == COMPONENT || id == IDENTIFIER || id == PLUGIN
        || id == NOT_CONDITION {
        1
    } else if id == SIGNAL || id == IF_COND {
        2
    } else if id == ATTRIBUTE {
        8
    } else if id == ROUTE {
        5
    } else {
        0
    }
}

/// The message type of variant `tag` of `oneof` type `id`, if it has one.
pub fn variant_type(id: usize, tag: u32) -> (r: Option<usize>)
    ensures
        r == (if 1 <= tag <= variants(id).len() { Some(variants(id)[tag - 1]) } else { None::<usize> }),
{
    if id == FRAGMENT {
        if tag == 1 {
            Some(RAW)
        } else if tag == 2 {
            Some(COMPONENT)
        } else if tag == 3 {
            Some(FOR_LOOP)
        } else if tag == 4 {
            Some(SIGNAL)
        } else if tag == 5 {
            Some(IF_COND)
        } else if tag == 6 {
            Some(ATTRIBUTE)
        } else if tag == 7 {
            Some(PLUGIN)
        } else if tag == 8 {
            Some(ROUTE)
        } else if tag == 9 {
            Some(OUTLET)
        } else {
            None
        }
    } else if id == CONDITION {
        if tag == 1 {
            Some(PREDICATE)
        } else if tag == 2 {
            Some(NOT_CONDITION)
        } else if tag == 3 {
            Some(COMPOUND)
        } else if tag == 4 {
            Some(IDENTIFIER)
        } else {
            None
        }
    } else {
        None
    }
}

/// Whether message type `id` is a `oneof`.
pub fn choice_type(id: usize) -> (r: bool)
    ensures
        r == is_choice(id),
{
    id == FRAGMENT || id == CONDITION
}

// ── Values ─────────────────────────────────────────────────────────────

/// The value of a message field.
pub enum SlotV {
    Str(Seq<char>),
    Bool(bool),
    Int(i32),
    Bytes(Seq<u8>),
    Msg(Option<Box<MsgV>>),
    Msgs(Seq<MsgV>),
    Strs(Seq<Seq<char>>),
    Entries(Seq<(Seq<char>, MsgV)>),
}

/// The value of a message.
pub enum MsgV {
    /// The values of the fields, in field order.
    Fields(Seq<SlotV>),
    /// The set variant of a `oneof` (its position among the variants) and
    /// its message, if one is set.
    Choice(Option<(usize, Box<MsgV>)>),
}

/// An exec field value.
pub enum Slot {
    Str(String),
    Bool(bool),
    Int(i32),
    Bytes(Vec<u8>),
    Msg(Option<Box<Msg>>),
    Msgs(Vec<Msg>),
    Strs(Vec<String>),
    Entries(Vec<(String, Msg)>),
}

/// An exec message value.
pub enum Msg {
    Fields(Vec<Slot>),
    Choice(Option<(usize, Box<Msg>)>),
}

/// The view of an exec message.
pub open spec fn msg_view(m: Msg) -> MsgV
    decreases m,
{
    match m {
        Msg::Fields(v) => MsgV::Fields(
            Seq::new(v@.len(), |i: int| if 0 <= i < v@.len() { slot_view(v@[i]) } else { arbitrary() }),
        ),
        Msg::Choice(None) => MsgV::Choice(None),
        Msg::Choice(Some((k, b))) => MsgV::Choice(Some((k, Box::new(msg_view(*b))))),
    }
}

/// The views of a sequence of exec messages.
pub open spec fn msgs_view(v: Seq<Msg>) -> Seq<MsgV>
    decreases v,
{
    Seq::new(v.len(), |i: int| if 0 <= i < v.len() { msg_view(v[i]) } else { arbitrary() })
}

/// The views of map entries.
pub open spec fn entries_view(v: Seq<(String, Msg)>) -> Seq<(Seq<char>, MsgV)>
    decreases v,
{
    Seq::new(v.len(), |i: int| if 0 <= i < v.len() { (v[i].0@, msg_view(v[i].1)) } else { arbitrary() })
}

/// The view of an exec field value.
pub open spec fn slot_view(s: Slot) -> SlotV
    decreases s,
{
    match s {
        Slot::Str(x) => SlotV::Str(x@),
        Slot::Bool(b) => SlotV::Bool(b),
        Slot::Int(i) => SlotV::Int(i),
        Slot::Bytes(b) => SlotV::Bytes(b@),
        Slot::Msg(None) => SlotV::Msg(None),
        Slot::Msg(Some(b)) => SlotV::Msg(Some(Box::new(msg_view(*b)))),
        Slot::Msgs(v) => SlotV::Msgs(msgs_view(v@)),
        Slot::Strs(v) => SlotV::Strs(v@.map_values(|x: String| x@)),
        Slot::Entries(v) => SlotV::Entries(entries_view(v@)),
    }
}

/// The default value of a field of kind `k`.
pub open spec fn default_slot(k: Kind) -> SlotV {
    match k {
        Kind::Str => SlotV::Str(Seq::empty()),
        Kind::Bool => SlotV::Bool(false),
        Kind::Int => SlotV::Int(0),
        Kind::Bytes => SlotV::Bytes(Seq::empty()),
        Kind::Msg(_) => SlotV::Msg(None),
        Kind::Msgs(_) => SlotV::Msgs(Seq::empty()),
        Kind::Strs => SlotV::Strs(Seq::empty()),
        Kind::Entries(_) => SlotV::Entries(Seq::empty()),
    }
}

/// The default value of a message of type `id`: every field at its
/// default, or no `oneof` variant set.
pub open spec fn default_msg(id: usize) -> MsgV {
    match shape(id) {
        Shape::Fields(ks) => MsgV::Fields(ks.map_values(|k: Kind| default_slot(k))),
        Shape::Choice(_) => MsgV::Choice(None),
    }
}

/// The exec default value of a field of kind `k`.
pub fn new_slot(k: Kind) -> (r: Slot)
    ensures
        slot_view(r) == default_slot(k),
{
    match k {
        Kind::Str => Slot::Str(String::new()),
        Kind::Bool => Slot::Bool(false),
        Kind::Int => Slot::Int(0),
        Kind::Bytes => Slot::Bytes(Vec::new()),
        Kind::Msg(_) => Slot::Msg(None),
        Kind::Msgs(_) => {
            let r = Slot::Msgs(Vec::new());
            assert(msgs_view(Seq::<Msg>::empty()) =~= Seq::<MsgV>::empty());
            r
        },
        Kind::Strs => {
            let v: Vec<String> = Vec::new();
            assert(v@.map_values(|x: String| x@) =~= Seq::<Seq<char>>::empty());
            Slot::Strs(v)
        },
        Kind::Entries(_) => {
            let v: Vec<(String, Msg)> = Vec::new();
            assert(entries_view(v@) =~= Seq::<(Seq<char>, MsgV)>::empty());
            Slot::Entries(v)
        },
    }
}

/// The exec default value of a message of type `id`.
pub fn new_msg(id: usize) -> (r: Msg)
    ensures
        msg_view(r) == default_msg(id),
{
    if choice_type(id) {
        Msg::Choice(None)
    } else {
        let mut v: Vec<Slot> = Vec::new();
        let n = field_count(id);
        let mut tag: u32 = 1;
        let ghost ks = field_kinds(id);
        while tag as usize <= n
            invariant
                1 <= tag <= n + 1,
                ks == field_kinds(id),
                n == ks.len(),
                n <= 8,
                v@.len() == tag - 1,
                forall|i: int| 0 <= i < v@.len() ==> slot_view(#[trigger] v@[i]) == default_slot(ks[i]),
            decreases n + 1 - tag,
        {
            let k = field_kind(id, tag).unwrap();
            v.push(new_slot(k));
            tag = tag + 1;
        }
        let r = Msg::Fields(v);
        assert(msg_view(r) == default_msg(id)) by {
            if let Shape::Fields(ks2) = shape(id) {
                assert(ks2 == ks);
            }
            assert(v@.len() == ks.len());
            if let MsgV::Fields(sv) = msg_view(r) {
                assert(sv =~= ks.map_values(|k: Kind| default_slot(k)));
            }
        }
        r
    }
}

// ── Conformance ────────────────────────────────────────────────────────

/// A field value is of kind `k`, its messages of their types, and a map's
/// keys are distinct.
pub open spec fn slot_conforms(k: Kind, s: SlotV) -> bool
    decreases s,
{
    match s {
        SlotV::Str(_) => k is Str,
        SlotV::Bool(_) => k is Bool,
        SlotV::Int(_) => k is Int,
        SlotV::Bytes(_) => k is Bytes,
        SlotV::Msg(o) => match k {
            Kind::Msg(c) => match o {
                None => true,
                Some(m) => conforms(c, *m),
            },
            _ => false,
        },
        SlotV::Msgs(ms) => match k {
            Kind::Msgs(c) => forall|i: int| 0 <= i < ms.len() ==> conforms(c, #[trigger] ms[i]),
            _ => false,
        },
        SlotV::Strs(_) => k is Strs,
        SlotV::Entries(es) => match k {
            Kind::Entries(c) => {
                &&& keys_distinct(es.map_values(|e: (Seq<char>, MsgV)| e.0))
                &&& forall|i: int| 0 <= i < es.len() ==> conforms(c, #[trigger] es[i].1)
            },
            _ => false,
        },
    }
}

/// A message value is of type `id`.
pub open spec fn conforms(id: usize, m: MsgV) -> bool
    decreases m,
{
    match m {
        MsgV::Fields(slots) => {
            &&& !is_choice(id)
            &&& slots.len() == field_kinds(id).len()
            &&& forall|i: int| 0 <= i < slots.len() ==> slot_conforms(field_kinds(id)[i], #[trigger] slots[i])
        },
        MsgV::Choice(None) => is_choice(id),
        MsgV::Choice(Some((k, b))) => is_choice(id) && k < variants(id).len() && conforms(variants(id)[k as int], *b),
    }
}

} // verus!
