//! The protobuf binary form of a protocol.
use vstd::prelude::*;
use super::convert::{comp_from_msg, comp_to_msg, list_from_msg, list_to_msg};
use super::decode::{decode_message, merge_bytes_exec, RECURSION_LIMIT};
use super::encode::{enc_entries, enc_entry, enc_list, enc_msg, enc_slot, enc_slots, enc_strs, encode_msg};
use super::messages::{
    comp_msg, comp_of, component_tags, cond_msg, fields_of, frag_msg, fragment_ids, lemma_proto_back, lemma_proto_conforms,
    list_msg, list_of, proto_msg, proto_of, route_msg, ProtoV,
};
use super::records::{entry_keys, keys_distinct, StringMap};
use super::round_trip::{fits, lemma_decode_encode};
use super::schema::{
    conforms, entries_view, field_kinds, msg_view, new_msg, slot_conforms, slot_view, Kind, Msg, MsgV, Slot,
    SlotV, COMPONENT_DATA, FRAGMENT_LIST, PROTOCOL,
};
use super::types::{comp_view, frags_view, strings_view, AttrV, CompV, CondV, ComponentData, FragV, FragmentList, RouteV};
use super::webui::{proto_view, protocol_reference_error, ProtocolError, WebUiProtocol};
use super::wire::{failure_text, varint, Failure};
use vstd::utf8::encode_utf8;

verus! {

/// The protobuf bytes of a protocol.
pub open spec fn protobuf_bytes(p: ProtoV) -> Seq<u8> {
    enc_msg(proto_msg(p))
}

/// The protocol that protobuf bytes hold, or why they hold none.
pub open spec fn protobuf_decode(s: Seq<u8>) -> Result<ProtoV, Failure> {
    match decode_message(PROTOCOL, s) {
        Ok(d) => Ok(proto_of(d)),
        Err(e) => Err(e),
    }
}

/// The message reporting a decoding failure.
pub open spec fn decode_error_text(f: Failure) -> Seq<char> {
    "Protobuf decode error: failed to decode Protobuf message: "@ + failure_text(f)
}

/// The record keys of a protocol are distinct (they come from maps).
pub open spec fn records_distinct(p: ProtoV) -> bool {
    keys_distinct(fragment_ids(p)) && keys_distinct(component_tags(p))
}

/// Decoding the protobuf bytes of a protocol gives back the protocol, when
/// its messages nest within the recursion limit and its bytes are fewer
/// than 2^64.
pub proof fn lemma_protobuf_round_trip(p: ProtoV)
    requires
        records_distinct(p),
        fits(proto_msg(p), RECURSION_LIMIT as nat),
        protobuf_bytes(p).len() <= u64::MAX,
    ensures
        protobuf_decode(protobuf_bytes(p)) == Ok::<ProtoV, Failure>(p),
{
    lemma_proto_conforms(p);
    lemma_decode_encode(PROTOCOL, proto_msg(p), RECURSION_LIMIT as nat);
    lemma_proto_back(p);
}

/// A protocol's record keys are distinct.
proof fn lemma_view_distinct(p: &WebUiProtocol)
    requires
        keys_distinct(p.fragments.spec_keys()),
        keys_distinct(p.components.spec_keys()),
    ensures
        records_distinct(proto_view(*p)),
{
    let pv = proto_view(*p);
    assert(fragment_ids(pv) =~= p.fragments.spec_keys());
    assert(component_tags(pv) =~= p.components.spec_keys());
}

/// A protocol as a message.
fn protocol_to_msg(p: &WebUiProtocol) -> (r: Msg)
    ensures
        msg_view(r) == proto_msg(proto_view(*p)),
{
    let ghost pv = proto_view(*p);
    let mut frags: Vec<(String, Msg)> = Vec::new();
    let n = p.fragments.len();
    let mut i: usize = 0;
    while i < n
        invariant
            0 <= i <= n,
            n == p.fragments.spec_entries().len(),
            pv == proto_view(*p),
            frags@.len() == i,
            forall|j: int| 0 <= j < i ==> #[trigger] entries_view(frags@)[j] == (pv.fragments[j].0, list_msg(pv.fragments[j].1)),
        decreases n - i,
    {
        let (k, l) = p.fragments.entry_at(i);
        let ghost before = frags@;
        frags.push((k.clone(), list_to_msg(l)));
        proof {
            assert forall|j: int| 0 <= j < i + 1 implies #[trigger] entries_view(frags@)[j] == (pv.fragments[j].0, list_msg(pv.fragments[j].1)) by {
                if j < i {
                    assert(entries_view(frags@)[j] == entries_view(before)[j]);
                }
            }
        }
        i = i + 1;
    }
    let mut tokens: Vec<String> = Vec::new();
    let mut i: usize = 0;
    while i < p.tokens.len()
        invariant
            0 <= i <= p.tokens@.len(),
            tokens@.len() == i,
            forall|j: int| 0 <= j < i ==> #[trigger] tokens@[j] == p.tokens@[j],
        decreases p.tokens@.len() - i,
    {
        tokens.push(p.tokens[i].clone());
        i = i + 1;
    }
    let mut comps: Vec<(String, Msg)> = Vec::new();
    let n = p.components.len();
    let mut i: usize = 0;
    while i < n
        invariant
            0 <= i <= n,
            n == p.components.spec_entries().len(),
            pv == proto_view(*p),
            comps@.len() == i,
            forall|j: int| 0 <= j < i ==> #[trigger] entries_view(comps@)[j] == (pv.components[j].0, comp_msg(pv.components[j].1)),
        decreases n - i,
    {
        let (k, c) = p.components.entry_at(i);
        let ghost before = comps@;
        comps.push((k.clone(), comp_to_msg(c)));
        proof {
            assert forall|j: int| 0 <= j < i + 1 implies #[trigger] entries_view(comps@)[j] == (pv.components[j].0, comp_msg(pv.components[j].1)) by {
                if j < i {
                    assert(entries_view(comps@)[j] == entries_view(before)[j]);
                }
            }
        }
        i = i + 1;
    }
    let ghost fv = entries_view(frags@);
    let ghost tv = tokens@.map_values(|x: String| x@);
    let ghost cv = entries_view(comps@);
    let s0 = Slot::Entries(frags);
    let s1 = Slot::Strs(tokens);
    let s2 = Slot::Entries(comps);
    let ghost (g0, g1, g2) = (s0, s1, s2);
    let mut v: Vec<Slot> = Vec::new();
    v.push(s0);
    v.push(s1);
    v.push(s2);
    let r = Msg::Fields(v);
    proof {
        assert(v@ =~= seq![g0, g1, g2]);
        assert(slot_view(g0) == SlotV::Entries(fv));
        assert(slot_view(g1) == SlotV::Strs(tv));
        assert(slot_view(g2) == SlotV::Entries(cv));
        let got = fields_of(msg_view(r));
        let want = fields_of(proto_msg(pv));
        assert(got.len() == 3 && want.len() == 3);
        assert(fv =~= want[0]->Entries_0);
        assert(got[1] == slot_view(g1));
        assert(tv =~= want[1]->Strs_0);
        assert(cv =~= want[2]->Entries_0);
        assert(got[0] == want[0]);
        assert(got[1] == want[1]);
        assert(got[2] == want[2]);
        assert(got =~= want);
    }
    r
}

/// The protocol a message holds.
fn protocol_from_msg(m: &Msg) -> (r: WebUiProtocol)
    requires
        conforms(PROTOCOL, msg_view(*m)),
    ensures
        proto_view(r) == proto_of(msg_view(*m)),
{
    match m {
        Msg::Fields(v) => {
            let ghost s = fields_of(msg_view(*m));
            proof {
                assert(v@.len() == 3);
                assert(forall|i: int| 0 <= i < 3 ==> slot_conforms(field_kinds(PROTOCOL)[i], #[trigger] s[i]));
                assert(slot_conforms(field_kinds(PROTOCOL)[0], s[0]));
                assert(slot_conforms(field_kinds(PROTOCOL)[2], s[2]));
                assert(s[0] == slot_view(v@[0]));
                assert(s[1] == slot_view(v@[1]));
                assert(s[2] == slot_view(v@[2]));
            }
            let fragments = match &v[0] {
                Slot::Entries(es) => {
                    let ghost ev = entries_view(es@);
                    proof {
                        let sv = SlotV::Entries(ev);
                        assert(sv->Entries_0 == ev);
                        assert(slot_conforms(Kind::Entries(FRAGMENT_LIST), sv));
                        assert(forall|j: int| 0 <= j < ev.len() ==> conforms(FRAGMENT_LIST, #[trigger] ev[j].1));
                        assert(keys_distinct(ev.map_values(|e: (Seq<char>, MsgV)| e.0)));
                    }
                    let mut out: Vec<(String, FragmentList)> = Vec::new();
                    let mut i: usize = 0;
                    while i < es.len()
                        invariant
                            0 <= i <= es@.len(),
                            ev == entries_view(es@),
                            forall|j: int| 0 <= j < ev.len() ==> conforms(FRAGMENT_LIST, #[trigger] ev[j].1),
                            out@.len() == i,
                            forall|j: int| 0 <= j < i ==> (#[trigger] out@[j]).0@ == ev[j].0 && frags_view(out@[j].1.fragments@) == list_of(ev[j].1),
                        decreases es@.len() - i,
                    {
                        assert(ev[i as int] == (es@[i as int].0@, msg_view(es@[i as int].1)));
                        assert(conforms(FRAGMENT_LIST, ev[i as int].1));
                        out.push((es[i].0.clone(), list_from_msg(&es[i].1)));
                        i = i + 1;
                    }
                    proof {
                        assert(entry_keys(out@) =~= ev.map_values(|e: (Seq<char>, MsgV)| e.0));
                    }
                    let r = StringMap::from_entries(out);
                    proof {
                        assert(r.spec_entries().map_values(|e: (String, FragmentList)| (e.0@, frags_view(e.1.fragments@)))
                            =~= ev.map_values(|e: (Seq<char>, MsgV)| (e.0, list_of(e.1))));
                    }
                    r
                },
                _ => {
                    proof {
                        assert(false);
                    }
                    StringMap::new()
                },
            };
            let tokens = match &v[1] {
                Slot::Strs(ts) => {
                    let mut out: Vec<String> = Vec::new();
                    let mut i: usize = 0;
                    while i < ts.len()
                        invariant
                            0 <= i <= ts@.len(),
                            out@.len() == i,
                            forall|j: int| 0 <= j < i ==> #[trigger] out@[j] == ts@[j],
                        decreases ts@.len() - i,
                    {
                        out.push(ts[i].clone());
                        i = i + 1;
                    }
                    assert(strings_view(out@) =~= ts@.map_values(|x: String| x@));
                    out
                },
                _ => {
                    proof {
                        assert(false);
                    }
                    Vec::new()
                },
            };
            let components = match &v[2] {
                Slot::Entries(es) => {
                    let ghost ev = entries_view(es@);
                    proof {
                        let sv = SlotV::Entries(ev);
                        assert(sv->Entries_0 == ev);
                        assert(slot_conforms(Kind::Entries(COMPONENT_DATA), sv));
                        assert(forall|j: int| 0 <= j < ev.len() ==> conforms(COMPONENT_DATA, #[trigger] ev[j].1));
                        assert(keys_distinct(ev.map_values(|e: (Seq<char>, MsgV)| e.0)));
                    }
                    let mut out: Vec<(String, ComponentData)> = Vec::new();
                    let mut i: usize = 0;
                    while i < es.len()
                        invariant
                            0 <= i <= es@.len(),
                            ev == entries_view(es@),
                            forall|j: int| 0 <= j < ev.len() ==> conforms(COMPONENT_DATA, #[trigger] ev[j].1),
                            out@.len() == i,
                            forall|j: int| 0 <= j < i ==> (#[trigger] out@[j]).0@ == ev[j].0 && comp_view(out@[j].1) == comp_of(ev[j].1),
                        decreases es@.len() - i,
                    {
                        assert(ev[i as int] == (es@[i as int].0@, msg_view(es@[i as int].1)));
                        assert(conforms(COMPONENT_DATA, ev[i as int].1));
                        out.push((es[i].0.clone(), comp_from_msg(&es[i].1)));
                        i = i + 1;
                    }
                    proof {
                        assert(entry_keys(out@) =~= ev.map_values(|e: (Seq<char>, MsgV)| e.0));
                    }
                    let r = StringMap::from_entries(out);
                    proof {
                        assert(r.spec_entries().map_values(|e: (String, ComponentData)| (e.0@, comp_view(e.1)))
                            =~= ev.map_values(|e: (Seq<char>, MsgV)| (e.0, comp_of(e.1))));
                    }
                    r
                },
                _ => {
                    proof {
                        assert(false);
                    }
                    StringMap::new()
                },
            };
            WebUiProtocol { fragments, tokens, components }
        },
        Msg::Choice(_) => {
            proof {
                assert(false);
            }
            WebUiProtocol { fragments: StringMap::new(), tokens: Vec::new(), components: StringMap::new() }
        },
    }
}

impl WebUiProtocol {
    /// Serializes the protocol to protobuf bytes: fragment records in field
    /// 1, CSS tokens in field 2, component records in field 3, records in
    /// their order. Never fails.
    pub fn to_protobuf(&self) -> (r: Result<Vec<u8>, ProtocolError>)
        ensures
            r matches Ok(b) && b@ == protobuf_bytes(proto_view(*self)),
    {
        let _ = self.fragments.len();
        let _ = self.components.len();
        proof {
            lemma_view_distinct(self);
            lemma_proto_conforms(proto_view(*self));
        }
        let m = protocol_to_msg(self);
        let mut out: Vec<u8> = Vec::new();
        encode_msg(PROTOCOL, &m, &mut out);
        Ok(out)
    }

    /// The length of the protocol's protobuf bytes.
    pub fn encoded_len(&self) -> (r: usize)
        ensures
            r == protobuf_bytes(proto_view(*self)).len(),
    {
        match self.to_protobuf() {
            Ok(b) => b.len(),
            Err(_) => 0,
        }
    }

    /// Deserializes a protocol from protobuf bytes and validates its
    /// fragment references. Bytes that are not a valid encoding give
    /// `Validation("Protobuf decode error: failed to decode Protobuf message:
    /// ...")`; a decoded protocol with an
    /// unresolved reference gives the validation message of the first one.
    pub fn from_protobuf(bytes: &[u8]) -> (r: Result<Self, ProtocolError>)
        ensures
            match protobuf_decode(bytes@) {
                Err(f) => r matches Err(ProtocolError::Validation(m)) && m@ == decode_error_text(f),
                Ok(p) => match protocol_reference_error(p) {
                    None => r matches Ok(q) && proto_view(q) == p,
                    Some(e) => r matches Err(ProtocolError::Validation(m)) && m@ == e,
                },
            },
    {
        proof {
            super::decode::lemma_default_conforms(PROTOCOL);
        }
        match merge_bytes_exec(PROTOCOL, new_msg(PROTOCOL), bytes, RECURSION_LIMIT) {
            Err(f) => {
                let msg = String::from_str("Protobuf decode error: failed to decode Protobuf message: ").concat(f.text());
                Err(ProtocolError::Validation(msg))
            },
            Ok(m) => {
                let q = protocol_from_msg(&m);
                Self::validate_protocol(q)
            },
        }
    }
}

// ── Wire layout of fragments ──────────────────────────────────────────

/// A length-delimited field `tag` holding `body` on the wire: the key
/// `tag << 3 | 2`, the length, the bytes.
pub open spec fn wire_delimited(tag: nat, body: Seq<u8>) -> Seq<u8> {
    varint(tag * 8 + 2) + varint(body.len()) + body
}

/// A `string` field on the wire: nothing for the empty string, else its
/// UTF-8 bytes delimited.
pub open spec fn wire_string(tag: nat, s: Seq<char>) -> Seq<u8> {
    if s.len() == 0 { Seq::empty() } else { wire_delimited(tag, encode_utf8(s)) }
}

/// A `bool` field on the wire: nothing for `false`, else the key
/// `tag << 3` and the varint 1.
pub open spec fn wire_bool(tag: nat, b: bool) -> Seq<u8> {
    if b { varint(tag * 8) + varint(1) } else { Seq::empty() }
}

/// A `bytes` field on the wire: nothing when empty, else delimited.
pub open spec fn wire_bytes(tag: nat, d: Seq<u8>) -> Seq<u8> {
    if d.len() == 0 { Seq::empty() } else { wire_delimited(tag, d) }
}

/// Each kind of fragment is written as the field of the fragment's `oneof`
/// numbered by its place among the kinds (raw 1, component 2, for loop 3,
/// signal 4, if condition 5, attribute 6, plugin 7, route 8, outlet 9),
/// holding the kind's fields numbered in declaration order: a for loop's
/// item in field 1, its collection in field 2 and its fragment id in field
/// 3; a signal's value in 1 and raw flag in 2; an attribute's name, value,
/// template, complex, start, skip and raw-value flags in 1 to 7; a route's
/// path, fragment id, exact flag and allowed query in 1, 2, 3 and 5.
pub proof fn lemma_fragment_wire_layout(
    item: Seq<char>,
    coll: Seq<char>,
    id: Seq<char>,
    v: Seq<char>,
    raw: bool,
    d: Seq<u8>,
    a: AttrV,
    r: RouteV,
)
    requires
        a.condition_tree is None,
        r.children.len() == 0,
    ensures
        enc_msg(frag_msg(FragV::Raw(v))) == wire_delimited(1, wire_string(1, v)),
        enc_msg(frag_msg(FragV::Component(id))) == wire_delimited(2, wire_string(1, id)),
        enc_msg(frag_msg(FragV::ForLoop(item, coll, id))) == wire_delimited(
            3,
            wire_string(1, item) + wire_string(2, coll) + wire_string(3, id),
        ),
        enc_msg(frag_msg(FragV::Signal(v, raw))) == wire_delimited(4, wire_string(1, v) + wire_bool(2, raw)),
        enc_msg(frag_msg(FragV::IfCond(None, id))) == wire_delimited(5, wire_string(2, id)),
        enc_msg(frag_msg(FragV::Attribute(a))) == wire_delimited(
            6,
            wire_string(1, a.name) + wire_string(2, a.value) + wire_string(3, a.template) + wire_bool(4, a.complex)
                + wire_bool(5, a.attr_start) + wire_bool(6, a.attr_skip) + wire_bool(7, a.raw_value),
        ),
        enc_msg(frag_msg(FragV::Plugin(d))) == wire_delimited(7, wire_bytes(1, d)),
        enc_msg(frag_msg(FragV::Route(r))) == wire_delimited(
            8,
            wire_string(1, r.path) + wire_string(2, r.fragment_id) + wire_bool(3, r.exact)
                + wire_string(5, r.allowed_query),
        ),
        enc_msg(frag_msg(FragV::Outlet)) == wire_delimited(9, Seq::empty()),
{
    lemma_simple_layouts(v, id, raw, d);
    lemma_for_loop_layout(item, coll, id);
    lemma_attribute_layout(a);
    lemma_route_layout(r);
}

proof fn lemma_simple_layouts(v: Seq<char>, id: Seq<char>, raw: bool, d: Seq<u8>)
    ensures
        enc_msg(frag_msg(FragV::Raw(v))) == wire_delimited(1, wire_string(1, v)),
        enc_msg(frag_msg(FragV::Component(id))) == wire_delimited(2, wire_string(1, id)),
        enc_msg(frag_msg(FragV::Signal(v, raw))) == wire_delimited(4, wire_string(1, v) + wire_bool(2, raw)),
        enc_msg(frag_msg(FragV::IfCond(None, id))) == wire_delimited(5, wire_string(2, id)),
        enc_msg(frag_msg(FragV::Plugin(d))) == wire_delimited(7, wire_bytes(1, d)),
        enc_msg(frag_msg(FragV::Outlet)) == wire_delimited(9, Seq::empty()),
{
    let one_v = seq![SlotV::Str(v)];
    lemma_slots_step(one_v, 1);
    assert(one_v.drop_first() =~= Seq::<SlotV>::empty());
    lemma_str_slot(1, v);
    lemma_choice(0, one_v);
    assert(enc_slots(one_v, 1) =~= wire_string(1, v));
    let one_id = seq![SlotV::Str(id)];
    lemma_slots_step(one_id, 1);
    assert(one_id.drop_first() =~= Seq::<SlotV>::empty());
    lemma_str_slot(1, id);
    lemma_choice(1, one_id);
    assert(enc_slots(one_id, 1) =~= wire_string(1, id));
    let sig = seq![SlotV::Str(v), SlotV::Bool(raw)];
    lemma_slots_step(sig, 1);
    assert(sig.drop_first() =~= seq![SlotV::Bool(raw)]);
    lemma_slots_step(sig.drop_first(), 2);
    assert(sig.drop_first().drop_first() =~= Seq::<SlotV>::empty());
    lemma_bool_slot(2, raw);
    lemma_choice(3, sig);
    assert(enc_slots(sig, 1) =~= wire_string(1, v) + wire_bool(2, raw));
    let ifc = seq![SlotV::Msg(None), SlotV::Str(id)];
    lemma_slots_step(ifc, 1);
    assert(ifc.drop_first() =~= seq![SlotV::Str(id)]);
    lemma_slots_step(ifc.drop_first(), 2);
    assert(ifc.drop_first().drop_first() =~= Seq::<SlotV>::empty());
    lemma_str_slot(2, id);
    lemma_choice(4, ifc);
    assert(enc_slots(ifc, 1) =~= wire_string(2, id));
    let pl = seq![SlotV::Bytes(d)];
    lemma_slots_step(pl, 1);
    assert(pl.drop_first() =~= Seq::<SlotV>::empty());
    lemma_choice(6, pl);
    assert(enc_slots(pl, 1) =~= wire_bytes(1, d));
    lemma_choice(8, Seq::empty());
}

proof fn lemma_choice(k: usize, slots: Seq<SlotV>)
    ensures
        enc_msg(MsgV::Choice(Some((k, Box::new(MsgV::Fields(slots)))))) == wire_delimited((k + 1) as nat, enc_slots(slots, 1)),
{
    reveal_with_fuel(enc_msg, 2);
}

proof fn lemma_slots_step(slots: Seq<SlotV>, tag: nat)
    requires
        slots.len() > 0,
    ensures
        enc_slots(slots, tag) == enc_slot(tag, slots[0]) + enc_slots(slots.drop_first(), tag + 1),
{
}

proof fn lemma_str_slot(tag: nat, c: Seq<char>)
    ensures
        enc_slot(tag, SlotV::Str(c)) == wire_string(tag, c),
{
}

proof fn lemma_bool_slot(tag: nat, b: bool)
    ensures
        enc_slot(tag, SlotV::Bool(b)) == wire_bool(tag, b),
{
}

proof fn lemma_for_loop_layout(item: Seq<char>, coll: Seq<char>, id: Seq<char>)
    ensures
        enc_msg(frag_msg(FragV::ForLoop(item, coll, id))) == wire_delimited(
            3,
            wire_string(1, item) + wire_string(2, coll) + wire_string(3, id),
        ),
{
    let s0 = seq![SlotV::Str(item), SlotV::Str(coll), SlotV::Str(id)];
    let s1 = s0.drop_first();
    let s2 = s1.drop_first();
    assert(s1 =~= seq![SlotV::Str(coll), SlotV::Str(id)]);
    assert(s2 =~= seq![SlotV::Str(id)]);
    assert(s2.drop_first() =~= Seq::<SlotV>::empty());
    lemma_slots_step(s0, 1);
    lemma_slots_step(s1, 2);
    lemma_slots_step(s2, 3);
    lemma_str_slot(1, item);
    lemma_str_slot(2, coll);
    lemma_str_slot(3, id);
    lemma_choice(2, s0);
    assert(enc_slots(s0, 1) =~= wire_string(1, item) + wire_string(2, coll) + wire_string(3, id));
}

#[verifier::rlimit(40)]
proof fn lemma_attribute_layout(a: AttrV)
    requires
        a.condition_tree is None,
    ensures
        enc_msg(frag_msg(FragV::Attribute(a))) == wire_delimited(
            6,
            wire_string(1, a.name) + wire_string(2, a.value) + wire_string(3, a.template) + wire_bool(4, a.complex)
                + wire_bool(5, a.attr_start) + wire_bool(6, a.attr_skip) + wire_bool(7, a.raw_value),
        ),
{
    let s7 = seq![SlotV::Msg(None)];
    let s6 = seq![SlotV::Bool(a.raw_value)] + s7;
    let s5 = seq![SlotV::Bool(a.attr_skip)] + s6;
    let s4 = seq![SlotV::Bool(a.attr_start)] + s5;
    let s3 = seq![SlotV::Bool(a.complex)] + s4;
    let s2 = seq![SlotV::Str(a.template)] + s3;
    let s1 = seq![SlotV::Str(a.value)] + s2;
    let s0 = seq![SlotV::Str(a.name)] + s1;
    assert(s0.drop_first() =~= s1);
    assert(s1.drop_first() =~= s2);
    assert(s2.drop_first() =~= s3);
    assert(s3.drop_first() =~= s4);
    assert(s4.drop_first() =~= s5);
    assert(s5.drop_first() =~= s6);
    assert(s6.drop_first() =~= s7);
    assert(s7.drop_first() =~= Seq::<SlotV>::empty());
    let b7 = enc_slots(s7, 8);
    lemma_slots_step(s7, 8);
    assert(b7 =~= Seq::<u8>::empty());
    lemma_slots_step(s6, 7);
    lemma_bool_slot(7, a.raw_value);
    let b6 = enc_slots(s6, 7);
    assert(b6 =~= wire_bool(7, a.raw_value));
    lemma_slots_step(s5, 6);
    lemma_bool_slot(6, a.attr_skip);
    let b5 = enc_slots(s5, 6);
    assert(b5 == wire_bool(6, a.attr_skip) + b6);
    lemma_slots_step(s4, 5);
    lemma_bool_slot(5, a.attr_start);
    let b4 = enc_slots(s4, 5);
    assert(b4 == wire_bool(5, a.attr_start) + b5);
    lemma_slots_step(s3, 4);
    lemma_bool_slot(4, a.complex);
    let b3 = enc_slots(s3, 4);
    assert(b3 == wire_bool(4, a.complex) + b4);
    lemma_slots_step(s2, 3);
    lemma_str_slot(3, a.template);
    let b2 = enc_slots(s2, 3);
    assert(b2 == wire_string(3, a.template) + b3);
    lemma_slots_step(s1, 2);
    lemma_str_slot(2, a.value);
    let b1 = enc_slots(s1, 2);
    assert(b1 == wire_string(2, a.value) + b2);
    lemma_slots_step(s0, 1);
    lemma_str_slot(1, a.name);
    let b0 = enc_slots(s0, 1);
    assert(b0 == wire_string(1, a.name) + b1);
    assert(b0 =~= wire_string(1, a.name) + wire_string(2, a.value) + wire_string(3, a.template) + wire_bool(4, a.complex)
        + wire_bool(5, a.attr_start) + wire_bool(6, a.attr_skip) + wire_bool(7, a.raw_value));
    assert(s0 =~= seq![
        SlotV::Str(a.name),
        SlotV::Str(a.value),
        SlotV::Str(a.template),
        SlotV::Bool(a.complex),
        SlotV::Bool(a.attr_start),
        SlotV::Bool(a.attr_skip),
        SlotV::Bool(a.raw_value),
        SlotV::Msg(None),
    ]);
    assert(frag_msg(FragV::Attribute(a)) == MsgV::Choice(Some((5usize, Box::new(MsgV::Fields(s0))))));
    lemma_choice(5, s0);
}

proof fn lemma_route_layout(r: RouteV)
    requires
        r.children.len() == 0,
    ensures
        enc_msg(frag_msg(FragV::Route(r))) == wire_delimited(
            8,
            wire_string(1, r.path) + wire_string(2, r.fragment_id) + wire_bool(3, r.exact)
                + wire_string(5, r.allowed_query),
        ),
{
    let s0 = match route_msg(r) {
        MsgV::Fields(x) => x,
        MsgV::Choice(_) => Seq::empty(),
    };
    assert(route_msg(r) == MsgV::Fields(s0));
    assert(s0.len() == 5);
    let kids = match s0[3] {
        SlotV::Msgs(ms) => ms,
        _ => Seq::empty(),
    };
    assert(s0[3] == SlotV::Msgs(kids));
    assert(kids.len() == 0);
    let s1 = s0.drop_first();
    let s2 = s1.drop_first();
    let s3 = s2.drop_first();
    let s4 = s3.drop_first();
    assert(s4 =~= seq![SlotV::Str(r.allowed_query)]);
    assert(s1[0] == SlotV::Str(r.fragment_id));
    assert(s2[0] == SlotV::Bool(r.exact));
    assert(s3[0] == s0[3]);
    assert(s4.drop_first() =~= Seq::<SlotV>::empty());
    lemma_slots_step(s0, 1);
    lemma_slots_step(s1, 2);
    lemma_slots_step(s2, 3);
    lemma_slots_step(s3, 4);
    lemma_slots_step(s4, 5);
    lemma_str_slot(1, r.path);
    lemma_str_slot(2, r.fragment_id);
    lemma_bool_slot(3, r.exact);
    lemma_str_slot(5, r.allowed_query);
    assert(enc_slot(4, s0[3]) =~= Seq::<u8>::empty());
    lemma_choice(7, s0);
    assert(enc_slots(s0, 1) =~= wire_string(1, r.path) + wire_string(2, r.fragment_id) + wire_bool(3, r.exact)
        + wire_string(5, r.allowed_query));
}

/// An `int32` field on the wire: nothing for 0, else the key `tag << 3`
/// and the value as a varint (negative values as 64-bit two's complement).
pub open spec fn wire_int(tag: nat, x: i32) -> Seq<u8> {
    if x == 0 { Seq::empty() } else { varint(tag * 8) + varint((x as u64) as nat) }
}

proof fn lemma_int_slot(tag: nat, x: i32)
    ensures
        enc_slot(tag, SlotV::Int(x)) == wire_int(tag, x),
{
}

proof fn lemma_msg_none_slot(tag: nat)
    ensures
        enc_slot(tag, SlotV::Msg(None)) == Seq::<u8>::empty(),
{
}

proof fn lemma_varint_nonempty(v: nat)
    ensures
        varint(v).len() > 0,
{
}

/// A condition is written as the field of the condition's `oneof`
/// numbered by its kind (predicate 1, not 2, compound 3, identifier 4): a
/// predicate's left operand in field 1, operator in 2 and right operand in
/// 3; a compound's operator in field 2 between its operands in 1 and 3; an
/// identifier's name in field 1.
pub proof fn lemma_condition_wire_layout(l: Seq<char>, op: i32, r: Seq<char>, v: Seq<char>)
    ensures
        enc_msg(cond_msg(CondV::Predicate(l, op, r))) == wire_delimited(
            1,
            wire_string(1, l) + wire_int(2, op) + wire_string(3, r),
        ),
        enc_msg(cond_msg(CondV::Not(None))) == wire_delimited(2, Seq::empty()),
        enc_msg(cond_msg(CondV::Compound(None, op, None))) == wire_delimited(3, wire_int(2, op)),
        enc_msg(cond_msg(CondV::Identifier(v))) == wire_delimited(4, wire_string(1, v)),
{
    let e = Seq::<SlotV>::empty();
    let p0 = seq![SlotV::Str(l), SlotV::Int(op), SlotV::Str(r)];
    assert(p0.drop_first() =~= seq![SlotV::Int(op), SlotV::Str(r)]);
    assert(p0.drop_first().drop_first() =~= seq![SlotV::Str(r)]);
    assert(p0.drop_first().drop_first().drop_first() =~= e);
    lemma_slots_step(p0, 1);
    lemma_slots_step(p0.drop_first(), 2);
    lemma_slots_step(p0.drop_first().drop_first(), 3);
    lemma_str_slot(1, l);
    lemma_int_slot(2, op);
    lemma_str_slot(3, r);
    lemma_choice(0, p0);
    assert(enc_slots(p0, 1) =~= wire_string(1, l) + wire_int(2, op) + wire_string(3, r));
    let n0 = seq![SlotV::Msg(None)];
    assert(n0.drop_first() =~= e);
    lemma_slots_step(n0, 1);
    lemma_msg_none_slot(1);
    lemma_choice(1, n0);
    assert(enc_slots(n0, 1) =~= Seq::<u8>::empty());
    let c0 = seq![SlotV::Msg(None), SlotV::Int(op), SlotV::Msg(None)];
    assert(c0.drop_first() =~= seq![SlotV::Int(op), SlotV::Msg(None)]);
    assert(c0.drop_first().drop_first() =~= seq![SlotV::Msg(None)]);
    assert(c0.drop_first().drop_first().drop_first() =~= e);
    lemma_slots_step(c0, 1);
    lemma_slots_step(c0.drop_first(), 2);
    lemma_slots_step(c0.drop_first().drop_first(), 3);
    lemma_msg_none_slot(3);
    lemma_choice(2, c0);
    assert(enc_slots(c0, 1) =~= wire_int(2, op));
    let i0 = seq![SlotV::Str(v)];
    assert(i0.drop_first() =~= e);
    lemma_slots_step(i0, 1);
    lemma_str_slot(1, v);
    lemma_choice(3, i0);
    assert(enc_slots(i0, 1) =~= wire_string(1, v));
}

/// A protocol is written as its fragment records in field 1, each record
/// a map entry with the fragment id in field 1 and the fragment list in
/// field 2 (the list's fragments in its field 1), then its tokens in field
/// 2, then its component records in field 3, each an entry with the tag
/// name in field 1 and the component data (template, CSS, stylesheet link
/// in fields 1, 2, 3) in field 2.
#[verifier::rlimit(40)]
pub proof fn lemma_protocol_wire_layout(k: Seq<char>, f: FragV, t: Seq<char>, tag: Seq<char>, c: CompV)
    requires
        c.template.len() > 0,
    ensures
        protobuf_bytes(ProtoV {
            fragments: seq![(k, seq![f])],
            tokens: seq![t],
            components: seq![(tag, c)],
        }) == wire_delimited(1, wire_string(1, k) + wire_delimited(2, wire_delimited(1, enc_msg(frag_msg(f)))))
            + wire_delimited(2, encode_utf8(t))
            + wire_delimited(3, wire_string(1, tag) + wire_delimited(
                2,
                wire_string(1, c.template) + wire_string(2, c.css) + wire_string(3, c.css_href),
            )),
{
    let p = ProtoV { fragments: seq![(k, seq![f])], tokens: seq![t], components: seq![(tag, c)] };
    let fr = p.fragments.map_values(|e: (Seq<char>, Seq<FragV>)| (e.0, list_msg(e.1)));
    let cs = p.components.map_values(|e: (Seq<char>, CompV)| (e.0, comp_msg(e.1)));
    let top = seq![SlotV::Entries(fr), SlotV::Strs(p.tokens), SlotV::Entries(cs)];
    assert(proto_msg(p) == MsgV::Fields(top));
    let e = Seq::<SlotV>::empty();
    assert(top.drop_first() =~= seq![SlotV::Strs(p.tokens), SlotV::Entries(cs)]);
    assert(top.drop_first().drop_first() =~= seq![SlotV::Entries(cs)]);
    assert(top.drop_first().drop_first().drop_first() =~= e);
    lemma_slots_step(top, 1);
    lemma_slots_step(top.drop_first(), 2);
    lemma_slots_step(top.drop_first().drop_first(), 3);
    // The fragment record.
    let ms = seq![f].map_values(|x: FragV| frag_msg(x));
    assert(ms =~= seq![frag_msg(f)]);
    assert(ms.drop_first() =~= Seq::<MsgV>::empty());
    let lslots = seq![SlotV::Msgs(ms)];
    assert(list_msg(seq![f]) == MsgV::Fields(lslots));
    assert(lslots.drop_first() =~= e);
    lemma_slots_step(lslots, 1);
    let fbytes = enc_msg(frag_msg(f));
    assert(enc_list(1, ms) == wire_delimited(1, fbytes) + enc_list(1, ms.drop_first()));
    let lbytes = enc_msg(list_msg(seq![f]));
    assert(lbytes =~= wire_delimited(1, fbytes));
    lemma_varint_nonempty(10);
    assert(lbytes.len() > 0);
    assert(fr =~= seq![(k, list_msg(seq![f]))]);
    assert(fr.drop_first() =~= Seq::<(Seq<char>, MsgV)>::empty());
    assert(enc_entry((k, list_msg(seq![f]))) =~= wire_string(1, k) + wire_delimited(2, lbytes));
    assert(enc_slot(1, SlotV::Entries(fr)) =~= wire_delimited(1, wire_string(1, k) + wire_delimited(2, lbytes)));
    // The token.
    assert(p.tokens.drop_first() =~= Seq::<Seq<char>>::empty());
    assert(p.tokens[0] == t);
    assert(enc_strs(2, p.tokens.drop_first()) == Seq::<u8>::empty());
    assert(enc_strs(2, p.tokens) == wire_delimited(2, encode_utf8(t)) + enc_strs(2, p.tokens.drop_first()));
    assert(enc_slot(2, SlotV::Strs(p.tokens)) =~= wire_delimited(2, encode_utf8(t)));
    // The component record.
    let cslots = seq![SlotV::Str(c.template), SlotV::Str(c.css), SlotV::Str(c.css_href)];
    assert(comp_msg(c) == MsgV::Fields(cslots));
    assert(cslots.drop_first() =~= seq![SlotV::Str(c.css), SlotV::Str(c.css_href)]);
    assert(cslots.drop_first().drop_first() =~= seq![SlotV::Str(c.css_href)]);
    assert(cslots.drop_first().drop_first().drop_first() =~= e);
    lemma_slots_step(cslots, 1);
    lemma_slots_step(cslots.drop_first(), 2);
    lemma_slots_step(cslots.drop_first().drop_first(), 3);
    lemma_str_slot(1, c.template);
    lemma_str_slot(2, c.css);
    lemma_str_slot(3, c.css_href);
    let cbytes = enc_msg(comp_msg(c));
    assert(cbytes =~= wire_string(1, c.template) + wire_string(2, c.css) + wire_string(3, c.css_href));
    assert(wire_string(1, c.template).len() > 0);
    assert(cbytes.len() > 0);
    assert(cs =~= seq![(tag, comp_msg(c))]);
    assert(cs.drop_first() =~= Seq::<(Seq<char>, MsgV)>::empty());
    assert(enc_entry((tag, comp_msg(c))) =~= wire_string(1, tag) + wire_delimited(2, cbytes));
    assert(enc_slot(3, SlotV::Entries(cs)) =~= wire_delimited(3, wire_string(1, tag) + wire_delimited(2, cbytes)));
    assert(protobuf_bytes(p) =~= enc_slot(1, SlotV::Entries(fr)) + enc_slot(2, SlotV::Strs(p.tokens))
        + enc_slot(3, SlotV::Entries(cs)));
}

} // verus!
