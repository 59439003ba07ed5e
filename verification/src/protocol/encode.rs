//! Encoding of message values of the schema into protobuf bytes.
//!
//! Fields are written in field order. A string, bytes, `bool` or `int32`
//! field at its default (empty, `false`, `0`) is left out; a singular
//! message is written when it is set, even when empty; repeated fields are
//! written element by element; a map entry is written as a message with
//! the key in field 1 and the value in field 2, each left out when it is
//! its default (the empty key, a value whose encoding is empty).
use vstd::prelude::*;
use vstd::utf8::encode_utf8;
use super::schema::{
    conforms, entries_view, field_kind, field_kinds, msg_view, msgs_view, slot_conforms, slot_view, variant_type,
    variants,
    Kind, Msg, MsgV, Slot, SlotV,
};
use super::wire::{put_varint, varint};

verus! {

/// A field of wire type `wt`: its key.
pub open spec fn key(tag: nat, wt: nat) -> Seq<u8> {
    varint(tag * 8 + wt)
}

/// A length-delimited field with payload `p`.
pub open spec fn len_field(tag: nat, p: Seq<u8>) -> Seq<u8> {
    key(tag, 2) + varint(p.len()) + p
}

/// The encoding of a message.
pub open spec fn enc_msg(m: MsgV) -> Seq<u8>
    decreases m, 0nat,
{
    match m {
        MsgV::Fields(slots) => enc_slots(slots, 1),
        MsgV::Choice(None) => Seq::empty(),
        MsgV::Choice(Some((k, b))) => len_field((k + 1) as nat, enc_msg(*b)),
    }
}

/// The encoding of fields numbered from `tag` on.
pub open spec fn enc_slots(slots: Seq<SlotV>, tag: nat) -> Seq<u8>
    decreases slots, 0nat,
{
    if slots.len() == 0 {
        Seq::empty()
    } else {
        enc_slot(tag, slots[0]) + enc_slots(slots.drop_first(), tag + 1)
    }
}

/// The encoding of field `tag` with value `s`.
pub open spec fn enc_slot(tag: nat, s: SlotV) -> Seq<u8>
    decreases s, 0nat,
{
    match s {
        SlotV::Str(c) => if c.len() == 0 { Seq::empty() } else { len_field(tag, encode_utf8(c)) },
        SlotV::Bool(b) => if b { key(tag, 0) + varint(1) } else { Seq::empty() },
        SlotV::Int(x) => if x == 0 { Seq::empty() } else { key(tag, 0) + varint((x as u64) as nat) },
        SlotV::Bytes(b) => if b.len() == 0 { Seq::empty() } else { len_field(tag, b) },
        SlotV::Msg(None) => Seq::empty(),
        SlotV::Msg(Some(b)) => len_field(tag, enc_msg(*b)),
        SlotV::Msgs(ms) => enc_list(tag, ms),
        SlotV::Strs(ss) => enc_strs(tag, ss),
        SlotV::Entries(es) => enc_entries(tag, es),
    }
}

/// The encoding of a repeated message field.
pub open spec fn enc_list(tag: nat, ms: Seq<MsgV>) -> Seq<u8>
    decreases ms, 0nat,
{
    if ms.len() == 0 {
        Seq::empty()
    } else {
        len_field(tag, enc_msg(ms[0])) + enc_list(tag, ms.drop_first())
    }
}

/// The encoding of a repeated string field.
pub open spec fn enc_strs(tag: nat, ss: Seq<Seq<char>>) -> Seq<u8>
    decreases ss.len(),
{
    if ss.len() == 0 {
        Seq::empty()
    } else {
        len_field(tag, encode_utf8(ss[0])) + enc_strs(tag, ss.drop_first())
    }
}

/// The encoding of a map field.
pub open spec fn enc_entries(tag: nat, es: Seq<(Seq<char>, MsgV)>) -> Seq<u8>
    decreases es, 0nat,
{
    if es.len() == 0 {
        Seq::empty()
    } else {
        len_field(tag, enc_entry(es[0])) + enc_entries(tag, es.drop_first())
    }
}

/// The encoding of a map entry as a message.
pub open spec fn enc_entry(e: (Seq<char>, MsgV)) -> Seq<u8>
    decreases e, 0nat,
{
    (if e.0.len() == 0 { Seq::empty() } else { len_field(1, encode_utf8(e.0)) }) + (if enc_msg(e.1).len() == 0 {
        Seq::empty()
    } else {
        len_field(2, enc_msg(e.1))
    })
}

// ── Exec encoding ──────────────────────────────────────────────────────

/// Appends a field key.
fn put_key(tag: u64, wt: u64, out: &mut Vec<u8>)
    requires
        1 <= tag <= 16,
        wt <= 5,
    ensures
        final(out)@ == old(out)@ + key(tag as nat, wt as nat),
{
    put_varint(tag * 8 + wt, out);
}

/// Appends a length-delimited field whose payload is `payload`.
fn put_len_field(tag: u64, payload: Vec<u8>, out: &mut Vec<u8>)
    requires
        1 <= tag <= 16,
    ensures
        final(out)@ == old(out)@ + len_field(tag as nat, payload@),
{
    let ghost o = out@;
    let mut payload = payload;
    let ghost p = payload@;
    put_key(tag, 2, out);
    put_varint(payload.len() as u64, out);
    out.append(&mut payload);
    assert(out@ =~= o + len_field(tag as nat, p));
}

/// Appends a length-delimited field holding a string's UTF-8 bytes.
fn put_text(tag: u64, s: &String, out: &mut Vec<u8>)
    requires
        1 <= tag <= 16,
    ensures
        final(out)@ == old(out)@ + len_field(tag as nat, encode_utf8(s@)),
{
    let b = vstd::slice::slice_to_vec(s.as_str().as_bytes());
    put_len_field(tag, b, out);
}

/// Appends the encoding of `m`, a message of type `id`.
pub fn encode_msg(id: usize, m: &Msg, out: &mut Vec<u8>)
    requires
        conforms(id, msg_view(*m)),
    ensures
        final(out)@ == old(out)@ + enc_msg(msg_view(*m)),
    decreases m, 0nat,
{
    match m {
        Msg::Fields(v) => {
            proof {
                assert(decreases_to!(*m => v@));
            }
            let ghost sv = match msg_view(*m) {
                MsgV::Fields(x) => x,
                _ => Seq::empty(),
            };
            let ghost o = out@;
            let ghost ks = field_kinds(id);
            assert(ks.len() <= 8) by {
                reveal_with_fuel(super::schema::shape, 1);
            }
            let mut i: usize = 0;
            assert(sv.skip(0) =~= sv);
            while i < v.len()
                invariant
                    0 <= i <= v@.len(),
                    decreases_to!(*m => v@),
                    sv.len() == v@.len(),
                    sv.len() == ks.len(),
                    ks.len() <= 8,
                    ks == field_kinds(id),
                    forall|j: int| 0 <= j < sv.len() ==> #[trigger] sv[j] == slot_view(v@[j]),
                    forall|j: int| 0 <= j < sv.len() ==> slot_conforms(ks[j], #[trigger] sv[j]),
                    o + enc_slots(sv, 1) == out@ + enc_slots(sv.skip(i as int), (i + 1) as nat),
                decreases v@.len() - i,
            {
                let ghost before = out@;
                assert(sv.skip(i as int).drop_first() =~= sv.skip(i + 1));
                assert(sv.skip(i as int)[0] == sv[i as int]);
                let k = field_kind(id, (i + 1) as u32).unwrap();
                proof {
                    assert(decreases_to!(v@ => v@[i as int]));
                }
                encode_slot(k, (i + 1) as u64, &v[i], out);
                proof {
                    let a = enc_slot((i + 1) as nat, sv[i as int]);
                    let rest = enc_slots(sv.skip(i + 1), (i + 2) as nat);
                    assert(before + (a + rest) =~= (before + a) + rest);
                }
                i = i + 1;
            }
            assert(sv.skip(i as int) =~= Seq::<SlotV>::empty());
            assert(out@ =~= o + enc_slots(sv, 1));
        },
        Msg::Choice(None) => {
            assert(out@ =~= out@ + Seq::<u8>::empty());
        },
        Msg::Choice(Some((k, b))) => {
            assert(variants(id).len() <= 9) by {
                reveal_with_fuel(super::schema::shape, 1);
            }
            let vid = variant_type(id, (*k + 1) as u32).unwrap();
            let mut child: Vec<u8> = Vec::new();
            encode_msg(vid, b, &mut child);
            assert(child@ =~= enc_msg(msg_view(**b)));
            put_len_field((*k + 1) as u64, child, out);
        },
    }
}

/// Appends the encoding of field `tag` holding `s`, a value of kind `k`.
fn encode_slot(k: Kind, tag: u64, s: &Slot, out: &mut Vec<u8>)
    requires
        1 <= tag <= 8,
        slot_conforms(k, slot_view(*s)),
    ensures
        final(out)@ == old(out)@ + enc_slot(tag as nat, slot_view(*s)),
    decreases s, 0nat,
{
    let ghost o = out@;
    match s {
        Slot::Str(x) => {
            if x.as_str().is_empty() {
                assert(out@ =~= o + enc_slot(tag as nat, slot_view(*s)));
            } else {
                put_text(tag, x, out);
            }
        },
        Slot::Bool(b) => {
            if *b {
                put_key(tag, 0, out);
                put_varint(1, out);
                assert(out@ =~= o + enc_slot(tag as nat, slot_view(*s)));
            } else {
                assert(out@ =~= o + enc_slot(tag as nat, slot_view(*s)));
            }
        },
        Slot::Int(x) => {
            if *x == 0 {
                assert(out@ =~= o + enc_slot(tag as nat, slot_view(*s)));
            } else {
                put_key(tag, 0, out);
                put_varint(#[verifier::truncate] (*x as u64), out);
                assert(out@ =~= o + enc_slot(tag as nat, slot_view(*s)));
            }
        },
        Slot::Bytes(b) => {
            if b.len() == 0 {
                assert(out@ =~= o + enc_slot(tag as nat, slot_view(*s)));
            } else {
                put_len_field(tag, vstd::slice::slice_to_vec(b.as_slice()), out);
            }
        },
        Slot::Msg(None) => {
            assert(out@ =~= o + enc_slot(tag as nat, slot_view(*s)));
        },
        Slot::Msg(Some(b)) => {
            let c = match k {
                Kind::Msg(c) => c,
                _ => 0,
            };
            let mut child: Vec<u8> = Vec::new();
            encode_msg(c, b, &mut child);
            assert(child@ =~= enc_msg(msg_view(**b)));
            put_len_field(tag, child, out);
        },
        Slot::Msgs(v) => {
            let c = match k {
                Kind::Msgs(c) => c,
                _ => 0,
            };
            let ghost mv = msgs_view(v@);
            proof {
                assert(decreases_to!(*s => v@));
                assert(slot_view(*s) == SlotV::Msgs(mv));
                assert(k == Kind::Msgs(c));
                let sv = slot_view(*s);
                assert(sv is Msgs && sv->Msgs_0 == mv);
                assert(slot_conforms(k, sv));
                assert(forall|j: int| 0 <= j < mv.len() ==> conforms(c, #[trigger] mv[j]));
            }
            let mut i: usize = 0;
            assert(mv.skip(0) =~= mv);
            while i < v.len()
                invariant
                    0 <= i <= v@.len(),
                    1 <= tag <= 8,
                    decreases_to!(*s => v@),
                    mv == msgs_view(v@),
                    mv.len() == v@.len(),
                    forall|j: int| 0 <= j < mv.len() ==> conforms(c, #[trigger] mv[j]),
                    o + enc_list(tag as nat, mv) == out@ + enc_list(tag as nat, mv.skip(i as int)),
                decreases v@.len() - i,
            {
                let ghost before = out@;
                assert(mv.skip(i as int).drop_first() =~= mv.skip(i + 1));
                assert(mv[i as int] == msg_view(v@[i as int]));
                let mut child: Vec<u8> = Vec::new();
                proof {
                    assert(decreases_to!(v@ => v@[i as int]));
                }
                encode_msg(c, &v[i], &mut child);
                assert(child@ =~= enc_msg(mv[i as int]));
                put_len_field(tag, child, out);
                proof {
                    let a = len_field(tag as nat, enc_msg(mv[i as int]));
                    let rest = enc_list(tag as nat, mv.skip(i + 1));
                    assert(before + (a + rest) =~= (before + a) + rest);
                }
                i = i + 1;
            }
            assert(mv.skip(i as int) =~= Seq::<MsgV>::empty());
            assert(out@ =~= o + enc_slot(tag as nat, slot_view(*s)));
        },
        Slot::Strs(v) => {
            let ghost sv = v@.map_values(|x: String| x@);
            let mut i: usize = 0;
            assert(sv.skip(0) =~= sv);
            while i < v.len()
                invariant
                    0 <= i <= v@.len(),
                    1 <= tag <= 8,
                    sv == v@.map_values(|x: String| x@),
                    o + enc_strs(tag as nat, sv) == out@ + enc_strs(tag as nat, sv.skip(i as int)),
                decreases v@.len() - i,
            {
                let ghost before = out@;
                assert(sv.skip(i as int).drop_first() =~= sv.skip(i + 1));
                put_text(tag, &v[i], out);
                proof {
                    let a = len_field(tag as nat, encode_utf8(sv[i as int]));
                    let rest = enc_strs(tag as nat, sv.skip(i + 1));
                    assert(before + (a + rest) =~= (before + a) + rest);
                }
                i = i + 1;
            }
            assert(sv.skip(i as int) =~= Seq::<Seq<char>>::empty());
            assert(out@ =~= o + enc_slot(tag as nat, slot_view(*s)));
        },
        Slot::Entries(v) => {
            let c = match k {
                Kind::Entries(c) => c,
                _ => 0,
            };
            let ghost ev = entries_view(v@);
            proof {
                assert(decreases_to!(*s => v@));
            }
            let mut i: usize = 0;
            assert(ev.skip(0) =~= ev);
            while i < v.len()
                invariant
                    0 <= i <= v@.len(),
                    1 <= tag <= 8,
                    decreases_to!(*s => v@),
                    ev == entries_view(v@),
                    ev.len() == v@.len(),
                    forall|j: int| 0 <= j < ev.len() ==> conforms(c, #[trigger] ev[j].1),
                    o + enc_entries(tag as nat, ev) == out@ + enc_entries(tag as nat, ev.skip(i as int)),
                decreases v@.len() - i,
            {
                let ghost before = out@;
                assert(ev.skip(i as int).drop_first() =~= ev.skip(i + 1));
                assert(ev[i as int] == (v@[i as int].0@, msg_view(v@[i as int].1)));
                assert(conforms(c, ev[i as int].1));
                let mut child: Vec<u8> = Vec::new();
                let ghost c0 = child@;
                if !v[i].0.as_str().is_empty() {
                    put_text(1, &v[i].0, &mut child);
                }
                let mut body: Vec<u8> = Vec::new();
                proof {
                    assert(decreases_to!(v@ => v@[i as int]));
                    assert(decreases_to!(v@[i as int] => v@[i as int].1));
                }
                encode_msg(c, &v[i].1, &mut body);
                if body.len() > 0 {
                    put_len_field(2, body, &mut child);
                }
                assert(child@ =~= enc_entry(ev[i as int]));
                put_len_field(tag, child, out);
                proof {
                    let a = len_field(tag as nat, enc_entry(ev[i as int]));
                    let rest = enc_entries(tag as nat, ev.skip(i + 1));
                    assert(before + (a + rest) =~= (before + a) + rest);
                }
                i = i + 1;
            }
            assert(ev.skip(i as int) =~= Seq::<(Seq<char>, MsgV)>::empty());
            assert(out@ =~= o + enc_slot(tag as nat, slot_view(*s)));
        },
    }
}

} // verus!
