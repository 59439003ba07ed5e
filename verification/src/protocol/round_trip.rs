//! Decoding what the encoder wrote gives back the message.
use vstd::prelude::*;
use vstd::utf8::{encode_utf8, encode_utf8_decode_utf8, encode_utf8_valid_utf8};
use super::decode::{
    entry_names, lemma_assoc_insert_new, lemma_merge_bytes_step, lemma_merge_entry_step,
    merge_bytes, merge_entry, merge_entry_field, merge_field, merge_slot, utf8_text,
};
use super::encode::{enc_entries, enc_entry, enc_list, enc_msg, enc_slot, enc_slots, enc_strs, key, len_field};
use super::records::keys_distinct;
use super::schema::{
    conforms, default_msg, default_slot, field_kinds, is_choice, shape, slot_conforms, variants, Kind,
    MsgV, Shape, SlotV,
};
use super::wire::{lemma_varint_round_trip, read_field, read_key, varint, FieldV, WireV};

verus! {

/// Nesting of a message within `lim` levels: each nested message, and each
/// map entry, takes one level.
pub open spec fn fits(m: MsgV, lim: nat) -> bool
    decreases m,
{
    match m {
        MsgV::Fields(slots) => forall|i: int| 0 <= i < slots.len() ==> slot_fits(#[trigger] slots[i], lim),
        MsgV::Choice(None) => true,
        MsgV::Choice(Some((_, b))) => lim > 0 && fits(*b, (lim - 1) as nat),
    }
}

/// Nesting of a field value within `lim` levels.
pub open spec fn slot_fits(s: SlotV, lim: nat) -> bool
    decreases s,
{
    match s {
        SlotV::Msg(Some(b)) => lim > 0 && fits(*b, (lim - 1) as nat),
        SlotV::Msgs(ms) => forall|i: int| 0 <= i < ms.len() ==> lim > 0 && fits(#[trigger] ms[i], (lim - 1) as nat),
        SlotV::Entries(es) => forall|i: int|
            0 <= i < es.len() ==> lim > 1 && fits(#[trigger] es[i].1, (lim - 2) as nat),
        _ => true,
    }
}

// ── Reading back single fields ─────────────────────────────────────────

/// A key read back.
proof fn lemma_read_key(tag: nat, wt: nat, rest: Seq<u8>)
    requires
        1 <= tag <= 16,
        wt <= 5,
    ensures
        read_key(key(tag, wt) + rest) == Ok::<(u32, u8, nat), super::wire::Failure>((tag as u32, wt as u8, key(tag, wt).len())),
        key(tag, wt).len() >= 1,
{
    let k: u64 = (tag * 8 + wt) as u64;
    lemma_varint_round_trip(k, rest);
}

/// A length-delimited field read back.
proof fn lemma_read_len_field(tag: nat, p: Seq<u8>, rest: Seq<u8>, lim: nat)
    requires
        1 <= tag <= 16,
        p.len() <= u64::MAX,
    ensures
        read_field(len_field(tag, p) + rest, lim) == Ok::<(FieldV, nat), super::wire::Failure>((
            FieldV { tag: tag as u32, wire: WireV::Len(p) },
            len_field(tag, p).len(),
        )),
        len_field(tag, p).len() >= 1,
{
    let s = len_field(tag, p) + rest;
    let kb = key(tag, 2);
    lemma_read_key(tag, 2, varint(p.len()) + p + rest);
    assert(s =~= kb + (varint(p.len()) + p + rest));
    let r = s.skip(kb.len() as int);
    assert(r =~= varint(p.len()) + (p + rest));
    lemma_varint_round_trip(p.len() as u64, p + rest);
    let m = varint(p.len()).len();
    assert(r.subrange(m as int, (m + p.len()) as int) =~= p);
}

/// A varint field read back.
proof fn lemma_read_varint_field(tag: nat, v: u64, rest: Seq<u8>, lim: nat)
    requires
        1 <= tag <= 16,
    ensures
        read_field(key(tag, 0) + varint(v as nat) + rest, lim) == Ok::<(FieldV, nat), super::wire::Failure>((
            FieldV { tag: tag as u32, wire: WireV::Varint(v) },
            (key(tag, 0) + varint(v as nat)).len(),
        )),
{
    let s = key(tag, 0) + varint(v as nat) + rest;
    let kb = key(tag, 0);
    lemma_read_key(tag, 0, varint(v as nat) + rest);
    assert(s =~= kb + (varint(v as nat) + rest));
    assert(s.skip(kb.len() as int) =~= varint(v as nat) + rest);
    lemma_varint_round_trip(v, rest);
}

/// Decoding steps over one field that reads back as `f`.
proof fn lemma_field_step(id: usize, acc: MsgV, fb: Seq<u8>, f: FieldV, rest: Seq<u8>, lim: nat)
    requires
        fb.len() > 0,
        read_field(fb + rest, lim) == Ok::<(FieldV, nat), super::wire::Failure>((f, fb.len())),
    ensures
        merge_bytes(id, acc, fb + rest, lim) == match merge_field(id, acc, f, lim) {
            Ok(a) => merge_bytes(id, a, rest, lim),
            Err(e) => Err(e),
        },
{
    lemma_merge_bytes_step(id, acc, fb + rest, lim);
    assert((fb + rest).skip(fb.len() as int) =~= rest);
}

/// Decoding a map entry steps over one field that reads back as `f`.
proof fn lemma_entry_step(c: usize, acc: (Seq<char>, MsgV), fb: Seq<u8>, f: FieldV, rest: Seq<u8>, lim: nat)
    requires
        fb.len() > 0,
        read_field(fb + rest, lim) == Ok::<(FieldV, nat), super::wire::Failure>((f, fb.len())),
    ensures
        merge_entry(c, acc, fb + rest, lim) == match merge_entry_field(c, acc, f, lim) {
            Ok(a) => merge_entry(c, a, rest, lim),
            Err(e) => Err(e),
        },
{
    lemma_merge_entry_step(c, acc, fb + rest, lim);
    assert((fb + rest).skip(fb.len() as int) =~= rest);
}

/// Text written as UTF-8 reads back.
proof fn lemma_text(c: Seq<char>)
    ensures
        utf8_text(encode_utf8(c)) == Ok::<Seq<char>, super::wire::Failure>(c),
{
    encode_utf8_valid_utf8(c);
    encode_utf8_decode_utf8(c);
}

/// An `int32` written as a varint reads back.
proof fn lemma_int_round_trip(x: i32)
    ensures
        ((x as u64) as u64) as i32 == x,
{
    assert(((x as u64) as i32) == x) by (bit_vector);
}

// ── Reading back whole messages ────────────────────────────────────────

/// Message types have at most eight fields and nine variants.
proof fn lemma_schema_small(id: usize)
    ensures
        field_kinds(id).len() <= 8,
        variants(id).len() <= 9,
        !is_choice(id) ==> shape(id) == Shape::Fields(field_kinds(id)),
        is_choice(id) ==> shape(id) == Shape::Choice(variants(id)),
{
}

/// Decoding the encoding of a message into the default message of its
/// type gives back the message, when it nests within the limit.
pub proof fn lemma_decode_encode(id: usize, m: MsgV, lim: nat)
    requires
        conforms(id, m),
        fits(m, lim),
        enc_msg(m).len() <= u64::MAX,
    ensures
        merge_bytes(id, default_msg(id), enc_msg(m), lim) == Ok::<MsgV, super::wire::Failure>(m),
    decreases lim, 3nat, 0nat,
{
    lemma_schema_small(id);
    match m {
        MsgV::Fields(slots) => {
            let ks = field_kinds(id);
            let defaults = ks.map_values(|k: Kind| default_slot(k));
            assert(default_msg(id) == MsgV::Fields(defaults));
            assert(slots.skip(0) =~= slots);
            assert(enc_msg(m) + Seq::<u8>::empty() =~= enc_msg(m));
            lemma_slots(id, ks, slots, defaults, 0, Seq::empty(), lim);
        },
        MsgV::Choice(None) => {
            assert(enc_msg(m) =~= Seq::<u8>::empty());
        },
        MsgV::Choice(Some((k, b))) => {
            let vs = variants(id);
            let p = enc_msg(*b);
            let t = (k + 1) as nat;
            lemma_read_len_field(t, p, Seq::empty(), lim);
            assert(len_field(t, p) + Seq::<u8>::empty() =~= enc_msg(m));
            lemma_field_step(id, default_msg(id), len_field(t, p), FieldV { tag: t as u32, wire: WireV::Len(p) }, Seq::empty(), lim);
            lemma_decode_encode(vs[k as int], *b, (lim - 1) as nat);
            assert(merge_field(id, default_msg(id), FieldV { tag: t as u32, wire: WireV::Len(p) }, lim)
                == Ok::<MsgV, super::wire::Failure>(MsgV::Choice(Some((k, Box::new(*b))))));
        },
    }
}

/// Decoding the encodings of fields `i` on, into a message whose earlier
/// fields are set and later fields at their defaults, sets the later
/// fields.
proof fn lemma_slots(id: usize, ks: Seq<Kind>, slots: Seq<SlotV>, acc: Seq<SlotV>, i: nat, rest: Seq<u8>, lim: nat)
    requires
        !is_choice(id),
        ks == field_kinds(id),
        ks.len() <= 8,
        slots.len() == ks.len(),
        acc.len() == ks.len(),
        i <= ks.len(),
        forall|j: int| 0 <= j < i ==> acc[j] == slots[j],
        forall|j: int| i <= j < ks.len() ==> acc[j] == default_slot(ks[j]),
        forall|j: int| 0 <= j < ks.len() ==> slot_conforms(ks[j], #[trigger] slots[j]),
        forall|j: int| 0 <= j < ks.len() ==> slot_fits(#[trigger] slots[j], lim),
        (enc_slots(slots.skip(i as int), i + 1) + rest).len() <= u64::MAX,
    ensures
        merge_bytes(id, MsgV::Fields(acc), enc_slots(slots.skip(i as int), i + 1) + rest, lim)
            == merge_bytes(id, MsgV::Fields(slots), rest, lim),
    decreases lim, 2nat, ks.len() - i,
{
    if i == ks.len() {
        assert(slots.skip(i as int) =~= Seq::<SlotV>::empty());
        assert(enc_slots(slots.skip(i as int), i + 1) + rest =~= rest);
        assert(acc =~= slots);
    } else {
        let tail = enc_slots(slots.skip((i + 1) as int), i + 2);
        assert(slots.skip(i as int).drop_first() =~= slots.skip((i + 1) as int));
        assert(slots.skip(i as int)[0] == slots[i as int]);
        let here = enc_slot(i + 1, slots[i as int]);
        assert(enc_slots(slots.skip(i as int), i + 1) == here + tail);
        assert(enc_slots(slots.skip(i as int), i + 1) + rest =~= here + (tail + rest));
        lemma_slot(id, ks, acc, i, slots[i as int], tail + rest, lim);
        let acc2 = acc.update(i as int, slots[i as int]);
        lemma_slots(id, ks, slots, acc2, i + 1, rest, lim);
    }
}

/// Decoding the encoding of field `i` with value `v` into a message where
/// that field is at its default sets it to `v`.
proof fn lemma_slot(id: usize, ks: Seq<Kind>, acc: Seq<SlotV>, i: nat, v: SlotV, rest: Seq<u8>, lim: nat)
    requires
        !is_choice(id),
        ks == field_kinds(id),
        ks.len() <= 8,
        acc.len() == ks.len(),
        i < ks.len(),
        acc[i as int] == default_slot(ks[i as int]),
        slot_conforms(ks[i as int], v),
        slot_fits(v, lim),
        (enc_slot(i + 1, v) + rest).len() <= u64::MAX,
    ensures
        merge_bytes(id, MsgV::Fields(acc), enc_slot(i + 1, v) + rest, lim)
            == merge_bytes(id, MsgV::Fields(acc.update(i as int, v)), rest, lim),
    decreases lim, 1nat, 1nat,
{
    let k = ks[i as int];
    match v {
        SlotV::Str(_) => lemma_slot_str(id, ks, acc, i, v, rest, lim),
        SlotV::Bool(_) => lemma_slot_bool(id, ks, acc, i, v, rest, lim),
        SlotV::Int(_) => lemma_slot_int(id, ks, acc, i, v, rest, lim),
        SlotV::Bytes(_) => lemma_slot_bytes(id, ks, acc, i, v, rest, lim),
        SlotV::Msg(_) => lemma_slot_msg(id, ks, acc, i, v, rest, lim),
        SlotV::Msgs(ms) => {
            let c = k->Msgs_0;
            assert(ms.take(0) =~= Seq::<MsgV>::empty());
            assert(ms.skip(0) =~= ms);
            lemma_list(id, ks, acc, i, c, ms, 0, rest, lim);
        },
        SlotV::Strs(ss) => {
            assert(ss.take(0) =~= Seq::<Seq<char>>::empty());
            assert(ss.skip(0) =~= ss);
            lemma_strs(id, ks, acc, i, ss, 0, rest, lim);
        },
        SlotV::Entries(es) => {
            let c = k->Entries_0;
            assert(es.take(0) =~= Seq::<(Seq<char>, MsgV)>::empty());
            assert(es.skip(0) =~= es);
            lemma_entries(id, ks, acc, i, c, es, 0, rest, lim);
        },
    }
}

/// [`lemma_slot`] for a string field.
proof fn lemma_slot_str(id: usize, ks: Seq<Kind>, acc: Seq<SlotV>, i: nat, v: SlotV, rest: Seq<u8>, lim: nat)
    requires
        v is Str,
        !is_choice(id),
        ks == field_kinds(id),
        ks.len() <= 8,
        acc.len() == ks.len(),
        i < ks.len(),
        acc[i as int] == default_slot(ks[i as int]),
        slot_conforms(ks[i as int], v),
        slot_fits(v, lim),
        (enc_slot(i + 1, v) + rest).len() <= u64::MAX,
    ensures
        merge_bytes(id, MsgV::Fields(acc), enc_slot(i + 1, v) + rest, lim)
            == merge_bytes(id, MsgV::Fields(acc.update(i as int, v)), rest, lim),
{
    let t = i + 1;
    let c = v->Str_0;
    if c.len() == 0 {
        assert(c =~= Seq::<char>::empty());
        assert(acc.update(i as int, v) =~= acc);
        assert(enc_slot(t, v) + rest =~= rest);
    } else {
        let p = encode_utf8(c);
        lemma_read_len_field(t, p, rest, lim);
        let f = FieldV { tag: t as u32, wire: WireV::Len(p) };
        lemma_field_step(id, MsgV::Fields(acc), len_field(t, p), f, rest, lim);
        lemma_text(c);
        assert(merge_slot(ks[i as int], acc[i as int], f.wire, lim) == Ok::<SlotV, super::wire::Failure>(v));
    }
}

/// [`lemma_slot`] for a `bool` field.
proof fn lemma_slot_bool(id: usize, ks: Seq<Kind>, acc: Seq<SlotV>, i: nat, v: SlotV, rest: Seq<u8>, lim: nat)
    requires
        v is Bool,
        !is_choice(id),
        ks == field_kinds(id),
        ks.len() <= 8,
        acc.len() == ks.len(),
        i < ks.len(),
        acc[i as int] == default_slot(ks[i as int]),
        slot_conforms(ks[i as int], v),
        slot_fits(v, lim),
        (enc_slot(i + 1, v) + rest).len() <= u64::MAX,
    ensures
        merge_bytes(id, MsgV::Fields(acc), enc_slot(i + 1, v) + rest, lim)
            == merge_bytes(id, MsgV::Fields(acc.update(i as int, v)), rest, lim),
{
    let t = i + 1;
    if !v->Bool_0 {
        assert(acc.update(i as int, v) =~= acc);
        assert(enc_slot(t, v) + rest =~= rest);
    } else {
        lemma_read_varint_field(t, 1, rest, lim);
        let f = FieldV { tag: t as u32, wire: WireV::Varint(1) };
        lemma_field_step(id, MsgV::Fields(acc), key(t, 0) + varint(1), f, rest, lim);
        assert(merge_slot(ks[i as int], acc[i as int], f.wire, lim) == Ok::<SlotV, super::wire::Failure>(v));
    }
}

/// [`lemma_slot`] for an `int32` field.
proof fn lemma_slot_int(id: usize, ks: Seq<Kind>, acc: Seq<SlotV>, i: nat, v: SlotV, rest: Seq<u8>, lim: nat)
    requires
        v is Int,
        !is_choice(id),
        ks == field_kinds(id),
        ks.len() <= 8,
        acc.len() == ks.len(),
        i < ks.len(),
        acc[i as int] == default_slot(ks[i as int]),
        slot_conforms(ks[i as int], v),
        slot_fits(v, lim),
        (enc_slot(i + 1, v) + rest).len() <= u64::MAX,
    ensures
        merge_bytes(id, MsgV::Fields(acc), enc_slot(i + 1, v) + rest, lim)
            == merge_bytes(id, MsgV::Fields(acc.update(i as int, v)), rest, lim),
{
    let t = i + 1;
    let x = v->Int_0;
    if x == 0 {
        assert(acc.update(i as int, v) =~= acc);
        assert(enc_slot(t, v) + rest =~= rest);
    } else {
        lemma_read_varint_field(t, x as u64, rest, lim);
        let f = FieldV { tag: t as u32, wire: WireV::Varint(x as u64) };
        lemma_field_step(id, MsgV::Fields(acc), key(t, 0) + varint((x as u64) as nat), f, rest, lim);
        lemma_int_round_trip(x);
        assert(merge_slot(ks[i as int], acc[i as int], f.wire, lim) == Ok::<SlotV, super::wire::Failure>(v));
    }
}

/// [`lemma_slot`] for a `bytes` field.
proof fn lemma_slot_bytes(id: usize, ks: Seq<Kind>, acc: Seq<SlotV>, i: nat, v: SlotV, rest: Seq<u8>, lim: nat)
    requires
        v is Bytes,
        !is_choice(id),
        ks == field_kinds(id),
        ks.len() <= 8,
        acc.len() == ks.len(),
        i < ks.len(),
        acc[i as int] == default_slot(ks[i as int]),
        slot_conforms(ks[i as int], v),
        slot_fits(v, lim),
        (enc_slot(i + 1, v) + rest).len() <= u64::MAX,
    ensures
        merge_bytes(id, MsgV::Fields(acc), enc_slot(i + 1, v) + rest, lim)
            == merge_bytes(id, MsgV::Fields(acc.update(i as int, v)), rest, lim),
{
    let t = i + 1;
    let b = v->Bytes_0;
    if b.len() == 0 {
        assert(b =~= Seq::<u8>::empty());
        assert(acc.update(i as int, v) =~= acc);
        assert(enc_slot(t, v) + rest =~= rest);
    } else {
        lemma_read_len_field(t, b, rest, lim);
        let f = FieldV { tag: t as u32, wire: WireV::Len(b) };
        lemma_field_step(id, MsgV::Fields(acc), len_field(t, b), f, rest, lim);
        assert(merge_slot(ks[i as int], acc[i as int], f.wire, lim) == Ok::<SlotV, super::wire::Failure>(v));
    }
}

/// [`lemma_slot`] for a singular message field.
proof fn lemma_slot_msg(id: usize, ks: Seq<Kind>, acc: Seq<SlotV>, i: nat, v: SlotV, rest: Seq<u8>, lim: nat)
    requires
        v is Msg,
        !is_choice(id),
        ks == field_kinds(id),
        ks.len() <= 8,
        acc.len() == ks.len(),
        i < ks.len(),
        acc[i as int] == default_slot(ks[i as int]),
        slot_conforms(ks[i as int], v),
        slot_fits(v, lim),
        (enc_slot(i + 1, v) + rest).len() <= u64::MAX,
    ensures
        merge_bytes(id, MsgV::Fields(acc), enc_slot(i + 1, v) + rest, lim)
            == merge_bytes(id, MsgV::Fields(acc.update(i as int, v)), rest, lim),
    decreases lim, 1nat, 0nat,
{
    let t = i + 1;
    match v->Msg_0 {
        None => {
            assert(acc.update(i as int, v) =~= acc);
            assert(enc_slot(t, v) + rest =~= rest);
        },
        Some(bm) => {
            let c = ks[i as int]->Msg_0;
            let p = enc_msg(*bm);
            lemma_read_len_field(t, p, rest, lim);
            let f = FieldV { tag: t as u32, wire: WireV::Len(p) };
            lemma_field_step(id, MsgV::Fields(acc), len_field(t, p), f, rest, lim);
            lemma_decode_encode(c, *bm, (lim - 1) as nat);
            assert(merge_slot(ks[i as int], acc[i as int], f.wire, lim) == Ok::<SlotV, super::wire::Failure>(v));
        },
    }
}

/// Decoding the encodings of the messages of a repeated field from the
/// `j`-th on appends them.
proof fn lemma_list(
    id: usize,
    ks: Seq<Kind>,
    acc: Seq<SlotV>,
    i: nat,
    c: usize,
    ms: Seq<MsgV>,
    j: nat,
    rest: Seq<u8>,
    lim: nat,
)
    requires
        !is_choice(id),
        ks == field_kinds(id),
        ks.len() <= 8,
        acc.len() == ks.len(),
        i < ks.len(),
        ks[i as int] == Kind::Msgs(c),
        j <= ms.len(),
        acc[i as int] == SlotV::Msgs(ms.take(j as int)),
        forall|x: int| 0 <= x < ms.len() ==> conforms(c, #[trigger] ms[x]),
        forall|x: int| 0 <= x < ms.len() ==> lim > 0 && fits(#[trigger] ms[x], (lim - 1) as nat),
        (enc_list(i + 1, ms.skip(j as int)) + rest).len() <= u64::MAX,
    ensures
        merge_bytes(id, MsgV::Fields(acc), enc_list(i + 1, ms.skip(j as int)) + rest, lim)
            == merge_bytes(id, MsgV::Fields(acc.update(i as int, SlotV::Msgs(ms))), rest, lim),
    decreases lim, 0nat, ms.len() - j,
{
    let t = i + 1;
    if j == ms.len() {
        assert(ms.skip(j as int) =~= Seq::<MsgV>::empty());
        assert(enc_list(t, ms.skip(j as int)) + rest =~= rest);
        assert(ms.take(j as int) =~= ms);
        assert(acc.update(i as int, SlotV::Msgs(ms)) =~= acc);
    } else {
        let p = enc_msg(ms[j as int]);
        let tail = enc_list(t, ms.skip((j + 1) as int));
        assert(ms.skip(j as int).drop_first() =~= ms.skip((j + 1) as int));
        assert(ms.skip(j as int)[0] == ms[j as int]);
        assert(enc_list(t, ms.skip(j as int)) == len_field(t, p) + tail);
        assert(enc_list(t, ms.skip(j as int)) + rest =~= len_field(t, p) + (tail + rest));
        lemma_read_len_field(t, p, tail + rest, lim);
        let f = FieldV { tag: t as u32, wire: WireV::Len(p) };
        lemma_field_step(id, MsgV::Fields(acc), len_field(t, p), f, tail + rest, lim);
        lemma_decode_encode(c, ms[j as int], (lim - 1) as nat);
        assert(ms.take(j as int).push(ms[j as int]) =~= ms.take((j + 1) as int));
        let acc2 = acc.update(i as int, SlotV::Msgs(ms.take((j + 1) as int)));
        assert(merge_field(id, MsgV::Fields(acc), f, lim) == Ok::<MsgV, super::wire::Failure>(MsgV::Fields(acc2)));
        lemma_list(id, ks, acc2, i, c, ms, j + 1, rest, lim);
        assert(acc2.update(i as int, SlotV::Msgs(ms)) =~= acc.update(i as int, SlotV::Msgs(ms)));
    }
}

/// Decoding the encodings of the strings of a repeated field from the
/// `j`-th on appends them.
proof fn lemma_strs(id: usize, ks: Seq<Kind>, acc: Seq<SlotV>, i: nat, ss: Seq<Seq<char>>, j: nat, rest: Seq<u8>, lim: nat)
    requires
        !is_choice(id),
        ks == field_kinds(id),
        ks.len() <= 8,
        acc.len() == ks.len(),
        i < ks.len(),
        ks[i as int] == Kind::Strs,
        j <= ss.len(),
        acc[i as int] == SlotV::Strs(ss.take(j as int)),
        (enc_strs(i + 1, ss.skip(j as int)) + rest).len() <= u64::MAX,
    ensures
        merge_bytes(id, MsgV::Fields(acc), enc_strs(i + 1, ss.skip(j as int)) + rest, lim)
            == merge_bytes(id, MsgV::Fields(acc.update(i as int, SlotV::Strs(ss))), rest, lim),
    decreases ss.len() - j,
{
    let t = i + 1;
    if j == ss.len() {
        assert(ss.skip(j as int) =~= Seq::<Seq<char>>::empty());
        assert(enc_strs(t, ss.skip(j as int)) + rest =~= rest);
        assert(ss.take(j as int) =~= ss);
        assert(acc.update(i as int, SlotV::Strs(ss)) =~= acc);
    } else {
        let p = encode_utf8(ss[j as int]);
        let tail = enc_strs(t, ss.skip((j + 1) as int));
        assert(ss.skip(j as int).drop_first() =~= ss.skip((j + 1) as int));
        assert(ss.skip(j as int)[0] == ss[j as int]);
        assert(enc_strs(t, ss.skip(j as int)) == len_field(t, p) + tail);
        assert(enc_strs(t, ss.skip(j as int)) + rest =~= len_field(t, p) + (tail + rest));
        lemma_read_len_field(t, p, tail + rest, lim);
        let f = FieldV { tag: t as u32, wire: WireV::Len(p) };
        lemma_field_step(id, MsgV::Fields(acc), len_field(t, p), f, tail + rest, lim);
        lemma_text(ss[j as int]);
        assert(ss.take(j as int).push(ss[j as int]) =~= ss.take((j + 1) as int));
        let acc2 = acc.update(i as int, SlotV::Strs(ss.take((j + 1) as int)));
        assert(merge_field(id, MsgV::Fields(acc), f, lim) == Ok::<MsgV, super::wire::Failure>(MsgV::Fields(acc2)));
        lemma_strs(id, ks, acc2, i, ss, j + 1, rest, lim);
        assert(acc2.update(i as int, SlotV::Strs(ss)) =~= acc.update(i as int, SlotV::Strs(ss)));
    }
}

/// Decoding the encodings of the entries of a map field from the `j`-th
/// on appends them, their keys being distinct.
#[verifier::rlimit(80)]
#[verifier::spinoff_prover]
proof fn lemma_entries(
    id: usize,
    ks: Seq<Kind>,
    acc: Seq<SlotV>,
    i: nat,
    c: usize,
    es: Seq<(Seq<char>, MsgV)>,
    j: nat,
    rest: Seq<u8>,
    lim: nat,
)
    requires
        !is_choice(id),
        ks == field_kinds(id),
        ks.len() <= 8,
        acc.len() == ks.len(),
        i < ks.len(),
        ks[i as int] == Kind::Entries(c),
        j <= es.len(),
        acc[i as int] == SlotV::Entries(es.take(j as int)),
        keys_distinct(entry_names(es)),
        forall|x: int| 0 <= x < es.len() ==> conforms(c, #[trigger] es[x].1),
        forall|x: int| 0 <= x < es.len() ==> lim > 1 && fits(#[trigger] es[x].1, (lim - 2) as nat),
        (enc_entries(i + 1, es.skip(j as int)) + rest).len() <= u64::MAX,
    ensures
        merge_bytes(id, MsgV::Fields(acc), enc_entries(i + 1, es.skip(j as int)) + rest, lim)
            == merge_bytes(id, MsgV::Fields(acc.update(i as int, SlotV::Entries(es))), rest, lim),
    decreases lim, 0nat, es.len() - j,
{
    let t = i + 1;
    if j == es.len() {
        assert(es.skip(j as int) =~= Seq::<(Seq<char>, MsgV)>::empty());
        assert(enc_entries(t, es.skip(j as int)) + rest =~= rest);
        assert(es.take(j as int) =~= es);
        assert(acc.update(i as int, SlotV::Entries(es)) =~= acc);
    } else {
        let e = es[j as int];
        let p = enc_entry(e);
        let tail = enc_entries(t, es.skip((j + 1) as int));
        assert(es.skip(j as int).drop_first() =~= es.skip((j + 1) as int));
        assert(es.skip(j as int)[0] == e);
        assert(enc_entries(t, es.skip(j as int)) == len_field(t, p) + tail);
        assert(enc_entries(t, es.skip(j as int)) + rest =~= len_field(t, p) + (tail + rest));
        lemma_read_len_field(t, p, tail + rest, lim);
        let f = FieldV { tag: t as u32, wire: WireV::Len(p) };
        lemma_field_step(id, MsgV::Fields(acc), len_field(t, p), f, tail + rest, lim);
        lemma_entry(c, e, (lim - 1) as nat);
        let prefix = es.take(j as int);
        assert forall|x: int| 0 <= x < prefix.len() implies prefix[x].0 != e.0 by {
            assert(entry_names(es)[x] != entry_names(es)[j as int]);
        }
        lemma_assoc_insert_new(prefix, e.0, e.1);
        assert(prefix.push((e.0, e.1)) =~= es.take((j + 1) as int));
        let acc2 = acc.update(i as int, SlotV::Entries(es.take((j + 1) as int)));
        assert(merge_field(id, MsgV::Fields(acc), f, lim) == Ok::<MsgV, super::wire::Failure>(MsgV::Fields(acc2)));
        lemma_entries(id, ks, acc2, i, c, es, j + 1, rest, lim);
        assert(acc2.update(i as int, SlotV::Entries(es)) =~= acc.update(i as int, SlotV::Entries(es)));
    }
}

/// A length-delimited field takes at least one byte.
proof fn lemma_len_field_nonempty(tag: nat, p: Seq<u8>)
    ensures
        len_field(tag, p).len() > 0,
{
    assert(varint(tag * 8 + 2).len() > 0);
}

/// The fields from `tag` on encode to nothing only when each does.
proof fn lemma_enc_slots_empty(slots: Seq<SlotV>, tag: nat)
    requires
        enc_slots(slots, tag).len() == 0,
    ensures
        forall|i: int| 0 <= i < slots.len() ==> enc_slot((tag + i) as nat, #[trigger] slots[i]).len() == 0,
    decreases slots.len(),
{
    if slots.len() > 0 {
        lemma_enc_slots_empty(slots.drop_first(), tag + 1);
        assert forall|i: int| 0 <= i < slots.len() implies enc_slot((tag + i) as nat, #[trigger] slots[i]).len() == 0 by {
            if i > 0 {
                assert(slots[i] == slots.drop_first()[i - 1]);
                assert((tag + 1 + (i - 1)) as nat == (tag + i) as nat);
            }
        }
    }
}

/// A field that encodes to nothing holds its default value.
proof fn lemma_slot_empty_default(k: Kind, s: SlotV, tag: nat)
    requires
        slot_conforms(k, s),
        enc_slot(tag, s).len() == 0,
    ensures
        s == default_slot(k),
{
    match s {
        SlotV::Str(c) => {
            if c.len() > 0 {
                lemma_len_field_nonempty(tag, encode_utf8(c));
            }
            assert(c =~= Seq::<char>::empty());
        },
        SlotV::Bool(b) => {
            if b {
                assert(varint(tag * 8 + 0).len() > 0);
            }
        },
        SlotV::Int(x) => {
            if x != 0 {
                assert(varint(tag * 8 + 0).len() > 0);
            }
        },
        SlotV::Bytes(b) => {
            if b.len() > 0 {
                lemma_len_field_nonempty(tag, b);
            }
            assert(b =~= Seq::<u8>::empty());
        },
        SlotV::Msg(o) => {
            if let Some(b) = o {
                lemma_len_field_nonempty(tag, enc_msg(*b));
            }
        },
        SlotV::Msgs(ms) => {
            if ms.len() > 0 {
                lemma_len_field_nonempty(tag, enc_msg(ms[0]));
            }
            assert(ms =~= Seq::<MsgV>::empty());
        },
        SlotV::Strs(ss) => {
            if ss.len() > 0 {
                lemma_len_field_nonempty(tag, encode_utf8(ss[0]));
            }
            assert(ss =~= Seq::<Seq<char>>::empty());
        },
        SlotV::Entries(es) => {
            if es.len() > 0 {
                lemma_len_field_nonempty(tag, enc_entry(es[0]));
            }
            assert(es =~= Seq::<(Seq<char>, MsgV)>::empty());
        },
    }
}

/// A message that encodes to nothing is the default message of its type.
proof fn lemma_empty_encoding_default(id: usize, m: MsgV)
    requires
        conforms(id, m),
        enc_msg(m).len() == 0,
    ensures
        m == default_msg(id),
{
    lemma_schema_small(id);
    match m {
        MsgV::Fields(slots) => {
            let ks = field_kinds(id);
            lemma_enc_slots_empty(slots, 1);
            assert forall|i: int| 0 <= i < slots.len() implies #[trigger] slots[i] == default_slot(ks[i]) by {
                lemma_slot_empty_default(ks[i], slots[i], (1 + i) as nat);
            }
            assert(slots =~= ks.map_values(|k: Kind| default_slot(k)));
        },
        MsgV::Choice(None) => {},
        MsgV::Choice(Some((k, b))) => {
            lemma_len_field_nonempty((k + 1) as nat, enc_msg(*b));
        },
    }
}

/// Decoding the encoding of a map entry gives back its key and value.
proof fn lemma_entry(c: usize, e: (Seq<char>, MsgV), lim: nat)
    requires
        conforms(c, e.1),
        lim > 0,
        fits(e.1, (lim - 1) as nat),
        enc_entry(e).len() <= u64::MAX,
    ensures
        merge_entry(c, (Seq::empty(), default_msg(c)), enc_entry(e), lim) == Ok::<(Seq<char>, MsgV), super::wire::Failure>(e),
    decreases lim, 0nat, 0nat,
{
    if enc_msg(e.1).len() == 0 {
        lemma_empty_encoding_default(c, e.1);
        if e.0.len() == 0 {
            assert(enc_entry(e) =~= Seq::<u8>::empty());
            assert(e.0 =~= Seq::<char>::empty());
        } else {
            let kp = encode_utf8(e.0);
            let kf = len_field(1, kp);
            lemma_read_len_field(1, kp, Seq::empty(), lim);
            assert(enc_entry(e) =~= kf + Seq::<u8>::empty());
            lemma_entry_step(c, (Seq::empty(), default_msg(c)), kf, FieldV { tag: 1, wire: WireV::Len(kp) }, Seq::empty(), lim);
            lemma_text(e.0);
        }
    } else {
        let vp = enc_msg(e.1);
        let vf = len_field(2, vp);
        let fv = FieldV { tag: 2, wire: WireV::Len(vp) };
        lemma_read_len_field(2, vp, Seq::empty(), lim);
        lemma_decode_encode(c, e.1, (lim - 1) as nat);
        assert(vf + Seq::<u8>::empty() =~= vf);
        if e.0.len() == 0 {
            assert(enc_entry(e) =~= vf + Seq::<u8>::empty());
            lemma_entry_step(c, (Seq::empty(), default_msg(c)), vf, fv, Seq::empty(), lim);
            assert(e.0 =~= Seq::<char>::empty());
        } else {
            let kp = encode_utf8(e.0);
            let kf = len_field(1, kp);
            lemma_read_len_field(1, kp, vf, lim);
            assert(enc_entry(e) =~= kf + vf);
            lemma_entry_step(c, (Seq::empty(), default_msg(c)), kf, FieldV { tag: 1, wire: WireV::Len(kp) }, vf, lim);
            lemma_text(e.0);
            lemma_entry_step(c, (e.0, default_msg(c)), vf, fv, Seq::empty(), lim);
        }
    }
}

} // verus!
