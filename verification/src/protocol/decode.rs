//! Decoding of protobuf bytes into message values of the schema.
//!
//! Decoding merges fields into a message in the order they come: a scalar
//! field replaces the value, a singular message field merges into the
//! message already there, a repeated field appends, and a map entry
//! replaces the value under its key. Unknown fields are skipped. Each
//! nested message (and each map entry) takes one level of the recursion
//! limit; skipping an unknown field needs a level left.
use vstd::prelude::*;
use vstd::utf8::{decode_utf8, valid_utf8};
use super::schema::{
    conforms, default_msg, default_slot, entries_view, field_kind, field_kinds, msg_view,
    msgs_view, new_msg, shape, slot_conforms, slot_view, variant_type, variants, Kind, Msg, MsgV,
    Shape, Slot, SlotV,
};
use super::wire::{
    field_view, lemma_read_field_bounds, read_field, take_field, wire_view, Failure, Field, FieldV, Wire,
    WireV,
};
use super::records::keys_distinct;
use crate::text::{chars_eq, str_chars};

verus! {

/// How deep messages may nest.
pub const RECURSION_LIMIT: u32 = 100;

/// The keys of map entries.
pub open spec fn entry_names(es: Seq<(Seq<char>, MsgV)>) -> Seq<Seq<char>> {
    es.map_values(|e: (Seq<char>, MsgV)| e.0)
}

/// Puts `v` under key `k`: the first entry with key `k` keeps its place
/// and takes the new value; without such an entry, one is appended.
pub open spec fn assoc_insert(es: Seq<(Seq<char>, MsgV)>, k: Seq<char>, v: MsgV) -> Seq<(Seq<char>, MsgV)>
    decreases es.len(),
{
    if es.len() == 0 {
        seq![(k, v)]
    } else if es[0].0 == k {
        es.update(0, (k, v))
    } else {
        seq![es[0]] + assoc_insert(es.drop_first(), k, v)
    }
}

/// Putting a value under the key of the `i`-th entry, where no earlier
/// entry has that key, replaces that entry.
pub proof fn lemma_assoc_insert_at(es: Seq<(Seq<char>, MsgV)>, k: Seq<char>, v: MsgV, i: int)
    requires
        0 <= i < es.len(),
        es[i].0 == k,
        forall|j: int| 0 <= j < i ==> es[j].0 != k,
    ensures
        assoc_insert(es, k, v) == es.update(i, (k, v)),
    decreases es.len(),
{
    if i > 0 {
        lemma_assoc_insert_at(es.drop_first(), k, v, i - 1);
        assert(assoc_insert(es, k, v) =~= es.update(i, (k, v)));
    }
}

/// Putting a value under a key that no entry has appends an entry.
pub proof fn lemma_assoc_insert_new(es: Seq<(Seq<char>, MsgV)>, k: Seq<char>, v: MsgV)
    requires
        forall|j: int| 0 <= j < es.len() ==> es[j].0 != k,
    ensures
        assoc_insert(es, k, v) == es.push((k, v)),
    decreases es.len(),
{
    if es.len() > 0 {
        lemma_assoc_insert_new(es.drop_first(), k, v);
        assert(assoc_insert(es, k, v) =~= es.push((k, v)));
    }
}

/// The text of a string payload, which must be valid UTF-8.
pub open spec fn utf8_text(b: Seq<u8>) -> Result<Seq<char>, Failure> {
    if valid_utf8(b) {
        Ok(decode_utf8(b))
    } else {
        Err(Failure::InvalidString)
    }
}

/// A field with an unknown number is skipped, which needs a level left.
pub open spec fn skip_unknown(acc: MsgV, lim: nat) -> Result<MsgV, Failure> {
    if lim == 0 {
        Err(Failure::RecursionLimit)
    } else {
        Ok(acc)
    }
}

/// Decodes the fields in `s` into `acc`, a message of type `id`, with `lim`
/// levels of nesting left.
pub open spec fn merge_bytes(id: usize, acc: MsgV, s: Seq<u8>, lim: nat) -> Result<MsgV, Failure>
    decreases lim, s.len(), 2nat,
{
    if s.len() == 0 {
        Ok(acc)
    } else {
        match read_field(s, lim) {
            Err(e) => Err(e),
            Ok((f, n)) => {
                proof {
                    lemma_read_field_bounds(s, lim);
                }
                match merge_field(id, acc, f, lim) {
                    Err(e) => Err(e),
                    Ok(a) => merge_bytes(id, a, s.skip(n as int), lim),
                }
            },
        }
    }
}

/// Merges one field into `acc`, a message of type `id`.
pub open spec fn merge_field(id: usize, acc: MsgV, f: FieldV, lim: nat) -> Result<MsgV, Failure>
    decreases lim, 0nat, 1nat,
{
    match acc {
        MsgV::Fields(slots) => {
            let ks = field_kinds(id);
            if 1 <= f.tag <= ks.len() && slots.len() == ks.len() {
                match merge_slot(ks[f.tag - 1], slots[f.tag - 1], f.wire, lim) {
                    Err(e) => Err(e),
                    Ok(v) => Ok(MsgV::Fields(slots.update(f.tag - 1, v))),
                }
            } else {
                skip_unknown(acc, lim)
            }
        },
        MsgV::Choice(cur) => {
            let vs = variants(id);
            if 1 <= f.tag <= vs.len() {
                match f.wire {
                    WireV::Len(b) => if lim == 0 {
                        Err(Failure::RecursionLimit)
                    } else {
                        let k = (f.tag - 1) as usize;
                        let base = match cur {
                            Some((j, m)) => if j == k { *m } else { default_msg(vs[k as int]) },
                            None => default_msg(vs[k as int]),
                        };
                        match merge_bytes(vs[k as int], base, b, (lim - 1) as nat) {
                            Ok(m) => Ok(MsgV::Choice(Some((k, Box::new(m))))),
                            Err(e) => Err(e),
                        }
                    },
                    _ => Err(Failure::WireTypeMismatch),
                }
            } else {
                skip_unknown(acc, lim)
            }
        },
    }
}

/// Merges one field payload into `cur`, the value of a field of kind `k`.
pub open spec fn merge_slot(k: Kind, cur: SlotV, w: WireV, lim: nat) -> Result<SlotV, Failure>
    decreases lim, 0nat, 0nat,
{
    match k {
        Kind::Str => match w {
            WireV::Len(b) => match utf8_text(b) {
                Ok(t) => Ok(SlotV::Str(t)),
                Err(e) => Err(e),
            },
            _ => Err(Failure::WireTypeMismatch),
        },
        Kind::Bool => match w {
            WireV::Varint(v) => Ok(SlotV::Bool(v != 0)),
            _ => Err(Failure::WireTypeMismatch),
        },
        Kind::Int => match w {
            WireV::Varint(v) => Ok(SlotV::Int(v as i32)),
            _ => Err(Failure::WireTypeMismatch),
        },
        Kind::Bytes => match w {
            WireV::Len(b) => Ok(SlotV::Bytes(b)),
            _ => Err(Failure::WireTypeMismatch),
        },
        Kind::Msg(c) => match w {
            WireV::Len(b) => if lim == 0 {
                Err(Failure::RecursionLimit)
            } else {
                let base = match cur {
                    SlotV::Msg(Some(m)) => *m,
                    _ => default_msg(c),
                };
                match merge_bytes(c, base, b, (lim - 1) as nat) {
                    Ok(m) => Ok(SlotV::Msg(Some(Box::new(m)))),
                    Err(e) => Err(e),
                }
            },
            _ => Err(Failure::WireTypeMismatch),
        },
        Kind::Msgs(c) => match w {
            WireV::Len(b) => if lim == 0 {
                Err(Failure::RecursionLimit)
            } else {
                match merge_bytes(c, default_msg(c), b, (lim - 1) as nat) {
                    Ok(m) => Ok(SlotV::Msgs(
                        match cur {
                            SlotV::Msgs(ms) => ms,
                            _ => Seq::empty(),
                        }.push(m),
                    )),
                    Err(e) => Err(e),
                }
            },
            _ => Err(Failure::WireTypeMismatch),
        },
        Kind::Strs => match w {
            WireV::Len(b) => match utf8_text(b) {
                Ok(t) => Ok(SlotV::Strs(
                    match cur {
                        SlotV::Strs(ss) => ss,
                        _ => Seq::empty(),
                    }.push(t),
                )),
                Err(e) => Err(e),
            },
            _ => Err(Failure::WireTypeMismatch),
        },
        Kind::Entries(c) => match w {
            WireV::Len(b) => if lim == 0 {
                Err(Failure::RecursionLimit)
            } else {
                match merge_entry(c, (Seq::empty(), default_msg(c)), b, (lim - 1) as nat) {
                    Ok((key, v)) => Ok(SlotV::Entries(
                        assoc_insert(
                            match cur {
                                SlotV::Entries(es) => es,
                                _ => Seq::empty(),
                            },
                            key,
                            v,
                        ),
                    )),
                    Err(e) => Err(e),
                }
            },
            _ => Err(Failure::WireTypeMismatch),
        },
    }
}

/// Merges one field into a map entry whose value has type `c`: field 1 is
/// the key, field 2 the value.
pub open spec fn merge_entry_field(c: usize, acc: (Seq<char>, MsgV), f: FieldV, lim: nat) -> Result<
    (Seq<char>, MsgV),
    Failure,
>
    decreases lim, 0nat, 1nat,
{
    if f.tag == 1 {
        match f.wire {
            WireV::Len(b) => match utf8_text(b) {
                Ok(t) => Ok((t, acc.1)),
                Err(e) => Err(e),
            },
            _ => Err(Failure::WireTypeMismatch),
        }
    } else if f.tag == 2 {
        match f.wire {
            WireV::Len(b) => if lim == 0 {
                Err(Failure::RecursionLimit)
            } else {
                match merge_bytes(c, acc.1, b, (lim - 1) as nat) {
                    Ok(m) => Ok((acc.0, m)),
                    Err(e) => Err(e),
                }
            },
            _ => Err(Failure::WireTypeMismatch),
        }
    } else if lim == 0 {
        Err(Failure::RecursionLimit)
    } else {
        Ok(acc)
    }
}

/// Decodes the fields in `s` into a map entry whose value has type `c`.
pub open spec fn merge_entry(c: usize, acc: (Seq<char>, MsgV), s: Seq<u8>, lim: nat) -> Result<
    (Seq<char>, MsgV),
    Failure,
>
    decreases lim, s.len(), 2nat,
{
    if s.len() == 0 {
        Ok(acc)
    } else {
        match read_field(s, lim) {
            Err(e) => Err(e),
            Ok((f, n)) => {
                proof {
                    lemma_read_field_bounds(s, lim);
                }
                match merge_entry_field(c, acc, f, lim) {
                    Err(e) => Err(e),
                    Ok(a) => merge_entry(c, a, s.skip(n as int), lim),
                }
            },
        }
    }
}

/// Decodes a whole message of type `id` from `s`.
pub open spec fn decode_message(id: usize, s: Seq<u8>) -> Result<MsgV, Failure> {
    merge_bytes(id, default_msg(id), s, RECURSION_LIMIT as nat)
}

// ── Exec decoding ──────────────────────────────────────────────────────

/// Decodes UTF-8 bytes into a string (`String::from_utf8`): the string when
/// the bytes are valid UTF-8, `None` otherwise.
#[verifier::external_body]
fn utf8_string(bytes: Vec<u8>) -> (r: Option<String>)
    ensures
        r is Some <==> valid_utf8(bytes@),
        r is Some ==> r.unwrap()@ == decode_utf8(bytes@),
{
    match String::from_utf8(bytes) {
        Ok(s) => Some(s),
        Err(_) => None,
    }
}

/// The text of a string payload.
fn take_text(b: &[u8]) -> (r: Result<String, Failure>)
    ensures
        match utf8_text(b@) {
            Ok(t) => r matches Ok(s) && s@ == t,
            Err(e) => r == Err::<String, Failure>(e),
        },
{
    match utf8_string(vstd::slice::slice_to_vec(b)) {
        Some(s) => Ok(s),
        None => Err(Failure::InvalidString),
    }
}

/// Position of the entry with key `key`, if any.
fn entry_position(v: &Vec<(String, Msg)>, key: &String) -> (r: Option<usize>)
    ensures
        r matches Some(i) ==> i < v@.len() && v@[i as int].0@ == key@,
        r is None ==> forall|i: int| 0 <= i < v@.len() ==> v@[i].0@ != key@,
{
    let k = str_chars(key.as_str());
    let mut i: usize = 0;
    while i < v.len()
        invariant
            0 <= i <= v@.len(),
            k@ == key@,
            forall|j: int| 0 <= j < i ==> v@[j].0@ != key@,
        decreases v@.len() - i,
    {
        let ek = str_chars(v[i].0.as_str());
        if chars_eq(ek.as_slice(), k.as_slice()) {
            return Some(i);
        }
        i = i + 1;
    }
    None
}

/// Puts `val` under `key` in map entries with distinct keys.
fn entry_insert(v: Vec<(String, Msg)>, key: String, val: Msg) -> (r: Vec<(String, Msg)>)
    requires
        keys_distinct(entry_names(entries_view(v@))),
    ensures
        entries_view(r@) == assoc_insert(entries_view(v@), key@, msg_view(val)),
        keys_distinct(entry_names(entries_view(r@))),
{
    let ghost ev = entries_view(v@);
    let ghost kv = key@;
    let ghost mv = msg_view(val);
    let mut v = v;
    let ghost old_v = v@;
    match entry_position(&v, &key) {
        Some(i) => {
            v.set(i, (key, val));
            proof {
                assert(ev[i as int].0 == kv);
                assert forall|j: int| 0 <= j < i implies ev[j].0 != kv by {
                    assert(entry_names(ev)[j] != entry_names(ev)[i as int]);
                }
                lemma_assoc_insert_at(ev, kv, mv, i as int);
                assert(entries_view(v@) =~= ev.update(i as int, (kv, mv)));
                assert forall|a: int, b: int|
                    0 <= a < entry_names(entries_view(v@)).len() && 0 <= b < entry_names(entries_view(v@)).len() && a != b
                    implies entry_names(entries_view(v@))[a] != entry_names(entries_view(v@))[b] by {
                    assert(entry_names(ev)[a] != entry_names(ev)[b]);
                }
            }
        },
        None => {
            v.push((key, val));
            proof {
                assert forall|i: int| 0 <= i < ev.len() implies ev[i].0 != kv by {
                    assert(ev[i].0 == old_v[i].0@);
                }
                assert(entries_view(v@) =~= ev.push((kv, mv)));
                lemma_assoc_insert_new(ev, kv, mv);
                assert forall|a: int, b: int|
                    0 <= a < entry_names(entries_view(v@)).len() && 0 <= b < entry_names(entries_view(v@)).len() && a != b
                    implies entry_names(entries_view(v@))[a] != entry_names(entries_view(v@))[b] by {
                    if a < ev.len() && b < ev.len() {
                        assert(entry_names(ev)[a] != entry_names(ev)[b]);
                    }
                }
            }
        },
    }
    v
}

/// One step of [`merge_bytes`] on non-empty bytes.
pub proof fn lemma_merge_bytes_step(id: usize, acc: MsgV, s: Seq<u8>, lim: nat)
    requires
        s.len() > 0,
    ensures
        merge_bytes(id, acc, s, lim) == match read_field(s, lim) {
            Err(e) => Err(e),
            Ok((f, n)) => match merge_field(id, acc, f, lim) {
                Err(e) => Err(e),
                Ok(a) => merge_bytes(id, a, s.skip(n as int), lim),
            },
        },
{
}

/// One step of [`merge_entry`] on non-empty bytes.
pub proof fn lemma_merge_entry_step(c: usize, acc: (Seq<char>, MsgV), s: Seq<u8>, lim: nat)
    requires
        s.len() > 0,
    ensures
        merge_entry(c, acc, s, lim) == match read_field(s, lim) {
            Err(e) => Err(e),
            Ok((f, n)) => match merge_entry_field(c, acc, f, lim) {
                Err(e) => Err(e),
                Ok(a) => merge_entry(c, a, s.skip(n as int), lim),
            },
        },
{
}

/// A default message conforms to its type.
pub proof fn lemma_default_conforms(id: usize)
    ensures
        conforms(id, default_msg(id)),
{
    match shape(id) {
        Shape::Fields(ks) => {
            let d = default_msg(id);
            if let MsgV::Fields(slots) = d {
                assert forall|i: int| 0 <= i < slots.len() implies slot_conforms(field_kinds(id)[i], #[trigger] slots[i]) by {
                    assert(slots[i] == default_slot(ks[i]));
                    if let Kind::Entries(c) = ks[i] {
                        assert(entry_names(Seq::<(Seq<char>, MsgV)>::empty()) =~= Seq::<Seq<char>>::empty());
                    }
                }
            }
        },
        Shape::Choice(_) => {},
    }
}

/// Decodes the fields in `s` into `acc`, a message of type `id` (see
/// [`merge_bytes`]).
pub fn merge_bytes_exec(id: usize, acc: Msg, s: &[u8], lim: u32) -> (r: Result<Msg, Failure>)
    requires
        conforms(id, msg_view(acc)),
    ensures
        match merge_bytes(id, msg_view(acc), s@, lim as nat) {
            Ok(m) => r matches Ok(x) && msg_view(x) == m && conforms(id, m),
            Err(e) => r is Err && r->Err_0 == e,
        },
    decreases lim, s@.len(), 2nat,
{
    let mut cur = acc;
    let mut rest = s;
    while rest.len() > 0
        invariant
            conforms(id, msg_view(cur)),
            rest@.len() <= s@.len(),
            merge_bytes(id, msg_view(acc), s@, lim as nat) == merge_bytes(id, msg_view(cur), rest@, lim as nat),
        decreases rest@.len(),
    {
        proof {
            lemma_merge_bytes_step(id, msg_view(cur), rest@, lim as nat);
        }
        match take_field(rest, lim) {
            Err(e) => {
                return Err(e);
            },
            Ok((f, after)) => {
                proof {
                    lemma_read_field_bounds(rest@, lim as nat);
                }
                match merge_field_exec(id, cur, f, lim) {
                    Err(e) => {
                        return Err(e);
                    },
                    Ok(a) => {
                        cur = a;
                        rest = after;
                    },
                }
            },
        }
    }
    Ok(cur)
}

/// Merges one field into `acc`, a message of type `id` (see
/// [`merge_field`]).
fn merge_field_exec(id: usize, acc: Msg, f: Field, lim: u32) -> (r: Result<Msg, Failure>)
    requires
        conforms(id, msg_view(acc)),
    ensures
        match merge_field(id, msg_view(acc), field_view(f), lim as nat) {
            Ok(m) => r matches Ok(x) && msg_view(x) == m && conforms(id, m),
            Err(e) => r is Err && r->Err_0 == e,
        },
    decreases lim, 0nat, 1nat,
{
    let ghost av = msg_view(acc);
    match acc {
        Msg::Fields(slots) => {
            let mut slots = slots;
            let ghost sv = match av {
                MsgV::Fields(x) => x,
                _ => Seq::empty(),
            };
            match field_kind(id, f.tag) {
                Some(k) => {
                    let idx: usize = (f.tag - 1) as usize;
                    let ghost old_slots = slots@;
                    let cur = slots.remove(idx);
                    match merge_slot_exec(k, cur, f.wire, lim) {
                        Err(e) => Err(e),
                        Ok(v) => {
                            slots.insert(idx, v);
                            let r = Msg::Fields(slots);
                            proof {
                                let nv = match msg_view(r) {
                                    MsgV::Fields(x) => x,
                                    _ => Seq::empty(),
                                };
                                assert(nv =~= sv.update(idx as int, slot_view(v)));
                                let ks = field_kinds(id);
                                assert forall|i: int| 0 <= i < nv.len() implies slot_conforms(ks[i], #[trigger] nv[i]) by {
                                    if i != idx {
                                        assert(nv[i] == sv[i]);
                                    }
                                }
                            }
                            Ok(r)
                        },
                    }
                },
                None => {
                    if lim == 0 {
                        Err(Failure::RecursionLimit)
                    } else {
                        Ok(Msg::Fields(slots))
                    }
                },
            }
        },
        Msg::Choice(cur) => {
            match variant_type(id, f.tag) {
                Some(vid) => {
                    match f.wire {
                        Wire::Len(b) => {
                            if lim == 0 {
                                Err(Failure::RecursionLimit)
                            } else {
                                let k: usize = (f.tag - 1) as usize;
                                let base = match cur {
                                    Some((j, m)) => if j == k {
                                        *m
                                    } else {
                                        proof {
                                            lemma_default_conforms(vid);
                                        }
                                        new_msg(vid)
                                    },
                                    None => {
                                        proof {
                                            lemma_default_conforms(vid);
                                        }
                                        new_msg(vid)
                                    },
                                };
                                match merge_bytes_exec(vid, base, b, lim - 1) {
                                    Ok(m) => Ok(Msg::Choice(Some((k, Box::new(m))))),
                                    Err(e) => Err(e),
                                }
                            }
                        },
                        _ => Err(Failure::WireTypeMismatch),
                    }
                },
                None => {
                    if lim == 0 {
                        Err(Failure::RecursionLimit)
                    } else {
                        Ok(Msg::Choice(cur))
                    }
                },
            }
        },
    }
}

/// Merges one field payload into `cur`, the value of a field of kind `k`
/// (see [`merge_slot`]).
fn merge_slot_exec(k: Kind, cur: Slot, w: Wire, lim: u32) -> (r: Result<Slot, Failure>)
    requires
        slot_conforms(k, slot_view(cur)),
    ensures
        match merge_slot(k, slot_view(cur), wire_view(w), lim as nat) {
            Ok(v) => r matches Ok(x) && slot_view(x) == v && slot_conforms(k, v),
            Err(e) => r is Err && r->Err_0 == e,
        },
    decreases lim, 0nat, 0nat,
{
    match k {
        Kind::Str => match w {
            Wire::Len(b) => match take_text(b) {
                Ok(t) => Ok(Slot::Str(t)),
                Err(e) => Err(e),
            },
            _ => Err(Failure::WireTypeMismatch),
        },
        Kind::Bool => match w {
            Wire::Varint(v) => Ok(Slot::Bool(v != 0)),
            _ => Err(Failure::WireTypeMismatch),
        },
        Kind::Int => match w {
            Wire::Varint(v) => Ok(Slot::Int(v as i32)),
            _ => Err(Failure::WireTypeMismatch),
        },
        Kind::Bytes => match w {
            Wire::Len(b) => Ok(Slot::Bytes(vstd::slice::slice_to_vec(b))),
            _ => Err(Failure::WireTypeMismatch),
        },
        Kind::Msg(c) => match w {
            Wire::Len(b) => {
                if lim == 0 {
                    Err(Failure::RecursionLimit)
                } else {
                    let base = match cur {
                        Slot::Msg(Some(m)) => *m,
                        _ => {
                            proof {
                                lemma_default_conforms(c);
                            }
                            new_msg(c)
                        },
                    };
                    match merge_bytes_exec(c, base, b, lim - 1) {
                        Ok(m) => Ok(Slot::Msg(Some(Box::new(m)))),
                        Err(e) => Err(e),
                    }
                }
            },
            _ => Err(Failure::WireTypeMismatch),
        },
        Kind::Msgs(c) => match w {
            Wire::Len(b) => {
                if lim == 0 {
                    Err(Failure::RecursionLimit)
                } else {
                    proof {
                        lemma_default_conforms(c);
                    }
                    match merge_bytes_exec(c, new_msg(c), b, lim - 1) {
                        Ok(m) => {
                            let mut v = match cur {
                                Slot::Msgs(v) => v,
                                _ => Vec::new(),
                            };
                            let ghost old_v = v@;
                            v.push(m);
                            proof {
                                assert(msgs_view(v@) =~= msgs_view(old_v).push(msg_view(m)));
                            }
                            Ok(Slot::Msgs(v))
                        },
                        Err(e) => Err(e),
                    }
                }
            },
            _ => Err(Failure::WireTypeMismatch),
        },
        Kind::Strs => match w {
            Wire::Len(b) => match take_text(b) {
                Ok(t) => {
                    let mut v = match cur {
                        Slot::Strs(v) => v,
                        _ => Vec::new(),
                    };
                    let ghost old_v = v@;
                    v.push(t);
                    proof {
                        assert(v@.map_values(|x: String| x@) =~= old_v.map_values(|x: String| x@).push(t@));
                    }
                    Ok(Slot::Strs(v))
                },
                Err(e) => Err(e),
            },
            _ => Err(Failure::WireTypeMismatch),
        },
        Kind::Entries(c) => match w {
            Wire::Len(b) => {
                if lim == 0 {
                    Err(Failure::RecursionLimit)
                } else {
                    proof {
                        lemma_default_conforms(c);
                    }
                    match merge_entry_exec(c, String::new(), new_msg(c), b, lim - 1) {
                        Ok((key, val)) => {
                            let v = match cur {
                                Slot::Entries(v) => v,
                                _ => Vec::new(),
                            };
                            let ghost ev = entries_view(v@);
                            let r = entry_insert(v, key, val);
                            proof {
                                lemma_assoc_insert_conforms(c, ev, key@, msg_view(val));
                            }
                            Ok(Slot::Entries(r))
                        },
                        Err(e) => Err(e),
                    }
                }
            },
            _ => Err(Failure::WireTypeMismatch),
        },
    }
}

/// Putting a conforming value into entries with conforming values keeps
/// every value conforming.
proof fn lemma_assoc_insert_conforms(c: usize, es: Seq<(Seq<char>, MsgV)>, k: Seq<char>, v: MsgV)
    requires
        forall|i: int| 0 <= i < es.len() ==> conforms(c, #[trigger] es[i].1),
        conforms(c, v),
    ensures
        forall|i: int| 0 <= i < assoc_insert(es, k, v).len() ==> conforms(c, #[trigger] assoc_insert(es, k, v)[i].1),
    decreases es.len(),
{
    if es.len() > 0 && es[0].0 != k {
        lemma_assoc_insert_conforms(c, es.drop_first(), k, v);
        let r = assoc_insert(es, k, v);
        assert forall|i: int| 0 <= i < r.len() implies conforms(c, #[trigger] r[i].1) by {
            if i > 0 {
                assert(r[i] == assoc_insert(es.drop_first(), k, v)[i - 1]);
            }
        }
    }
}

/// Decodes the fields in `s` into a map entry (see [`merge_entry`]).
fn merge_entry_exec(c: usize, key: String, val: Msg, s: &[u8], lim: u32) -> (r: Result<(String, Msg), Failure>)
    requires
        conforms(c, msg_view(val)),
    ensures
        match merge_entry(c, (key@, msg_view(val)), s@, lim as nat) {
            Ok((k, m)) => r matches Ok((x, y)) && x@ == k && msg_view(y) == m && conforms(c, m),
            Err(e) => r is Err && r->Err_0 == e,
        },
    decreases lim, s@.len(), 2nat,
{
    let mut k = key;
    let mut v = val;
    let mut rest = s;
    while rest.len() > 0
        invariant
            conforms(c, msg_view(v)),
            rest@.len() <= s@.len(),
            merge_entry(c, (key@, msg_view(val)), s@, lim as nat) == merge_entry(c, (k@, msg_view(v)), rest@, lim as nat),
        decreases rest@.len(),
    {
        proof {
            lemma_merge_entry_step(c, (k@, msg_view(v)), rest@, lim as nat);
        }
        match take_field(rest, lim) {
            Err(e) => {
                return Err(e);
            },
            Ok((f, after)) => {
                proof {
                    lemma_read_field_bounds(rest@, lim as nat);
                }
                match merge_entry_field_exec(c, k, v, f, lim) {
                    Err(e) => {
                        return Err(e);
                    },
                    Ok((k2, v2)) => {
                        k = k2;
                        v = v2;
                        rest = after;
                    },
                }
            },
        }
    }
    Ok((k, v))
}

/// Merges one field into a map entry (see [`merge_entry_field`]).
fn merge_entry_field_exec(c: usize, key: String, val: Msg, f: Field, lim: u32) -> (r: Result<(String, Msg), Failure>)
    requires
        conforms(c, msg_view(val)),
    ensures
        match merge_entry_field(c, (key@, msg_view(val)), field_view(f), lim as nat) {
            Ok((k, m)) => r matches Ok((x, y)) && x@ == k && msg_view(y) == m && conforms(c, m),
            Err(e) => r is Err && r->Err_0 == e,
        },
    decreases lim, 0nat, 1nat,
{
    if f.tag == 1 {
        match f.wire {
            Wire::Len(b) => match take_text(b) {
                Ok(t) => Ok((t, val)),
                Err(e) => Err(e),
            },
            _ => Err(Failure::WireTypeMismatch),
        }
    } else if f.tag == 2 {
        match f.wire {
            Wire::Len(b) => {
                if lim == 0 {
                    Err(Failure::RecursionLimit)
                } else {
                    match merge_bytes_exec(c, val, b, lim - 1) {
                        Ok(m) => Ok((key, m)),
                        Err(e) => Err(e),
                    }
                }
            },
            _ => Err(Failure::WireTypeMismatch),
        }
    } else if lim == 0 {
        Err(Failure::RecursionLimit)
    } else {
        Ok((key, val))
    }
}

} // verus!
