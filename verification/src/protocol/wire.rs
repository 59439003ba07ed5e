//! The protobuf wire format: LEB128 varints, field keys and the payloads
//! of the five wire types, with the skipping of unknown groups.
use vstd::prelude::*;

verus! {

// ── Varints ────────────────────────────────────────────────────────────

/// The LEB128 encoding of `v`: seven bits per byte, least significant
/// first, the high bit set on every byte but the last.
pub open spec fn varint(v: nat) -> Seq<u8>
    decreases v,
{
    if v < 128 {
        seq![v as u8]
    } else {
        seq![(v % 128 + 128) as u8] + varint(v / 128)
    }
}

/// Reads a varint whose first byte is the `count`-th byte of the varint:
/// the value and the number of bytes read, or `None` when the bytes end
/// before a byte below 128, when no such byte comes within ten bytes, or
/// when the tenth byte is above 1 (the value would exceed 64 bits).
pub open spec fn read_varint_from(s: Seq<u8>, count: nat) -> Option<(nat, nat)>
    decreases 10 - count,
{
    if count >= 10 || s.len() == 0 {
        None
    } else if s[0] < 128 {
        if count == 9 && s[0] >= 2 {
            None
        } else {
            Some((s[0] as nat, 1))
        }
    } else {
        match read_varint_from(s.drop_first(), count + 1) {
            Some((v, n)) => Some((((s[0] - 128) + 128 * v) as nat, n + 1)),
            None => None,
        }
    }
}

/// Reads a varint at the start of `s`.
pub open spec fn read_varint(s: Seq<u8>) -> Option<(nat, nat)> {
    read_varint_from(s, 0)
}

/// Bound on the value of a varint read from its `count`-th byte on.
pub open spec fn varint_cap(count: nat) -> nat
    decreases 9 - count,
{
    if count >= 9 {
        2
    } else {
        128 * varint_cap(count + 1)
    }
}

/// What a varint read yields lies in range: at least one byte, no more
/// than the bytes present, and a value below the cap of its position.
pub proof fn lemma_read_varint_bounds(s: Seq<u8>, count: nat)
    requires
        read_varint_from(s, count) is Some,
    ensures
        ({
            let (v, n) = read_varint_from(s, count).unwrap();
            &&& 1 <= n <= s.len()
            &&& count + n <= 10
            &&& v < varint_cap(count)
        }),
    decreases 10 - count,
{
    if s[0] >= 128 {
        lemma_read_varint_bounds(s.drop_first(), count + 1);
        if count < 9 {
            assert(varint_cap(count) == 128 * varint_cap(count + 1));
        }
    } else if count < 9 {
        lemma_cap_at_least_two(count);
        assert(varint_cap(count) == 128 * varint_cap(count + 1));
        lemma_cap_at_least_two(count + 1);
    }
}

proof fn lemma_cap_at_least_two(count: nat)
    ensures
        varint_cap(count) >= 2,
    decreases 9 - count,
{
    if count < 9 {
        lemma_cap_at_least_two(count + 1);
    }
}

/// The cap at the first byte is 2^64.
pub proof fn lemma_cap_zero()
    ensures
        varint_cap(0) == 0x1_0000_0000_0000_0000,
{
    reveal_with_fuel(varint_cap, 11);
    assert(varint_cap(9) == 2);
    assert(varint_cap(0) == 0x1_0000_0000_0000_0000);
}

/// A value read at the start of bytes fits in 64 bits.
pub proof fn lemma_read_varint_u64(s: Seq<u8>)
    requires
        read_varint(s) is Some,
    ensures
        read_varint(s).unwrap().0 <= u64::MAX,
        1 <= read_varint(s).unwrap().1 <= s.len(),
{
    lemma_read_varint_bounds(s, 0);
    lemma_cap_zero();
}

/// Reading back an encoded varint yields the value and the encoding's
/// length, whatever follows it.
pub proof fn lemma_varint_round_trip_from(v: nat, count: nat, rest: Seq<u8>)
    requires
        count <= 9,
        v < varint_cap(count),
    ensures
        read_varint_from(varint(v) + rest, count) == Some((v, varint(v).len())),
    decreases v,
{
    let s = varint(v) + rest;
    if v < 128 {
        assert(s[0] == v as u8);
    } else {
        if count == 9 {
            assert(varint_cap(9) == 2);
        }
        assert(count < 9);
        assert(varint_cap(count) == 128 * varint_cap(count + 1));
        assert(v / 128 < varint_cap(count + 1));
        assert(s[0] == (v % 128 + 128) as u8);
        assert(s.drop_first() =~= varint(v / 128) + rest);
        lemma_varint_round_trip_from(v / 128, count + 1, rest);
        assert((v % 128 + 128) - 128 + 128 * (v / 128) == v);
    }
}

/// Reading back an encoded 64-bit value.
pub proof fn lemma_varint_round_trip(v: u64, rest: Seq<u8>)
    ensures
        read_varint(varint(v as nat) + rest) == Some((v as nat, varint(v as nat).len())),
        1 <= varint(v as nat).len() <= 10,
{
    lemma_cap_zero();
    lemma_varint_round_trip_from(v as nat, 0, rest);
    lemma_read_varint_bounds(varint(v as nat) + rest, 0);
}

/// Appends the varint encoding of `value` (prost's `encode_varint`).
#[verifier::external_body]
pub(crate) fn put_varint(value: u64, buf: &mut Vec<u8>)
    ensures
        final(buf)@ == old(buf)@ + varint(value as nat),
{
    prost::encoding::encode_varint(value, buf)
}

/// Reads a varint at the start of `buf` (prost's `decode_varint` on a
/// slice): the value and the bytes after it, or `None` where the varint is
/// malformed.
#[verifier::external_body]
pub(crate) fn take_varint<'a>(buf: &'a [u8]) -> (r: Option<(u64, &'a [u8])>)
    ensures
        match read_varint(buf@) {
            Some((v, n)) => r matches Some((x, rest)) && x as nat == v && rest@ == buf@.skip(n as int),
            None => r is None,
        },
{
    let mut rest = buf;
    match prost::encoding::decode_varint(&mut rest) {
        Ok(v) => Some((v, rest)),
        Err(_) => None,
    }
}

// ── Failures ───────────────────────────────────────────────────────────

/// Why bytes could not be decoded.
#[derive(Debug, Clone, Copy, PartialEq, Eq)]
pub enum Failure {
    /// A varint is truncated or longer than 64 bits.
    InvalidVarint,
    /// A field key exceeds 32 bits.
    InvalidKey,
    /// A field key names wire type 6 or 7.
    InvalidWireType,
    /// A field key names field number 0.
    InvalidTag,
    /// A length or fixed-width payload runs past the end of the bytes.
    BufferUnderflow,
    /// An end-group key without its start.
    UnexpectedEndGroup,
    /// A known field arrives with the wrong wire type.
    WireTypeMismatch,
    /// Messages are nested deeper than the recursion limit.
    RecursionLimit,
    /// A string field is not valid UTF-8.
    InvalidString,
}

/// The description of a failure.
pub open spec fn failure_text(f: Failure) -> Seq<char> {
    match f {
        Failure::InvalidVarint => "invalid varint"@,
        Failure::InvalidKey => "invalid key value"@,
        Failure::InvalidWireType => "invalid wire type value"@,
        Failure::InvalidTag => "invalid tag value: 0"@,
        Failure::BufferUnderflow => "buffer underflow"@,
        Failure::UnexpectedEndGroup => "unexpected end group tag"@,
        Failure::WireTypeMismatch => "invalid wire type"@,
        Failure::RecursionLimit => "recursion limit reached"@,
        Failure::InvalidString => "invalid string value: data is not UTF-8 encoded"@,
    }
}

impl Failure {
    /// The description of the failure.
    pub fn text(self) -> (r: &'static str)
        ensures
            r@ == failure_text(self),
    {
        match self {
            Failure::InvalidVarint => "invalid varint",
            Failure::InvalidKey => "invalid key value",
            Failure::InvalidWireType => "invalid wire type value",
            Failure::InvalidTag => "invalid tag value: 0",
            Failure::BufferUnderflow => "buffer underflow",
            Failure::UnexpectedEndGroup => "unexpected end group tag",
            Failure::WireTypeMismatch => "invalid wire type",
            Failure::RecursionLimit => "recursion limit reached",
            Failure::InvalidString => "invalid string value: data is not UTF-8 encoded",
        }
    }
}

// ── Keys ───────────────────────────────────────────────────────────────

/// Reads a field key: the field number, the wire type and the bytes read.
pub open spec fn read_key(s: Seq<u8>) -> Result<(u32, u8, nat), Failure> {
    match read_varint(s) {
        None => Err(Failure::InvalidVarint),
        Some((k, n)) => if k > u32::MAX {
            Err(Failure::InvalidKey)
        } else if k % 8 > 5 {
            Err(Failure::InvalidWireType)
        } else if k / 8 == 0 {
            Err(Failure::InvalidTag)
        } else {
            Ok(((k / 8) as u32, (k % 8) as u8, n))
        },
    }
}

/// The encoding of the key of field `tag` with wire type `wt`.
pub open spec fn key_bytes(tag: u32, wt: u8) -> Seq<u8> {
    varint(tag as nat * 8 + wt as nat)
}

/// A key read back yields its field number and wire type.
pub proof fn lemma_key_round_trip(tag: u32, wt: u8, rest: Seq<u8>)
    requires
        1 <= tag < 0x2000_0000,
        wt <= 5,
    ensures
        read_key(key_bytes(tag, wt) + rest) == Ok::<(u32, u8, nat), Failure>((tag, wt, key_bytes(tag, wt).len())),
        key_bytes(tag, wt).len() >= 1,
{
    let k: u64 = (tag as nat * 8 + wt as nat) as u64;
    lemma_varint_round_trip(k, rest);
    assert(k as nat / 8 == tag as nat);
    assert(k as nat % 8 == wt as nat);
}

/// Reads a field key at the start of `buf`: the field number, the wire
/// type and the bytes after the key.
pub fn take_key<'a>(buf: &'a [u8]) -> (r: Result<(u32, u8, &'a [u8]), Failure>)
    ensures
        match read_key(buf@) {
            Ok((t, w, n)) => r matches Ok((t2, w2, rest)) && t2 == t && w2 == w && rest@ == buf@.skip(n as int),
            Err(e) => r == Err::<(u32, u8, &[u8]), Failure>(e),
        },
{
    match take_varint(buf) {
        None => Err(Failure::InvalidVarint),
        Some((k, rest)) => {
            if k > 0xffff_ffff {
                Err(Failure::InvalidKey)
            } else if k % 8 > 5 {
                Err(Failure::InvalidWireType)
            } else if k / 8 == 0 {
                Err(Failure::InvalidTag)
            } else {
                let tag: u32 = (k / 8) as u32;
                let wt: u8 = (k % 8) as u8;
                Ok((tag, wt, rest))
            }
        },
    }
}

// ── Fields ─────────────────────────────────────────────────────────────

/// The payload of a field.
pub enum WireV {
    /// Wire type 0.
    Varint(u64),
    /// Wire type 2: the delimited bytes.
    Len(Seq<u8>),
    /// Wire type 1 or 5: eight or four bytes, which no known field uses.
    Fixed,
    /// Wire type 3: a group, skipped.
    Group,
}

/// A field: its number and payload.
pub struct FieldV {
    pub tag: u32,
    pub wire: WireV,
}

/// The payload of a field of wire type `wt` and number `tag` at the start
/// of `s`, skipped: the bytes it takes. Skipping is allowed only below the
/// recursion limit (`lim > 0`); a group's fields are skipped one level
/// deeper, up to the end-group key of the same number.
pub open spec fn skip_payload(wt: u8, tag: u32, s: Seq<u8>, lim: nat) -> Result<nat, Failure>
    decreases s.len(), 1nat,
{
    if lim == 0 {
        Err(Failure::RecursionLimit)
    } else if wt == 0 {
        match read_varint(s) {
            Some((_, n)) => Ok(n),
            None => Err(Failure::InvalidVarint),
        }
    } else if wt == 1 {
        if s.len() < 8 { Err(Failure::BufferUnderflow) } else { Ok(8) }
    } else if wt == 5 {
        if s.len() < 4 { Err(Failure::BufferUnderflow) } else { Ok(4) }
    } else if wt == 2 {
        match read_varint(s) {
            Some((len, n)) => if len > s.len() - n { Err(Failure::BufferUnderflow) } else { Ok(n + len) },
            None => Err(Failure::InvalidVarint),
        }
    } else if wt == 3 {
        group_body(s, tag, (lim - 1) as nat)
    } else {
        Err(Failure::UnexpectedEndGroup)
    }
}

/// The fields of a group of number `tag`, skipped up to and including its
/// end-group key: the bytes they take.
pub open spec fn group_body(s: Seq<u8>, tag: u32, lim: nat) -> Result<nat, Failure>
    decreases s.len(), 0nat,
{
    match read_key(s) {
        Err(e) => Err(e),
        Ok((t, wt, n)) => {
            proof {
                lemma_read_varint_bounds(s, 0);
            }
            if wt == 4 {
                if t == tag { Ok(n) } else { Err(Failure::UnexpectedEndGroup) }
            } else {
                match skip_payload(wt, t, s.skip(n as int), lim) {
                    Err(e) => Err(e),
                    Ok(m) => if n + m > s.len() {
                        Err(Failure::BufferUnderflow)
                    } else {
                        match group_body(s.skip((n + m) as int), tag, lim) {
                            Ok(k) => Ok(n + m + k),
                            Err(e) => Err(e),
                        }
                    },
                }
            }
        },
    }
}

/// A skipped payload lies within the bytes.
pub proof fn lemma_skip_payload_bounds(wt: u8, tag: u32, s: Seq<u8>, lim: nat)
    requires
        skip_payload(wt, tag, s, lim) is Ok,
    ensures
        skip_payload(wt, tag, s, lim).unwrap() <= s.len(),
    decreases s.len(), 1nat,
{
    if wt == 0 || wt == 2 {
        lemma_read_varint_bounds(s, 0);
    } else if wt == 3 {
        lemma_group_body_bounds(s, tag, (lim - 1) as nat);
    }
}

/// A skipped group lies within the bytes and is not empty.
pub proof fn lemma_group_body_bounds(s: Seq<u8>, tag: u32, lim: nat)
    requires
        group_body(s, tag, lim) is Ok,
    ensures
        1 <= group_body(s, tag, lim).unwrap() <= s.len(),
    decreases s.len(), 0nat,
{
    lemma_read_varint_bounds(s, 0);
    let (t, wt, n) = read_key(s).unwrap();
    if wt != 4 {
        lemma_skip_payload_bounds(wt, t, s.skip(n as int), lim);
        let m = skip_payload(wt, t, s.skip(n as int), lim).unwrap();
        lemma_group_body_bounds(s.skip((n + m) as int), tag, lim);
    }
}

/// Reads the field at the start of `s`: its number and payload, and the
/// bytes it takes. Groups are skipped under the recursion limit `lim`; an
/// end-group key where a field starts is an error.
pub open spec fn read_field(s: Seq<u8>, lim: nat) -> Result<(FieldV, nat), Failure> {
    match read_key(s) {
        Err(e) => Err(e),
        Ok((tag, wt, n)) => {
            let r = s.skip(n as int);
            if wt == 0 {
                match read_varint(r) {
                    None => Err(Failure::InvalidVarint),
                    Some((v, m)) => Ok((FieldV { tag, wire: WireV::Varint(v as u64) }, n + m)),
                }
            } else if wt == 2 {
                match read_varint(r) {
                    None => Err(Failure::InvalidVarint),
                    Some((len, m)) => if len > r.len() - m {
                        Err(Failure::BufferUnderflow)
                    } else {
                        Ok((FieldV { tag, wire: WireV::Len(r.subrange(m as int, (m + len) as int)) }, n + m + len))
                    },
                }
            } else if wt == 1 || wt == 5 {
                if r.len() < (if wt == 1 { 8nat } else { 4nat }) {
                    Err(Failure::BufferUnderflow)
                } else {
                    Ok((FieldV { tag, wire: WireV::Fixed }, n + if wt == 1 { 8nat } else { 4nat }))
                }
            } else if wt == 3 {
                match skip_payload(3, tag, r, lim) {
                    Err(e) => Err(e),
                    Ok(m) => Ok((FieldV { tag, wire: WireV::Group }, n + m)),
                }
            } else {
                Err(Failure::UnexpectedEndGroup)
            }
        },
    }
}

/// A field read lies within the bytes and is not empty.
pub proof fn lemma_read_field_bounds(s: Seq<u8>, lim: nat)
    requires
        read_field(s, lim) is Ok,
    ensures
        1 <= read_field(s, lim).unwrap().1 <= s.len(),
{
    lemma_read_varint_bounds(s, 0);
    let (tag, wt, n) = read_key(s).unwrap();
    let r = s.skip(n as int);
    if wt == 0 || wt == 2 {
        lemma_read_varint_bounds(r, 0);
    } else if wt == 3 {
        lemma_skip_payload_bounds(3, tag, r, lim);
    }
}

/// An exec field payload.
pub enum Wire<'a> {
    Varint(u64),
    Len(&'a [u8]),
    Fixed,
    Group,
}

/// An exec field.
pub struct Field<'a> {
    pub tag: u32,
    pub wire: Wire<'a>,
}

/// The view of a field payload.
pub open spec fn wire_view(w: Wire) -> WireV {
    match w {
        Wire::Varint(v) => WireV::Varint(v),
        Wire::Len(b) => WireV::Len(b@),
        Wire::Fixed => WireV::Fixed,
        Wire::Group => WireV::Group,
    }
}

/// The view of a field.
pub open spec fn field_view(f: Field) -> FieldV {
    FieldV { tag: f.tag, wire: wire_view(f.wire) }
}

/// Splits `buf` after its first `n` bytes.
fn split<'a>(buf: &'a [u8], n: usize) -> (r: (&'a [u8], &'a [u8]))
    requires
        n <= buf@.len(),
    ensures
        r.0@ == buf@.subrange(0, n as int),
        r.1@ == buf@.skip(n as int),
{
    let a = vstd::slice::slice_subrange(buf, 0, n);
    let b = vstd::slice::slice_subrange(buf, n, buf.len());
    (a, b)
}

/// Skips the payload of a field (see [`skip_payload`]): the bytes after it.
pub fn take_skipped<'a>(wt: u8, tag: u32, buf: &'a [u8], lim: u32) -> (r: Result<&'a [u8], Failure>)
    ensures
        match skip_payload(wt, tag, buf@, lim as nat) {
            Ok(n) => r matches Ok(rest) && rest@ == buf@.skip(n as int),
            Err(e) => r == Err::<&[u8], Failure>(e),
        },
    decreases buf@.len(), 1nat,
{
    if lim == 0 {
        Err(Failure::RecursionLimit)
    } else if wt == 0 {
        match take_varint(buf) {
            Some((_, rest)) => Ok(rest),
            None => Err(Failure::InvalidVarint),
        }
    } else if wt == 1 {
        if buf.len() < 8 {
            Err(Failure::BufferUnderflow)
        } else {
            Ok(split(buf, 8).1)
        }
    } else if wt == 5 {
        if buf.len() < 4 {
            Err(Failure::BufferUnderflow)
        } else {
            Ok(split(buf, 4).1)
        }
    } else if wt == 2 {
        match take_varint(buf) {
            Some((len, rest)) => {
                proof {
                    lemma_read_varint_u64(buf@);
                }
                if len > rest.len() as u64 {
                    Err(Failure::BufferUnderflow)
                } else {
                    proof {
                        assert(rest@.skip(len as int) =~= buf@.skip(read_varint(buf@).unwrap().1 + len));
                    }
                    Ok(split(rest, len as usize).1)
                }
            },
            None => Err(Failure::InvalidVarint),
        }
    } else if wt == 3 {
        take_group(buf, tag, lim - 1)
    } else {
        Err(Failure::UnexpectedEndGroup)
    }
}

/// Skips the fields of a group up to its end-group key (see
/// [`group_body`]): the bytes after it.
pub fn take_group<'a>(buf: &'a [u8], tag: u32, lim: u32) -> (r: Result<&'a [u8], Failure>)
    ensures
        match group_body(buf@, tag, lim as nat) {
            Ok(n) => r matches Ok(rest) && rest@ == buf@.skip(n as int),
            Err(e) => r == Err::<&[u8], Failure>(e),
        },
    decreases buf@.len(), 0nat,
{
    match take_key(buf) {
        Err(e) => Err(e),
        Ok((t, wt, rest)) => {
            proof {
                lemma_read_varint_bounds(buf@, 0);
            }
            if wt == 4 {
                if t == tag {
                    Ok(rest)
                } else {
                    Err(Failure::UnexpectedEndGroup)
                }
            } else {
                match take_skipped(wt, t, rest, lim) {
                    Err(e) => Err(e),
                    Ok(rest2) => {
                        proof {
                            let n = read_key(buf@).unwrap().2;
                            lemma_skip_payload_bounds(wt, t, buf@.skip(n as int), lim as nat);
                            let m = skip_payload(wt, t, buf@.skip(n as int), lim as nat).unwrap();
                            assert(rest2@ =~= buf@.skip((n + m) as int));
                        }
                        let r = take_group(rest2, tag, lim);
                        proof {
                            let n = read_key(buf@).unwrap().2;
                            let m = skip_payload(wt, t, buf@.skip(n as int), lim as nat).unwrap();
                            if let Ok(k) = group_body(buf@.skip((n + m) as int), tag, lim as nat) {
                                lemma_group_body_bounds(buf@.skip((n + m) as int), tag, lim as nat);
                                assert(buf@.skip((n + m) as int).skip(k as int) =~= buf@.skip((n + m + k) as int));
                            }
                        }
                        r
                    },
                }
            }
        },
    }
}

/// Reads the field at the start of `buf` (see [`read_field`]): the field
/// and the bytes after it.
pub fn take_field<'a>(buf: &'a [u8], lim: u32) -> (r: Result<(Field<'a>, &'a [u8]), Failure>)
    ensures
        match read_field(buf@, lim as nat) {
            Ok((f, n)) => r matches Ok((g, rest)) && field_view(g) == f && rest@ == buf@.skip(n as int),
            Err(e) => r is Err && r->Err_0 == e,
        },
{
    match take_key(buf) {
        Err(e) => Err(e),
        Ok((tag, wt, r)) => {
            let ghost n = read_key(buf@).unwrap().2;
            proof {
                lemma_read_varint_bounds(buf@, 0);
            }
            if wt == 0 {
                match take_varint(r) {
                    None => Err(Failure::InvalidVarint),
                    Some((v, rest)) => {
                        proof {
                            lemma_read_varint_u64(r@);
                            assert(rest@ =~= buf@.skip((n + read_varint(r@).unwrap().1) as int));
                        }
                        Ok((Field { tag, wire: Wire::Varint(v) }, rest))
                    },
                }
            } else if wt == 2 {
                match take_varint(r) {
                    None => Err(Failure::InvalidVarint),
                    Some((len, rest)) => {
                        proof {
                            lemma_read_varint_u64(r@);
                        }
                        if len > rest.len() as u64 {
                            Err(Failure::BufferUnderflow)
                        } else {
                            let (body, after) = split(rest, len as usize);
                            proof {
                                let m = read_varint(r@).unwrap().1;
                                assert(body@ =~= r@.subrange(m as int, (m + len) as int));
                                assert(after@ =~= buf@.skip((n + m + len) as int));
                            }
                            Ok((Field { tag, wire: Wire::Len(body) }, after))
                        }
                    },
                }
            } else if wt == 1 || wt == 5 {
                let width: usize = if wt == 1 { 8 } else { 4 };
                if r.len() < width {
                    Err(Failure::BufferUnderflow)
                } else {
                    let after = split(r, width).1;
                    proof {
                        assert(after@ =~= buf@.skip((n + width) as int));
                    }
                    Ok((Field { tag, wire: Wire::Fixed }, after))
                }
            } else if wt == 3 {
                match take_skipped(3, tag, r, lim) {
                    Err(e) => Err(e),
                    Ok(after) => {
                        proof {
                            let m = skip_payload(3, tag, r@, lim as nat).unwrap();
                            lemma_skip_payload_bounds(3, tag, r@, lim as nat);
                            assert(after@ =~= buf@.skip((n + m) as int));
                        }
                        Ok((Field { tag, wire: Wire::Group }, after))
                    },
                }
            } else {
                Err(Failure::UnexpectedEndGroup)
            }
        },
    }
}

} // verus!
