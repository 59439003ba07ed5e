//! Plugin-specific element data carried in plugin fragments.
use vstd::prelude::*;

verus! {

/// Hydration data of one element for the FAST plugin.
#[derive(Debug, Clone, Copy, PartialEq, Eq)]
pub struct FastElementData {
    /// Number of binding attributes on the element.
    pub binding_count: u32,
}

/// Little-endian bytes of a 32-bit value.
pub open spec fn u32_le_bytes(v: u32) -> Seq<u8> {
    seq![(v % 256) as u8, ((v / 256) % 256) as u8, ((v / 65536) % 256) as u8, ((v / 16777216) % 256) as u8]
}

impl FastElementData {
    /// The element data as bytes: the binding count, little-endian.
    pub fn encode(&self) -> (r: Vec<u8>)
        ensures
            r@ == u32_le_bytes(self.binding_count),
    {
        let v = self.binding_count;
        let mut out = Vec::new();
        out.push((v % 256) as u8);
        out.push(((v / 256) % 256) as u8);
        out.push(((v / 65536) % 256) as u8);
        out.push(((v / 16777216) % 256) as u8);
        assert(out@ =~= u32_le_bytes(v));
        out
    }

    /// Element data from its bytes, when there are exactly four.
    pub fn decode(bytes: &[u8]) -> (r: Option<FastElementData>)
        ensures
            bytes@.len() == 4 ==> (r matches Some(d) && u32_le_bytes(d.binding_count) == bytes@),
            bytes@.len() != 4 ==> r is None,
    {
        if bytes.len() != 4 {
            return None;
        }
        let v: u32 = bytes[0] as u32 + (bytes[1] as u32) * 256 + (bytes[2] as u32) * 65536 + (bytes[3] as u32) * 16777216;
        let d = FastElementData { binding_count: v };
        proof {
            let b0 = bytes@[0];
            let b1 = bytes@[1];
            let b2 = bytes@[2];
            let b3 = bytes@[3];
            assert(v % 256 == b0) by (nonlinear_arith)
                requires v == b0 + b1 * 256 + b2 * 65536 + b3 * 16777216, b0 < 256, b1 < 256, b2 < 256, b3 < 256;
            assert((v / 256) % 256 == b1) by (nonlinear_arith)
                requires v == b0 + b1 * 256 + b2 * 65536 + b3 * 16777216, b0 < 256, b1 < 256, b2 < 256, b3 < 256;
            assert((v / 65536) % 256 == b2) by (nonlinear_arith)
                requires v == b0 + b1 * 256 + b2 * 65536 + b3 * 16777216, b0 < 256, b1 < 256, b2 < 256, b3 < 256;
            assert((v / 16777216) % 256 == b3) by (nonlinear_arith)
                requires v == b0 + b1 * 256 + b2 * 65536 + b3 * 16777216, b0 < 256, b1 < 256, b2 < 256, b3 < 256;
            assert(u32_le_bytes(v) =~= bytes@);
        }
        Some(d)
    }
}

} // verus!

verus! {

/// The value is recovered from its little-endian bytes: two element data
/// with the same encoding have the same binding count.
pub proof fn lemma_u32_le_bytes_injective(a: u32, b: u32)
    requires
        u32_le_bytes(a) == u32_le_bytes(b),
    ensures
        a == b,
{
    assert(u32_le_bytes(a)[0] == u32_le_bytes(b)[0]);
    assert(u32_le_bytes(a)[1] == u32_le_bytes(b)[1]);
    assert(u32_le_bytes(a)[2] == u32_le_bytes(b)[2]);
    assert(u32_le_bytes(a)[3] == u32_le_bytes(b)[3]);
    assert(a == a % 256 + ((a / 256) % 256) * 256 + ((a / 65536) % 256) * 65536 + ((a / 16777216) % 256) * 16777216)
        by (nonlinear_arith) requires a < 4294967296;
    assert(b == b % 256 + ((b / 256) % 256) * 256 + ((b / 65536) % 256) * 65536 + ((b / 16777216) % 256) * 16777216)
        by (nonlinear_arith) requires b < 4294967296;
}

} // verus!
