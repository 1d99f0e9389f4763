//! Big-endian encoding of the 32-bit length fields used throughout the
//! SSH wire format.

use vstd::prelude::*;

verus! {

/// The unsigned value carried by a 4-byte big-endian length field.
pub open spec fn be32(s: Seq<u8>) -> int
    recommends
        s.len() == 4,
{
    s[0] * 0x1000000 + s[1] * 0x10000 + s[2] * 0x100 + s[3]
}

/// The 4-byte big-endian encoding of a 32-bit value.
pub open spec fn be32_bytes(x: u32) -> Seq<u8> {
    seq![
        (x / 0x1000000) as u8,
        ((x / 0x10000) % 0x100) as u8,
        ((x / 0x100) % 0x100) as u8,
        (x % 0x100) as u8,
    ]
}

/// Encoding a value and reading it back is the identity.
pub proof fn lemma_be32_roundtrip(x: u32)
    ensures
        be32_bytes(x).len() == 4,
        be32(be32_bytes(x)) == x,
{
}

/// A length field always decodes to a 32-bit value.
pub proof fn lemma_be32_bounds(s: Seq<u8>)
    requires
        s.len() == 4,
    ensures
        0 <= be32(s) <= u32::MAX,
{
}

/// Reads a 4-byte big-endian length field.
pub fn u32_from_be(b0: u8, b1: u8, b2: u8, b3: u8) -> (x: u32)
    ensures
        x == be32(seq![b0, b1, b2, b3]),
{
    (b0 as u32) * 0x1000000 + (b1 as u32) * 0x10000 + (b2 as u32) * 0x100 + (b3 as u32)
}

/// Writes a value as a 4-byte big-endian length field.
pub fn u32_to_be(x: u32) -> (s: Vec<u8>)
    ensures
        s@ == be32_bytes(x),
        s@.len() == 4,
{
    let mut s: Vec<u8> = Vec::new();
    s.push((x / 0x1000000) as u8);
    s.push(((x / 0x10000) % 0x100) as u8);
    s.push(((x / 0x100) % 0x100) as u8);
    s.push((x % 0x100) as u8);
    proof {
        assert(s@ =~= be32_bytes(x));
    }
    s
}

} // verus!
