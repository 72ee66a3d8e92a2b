use vstd::prelude::*;

verus! {

/// Order key of a coordinate bit pattern.
///
/// Coordinates travel through this library as the raw 32-bit patterns of the
/// single-precision values stored in mesh files.  `spec_coord_key` maps such
/// a pattern to an unsigned key whose `u32` order agrees with the numeric
/// order of the encoded values: patterns with the top bit set (negative
/// values) are reversed and placed first, the rest keep their order above
/// them.  The two encodings of zero remain distinct patterns; the negative
/// one orders immediately below the positive one.
pub open spec fn spec_coord_key(bits: u32) -> u32 {
    if bits >= 0x8000_0000 {
        (0xFFFF_FFFF - bits) as u32
    } else {
        (bits + 0x8000_0000) as u32
    }
}

/// `a` is at or below `b` in the coordinate order.
pub open spec fn coord_le(a: u32, b: u32) -> bool {
    spec_coord_key(a) <= spec_coord_key(b)
}

/// Computes the order key of a coordinate bit pattern.
pub fn coord_key(bits: u32) -> (r: u32)
    ensures
        r == spec_coord_key(bits),
{
    if bits >= 0x8000_0000 {
        0xFFFF_FFFF - bits
    } else {
        bits + 0x8000_0000
    }
}

/// Decides whether `a` is at or below `b` in the coordinate order.
pub fn coord_le_exec(a: u32, b: u32) -> (r: bool)
    ensures
        r == coord_le(a, b),
{
    coord_key(a) <= coord_key(b)
}

/// The key is injective, so the coordinate order is antisymmetric on bit
/// patterns.
pub proof fn lemma_coord_le_antisym(a: u32, b: u32)
    requires
        coord_le(a, b),
        coord_le(b, a),
    ensures
        a == b,
{
}

} // verus!
