//! Word-level helpers shared by the mixers.

use vstd::prelude::*;

verus! {

/// Left rotation of a 64-bit word by `k` bits, for `0 < k < 64`: the bits
/// shifted out at the top come back in at the bottom.
pub open spec fn rotl(x: u64, k: u64) -> u64
    recommends
        0 < k < 64,
{
    (x << k) | (x >> ((64 - k) as u64))
}

/// Rotates `x` left by `k` bits.
pub fn rotate_left(x: u64, k: u64) -> (r: u64)
    requires
        0 < k < 64,
    ensures
        r == rotl(x, k),
{
    (x << k) | (x >> (64 - k))
}

/// The rotations the mixers use, in integer terms: rotating by `k` moves
/// the low `64 - k` bits up by `k` places and the high `k` bits down to the
/// bottom.
pub proof fn lemma_rotl_integer(x: u64)
    ensures
        rotl(x, 13) == (x * 0x2000) % 0x1_0000_0000_0000_0000 + x / 0x8_0000_0000_0000,
        rotl(x, 16) == (x * 0x1_0000) % 0x1_0000_0000_0000_0000 + x / 0x1_0000_0000_0000,
        rotl(x, 17) == (x * 0x2_0000) % 0x1_0000_0000_0000_0000 + x / 0x8000_0000_0000,
        rotl(x, 21) == (x * 0x20_0000) % 0x1_0000_0000_0000_0000 + x / 0x800_0000_0000,
        rotl(x, 32) == (x * 0x1_0000_0000) % 0x1_0000_0000_0000_0000 + x / 0x1_0000_0000,
{
    assert((x << 13u64) | (x >> 51u64) == (x * 0x2000) % 0x1_0000_0000_0000_0000 + x
        / 0x8_0000_0000_0000) by (bit_vector);
    assert((x << 16u64) | (x >> 48u64) == (x * 0x1_0000) % 0x1_0000_0000_0000_0000 + x
        / 0x1_0000_0000_0000) by (bit_vector);
    assert((x << 17u64) | (x >> 47u64) == (x * 0x2_0000) % 0x1_0000_0000_0000_0000 + x
        / 0x8000_0000_0000) by (bit_vector);
    assert((x << 21u64) | (x >> 43u64) == (x * 0x20_0000) % 0x1_0000_0000_0000_0000 + x
        / 0x800_0000_0000) by (bit_vector);
    assert((x << 32u64) | (x >> 32u64) == (x * 0x1_0000_0000) % 0x1_0000_0000_0000_0000 + x
        / 0x1_0000_0000) by (bit_vector);
}

} // verus!
