//! Bit-reversal of a 32-bit register, the transform behind the `refin` and
//! `refout` flags of an algorithm description.

use vstd::prelude::*;

verus! {

/// The 32 bits of `x` in reverse order: bit 0 of the result is bit 31 of
/// `x`, bit 1 is bit 30, and so on.  Written as the usual exchange network —
/// adjacent bits, then pairs, nibbles, bytes and half-words — so that the
/// bit-vector solver can unfold it.
pub open spec fn rev32(x: u32) -> u32 {
    let pairs = ((x & 0x5555_5555) << 1u32) | ((x >> 1u32) & 0x5555_5555);
    let nibbles = ((pairs & 0x3333_3333) << 2u32) | ((pairs >> 2u32) & 0x3333_3333);
    let bytes = ((nibbles & 0x0f0f_0f0f) << 4u32) | ((nibbles >> 4u32) & 0x0f0f_0f0f);
    let halves = ((bytes & 0x00ff_00ff) << 8u32) | ((bytes >> 8u32) & 0x00ff_00ff);
    (halves << 16u32) | (halves >> 16u32)
}

/// Reverses the order of the 32 bits of `x`.
pub fn reverse_bits(x: u32) -> (r: u32)
    ensures
        r == rev32(x),
{
    let pairs: u32 = ((x & 0x5555_5555) << 1) | ((x >> 1) & 0x5555_5555);
    let nibbles: u32 = ((pairs & 0x3333_3333) << 2) | ((pairs >> 2) & 0x3333_3333);
    let bytes: u32 = ((nibbles & 0x0f0f_0f0f) << 4) | ((nibbles >> 4) & 0x0f0f_0f0f);
    let halves: u32 = ((bytes & 0x00ff_00ff) << 8) | ((bytes >> 8) & 0x00ff_00ff);
    (halves << 16) | (halves >> 16)
}

/// Reversing a word shifted left by `k` is the reversed word shifted right
/// by `k`.
pub proof fn lemma_rev32_shl(x: u32, k: u32)
    requires
        k < 32,
    ensures
        rev32(x << k) == rev32(x) >> k,
{
    assert(rev32(x << k) == rev32(x) >> k) by (bit_vector)
        requires
            k < 32,
    ;
}

/// A word whose set bits all lie in the top `w` positions reverses to a word
/// whose set bits all lie in the bottom `w` positions.
pub proof fn lemma_rev32_top_to_low(x: u32, w: u32)
    requires
        x << w == 0,
    ensures
        rev32(x) >> w == 0,
{
    assert(x << w == 0 ==> rev32(x) >> w == 0) by (bit_vector);
}

} // verus!
