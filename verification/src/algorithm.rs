//! The description of a CRC variant.

use vstd::prelude::*;

verus! {

/// The parameters of a 32-bit CRC variant.
///
/// `poly` is the generator polynomial, right-aligned in a register of
/// `width` bits; `init` is the register value before any input, as the
/// algorithm states it (before any reflection); `refin` and `refout` choose
/// LSB-first processing of input bytes and of the final register; `xorout`
/// is XORed into the final result.
///
/// The engine is instantiated for a 32-bit native register, so `width` must
/// lie between 1 and 32.  Values of `poly`, `init` or `xorout` wider than
/// `width` bits are not rejected: they produce a mathematically consistent
/// but non-standard checksum.
#[derive(Clone, Copy, Debug)]
pub struct Algorithm {
    pub width: u8,
    pub poly: u32,
    pub init: u32,
    pub refin: bool,
    pub refout: bool,
    pub xorout: u32,
}

impl Algorithm {
    /// A well-formed description: the checksum width fits the 32-bit
    /// register of this engine instantiation.
    pub open spec fn wf(self) -> bool {
        1 <= self.width <= 32
    }
}

/// `x` has no set bits at position `width` or above.  For `width == 32`
/// every word qualifies.
pub open spec fn fits_width(x: u32, width: u8) -> bool {
    x >> (width as u32) == 0
}

} // verus!
