//! The lookup table: one entry per byte value, each the partial CRC
//! contribution of that byte, derived from (width, poly, refin) alone.

use vstd::prelude::*;

use crate::bits::lemma_rev32_shl;
use crate::bits::rev32;
use crate::bits::reverse_bits;

verus! {

/// The generator polynomial aligned for the register convention chosen by
/// `refin`: bit-reversed and right-aligned for LSB-first processing,
/// left-aligned to the top of the 32-bit register otherwise.
pub open spec fn aligned_poly(width: u8, poly: u32, refin: bool) -> u32 {
    if refin {
        rev32(poly) >> ((32 - width) as u32)
    } else {
        poly << ((32 - width) as u32)
    }
}

/// The register value a byte `i` starts from when its table entry is built:
/// right-aligned as it stands for LSB-first processing, placed in the top
/// byte of the register otherwise.
pub open spec fn entry_seed(refin: bool, i: u32) -> u32 {
    if refin {
        i
    } else {
        i << 24u32
    }
}

/// One shift/XOR division step on the register `v`: shift towards the bit
/// that falls out (right for LSB-first, left otherwise) and XOR the aligned
/// polynomial in when the dropped bit was set.
pub open spec fn step(poly: u32, refin: bool, v: u32) -> u32 {
    if refin {
        (v >> 1u32) ^ (if v & 1 == 1 {
            poly
        } else {
            0u32
        })
    } else {
        (v << 1u32) ^ (if (v >> 31u32) & 1 == 1 {
            poly
        } else {
            0u32
        })
    }
}

/// `n` division steps applied to `v`.
pub open spec fn steps(poly: u32, refin: bool, v: u32, n: nat) -> u32
    decreases n,
{
    if n == 0 {
        v
    } else {
        step(poly, refin, steps(poly, refin, v, (n - 1) as nat))
    }
}

/// The table entry for byte value `i`: the byte divided through eight
/// shift/XOR steps by the aligned polynomial.
pub open spec fn table_entry_spec(width: u8, poly: u32, refin: bool, i: u32) -> u32 {
    steps(aligned_poly(width, poly, refin), refin, entry_seed(refin, i), 8)
}

/// The whole 256-entry table for an algorithm's (width, poly, refin).
pub open spec fn table_spec(width: u8, poly: u32, refin: bool) -> Seq<u32> {
    Seq::new(256, |i: int| table_entry_spec(width, poly, refin, i as u32))
}

/// Builds the 256-entry lookup table for the given parameters.  Pure and
/// deterministic: two builds from equal parameters are identical.
pub fn crc32_table(width: u8, poly: u32, refin: bool) -> (t: Vec<u32>)
    requires
        1 <= width <= 32,
    ensures
        t@ == table_spec(width, poly, refin),
{
    let aligned: u32 = if refin {
        reverse_bits(poly) >> ((32u8 - width) as u32)
    } else {
        poly << ((32u8 - width) as u32)
    };
    let mut t: Vec<u32> = Vec::new();
    let mut i: usize = 0;
    while i < 256
        invariant
            i <= 256,
            t@.len() == i,
            aligned == aligned_poly(width, poly, refin),
            forall|j: int|
                0 <= j < i ==> t@[j] == table_entry_spec(width, poly, refin, j as u32),
        decreases 256 - i,
    {
        let seed: u32 = if refin {
            i as u32
        } else {
            (i as u32) << 24
        };
        let mut v: u32 = seed;
        let mut k: usize = 0;
        while k < 8
            invariant
                k <= 8,
                aligned == aligned_poly(width, poly, refin),
                seed == entry_seed(refin, i as u32),
                v == steps(aligned, refin, seed, k as nat),
            decreases 8 - k,
        {
            if refin {
                v = (v >> 1) ^ (if v & 1 == 1 {
                    aligned
                } else {
                    0u32
                });
            } else {
                v = (v << 1) ^ (if (v >> 31) & 1 == 1 {
                    aligned
                } else {
                    0u32
                });
            }
            k = k + 1;
        }
        t.push(v);
        i = i + 1;
    }
    proof {
        assert(t@ =~= table_spec(width, poly, refin));
    }
    t
}

/// One division step commutes with bit reversal: an LSB-first step with
/// the reversed polynomial, applied to the reversed register, is the
/// reversal of an MSB-first step.
proof fn lemma_step_reflect(p: u32, v: u32)
    ensures
        step(rev32(p), true, rev32(v)) == rev32(step(p, false, v)),
{
    assert(step(rev32(p), true, rev32(v)) == rev32(step(p, false, v))) by (bit_vector);
}

proof fn lemma_steps_reflect(p: u32, v: u32, n: nat)
    ensures
        steps(rev32(p), true, rev32(v), n) == rev32(steps(p, false, v, n)),
    decreases n,
{
    if n > 0 {
        lemma_steps_reflect(p, v, (n - 1) as nat);
        lemma_step_reflect(p, steps(p, false, v, (n - 1) as nat));
    }
}

/// Reflection symmetry of the two table-builder variants: for the same
/// polynomial, the LSB-first table holds at the bit-reversed index the bit
/// reversal of what the MSB-first table holds at `i`.  The two code paths
/// are images of each other under `rev32`.
pub proof fn lemma_reflection_symmetry(width: u8, poly: u32, i: u32)
    requires
        1 <= width <= 32,
        i < 256,
    ensures
        table_entry_spec(width, poly, true, rev32(i << 24u32)) == rev32(
            table_entry_spec(width, poly, false, i),
        ),
{
    lemma_rev32_shl(poly, (32 - width) as u32);
    lemma_steps_reflect(aligned_poly(width, poly, false), entry_seed(false, i), 8);
}

proof fn lemma_steps_top_aligned(p: u32, w: u32, seed: u32, k: u32)
    requires
        w <= 32,
        k <= 8,
        p << w == 0,
        (seed << w) << 8u32 == 0,
    ensures
        (steps(p, false, seed, k as nat) << w) << ((8 - k) as u32) == 0,
    decreases k,
{
    if k > 0 {
        lemma_steps_top_aligned(p, w, seed, (k - 1) as u32);
        let v = steps(p, false, seed, (k - 1) as nat);
        let v2 = steps(p, false, seed, k as nat);
        assert(v2 == step(p, false, v));
        let j: u32 = (8 - k) as u32;
        let j1: u32 = (9 - k) as u32;
        assert((v2 << w) << j == 0) by (bit_vector)
            requires
                v2 == (v << 1u32) ^ (if (v >> 31u32) & 1 == 1 {
                    p
                } else {
                    0u32
                }),
                (v << w) << j1 == 0,
                p << w == 0,
                j1 == j + 1,
                j < 8,
                w <= 32,
        ;
    }
}

/// Every MSB-first table entry keeps its set bits in the top `width` bits
/// of the register: the seed byte is wholly divided out after the eight
/// steps, and each step folds in the top-aligned polynomial.
pub proof fn lemma_entry_top_aligned(width: u8, poly: u32, i: u32)
    requires
        1 <= width <= 32,
    ensures
        table_entry_spec(width, poly, false, i) << (width as u32) == 0,
{
    let w: u32 = width as u32;
    let k: u32 = (32 - width) as u32;
    let p = aligned_poly(width, poly, false);
    let seed = entry_seed(false, i);
    assert(p << w == 0) by (bit_vector)
        requires
            p == poly << k,
            k == 32 - w,
            1 <= w <= 32,
    ;
    assert((seed << w) << 8u32 == 0) by (bit_vector)
        requires
            seed == i << 24u32,
    ;
    lemma_steps_top_aligned(p, w, seed, 8);
    let e = steps(p, false, seed, 8);
    assert(e << w == 0) by (bit_vector)
        requires
            (e << w) << ((8 - 8u32) as u32) == 0,
    ;
}

proof fn lemma_steps_low_fits(p: u32, w: u32, seed: u32, k: u32)
    requires
        w <= 32,
        k <= 8,
        p >> w == 0,
        (seed >> w) >> 8u32 == 0,
    ensures
        (steps(p, true, seed, k as nat) >> w) >> ((8 - k) as u32) == 0,
    decreases k,
{
    if k > 0 {
        lemma_steps_low_fits(p, w, seed, (k - 1) as u32);
        let v = steps(p, true, seed, (k - 1) as nat);
        let v2 = steps(p, true, seed, k as nat);
        assert(v2 == step(p, true, v));
        let j: u32 = (8 - k) as u32;
        let j1: u32 = (9 - k) as u32;
        assert((v2 >> w) >> j == 0) by (bit_vector)
            requires
                v2 == (v >> 1u32) ^ (if v & 1 == 1 {
                    p
                } else {
                    0u32
                }),
                (v >> w) >> j1 == 0,
                p >> w == 0,
                j1 == j + 1,
                j < 8,
                w <= 32,
        ;
    }
}

/// Every LSB-first table entry keeps its set bits in the low `width` bits
/// of the register: the seed byte is wholly divided out after the eight
/// steps, and each step folds in the right-aligned reversed polynomial.
pub proof fn lemma_entry_reflected_fits(width: u8, poly: u32, i: u32)
    requires
        1 <= width <= 32,
        i < 256,
    ensures
        table_entry_spec(width, poly, true, i) >> (width as u32) == 0,
{
    let w: u32 = width as u32;
    let k: u32 = (32 - width) as u32;
    let rp = rev32(poly);
    let p = aligned_poly(width, poly, true);
    let seed = entry_seed(true, i);
    assert(p >> w == 0) by (bit_vector)
        requires
            p == rp >> k,
            k == 32 - w,
            w <= 32,
    ;
    assert((seed >> w) >> 8u32 == 0) by (bit_vector)
        requires
            seed < 256,
    ;
    lemma_steps_low_fits(p, w, seed, 8);
    let e = steps(p, true, seed, 8);
    assert(e >> w == 0) by (bit_vector)
        requires
            (e >> w) >> ((8 - 8u32) as u32) == 0,
    ;
}

} // verus!
