//! The CRC engine: an algorithm description paired with its lookup table,
//! driven through the three phases init, update and finalize.

use vstd::prelude::*;

use crate::algorithm::Algorithm;
use crate::algorithm::fits_width;
use crate::bits::lemma_rev32_top_to_low;
use crate::bits::rev32;
use crate::bits::reverse_bits;
use crate::table::crc32_table;
use crate::table::table_entry_spec;
use crate::table::table_spec;

verus! {

/// The external initial value brought into the internal register form: for
/// LSB-first processing the bits are reversed and right-aligned to the low
/// `width` bits, otherwise the value is left-aligned to the top of the
/// register.
pub open spec fn init_spec(alg: Algorithm, initial: u32) -> u32 {
    if alg.refin {
        rev32(initial) >> ((32 - alg.width) as u32)
    } else {
        initial << ((32 - alg.width) as u32)
    }
}

/// The register after one input byte, the standard table-driven step: for
/// LSB-first processing the table is looked up at the byte XORed with the
/// register's low byte and the entry folded into the register shifted down
/// one byte; otherwise at the byte XORed with the register's top byte, the
/// entry folded into the register shifted up one byte.
pub open spec fn update_byte_spec(alg: Algorithm, crc: u32, b: u8) -> u32 {
    if alg.refin {
        let index = (crc ^ (b as u32)) & 0xff;
        table_entry_spec(alg.width, alg.poly, alg.refin, index) ^ (crc >> 8u32)
    } else {
        let index = ((crc >> 24u32) ^ (b as u32)) & 0xff;
        table_entry_spec(alg.width, alg.poly, alg.refin, index) ^ (crc << 8u32)
    }
}

/// The register after a whole byte sequence, processed strictly in order.
pub open spec fn update_spec(alg: Algorithm, crc: u32, bytes: Seq<u8>) -> u32
    decreases bytes.len(),
{
    if bytes.len() == 0 {
        crc
    } else {
        update_byte_spec(alg, update_spec(alg, crc, bytes.drop_last()), bytes.last())
    }
}

/// The final register brought back to external form: reversed when the
/// input and output reflection flags disagree, right-aligned when the
/// output is not reflected, and XORed with the output mask.
pub open spec fn finalize_spec(alg: Algorithm, crc: u32) -> u32 {
    let reflected = if alg.refin != alg.refout {
        rev32(crc)
    } else {
        crc
    };
    let lowered = if !alg.refout {
        reflected >> ((32 - alg.width) as u32)
    } else {
        reflected
    };
    lowered ^ alg.xorout
}

/// The one-shot checksum of a byte sequence: init, update, finalize.
pub open spec fn checksum_spec(alg: Algorithm, bytes: Seq<u8>) -> u32 {
    finalize_spec(alg, update_spec(alg, init_spec(alg, alg.init), bytes))
}

/// A CRC engine: one algorithm description together with the lookup table
/// built from it.  Immutable once constructed.
pub struct Crc {
    algorithm: Algorithm,
    table: Vec<u32>,
}

impl Crc {
    /// The algorithm description this engine was built from.
    pub closed spec fn alg(self) -> Algorithm {
        self.algorithm
    }

    /// The contents of the engine's lookup table.
    pub closed spec fn table_view(self) -> Seq<u32> {
        self.table@
    }

    /// A well-formed engine: a width that fits the register, and the table
    /// that belongs to the algorithm description.
    pub closed spec fn wf(self) -> bool {
        &&& self.algorithm.wf()
        &&& self.table@ == table_spec(self.algorithm.width, self.algorithm.poly, self.algorithm.refin)
    }

    /// Builds the engine for an algorithm description.
    pub fn new(algorithm: &Algorithm) -> (r: Crc)
        requires
            algorithm.wf(),
        ensures
            r.wf(),
            r.alg() == *algorithm,
    {
        let table = crc32_table(algorithm.width, algorithm.poly, algorithm.refin);
        Crc { algorithm: *algorithm, table }
    }

    /// One-shot checksum of `bytes` under this engine's algorithm.
    pub fn checksum(&self, bytes: &[u8]) -> (r: u32)
        requires
            self.wf(),
        ensures
            r == checksum_spec(self.alg(), bytes@),
    {
        let mut crc = self.init(self.algorithm.init);
        crc = self.update(crc, bytes);
        self.finalize(crc)
    }

    /// Converts an external initial value into the internal register form.
    pub fn init(&self, initial: u32) -> (r: u32)
        requires
            self.wf(),
        ensures
            r == init_spec(self.alg(), initial),
    {
        if self.algorithm.refin {
            reverse_bits(initial) >> ((32u8 - self.algorithm.width) as u32)
        } else {
            initial << ((32u8 - self.algorithm.width) as u32)
        }
    }

    /// The table entry for the low 8 bits of `index`.
    pub fn table_entry(&self, index: u32) -> (r: u32)
        requires
            self.wf(),
        ensures
            r == table_entry_spec(self.alg().width, self.alg().poly, self.alg().refin, index & 0xff),
    {
        proof {
            assert(index & 0xff < 256) by (bit_vector);
        }
        self.table[(index & 0xff) as usize]
    }

    /// Advances the register over `bytes`, one table lookup and one
    /// shift/XOR pair per byte, strictly in input order.
    pub fn update(&self, crc: u32, bytes: &[u8]) -> (r: u32)
        requires
            self.wf(),
        ensures
            r == update_spec(self.alg(), crc, bytes@),
    {
        let ghost crc0: u32 = crc;
        let mut crc = crc;
        let mut i: usize = 0;
        while i < bytes.len()
            invariant
                self.wf(),
                i <= bytes@.len(),
                crc == update_spec(self.alg(), crc0, bytes@.take(i as int)),
            decreases bytes@.len() - i,
        {
            let b: u32 = bytes[i] as u32;
            let ghost before = crc;
            if self.algorithm.refin {
                crc = self.table_entry(crc ^ b) ^ (crc >> 8);
            } else {
                crc = self.table_entry((crc >> 24) ^ b) ^ (crc << 8);
            }
            proof {
                assert(bytes@.take(i + 1).drop_last() =~= bytes@.take(i as int));
                assert(bytes@.take(i + 1).last() == bytes@[i as int]);
                assert(crc == update_byte_spec(self.alg(), before, bytes@[i as int]));
            }
            i = i + 1;
        }
        proof {
            assert(bytes@.take(bytes@.len() as int) =~= bytes@);
        }
        crc
    }

    /// A streaming handle that starts from the algorithm's own initial
    /// value.
    pub fn digest(&self) -> (d: Digest)
        requires
            self.wf(),
        ensures
            d.wf(),
            d.alg() == self.alg(),
            d.initial() == self.alg().init,
            d.processed() == Seq::<u8>::empty(),
    {
        self.digest_with_initial(self.algorithm.init)
    }

    /// A streaming handle with a given initial value.
    ///
    /// This overrides the initial value specified by the algorithm.  The
    /// effects of the algorithm's properties `refin` and `width` are
    /// applied to the custom initial value.
    pub fn digest_with_initial(&self, initial: u32) -> (d: Digest)
        requires
            self.wf(),
        ensures
            d.wf(),
            d.alg() == self.alg(),
            d.initial() == initial,
            d.processed() == Seq::<u8>::empty(),
    {
        let value = self.init(initial);
        Digest::new(self, value, Ghost(initial))
    }

    /// Brings the final register back to external form and applies the
    /// output mask.
    pub fn finalize(&self, crc: u32) -> (r: u32)
        requires
            self.wf(),
        ensures
            r == finalize_spec(self.alg(), crc),
    {
        let mut crc = crc;
        if self.algorithm.refin != self.algorithm.refout {
            crc = reverse_bits(crc);
        }
        if !self.algorithm.refout {
            crc = crc >> ((32u8 - self.algorithm.width) as u32);
        }
        crc ^ self.algorithm.xorout
    }
}

/// Updating over two sequences in turn is updating over their
/// concatenation: the register folds the input strictly left to right.
pub proof fn lemma_update_concat(alg: Algorithm, crc: u32, a: Seq<u8>, b: Seq<u8>)
    ensures
        update_spec(alg, update_spec(alg, crc, a), b) == update_spec(alg, crc, a + b),
    decreases b.len(),
{
    if b.len() == 0 {
        assert(a + b =~= a);
    } else {
        lemma_update_concat(alg, crc, a, b.drop_last());
        assert((a + b).drop_last() =~= a + b.drop_last());
    }
}

/// Determinism: the checksum is a pure function of the algorithm
/// description and the input bytes alone.  Equal descriptions give equal
/// checksums on equal inputs.
pub proof fn lemma_checksum_deterministic(alg1: Algorithm, alg2: Algorithm, bytes: Seq<u8>)
    requires
        alg1 == alg2,
    ensures
        checksum_spec(alg1, bytes) == checksum_spec(alg2, bytes),
{
}

/// Determinism of the table builder: two engines built from equal
/// algorithm descriptions hold identical tables.
pub proof fn lemma_table_deterministic(c1: Crc, c2: Crc)
    requires
        c1.wf(),
        c2.wf(),
        c1.alg() == c2.alg(),
    ensures
        c1.table_view() == c2.table_view(),
{
}

/// Chunking invariance: a digest that takes `a` and then `b` finalizes to
/// the one-shot checksum of their concatenation, for any split point.
pub proof fn lemma_chunking_invariance(alg: Algorithm, a: Seq<u8>, b: Seq<u8>)
    ensures
        finalize_spec(alg, update_spec(alg, update_spec(alg, init_spec(alg, alg.init), a), b))
            == checksum_spec(alg, a + b),
{
    lemma_update_concat(alg, init_spec(alg, alg.init), a, b);
}

/// Empty input: the checksum of no bytes is the algorithm's initial value
/// passed through finalize, with no table lookups applied.
pub proof fn lemma_empty_checksum(alg: Algorithm)
    ensures
        checksum_spec(alg, Seq::<u8>::empty()) == finalize_spec(alg, init_spec(alg, alg.init)),
{
}

/// With an MSB-first algorithm the running register keeps its set bits in
/// the top `width` bits of the register through every update step.
proof fn lemma_update_top_aligned(alg: Algorithm, crc: u32, bytes: Seq<u8>)
    requires
        alg.wf(),
        !alg.refin,
        crc << (alg.width as u32) == 0,
    ensures
        update_spec(alg, crc, bytes) << (alg.width as u32) == 0,
    decreases bytes.len(),
{
    if bytes.len() > 0 {
        lemma_update_top_aligned(alg, crc, bytes.drop_last());
        let v = update_spec(alg, crc, bytes.drop_last());
        let b = bytes.last();
        let idx = ((v >> 24u32) ^ (b as u32)) & 0xff;
        crate::table::lemma_entry_top_aligned(alg.width, alg.poly, idx);
        let e = table_entry_spec(alg.width, alg.poly, false, idx);
        let w: u32 = alg.width as u32;
        assert((e ^ (v << 8u32)) << w == 0) by (bit_vector)
            requires
                e << w == 0,
                v << w == 0,
        ;
    }
}

/// With an LSB-first algorithm the running register keeps its set bits in
/// the low `width` bits of the register through every update step.
proof fn lemma_update_low_fits(alg: Algorithm, crc: u32, bytes: Seq<u8>)
    requires
        alg.wf(),
        alg.refin,
        crc >> (alg.width as u32) == 0,
    ensures
        update_spec(alg, crc, bytes) >> (alg.width as u32) == 0,
    decreases bytes.len(),
{
    if bytes.len() > 0 {
        lemma_update_low_fits(alg, crc, bytes.drop_last());
        let v = update_spec(alg, crc, bytes.drop_last());
        let b = bytes.last();
        let idx = (v ^ (b as u32)) & 0xff;
        assert(idx < 256) by (bit_vector)
            requires
                idx == (v ^ (b as u32)) & 0xff,
        ;
        crate::table::lemma_entry_reflected_fits(alg.width, alg.poly, idx);
        let e = table_entry_spec(alg.width, alg.poly, true, idx);
        let w: u32 = alg.width as u32;
        assert((e ^ (v >> 8u32)) >> w == 0) by (bit_vector)
            requires
                e >> w == 0,
                v >> w == 0,
        ;
    }
}

/// Width masking for any initial value: what finalize returns after any
/// sequence of updates carries no set bits at position `width` or above,
/// provided the output mask itself fits the declared width.
pub proof fn lemma_digest_fits_width(alg: Algorithm, initial: u32, bytes: Seq<u8>)
    requires
        alg.wf(),
        fits_width(alg.xorout, alg.width),
    ensures
        fits_width(
            finalize_spec(alg, update_spec(alg, init_spec(alg, initial), bytes)),
            alg.width,
        ),
{
    let w: u32 = alg.width as u32;
    let k: u32 = (32 - alg.width) as u32;
    let x = alg.xorout;
    let r0 = init_spec(alg, initial);
    let r = update_spec(alg, r0, bytes);
    let ini = initial;
    if !alg.refin {
        assert((ini << k) << w == 0) by (bit_vector)
            requires
                k == 32 - w,
                w <= 32,
        ;
        lemma_update_top_aligned(alg, r0, bytes);
        if alg.refout {
            lemma_rev32_top_to_low(r, w);
            let rr = rev32(r);
            assert((rr ^ x) >> w == 0) by (bit_vector)
                requires
                    rr >> w == 0,
                    x >> w == 0,
            ;
        } else {
            assert(((r >> k) ^ x) >> w == 0) by (bit_vector)
                requires
                    k == 32 - w,
                    1 <= w <= 32,
                    x >> w == 0,
            ;
        }
    } else {
        let ri = rev32(ini);
        assert((ri >> k) >> w == 0) by (bit_vector)
            requires
                k == 32 - w,
                w <= 32,
        ;
        lemma_update_low_fits(alg, r0, bytes);
        if !alg.refout {
            let rr = rev32(r);
            assert(((rr >> k) ^ x) >> w == 0) by (bit_vector)
                requires
                    k == 32 - w,
                    1 <= w <= 32,
                    x >> w == 0,
            ;
        } else {
            assert((r ^ x) >> w == 0) by (bit_vector)
                requires
                    r >> w == 0,
                    x >> w == 0,
            ;
        }
    }
}

/// Width masking: the one-shot checksum carries no set bits at position
/// `width` or above, under the same condition on the output mask.
pub proof fn lemma_checksum_fits_width(alg: Algorithm, bytes: Seq<u8>)
    requires
        alg.wf(),
        fits_width(alg.xorout, alg.width),
    ensures
        fits_width(checksum_spec(alg, bytes), alg.width),
{
    lemma_digest_fits_width(alg, alg.init, bytes);
}

/// A streaming checksum computation: the running register of one in-flight
/// input stream, consumed once by [`Digest::finalize`].
pub struct Digest<'a> {
    crc: &'a Crc,
    value: u32,
    initial: Ghost<u32>,
    processed: Ghost<Seq<u8>>,
}

impl<'a> Digest<'a> {
    /// The algorithm description of the engine this digest streams for.
    pub closed spec fn alg(self) -> Algorithm {
        self.crc.alg()
    }

    /// The initial value this digest was created with, in external form.
    pub closed spec fn initial(self) -> u32 {
        self.initial@
    }

    /// The concatenation of all byte chunks supplied so far.
    pub closed spec fn processed(self) -> Seq<u8> {
        self.processed@
    }

    /// A well-formed digest: a well-formed engine, and a register that is
    /// exactly the fold of the processed bytes over the initial value.
    pub closed spec fn wf(self) -> bool {
        &&& self.crc.wf()
        &&& self.value == update_spec(
            self.crc.alg(),
            init_spec(self.crc.alg(), self.initial@),
            self.processed@,
        )
    }

    fn new(crc: &'a Crc, value: u32, initial: Ghost<u32>) -> (d: Digest<'a>)
        requires
            crc.wf(),
            value == init_spec(crc.alg(), initial@),
        ensures
            d.wf(),
            d.alg() == crc.alg(),
            d.initial() == initial@,
            d.processed() == Seq::<u8>::empty(),
    {
        Digest { crc, value, initial, processed: Ghost(Seq::empty()) }
    }

    /// Appends `bytes` to the logical input stream of this digest.
    pub fn update(&mut self, bytes: &[u8])
        requires
            old(self).wf(),
        ensures
            final(self).wf(),
            final(self).alg() == old(self).alg(),
            final(self).initial() == old(self).initial(),
            final(self).processed() == old(self).processed() + bytes@,
    {
        proof {
            lemma_update_concat(
                self.crc.alg(),
                init_spec(self.crc.alg(), self.initial@),
                self.processed@,
                bytes@,
            );
        }
        self.value = self.crc.update(self.value, bytes);
        self.processed = Ghost(self.processed@ + bytes@);
    }

    /// Consumes the digest and returns what `checksum` would return for the
    /// concatenation of all chunks supplied, under the digest's initial
    /// value.
    pub fn finalize(self) -> (r: u32)
        requires
            self.wf(),
        ensures
            r == finalize_spec(
                self.alg(),
                update_spec(self.alg(), init_spec(self.alg(), self.initial()), self.processed()),
            ),
            self.initial() == self.alg().init ==> r == checksum_spec(self.alg(), self.processed()),
    {
        self.crc.finalize(self.value)
    }
}

} // verus!
