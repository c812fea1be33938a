//! A deterministic, seedable, non-cryptographic pseudo-random generator.
//!
//! Every random draw in the search flows through one `Wyhash64RNG` value,
//! whose state is a single 64-bit word mutated by every draw.  The spec
//! functions `wy_next` and `wy_out` pin each draw down exactly, so that a
//! whole run of the search is a pure function of the initial seed.

use vstd::prelude::*;

verus! {

/// The additive constant mixed into the state before every draw.
pub const WY_STEP: u64 = 0x60bee2bee120fc15;

/// The first multiplicative mixing constant.
pub const WY_MIX_1: u64 = 0xa3b195354a39b70d;

/// The second multiplicative mixing constant.
pub const WY_MIX_2: u64 = 0x1b03738712fad5c9;

/// The state after one draw: the additive constant, added with wraparound.
pub open spec fn wy_next(s: u64) -> u64 {
    ((s + WY_STEP) % 0x1_0000_0000_0000_0000) as u64
}

/// One 64 x 64 -> 128 multiply-and-fold: the high and low halves of the
/// product, exclusive-or'ed together.  Opaque: the search's proofs
/// thread draws as terms and never need the arithmetic itself.
#[verifier::opaque]
pub open spec fn wy_fold(a: u64, b: u64) -> u64 {
    (((a * b) / 0x1_0000_0000_0000_0000) as u64) ^ ((a * b) % 0x1_0000_0000_0000_0000) as u64
}

/// The value drawn from a (post-`wy_next`) state: two multiply-and-folds.
#[verifier::opaque]
pub open spec fn wy_out(s: u64) -> u64 {
    wy_fold(wy_fold(s, WY_MIX_1), WY_MIX_2)
}

/// A uniform draw in the inclusive range `[min, max]` from state `s`,
/// together with the state advance it implies.
pub open spec fn wy_range(s: u64, min: u64, max: u64) -> u64
    recommends
        min <= max,
        max - min < u64::MAX,
{
    (min + (wy_out(wy_next(s)) as int) % (max - min + 1)) as u64
}

/// The generator: a single 64-bit state word.
pub struct Wyhash64RNG {
    state: u64,
}

impl View for Wyhash64RNG {
    type V = u64;

    closed spec fn view(&self) -> u64 {
        self.state
    }
}

impl Wyhash64RNG {
    /// A generator seeded from the clock; for reproducible runs use
    /// `new_fixed`.
    pub fn new() -> (r: Wyhash64RNG) {
        Self::new_fixed(time_seed())
    }

    /// A generator with the given seed as its exact initial state.
    pub fn new_fixed(seed: u64) -> (r: Wyhash64RNG)
        ensures
            r@ == seed,
    {
        Wyhash64RNG { state: seed }
    }

    /// One raw 64-bit draw.
    pub fn gen(&mut self) -> (r: u64)
        ensures
            final(self)@ == wy_next(old(self)@),
            r == wy_out(wy_next(old(self)@)),
    {
        self.state = self.state.wrapping_add(WY_STEP);
        let r1 = Self::mix(self.state, WY_MIX_1);
        let r2 = Self::mix(r1, WY_MIX_2);
        proof {
            reveal(wy_out);
        }
        r2
    }

    /// One multiply-and-fold at 128-bit width.
    fn mix(a: u64, b: u64) -> (r: u64)
        ensures
            r == wy_fold(a, b),
    {
        proof {
            reveal(wy_fold);
            assert(a * b < 0x1_0000_0000_0000_0000 * 0x1_0000_0000_0000_0000) by (nonlinear_arith)
                requires
                    a <= 0xffff_ffff_ffff_ffffu64,
                    b <= 0xffff_ffff_ffff_ffffu64,
            ;
        }
        let prod: u128 = (a as u128) * (b as u128);
        proof {
            assert(prod >> 64 == prod / 0x1_0000_0000_0000_0000) by (bit_vector);
            assert(prod >> 64 < 0x1_0000_0000_0000_0000) by (bit_vector);
            assert((prod as u64) as u128 == prod % 0x1_0000_0000_0000_0000) by (bit_vector);
        }
        let hi: u64 = (prod >> 64) as u64;
        let lo: u64 = #[verifier::truncate] (prod as u64);
        hi ^ lo
    }

    /// A uniform draw in the inclusive range `[min, max]`.
    ///
    /// The range must be non-empty and strictly smaller than the full
    /// 64-bit span, so that its width `max - min + 1` is representable.
    pub fn gen_in_range(&mut self, min: u64, max: u64) -> (r: u64)
        requires
            min <= max,
            max - min < u64::MAX,
        ensures
            final(self)@ == wy_next(old(self)@),
            r == wy_range(old(self)@, min, max),
            min <= r <= max,
    {
        let raw = Self::gen(self);
        min + raw % (max - min + 1)
    }

    /// A uniform draw of an index below `max`.
    pub fn gen_in_size(&mut self, max: usize) -> (r: usize)
        requires
            max >= 1,
        ensures
            final(self)@ == wy_next(old(self)@),
            r == wy_range(old(self)@, 0, (max - 1) as u64),
            r < max,
    {
        Self::gen_in_range(self, 0, (max - 1) as u64) as usize
    }

    /// A percentile draw: uniform in `[0, 100]`.
    pub fn gen_percent(&mut self) -> (r: u64)
        ensures
            final(self)@ == wy_next(old(self)@),
            r == wy_range(old(self)@, 0, 100),
            r <= 100,
    {
        Self::gen_in_range(self, 0, 100)
    }
}

/// Relies on `std::time::SystemTime::now`: a clock reading used only to
/// seed a non-reproducible run.  Nothing is promised of the value.
#[verifier::external_body]
fn time_seed() -> u64 {
    let now = std::time::SystemTime::now();
    match now.duration_since(std::time::UNIX_EPOCH) {
        Ok(full) => u64::from(full.subsec_nanos()),
        Err(_) => 0,
    }
}

} // verus!
