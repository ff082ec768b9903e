//! Sources of randomness for mutation and selection.
//!
//! Every operation that draws a random choice takes an explicit
//! [`RandomSource`], so that evolution runs can be reproduced with a seeded
//! generator. Two sources are bundled: [`SystemRandom`], which draws from
//! the process-wide generator of the `rand` crate, and [`SplitMix`], a
//! small deterministic generator for reproducible runs.
//!
//! Probabilities are expressed in parts per million (`0` never,
//! [`PROB_ONE`] always). Weight and bias values are carried as opaque
//! 32-bit words (bit patterns of IEEE single-precision values); a source
//! that hands out numerically meaningful weight words, such as uniform
//! values in `[-m, m]`, must be supplied by the driving program, since the
//! library itself never interprets the words.

use vstd::prelude::*;

verus! {

/// The probability denominator: one million parts per million.
pub const PROB_ONE: u32 = 1000000;

/// A supplier of random choices for mutation and selection.
pub trait RandomSource: Sized {
    /// A uniform index below `len`.
    fn next_below(&mut self, len: usize) -> (r: usize)
        requires
            len > 0,
        ensures
            r < len,
    ;

    /// A uniform value in `[from, to)`.
    fn next_in_range(&mut self, from: u32, to: u32) -> (r: u32)
        requires
            from < to,
        ensures
            from <= r < to,
    ;

    /// A Bernoulli trial that succeeds with probability `prob` parts per
    /// million (clamped to [`PROB_ONE`]): never at zero, always at the
    /// full million.
    fn coin(&mut self, prob: u32) -> (r: bool)
        ensures
            prob == 0 ==> !r,
            prob >= PROB_ONE ==> r,
    ;

    /// The word of a fresh weight whose magnitude bound is the word
    /// `magnitude`; the library treats the result as opaque.
    fn next_weight(&mut self, magnitude: u32) -> u32;

    /// The word of `base` moved by a random delta whose magnitude bound is
    /// the word `magnitude`; the library treats the result as opaque.
    fn next_perturbed(&mut self, base: u32, magnitude: u32) -> u32;
}

/// A uniform index below `len`, from the process-wide generator.
///
/// Relies on `rand::random_range`: a uniform sample of the nonempty range
/// `0..len`.
#[verifier::external_body]
pub fn get_random_position(len: usize) -> (r: usize)
    requires
        len > 0,
    ensures
        r < len,
{
    rand::random_range(0..len)
}

/// A uniform value in `[from, to)`, from the process-wide generator.
///
/// Relies on `rand::random_range`: a uniform sample of the nonempty range
/// `from..to`.
#[verifier::external_body]
pub fn get_random_range(from: u32, to: u32) -> (r: u32)
    requires
        from < to,
    ensures
        from <= r < to,
{
    rand::random_range(from..to)
}

/// Relies on `rand::random_ratio`: true with probability `num/den`;
/// guaranteed false when `num` is zero and true when `num` equals `den`.
#[verifier::external_body]
fn random_ratio_bool(num: u32, den: u32) -> (r: bool)
    requires
        den > 0,
        num <= den,
    ensures
        num == 0 ==> !r,
        num == den ==> r,
{
    rand::random_ratio(num, den)
}

/// Relies on `rand::random`: a uniform 32-bit word.
#[verifier::external_body]
fn random_word() -> u32 {
    rand::random()
}

/// The process-wide generator of the `rand` crate.
///
/// Weight words drawn from this source are uniform 32-bit patterns; a
/// driver that wants weights uniform over a real interval supplies its own
/// [`RandomSource`].
pub struct SystemRandom;

impl RandomSource for SystemRandom {
    fn next_below(&mut self, len: usize) -> (r: usize) {
        get_random_position(len)
    }

    fn next_in_range(&mut self, from: u32, to: u32) -> (r: u32) {
        get_random_range(from, to)
    }

    fn coin(&mut self, prob: u32) -> (r: bool) {
        let p = if prob < PROB_ONE {
            prob
        } else {
            PROB_ONE
        };
        random_ratio_bool(p, PROB_ONE)
    }

    fn next_weight(&mut self, magnitude: u32) -> u32 {
        let _ = magnitude;
        random_word()
    }

    fn next_perturbed(&mut self, base: u32, magnitude: u32) -> u32 {
        let _ = base;
        let _ = magnitude;
        random_word()
    }
}

/// A small deterministic generator (the splitmix64 recurrence), for
/// reproducible evolution runs and tests.
pub struct SplitMix {
    pub state: u64,
}

impl SplitMix {
    /// A generator seeded with `seed`.
    pub fn new(seed: u64) -> (r: SplitMix)
        ensures
            r.state == seed,
    {
        SplitMix { state: seed }
    }

    /// The next 64-bit word of the stream.
    pub fn next_word(&mut self) -> u64 {
        self.state = self.state.wrapping_add(0x9E3779B97F4A7C15u64);
        let mut z = self.state;
        z = (z ^ (z >> 30u64)).wrapping_mul(0xBF58476D1CE4E5B9u64);
        z = (z ^ (z >> 27u64)).wrapping_mul(0x94D049BB133111EBu64);
        z ^ (z >> 31u64)
    }
}

impl RandomSource for SplitMix {
    fn next_below(&mut self, len: usize) -> (r: usize) {
        let w = self.next_word();
        (w % (len as u64)) as usize
    }

    fn next_in_range(&mut self, from: u32, to: u32) -> (r: u32) {
        let w = self.next_word();
        let span = (to - from) as u64;
        from + (w % span) as u32
    }

    fn coin(&mut self, prob: u32) -> (r: bool) {
        let w = self.next_word();
        let draw = (w % (PROB_ONE as u64)) as u32;
        draw < prob
    }

    fn next_weight(&mut self, magnitude: u32) -> u32 {
        let _ = magnitude;
        let w = self.next_word();
        (w >> 32u64) as u32
    }

    fn next_perturbed(&mut self, base: u32, magnitude: u32) -> u32 {
        let _ = base;
        let _ = magnitude;
        let w = self.next_word();
        (w >> 32u64) as u32
    }
}

} // verus!
