//! The two weighings that take real-valued weights.
//!
//! The pipeline counts in integers, and twice it has to compare sums of
//! counts weighted by numbers that are no fractions of small integers: a
//! cosine, and an inverse fourth power summed over hundreds of distances.
//! Those two comparisons are asked of whoever calls, through a `Weigher`.
//! Everything that is handed to the weigher, and everything that is made
//! of its answers, is computed and specified here.

use vstd::prelude::*;

verus! {

/// How many distances there are between two 8-bit colours: 0 to 765.
pub const DISTANCES: usize = 766;

/// Compares weighted sums of counts.
pub trait Weigher {
    /// Whether the columns on the positive side of the wave outweigh those
    /// on its negative side.
    ///
    /// `counts[x]` is the count of column `x` of a banner `counts.len()`
    /// wide. Column `x` weighs its count times the cube of
    /// `cos(8 * pi * x / counts.len())`; the weights of the columns where
    /// the cosine is positive are summed on one side, those where it is
    /// negative, taken without their sign, on the other. The answer is
    /// whether the first sum is the greater.
    fn odd_outweighs(&mut self, counts: &Vec<u32>) -> bool;

    /// The number of the named skin with the greatest weight.
    ///
    /// `tally[k * DISTANCES + d]` is the number of pixels that voted for
    /// skin `k` from distance `d`. A vote from distance `d` weighs
    /// `1 / (1 + d)^4`, and the weight of a skin is the sum of the weights
    /// of its votes.
    fn heaviest_skin(&mut self, tally: &Vec<u64>) -> usize;
}

} // verus!
