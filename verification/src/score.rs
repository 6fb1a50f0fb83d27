//! Scores of sorted-set members.
//!
//! A score is an IEEE 754 double-precision number, held as its 64-bit
//! pattern. Scores are ordered by the standard's total order: negative
//! numbers below positive ones, `-0` below `+0`, and each NaN pattern at the
//! end that its sign gives it. That order is a plain integer order on
//! the `rank` of the pattern.

use vstd::prelude::*;

verus! {

/// The smallest bit pattern with the sign bit set.
pub const SIGN_BIT: u64 = 0x8000_0000_0000_0000;

/// A score, as the 64-bit pattern of a double-precision number.
#[derive(Clone, Copy, Debug, PartialEq, Eq, Structural)]
pub struct Score {
    pub bits: u64,
}

impl Score {
    /// The position of the score in the total order, as a number in
    /// `0 ..= u64::MAX`. Patterns with the sign bit set (negative numbers)
    /// are reversed and come first; the others follow in their own order.
    pub open spec fn rank(self) -> int {
        if self.bits >= SIGN_BIT {
            u64::MAX - self.bits
        } else {
            self.bits + SIGN_BIT
        }
    }

    /// The score with the given bit pattern.
    pub fn from_bits(bits: u64) -> (s: Score)
        ensures
            s.bits == bits,
    {
        Score { bits }
    }

    /// The bit pattern of the score.
    pub fn to_bits(self) -> (bits: u64)
        ensures
            bits == self.bits,
    {
        self.bits
    }

    /// Computes `rank`.
    pub fn key(self) -> (k: u64)
        ensures
            k == self.rank(),
    {
        if self.bits >= SIGN_BIT {
            u64::MAX - self.bits
        } else {
            self.bits + SIGN_BIT
        }
    }
}

/// Two scores have the same rank only if they are the same bit pattern, so
/// the order by rank is a total order on scores.
pub proof fn lemma_rank_injective(a: Score, b: Score)
    ensures
        (a.rank() == b.rank()) == (a == b),
        0 <= a.rank() <= u64::MAX,
{
}

/// For scores without the sign bit the order by rank is the order of the
/// patterns; with the sign bit it is the reverse; and every score with the
/// sign bit ranks below every score without it.
pub proof fn lemma_rank_order(a: Score, b: Score)
    ensures
        a.bits < SIGN_BIT && b.bits < SIGN_BIT ==> (a.rank() < b.rank()) == (a.bits < b.bits),
        a.bits >= SIGN_BIT && b.bits >= SIGN_BIT ==> (a.rank() < b.rank()) == (a.bits > b.bits),
        a.bits >= SIGN_BIT && b.bits < SIGN_BIT ==> a.rank() < b.rank(),
{
}

} // verus!
