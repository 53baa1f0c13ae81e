//! Win rates and scores.
//!
//! Both are single-precision numbers of IEEE 754. This crate computes nothing
//! with them: it carries each one by its 32 bits, and orders them by reading
//! the sign, the exponent and the fraction out of those bits.

use vstd::prelude::*;

verus! {

/// A binary32 number of IEEE 754, held by its bit pattern: one sign bit, eight
/// bits of exponent, twenty-three bits of fraction.
#[derive(Clone, Copy, Debug, PartialEq, Eq, Structural)]
pub struct Binary32 {
    pub bits: u32,
}

impl Binary32 {
    /// The sign bit is set.
    pub open spec fn is_negative(self) -> bool {
        self.bits >= 0x8000_0000
    }

    /// Exponent and fraction, read as one integer: the bits without the sign.
    pub open spec fn magnitude(self) -> int {
        if self.bits >= 0x8000_0000 {
            self.bits - 0x8000_0000
        } else {
            self.bits as int
        }
    }

    /// Not a number: the exponent is all ones and the fraction is not zero.
    pub open spec fn is_nan(self) -> bool {
        self.magnitude() > 0x7f80_0000
    }

    /// An integer that orders the bit patterns as the numbers are ordered:
    /// of two numbers the larger has the larger key, the two zeros share the
    /// key 0, and every pattern that is not a number has one key below all
    /// the others.
    pub open spec fn rank_value(self) -> int {
        if self.is_nan() {
            -0x8000_0000
        } else if self.is_negative() {
            -self.magnitude()
        } else {
            self.magnitude()
        }
    }

    /// The number with all bits clear: positive zero.
    pub open spec fn spec_zero() -> Binary32 {
        Binary32 { bits: 0 }
    }

    /// Positive zero.
    #[verifier::when_used_as_spec(spec_zero)]
    pub fn zero() -> (z: Binary32)
        ensures
            z == Self::spec_zero(),
    {
        Binary32 { bits: 0 }
    }

    /// The key by which this number is ranked.
    pub fn rank_key(self) -> (key: i64)
        ensures
            key == self.rank_value(),
            -0x8000_0000 <= key <= 0x7f80_0000,
    {
        let negative = self.bits >= 0x8000_0000u32;
        let magnitude: u32 = if negative {
            self.bits - 0x8000_0000u32
        } else {
            self.bits
        };
        if magnitude > 0x7f80_0000u32 {
            -0x8000_0000i64
        } else if negative {
            -(magnitude as i64)
        } else {
            magnitude as i64
        }
    }
}

/// The score of a champion with `points` mastery points, where `product` is
/// the win rate times the base-two logarithm of the points.
///
/// Up to one point the logarithm counts as zero, and so the score is zero
/// whatever the win rate; from two points on the score is the product.
pub open spec fn score_of(points: i32, product: Binary32) -> Binary32 {
    if points <= 1 {
        Binary32::spec_zero()
    } else {
        product
    }
}

/// Chooses the score of a champion: see [`score_of`]. The caller multiplies;
/// this function decides whether the product counts.
pub fn mastery_win_score(points: i32, product: Binary32) -> (score: Binary32)
    ensures
        score == score_of(points, product),
        points <= 1 ==> score.bits == 0,
        points >= 2 ==> score == product,
{
    if points <= 1 {
        Binary32::zero()
    } else {
        product
    }
}

} // verus!
