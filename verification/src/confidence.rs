//! Confidence values: IEEE-754 single-precision numbers held by their bit
//! pattern, with the two orders the pipeline needs stated over integers.

use vstd::prelude::*;

verus! {

/// The pattern whose only set bit is the sign bit (negative zero).
pub const SIGN_BIT: u32 = 0x8000_0000;

/// The pattern of positive infinity; larger magnitudes are not numbers.
pub const INFINITY_BITS: u32 = 0x7f80_0000;

/// The pattern of `1.0`.
pub const ONE_BITS: u32 = 0x3f80_0000;

/// The pattern of `0.5`, the threshold used when none is configured.
pub const HALF_BITS: u32 = 0x3f00_0000;

/// A single-precision number, held as its bit pattern.
#[derive(Clone, Copy, Debug, PartialEq, Eq, Structural)]
pub struct Confidence {
    pub bits: u32,
}

/// The pattern without its sign bit.
pub open spec fn magnitude(bits: u32) -> int {
    if bits >= SIGN_BIT {
        bits - SIGN_BIT
    } else {
        bits as int
    }
}

/// Whether the sign bit is set.
pub open spec fn is_negative(bits: u32) -> bool {
    bits >= SIGN_BIT
}

/// Whether the pattern is not a number.
pub open spec fn is_nan(bits: u32) -> bool {
    magnitude(bits) > INFINITY_BITS
}

/// Position of a number on the real line, up to a monotone rescaling: for
/// patterns that are numbers, `a` is numerically below `b` exactly when
/// `numeric_rank(a) < numeric_rank(b)`. Both zeros have rank 0.
pub open spec fn numeric_rank(bits: u32) -> int {
    if is_negative(bits) {
        -magnitude(bits)
    } else {
        magnitude(bits)
    }
}

/// The numeric comparison `a >= b`: false as soon as either side is not a
/// number.
pub open spec fn at_least(a: u32, b: u32) -> bool {
    !is_nan(a) && !is_nan(b) && numeric_rank(a) >= numeric_rank(b)
}

/// Position of a pattern in the total order of the IEEE-754 `totalOrder`
/// predicate: negative patterns below positive ones, negative zero just
/// below positive zero, and patterns that are not numbers at the two ends.
pub open spec fn total_key(bits: u32) -> int {
    if is_negative(bits) {
        -magnitude(bits) - 1
    } else {
        magnitude(bits)
    }
}

/// The pattern of the largest number strictly below the number of `bits`.
/// Meaningful for numbers above negative infinity.
pub open spec fn next_below(bits: u32) -> u32
    recommends
        !is_nan(bits),
        bits != SIGN_BIT + INFINITY_BITS,
{
    if magnitude(bits) == 0 {
        (SIGN_BIT + 1) as u32
    } else if is_negative(bits) {
        (bits + 1) as u32
    } else {
        (bits - 1) as u32
    }
}

impl Confidence {
    /// Wraps a bit pattern.
    pub fn from_bits(bits: u32) -> (c: Confidence)
        ensures
            c.bits == bits,
    {
        Confidence { bits }
    }

    /// The wrapped bit pattern.
    pub fn to_bits(&self) -> (bits: u32)
        ensures
            bits == self.bits,
    {
        self.bits
    }

    /// Whether the value is not a number.
    pub fn is_nan(&self) -> (nan: bool)
        ensures
            nan == is_nan(self.bits),
    {
        let m: u32 = if self.bits >= SIGN_BIT { self.bits - SIGN_BIT } else { self.bits };
        m > INFINITY_BITS
    }

    /// The numeric comparison `self >= other`.
    pub fn at_least(&self, other: &Confidence) -> (holds: bool)
        ensures
            holds == at_least(self.bits, other.bits),
    {
        if self.is_nan() || other.is_nan() {
            return false;
        }
        let a: u32 = self.bits;
        let b: u32 = other.bits;
        if a >= SIGN_BIT {
            // a <= 0: holds only against a negative or zero b that is not above a.
            if b >= SIGN_BIT {
                a - SIGN_BIT <= b - SIGN_BIT
            } else {
                a == SIGN_BIT && b == 0
            }
        } else {
            if b >= SIGN_BIT {
                true
            } else {
                a >= b
            }
        }
    }

    /// Whether `self` comes strictly before `other` in the total order.
    pub fn total_before(&self, other: &Confidence) -> (before: bool)
        ensures
            before == (total_key(self.bits) < total_key(other.bits)),
    {
        let a: u32 = self.bits;
        let b: u32 = other.bits;
        if a >= SIGN_BIT {
            if b >= SIGN_BIT {
                a > b
            } else {
                true
            }
        } else {
            if b >= SIGN_BIT {
                false
            } else {
                a < b
            }
        }
    }
}

/// Patterns are told apart by their place in the total order.
pub proof fn lemma_total_key_injective(a: u32, b: u32)
    ensures
        total_key(a) == total_key(b) <==> a == b,
{
}

/// A number is at least itself, and the largest number below it is not:
/// the comparison is inclusive at the boundary and exclusive one step under.
pub proof fn lemma_boundary(threshold: u32)
    requires
        !is_nan(threshold),
        threshold != SIGN_BIT + INFINITY_BITS,
    ensures
        at_least(threshold, threshold),
        !is_nan(next_below(threshold)),
        !at_least(next_below(threshold), threshold),
        numeric_rank(next_below(threshold)) == numeric_rank(threshold) - 1,
{
}

} // verus!
