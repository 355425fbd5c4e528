//! Signal levels held as IEEE 754 single-precision bit patterns, with the
//! comparisons, repairs and limits that need no arithmetic.
//!
//! Of two patterns that are not NaN, the one with the smaller
//! [`Level::ordinal`] is the smaller number; both zeros have the ordinal zero.
//! [`Level::rank`] tells all patterns apart and orders them as the standard's
//! total order does.

use vstd::prelude::*;

verus! {

/// The pattern of positive zero.
pub const ZERO_BITS: u32 = 0;

/// The pattern of one.
pub const ONE_BITS: u32 = 0x3f80_0000;

/// The pattern of minus one.
pub const MINUS_ONE_BITS: u32 = 0xbf80_0000;

/// The pattern of positive infinity.
pub const INFINITY_BITS: u32 = 0x7f80_0000;

/// The first pattern with the sign bit set: negative zero.
pub const SIGN_BIT: u32 = 0x8000_0000;

/// One signal level.
#[derive(Clone, Copy, Debug, PartialEq, Eq, Structural)]
pub struct Level {
    pub bits: u32,
}

impl Level {
    /// The pattern without its sign.
    pub open spec fn magnitude(self) -> int {
        if self.bits >= SIGN_BIT {
            self.bits - SIGN_BIT
        } else {
            self.bits as int
        }
    }

    /// The pattern is no number.
    pub open spec fn spec_is_nan(self) -> bool {
        self.magnitude() > INFINITY_BITS
    }

    /// The pattern is a number other than the infinities.
    pub open spec fn spec_is_finite(self) -> bool {
        self.magnitude() < INFINITY_BITS
    }

    /// A number that orders all patterns that are not NaN as their values.
    pub open spec fn ordinal(self) -> int {
        if self.bits >= SIGN_BIT {
            -self.magnitude()
        } else {
            self.magnitude()
        }
    }

    /// A number that orders all patterns: negative zero comes before positive
    /// zero, and NaNs stand at the two ends by their sign.
    pub open spec fn rank(self) -> int {
        if self.bits >= SIGN_BIT {
            -1 - self.magnitude()
        } else {
            self.magnitude()
        }
    }

    /// `self < other`, which is false where either is NaN.
    pub open spec fn less(self, other: Level) -> bool {
        !self.spec_is_nan() && !other.spec_is_nan() && self.ordinal() < other.ordinal()
    }

    /// `self <= other`, which is false where either is NaN.
    pub open spec fn at_most(self, other: Level) -> bool {
        !self.spec_is_nan() && !other.spec_is_nan() && self.ordinal() <= other.ordinal()
    }

    /// Positive zero.
    pub open spec fn spec_zero() -> Level {
        Level { bits: ZERO_BITS }
    }

    /// The level with the given pattern.
    pub open spec fn with_bits(bits: u32) -> Level {
        Level { bits }
    }

    /// One.
    pub open spec fn spec_one() -> Level {
        Level { bits: ONE_BITS }
    }

    /// Minus one.
    pub open spec fn spec_minus_one() -> Level {
        Level { bits: MINUS_ONE_BITS }
    }

    /// `self`, or zero where it is infinite or NaN.
    pub open spec fn repaired(self) -> Level {
        if self.spec_is_finite() {
            self
        } else {
            Level::spec_zero()
        }
    }

    /// `self` where it lies between `lo` and `hi`, and else the nearer of them;
    /// NaN stays NaN.
    pub open spec fn clamped(self, lo: Level, hi: Level) -> Level {
        if self.less(lo) {
            lo
        } else if hi.less(self) {
            hi
        } else {
            self
        }
    }

    /// `self` without its sign.
    pub open spec fn spec_abs(self) -> Level {
        Level { bits: self.magnitude() as u32 }
    }

    /// The level with the given pattern.
    pub fn from_bits(bits: u32) -> (out: Level)
        ensures
            out == Level::with_bits(bits),
    {
        Level { bits }
    }

    /// Positive zero.
    pub fn zero() -> (out: Level)
        ensures
            out == Level::spec_zero(),
    {
        Level { bits: ZERO_BITS }
    }

    /// The pattern without its sign.
    fn unsigned(self) -> (m: u32)
        ensures
            m == self.magnitude(),
    {
        if self.bits >= SIGN_BIT {
            self.bits - SIGN_BIT
        } else {
            self.bits
        }
    }

    /// Whether the pattern is no number.
    pub fn is_nan(self) -> (yes: bool)
        ensures
            yes == self.spec_is_nan(),
    {
        self.unsigned() > INFINITY_BITS
    }

    /// Whether the pattern is a number other than the infinities.
    pub fn is_finite(self) -> (yes: bool)
        ensures
            yes == self.spec_is_finite(),
    {
        self.unsigned() < INFINITY_BITS
    }

    /// The number that orders all patterns that are not NaN as their values.
    fn number(self) -> (n: i64)
        ensures
            n == self.ordinal(),
    {
        if self.bits >= SIGN_BIT {
            -(self.unsigned() as i64)
        } else {
            self.unsigned() as i64
        }
    }

    /// The number that orders all patterns.
    pub fn rank_number(self) -> (n: i64)
        ensures
            n == self.rank(),
    {
        if self.bits >= SIGN_BIT {
            -1 - self.unsigned() as i64
        } else {
            self.unsigned() as i64
        }
    }

    /// `self < other`.
    pub fn is_less(self, other: Level) -> (yes: bool)
        ensures
            yes == self.less(other),
    {
        !self.is_nan() && !other.is_nan() && self.number() < other.number()
    }

    /// `self <= other`.
    pub fn is_at_most(self, other: Level) -> (yes: bool)
        ensures
            yes == self.at_most(other),
    {
        !self.is_nan() && !other.is_nan() && self.number() <= other.number()
    }

    /// `self` without its sign.
    pub fn abs(self) -> (out: Level)
        ensures
            out == self.spec_abs(),
    {
        Level { bits: self.unsigned() }
    }

    /// `self` limited to lie between `lo` and `hi`.
    pub fn clamp(self, lo: Level, hi: Level) -> (out: Level)
        ensures
            out == self.clamped(lo, hi),
    {
        if self.is_less(lo) {
            lo
        } else if hi.is_less(self) {
            hi
        } else {
            self
        }
    }
}

/// `value`, or zero where it is infinite or NaN.
pub fn finite_or_zero(value: Level) -> (out: Level)
    ensures
        out == value.repaired(),
{
    if value.is_finite() {
        value
    } else {
        Level::zero()
    }
}

/// A sample as the analysis takes it: finite, and between minus one and one.
pub open spec fn sanitized(value: Level) -> Level {
    value.repaired().clamped(Level::spec_minus_one(), Level::spec_one())
}

/// `value` repaired to a finite sample between minus one and one.
pub fn sanitize_pcm_sample(value: Level) -> (out: Level)
    ensures
        out == sanitized(value),
{
    finite_or_zero(value).clamp(Level { bits: MINUS_ONE_BITS }, Level { bits: ONE_BITS })
}

/// `value` repaired, with negative values raised to zero: a magnitude as the
/// median filters take it.
pub open spec fn non_negative(value: Level) -> Level {
    if value.repaired().ordinal() > 0 {
        value.repaired()
    } else {
        Level::spec_zero()
    }
}

/// `value` repaired and not below zero.
pub fn finite_non_negative(value: Level) -> (out: Level)
    ensures
        out == non_negative(value),
{
    let v = finite_or_zero(value);
    if Level::zero().is_less(v) {
        v
    } else {
        Level::zero()
    }
}

// ---------------------------------------------------------------------------
// Laws
// ---------------------------------------------------------------------------
/// Every sample enters the analysis finite and within minus one and one.
pub proof fn law_sanitized_is_bounded(value: Level)
    ensures
        sanitized(value).spec_is_finite(),
        Level::spec_minus_one().at_most(sanitized(value)),
        sanitized(value).at_most(Level::spec_one()),
{
}

/// A sample that is finite and within the limits is left as it is.
pub proof fn law_sanitized_keeps_good_samples(value: Level)
    requires
        Level::spec_minus_one().at_most(value),
        value.at_most(Level::spec_one()),
    ensures
        sanitized(value) == value,
{
}

/// Different patterns have different ranks.
pub proof fn law_rank_is_injective(a: Level, b: Level)
    requires
        a.rank() == b.rank(),
    ensures
        a == b,
{
}

/// What the patterns stand for: those above infinity's, with or without the sign
/// bit, are no numbers, and those below it are finite.
pub proof fn law_patterns_of_numbers(a: Level)
    ensures
        a.spec_is_nan() <==> 0x7f80_0000 < a.bits < 0x8000_0000 || 0xff80_0000 < a.bits,
        a.spec_is_finite() <==> a.bits < 0x7f80_0000 || 0x8000_0000 <= a.bits < 0xff80_0000,
        !a.spec_is_nan() && !a.spec_is_finite() <==> a.bits == 0x7f80_0000 || a.bits == 0xff80_0000,
{
}

/// Levels compare as numbers do: of two without the sign bit the larger pattern is
/// the larger number, of two with it the smaller pattern is, a negative number is
/// below every other but that the two zeros are equal, and nothing compares with
/// what is no number.
pub proof fn law_levels_compare_as_numbers(a: Level, b: Level)
    ensures
        a.spec_is_nan() || b.spec_is_nan() ==> !a.less(b) && !a.at_most(b),
        !a.spec_is_nan() && !b.spec_is_nan() ==> {
            &&& (a.bits < 0x8000_0000 && b.bits < 0x8000_0000 ==> (a.less(b) <==> a.bits < b.bits))
            &&& (a.bits >= 0x8000_0000 && b.bits >= 0x8000_0000 ==> (a.less(b) <==> b.bits
                < a.bits))
            &&& (a.bits >= 0x8000_0000 && b.bits < 0x8000_0000 ==> (a.less(b) <==> !(a.bits
                == 0x8000_0000 && b.bits == 0)))
            &&& (a.bits < 0x8000_0000 && b.bits >= 0x8000_0000 ==> !a.less(b))
            &&& (a.at_most(b) <==> !b.less(a))
        },
{
}

/// The order of levels that are numbers is an order: none is below itself, and what
/// is below a level is below all that are above it.
pub proof fn law_order_of_levels(a: Level, b: Level, c: Level)
    ensures
        !a.less(a),
        a.less(b) && b.less(c) ==> a.less(c),
        a.at_most(b) && b.at_most(c) ==> a.at_most(c),
        a.less(b) ==> a.at_most(b) && !b.at_most(a),
        !a.spec_is_nan() && !b.spec_is_nan() ==> a.less(b) || b.less(a) || (a.at_most(b)
            && b.at_most(a)),
{
}

/// The order of all patterns: those with the sign bit come before the others, the
/// larger ones among them first, and the others follow by size.
pub proof fn law_order_of_patterns(a: Level, b: Level)
    ensures
        a.bits >= 0x8000_0000 && b.bits < 0x8000_0000 ==> a.rank() < b.rank(),
        a.bits >= 0x8000_0000 && b.bits >= 0x8000_0000 ==> (a.rank() < b.rank() <==> b.bits
            < a.bits),
        a.bits < 0x8000_0000 && b.bits < 0x8000_0000 ==> (a.rank() < b.rank() <==> a.bits
            < b.bits),
        a.less(b) ==> a.rank() < b.rank(),
{
}

/// A level without its sign is the pattern with the sign bit cleared.
pub proof fn law_sign_is_dropped(a: Level)
    ensures
        a.spec_abs().bits < 0x8000_0000,
        a.spec_abs() == a || a.spec_abs().bits + 0x8000_0000 == a.bits,
{
}

/// A level that is limited lies within the limits, stays where it already did, and
/// goes to the limit that it exceeds; what is no number stays what it is.
pub proof fn law_limited_level(a: Level, lo: Level, hi: Level)
    requires
        lo.at_most(hi),
    ensures
        !a.spec_is_nan() ==> lo.at_most(a.clamped(lo, hi)) && a.clamped(lo, hi).at_most(hi),
        lo.at_most(a) && a.at_most(hi) ==> a.clamped(lo, hi) == a,
        a.less(lo) ==> a.clamped(lo, hi) == lo,
        hi.less(a) ==> a.clamped(lo, hi) == hi,
        a.spec_is_nan() ==> a.clamped(lo, hi) == a,
{
}

/// A repaired level is finite: a finite level is its own repair, and every other
/// one becomes positive zero.
pub proof fn law_repaired_level(a: Level)
    ensures
        a.repaired().spec_is_finite(),
        a.spec_is_finite() ==> a.repaired() == a,
        !a.spec_is_finite() ==> a.repaired().bits == 0,
{
}

/// A sample beyond the limits becomes the limit, which is one or minus one, and one
/// that is no finite number becomes zero.
pub proof fn law_sanitized_replaces_bad_samples(value: Level)
    ensures
        !value.spec_is_finite() ==> sanitized(value).bits == 0,
        value.spec_is_finite() && Level::with_bits(0x3f80_0000).less(value) ==> sanitized(value).bits
            == 0x3f80_0000,
        value.spec_is_finite() && value.less(Level::with_bits(0xbf80_0000)) ==> sanitized(value).bits
            == 0xbf80_0000,
        Level::with_bits(0xbf80_0000).at_most(value) && value.at_most(Level::with_bits(0x3f80_0000))
            ==> sanitized(value) == value,
{
}

/// A magnitude is a finite number from zero up: one above zero stays as it is, and
/// everything else becomes positive zero.
pub proof fn law_magnitude_is_not_negative(value: Level)
    ensures
        non_negative(value).spec_is_finite(),
        non_negative(value).bits < 0x7f80_0000,
        0 < value.bits < 0x7f80_0000 ==> non_negative(value) == value,
        !(0 < value.bits < 0x7f80_0000) ==> non_negative(value).bits == 0,
{
}

} // verus!
