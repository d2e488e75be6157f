//! Numbers as bit patterns of IEEE-754 binary64 values: the constants that the
//! evaluator needs, and the order and truth of numbers, read off the bits.
use vstd::prelude::*;

verus! {

/// The sign bit of a binary64 bit pattern.
pub const SIGN_MASK: u64 = 0x8000_0000_0000_0000;

/// Exponent and fraction: every bit but the sign.
pub const MAGNITUDE_MASK: u64 = 0x7fff_ffff_ffff_ffff;

/// Positive infinity. Larger magnitudes are not numbers (NaN).
pub const INFINITY: u64 = 0x7ff0_0000_0000_0000;

/// Positive zero, which also stands for "false".
pub const ZERO: u64 = 0;

/// The number one, which also stands for "true".
pub const ONE: u64 = 0x3ff0_0000_0000_0000;

/// The binary64 value nearest to the circle constant.
pub const PI: u64 = 0x4009_21fb_5444_2d18;

/// Exponent and fraction bits of `x`. Among numbers of one sign, a larger magnitude
/// is further from zero.
pub open spec fn magnitude(x: u64) -> u64 {
    x & MAGNITUDE_MASK
}

/// Whether the sign bit of `x` is set.
pub open spec fn is_negative(x: u64) -> bool {
    x & SIGN_MASK != 0
}

/// NaN: all exponent bits set and a fraction that is not zero.
pub open spec fn is_nan(x: u64) -> bool {
    magnitude(x) > INFINITY
}

/// Where `x` stands on the number line, for `x` that is not NaN: the magnitude,
/// negated under a sign bit. Both zeros stand at 0.
pub open spec fn rank(x: u64) -> int {
    if is_negative(x) {
        -(magnitude(x) as int)
    } else {
        magnitude(x) as int
    }
}

/// `a < b` as IEEE-754 orders binary64 values: false as soon as one is NaN.
pub open spec fn num_lt(a: u64, b: u64) -> bool {
    !is_nan(a) && !is_nan(b) && rank(a) < rank(b)
}

/// `a <= b` as IEEE-754 orders binary64 values: false as soon as one is NaN.
pub open spec fn num_le(a: u64, b: u64) -> bool {
    !is_nan(a) && !is_nan(b) && rank(a) <= rank(b)
}

/// `a == b` as IEEE-754 compares binary64 values: the two zeros are equal, and NaN
/// equals nothing.
pub open spec fn num_eq(a: u64, b: u64) -> bool {
    !is_nan(a) && !is_nan(b) && rank(a) == rank(b)
}

/// Every number but the two zeros counts as true, NaN included.
pub open spec fn is_truthy(x: u64) -> bool {
    magnitude(x) != 0
}

/// The number that stands for a truth value.
pub open spec fn truth(b: bool) -> u64 {
    if b {
        ONE
    } else {
        ZERO
    }
}

/// Whether `x` is a NaN.
pub fn nan(x: u64) -> (r: bool)
    ensures
        r == is_nan(x),
{
    (x & MAGNITUDE_MASK) > INFINITY
}

/// Whether `x` counts as true.
pub fn truthy(x: u64) -> (r: bool)
    ensures
        r == is_truthy(x),
{
    (x & MAGNITUDE_MASK) != 0
}

/// Whether `a < b`.
pub fn less(a: u64, b: u64) -> (r: bool)
    ensures
        r == num_lt(a, b),
{
    if nan(a) || nan(b) {
        return false;
    }
    let ma: u64 = a & MAGNITUDE_MASK;
    let mb: u64 = b & MAGNITUDE_MASK;
    if a & SIGN_MASK != 0 {
        if b & SIGN_MASK != 0 {
            mb < ma
        } else {
            ma != 0 || mb != 0
        }
    } else {
        if b & SIGN_MASK != 0 {
            false
        } else {
            ma < mb
        }
    }
}

/// Whether `a == b`.
pub fn equal(a: u64, b: u64) -> (r: bool)
    ensures
        r == num_eq(a, b),
{
    if nan(a) || nan(b) {
        return false;
    }
    let ma: u64 = a & MAGNITUDE_MASK;
    let mb: u64 = b & MAGNITUDE_MASK;
    if (a & SIGN_MASK != 0) == (b & SIGN_MASK != 0) {
        ma == mb
    } else {
        ma == 0 && mb == 0
    }
}

/// Whether `a <= b`.
pub fn less_or_equal(a: u64, b: u64) -> (r: bool)
    ensures
        r == num_le(a, b),
{
    less(a, b) || equal(a, b)
}

/// Among numbers that are not NaN, exactly one of `a < b`, `a == b`, `b < a` holds;
/// with a NaN none does.
pub proof fn order_is_total(a: u64, b: u64)
    ensures
        !is_nan(a) && !is_nan(b) ==> (num_lt(a, b) || num_eq(a, b) || num_lt(b, a)),
        !(num_lt(a, b) && num_eq(a, b)),
        !(num_lt(a, b) && num_lt(b, a)),
        !(num_eq(a, b) && num_lt(b, a)),
        num_le(a, b) <==> num_lt(a, b) || num_eq(a, b),
        is_nan(a) || is_nan(b) ==> !num_lt(a, b) && !num_eq(a, b) && !num_le(a, b),
{
}

/// The order is transitive.
pub proof fn order_is_transitive(a: u64, b: u64, c: u64)
    ensures
        num_lt(a, b) && num_lt(b, c) ==> num_lt(a, c),
        num_le(a, b) && num_le(b, c) ==> num_le(a, c),
        num_eq(a, b) && num_eq(b, c) ==> num_eq(a, c),
{
}

/// One is true, both zeros are false, and a truth value reads back as itself.
pub proof fn truth_values(b: bool)
    ensures
        is_truthy(ONE),
        !is_truthy(ZERO),
        !is_truthy(SIGN_MASK),
        is_truthy(truth(b)) == b,
        !is_nan(truth(b)),
{
    assert(ONE & MAGNITUDE_MASK == ONE) by (bit_vector);
    assert(ZERO & MAGNITUDE_MASK == 0) by (bit_vector);
    assert(SIGN_MASK & MAGNITUDE_MASK == 0) by (bit_vector);
}

} // verus!
