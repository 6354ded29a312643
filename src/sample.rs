//! Samples are IEEE-754 binary64 values carried as their bit patterns
//! (`f64::to_bits`). This module orders them exactly as floating-point
//! comparison does: a NaN compares false with everything, and the two
//! zeros compare equal.
use vstd::prelude::*;

verus! {

/// Bit pattern of negative infinity.
pub const NEG_INFINITY: u64 = 0xFFF0_0000_0000_0000;

/// Bit pattern of positive infinity.
pub const INFINITY: u64 = 0x7FF0_0000_0000_0000;

/// All bits but the sign bit.
pub const MAGNITUDE_MASK: u64 = 0x7FFF_FFFF_FFFF_FFFF;

/// The sign bit.
pub const SIGN_BIT: u64 = 0x8000_0000_0000_0000;

/// The bit pattern without its sign.
pub open spec fn magnitude(b: u64) -> u64 {
    b & MAGNITUDE_MASK
}

/// A NaN is a pattern whose magnitude lies above that of infinity
/// (all exponent bits set and a non-zero fraction).
pub open spec fn is_nan(b: u64) -> bool {
    magnitude(b) > INFINITY
}

pub open spec fn is_sign_negative(b: u64) -> bool {
    b >= SIGN_BIT
}

/// The position of a non-NaN value on the number line: for binary64 the
/// magnitude bits order values of one sign, and both zeros sit at 0.
pub open spec fn order_key(b: u64) -> int {
    if is_sign_negative(b) {
        -(magnitude(b) as int)
    } else {
        magnitude(b) as int
    }
}

/// `a > b` as floating-point comparison decides it.
pub open spec fn greater(a: u64, b: u64) -> bool {
    !is_nan(a) && !is_nan(b) && order_key(a) > order_key(b)
}

/// `a < b` as floating-point comparison decides it.
pub open spec fn less(a: u64, b: u64) -> bool {
    greater(b, a)
}

/// The infinities are no NaN, and sit at the two ends of the order.
pub proof fn lemma_infinities()
    ensures
        !is_nan(NEG_INFINITY),
        !is_nan(INFINITY),
        order_key(NEG_INFINITY) == -(INFINITY as int),
        order_key(INFINITY) == INFINITY as int,
{
    assert(NEG_INFINITY & MAGNITUDE_MASK == INFINITY) by (bit_vector);
    assert(INFINITY & MAGNITUDE_MASK == INFINITY) by (bit_vector);
}

/// Every value but a NaN lies between the two infinities.
pub proof fn lemma_key_bounds(b: u64)
    requires
        !is_nan(b),
    ensures
        order_key(NEG_INFINITY) <= order_key(b) <= order_key(INFINITY),
{
    lemma_infinities();
}

fn key(b: u64) -> (r: i64)
    requires
        !is_nan(b),
    ensures
        r as int == order_key(b),
{
    let m = b & MAGNITUDE_MASK;
    if b >= SIGN_BIT {
        -(m as i64)
    } else {
        m as i64
    }
}

fn nan(b: u64) -> (r: bool)
    ensures
        r == is_nan(b),
{
    (b & MAGNITUDE_MASK) > INFINITY
}

/// Floating-point `a > b` on bit patterns.
pub fn is_greater(a: u64, b: u64) -> (r: bool)
    ensures
        r == greater(a, b),
{
    if nan(a) || nan(b) {
        false
    } else {
        key(a) > key(b)
    }
}

/// Floating-point `a < b` on bit patterns.
pub fn is_less(a: u64, b: u64) -> (r: bool)
    ensures
        r == less(a, b),
{
    is_greater(b, a)
}

} // verus!
