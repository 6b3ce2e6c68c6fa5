use vstd::prelude::*;

verus! {

/// An IEEE-754 double is finite exactly when its 11 exponent bits are not
/// all ones. This reads the documented binary64 layout; no floating-point
/// value is ever inspected here, only the carried bit pattern.
pub open spec fn spec_finite_bits(b: u64) -> bool {
    (b >> 52) & 0x7ff != 0x7ff
}

/// An IEEE-754 double is negative exactly when its sign bit is set
/// (negative zero included).
pub open spec fn spec_sign_bit(b: u64) -> bool {
    (b >> 63) == 1
}

/// The bit pattern encodes a value less than or equal to zero: the sign
/// bit is set, or the pattern is positive zero.
pub open spec fn spec_nonpositive_bits(b: u64) -> bool {
    spec_sign_bit(b) || b == 0
}

/// Whether the carried double is finite, by its exponent field.
pub fn finite_bits(b: u64) -> (r: bool)
    ensures
        r == spec_finite_bits(b),
{
    ((b >> 52u64) & 0x7ff) != 0x7ff
}

/// Whether the carried double is less than or equal to zero, by its sign
/// bit (with positive zero counted as well).
pub fn nonpositive_bits(b: u64) -> (r: bool)
    ensures
        r == spec_nonpositive_bits(b),
{
    (b >> 63u64) == 1 || b == 0
}

} // verus!
