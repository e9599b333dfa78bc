//! IEEE-754 `binary32` values handled by their bit patterns.
//!
//! Every coordinate, scale and score this crate stores is the 32-bit pattern
//! of a single-precision number. Nothing here does arithmetic on such numbers:
//! the index only ever asks whether one is finite and how two of them compare,
//! and both questions are answered exactly by the bits.
use vstd::prelude::*;

verus! {

/// Bit pattern of `0.0`.
pub const ZERO: u32 = 0;

/// Bit pattern of `1.0`.
pub const ONE: u32 = 0x3f80_0000;

/// The biased exponent field.
pub open spec fn exponent(bits: u32) -> int {
    (bits as int / 0x80_0000) % 256
}

/// The fraction field.
pub open spec fn fraction(bits: u32) -> int {
    bits as int % 0x80_0000
}

/// The pattern with its sign bit cleared.
pub open spec fn magnitude(bits: u32) -> int {
    bits as int % 0x8000_0000
}

/// The sign bit.
pub open spec fn sign(bits: u32) -> bool {
    bits >= 0x8000_0000
}

/// Neither infinite nor NaN.
pub open spec fn finite(bits: u32) -> bool {
    exponent(bits) != 255
}

/// Not a number.
pub open spec fn nan(bits: u32) -> bool {
    exponent(bits) == 255 && fraction(bits) != 0
}

/// Position of a non-NaN value on the number line: the sign-magnitude pattern
/// read as a signed integer. Both zeros sit at 0.
pub open spec fn rank(bits: u32) -> int {
    if sign(bits) {
        -magnitude(bits)
    } else {
        magnitude(bits)
    }
}

/// `a < b` as IEEE-754 defines it: false as soon as one side is NaN.
pub open spec fn less(a: u32, b: u32) -> bool {
    !nan(a) && !nan(b) && rank(a) < rank(b)
}

/// `a <= b` as IEEE-754 defines it.
pub open spec fn less_eq(a: u32, b: u32) -> bool {
    !nan(a) && !nan(b) && rank(a) <= rank(b)
}

/// `a == b` as IEEE-754 defines it: NaN equals nothing, the zeros are equal.
pub open spec fn equal(a: u32, b: u32) -> bool {
    !nan(a) && !nan(b) && rank(a) == rank(b)
}

/// Whether `bits` is neither infinite nor NaN.
pub fn is_finite(bits: u32) -> (r: bool)
    ensures
        r == finite(bits),
{
    (bits / 0x80_0000) % 256 != 255
}

/// Whether `bits` is not a number.
pub fn is_nan(bits: u32) -> (r: bool)
    ensures
        r == nan(bits),
{
    (bits / 0x80_0000) % 256 == 255 && bits % 0x80_0000 != 0
}

fn rank_of(bits: u32) -> (r: i64)
    ensures
        r == rank(bits),
{
    let low: i64 = (bits % 0x8000_0000) as i64;
    if bits >= 0x8000_0000 {
        -low
    } else {
        low
    }
}

/// IEEE-754 `a < b`.
pub fn is_less(a: u32, b: u32) -> (r: bool)
    ensures
        r == less(a, b),
{
    !is_nan(a) && !is_nan(b) && rank_of(a) < rank_of(b)
}

/// IEEE-754 `a <= b`.
pub fn is_less_eq(a: u32, b: u32) -> (r: bool)
    ensures
        r == less_eq(a, b),
{
    !is_nan(a) && !is_nan(b) && rank_of(a) <= rank_of(b)
}

/// IEEE-754 `a == b`.
pub fn is_equal(a: u32, b: u32) -> (r: bool)
    ensures
        r == equal(a, b),
{
    !is_nan(a) && !is_nan(b) && rank_of(a) == rank_of(b)
}

} // verus!
