//! Single-precision values carried as bit patterns.
//!
//! The library orders and compares such values but never computes with them,
//! so a pattern and a few comparisons are all it needs.

use vstd::prelude::*;

verus! {

/// Bits of a value without its sign.
pub open spec fn magnitude(bits: u32) -> int {
    if bits < 0x8000_0000 {
        bits as int
    } else {
        bits - 0x8000_0000
    }
}

/// Whether the bits are no number.
pub open spec fn is_nan(bits: u32) -> bool {
    magnitude(bits) > 0x7f80_0000
}

/// An integer that grows with the value; both zeros have rank 0.
pub open spec fn rank(bits: u32) -> int {
    if bits < 0x8000_0000 {
        bits as int
    } else {
        0x8000_0000 - bits
    }
}

/// `a == b` as numbers.
pub open spec fn equal(a: u32, b: u32) -> bool {
    !is_nan(a) && !is_nan(b) && rank(a) == rank(b)
}

/// `a < b` as numbers.
pub open spec fn less(a: u32, b: u32) -> bool {
    !is_nan(a) && !is_nan(b) && rank(a) < rank(b)
}

/// `a <= b` as numbers.
pub open spec fn at_most(a: u32, b: u32) -> bool {
    !is_nan(a) && !is_nan(b) && rank(a) <= rank(b)
}

/// Whether the value is zero of either sign.
pub open spec fn zero(bits: u32) -> bool {
    magnitude(bits) == 0
}

/// The larger of two values; one that is no number gives way.
pub open spec fn larger(a: u32, b: u32) -> u32 {
    if is_nan(a) || less(a, b) {
        b
    } else {
        a
    }
}

/// The smaller of two values; one that is no number gives way.
pub open spec fn smaller(a: u32, b: u32) -> u32 {
    if is_nan(a) || less(b, a) {
        b
    } else {
        a
    }
}

/// `true` for the patterns that are no number.
pub fn is_not_a_number(bits: u32) -> (yes: bool)
    ensures
        yes == is_nan(bits),
{
    if bits < 0x8000_0000 {
        bits > 0x7f80_0000
    } else {
        bits - 0x8000_0000 > 0x7f80_0000
    }
}

fn rank_of(bits: u32) -> (r: i64)
    ensures
        r == rank(bits),
{
    if bits < 0x8000_0000 {
        bits as i64
    } else {
        0x8000_0000 - bits as i64
    }
}

/// Whether the value is a number that is not infinite.
pub fn is_finite(bits: u32) -> (yes: bool)
    ensures
        yes == (magnitude(bits) < 0x7f80_0000),
{
    if bits < 0x8000_0000 {
        bits < 0x7f80_0000
    } else {
        bits - 0x8000_0000 < 0x7f80_0000
    }
}

/// `a == b` as numbers.
pub fn is_equal(a: u32, b: u32) -> (yes: bool)
    ensures
        yes == equal(a, b),
{
    !is_not_a_number(a) && !is_not_a_number(b) && rank_of(a) == rank_of(b)
}

/// `a < b` as numbers.
pub fn is_less(a: u32, b: u32) -> (yes: bool)
    ensures
        yes == less(a, b),
{
    !is_not_a_number(a) && !is_not_a_number(b) && rank_of(a) < rank_of(b)
}

/// `a <= b` as numbers.
pub fn is_at_most(a: u32, b: u32) -> (yes: bool)
    ensures
        yes == at_most(a, b),
{
    !is_not_a_number(a) && !is_not_a_number(b) && rank_of(a) <= rank_of(b)
}

/// Picks the larger of two values; one that is no number gives way.
pub fn larger_of(a: u32, b: u32) -> (value: u32)
    ensures
        value == larger(a, b),
{
    if is_not_a_number(a) || is_less(a, b) {
        b
    } else {
        a
    }
}

/// Picks the smaller of two values; one that is no number gives way.
pub fn smaller_of(a: u32, b: u32) -> (value: u32)
    ensures
        value == smaller(a, b),
{
    if is_not_a_number(a) || is_less(b, a) {
        b
    } else {
        a
    }
}

/// Whether the value is zero of either sign.
pub fn is_zero(bits: u32) -> (yes: bool)
    ensures
        yes == zero(bits),
        yes == equal(bits, 0),
{
    bits == 0 || bits == 0x8000_0000
}

} // verus!
