//! Counters that stop at their limit instead of wrapping.

use vstd::prelude::*;

verus! {

pub open spec fn sum_saturating(left: u64, right: u64) -> u64 {
    if left + right > u64::MAX {
        u64::MAX
    } else {
        (left + right) as u64
    }
}

pub fn saturating_add(left: u64, right: u64) -> (sum: u64)
    ensures
        sum == sum_saturating(left, right),
{
    if left > u64::MAX - right {
        u64::MAX
    } else {
        left + right
    }
}

pub open spec fn times_saturating(value: u64, factor: u64) -> u64 {
    if value * factor > u64::MAX {
        u64::MAX
    } else {
        (value * factor) as u64
    }
}

pub fn saturating_mul(value: u64, factor: u64) -> (product: u64)
    ensures
        product == times_saturating(value, factor),
{
    assert(value as u128 * factor as u128 <= u128::MAX) by (nonlinear_arith)
        requires
            value <= u64::MAX,
            factor <= u64::MAX,
    ;
    let exact: u128 = value as u128 * factor as u128;
    if exact > u64::MAX as u128 {
        u64::MAX
    } else {
        exact as u64
    }
}

/// A sum that starts over once all values are used up.
pub open spec fn sum_wrapping(left: u64, right: u64) -> u64 {
    if left + right > u64::MAX {
        (left + right - u64::MAX - 1) as u64
    } else {
        (left + right) as u64
    }
}

pub fn wrapping_add(left: u64, right: u64) -> (sum: u64)
    ensures
        sum == sum_wrapping(left, right),
{
    if left > u64::MAX - right {
        left - (u64::MAX - right) - 1
    } else {
        left + right
    }
}

/// The number after the last one of 32 bits is zero.
pub open spec fn next_number(number: u32) -> u32 {
    if number == u32::MAX {
        0
    } else {
        (number + 1) as u32
    }
}

pub fn after(number: u32) -> (next: u32)
    ensures
        next == next_number(number),
{
    if number == u32::MAX {
        0
    } else {
        number + 1
    }
}

/// A sum that stops at the limit is the smaller of the exact sum and the limit; so is a product.
pub proof fn law_counters_stop_at_their_limit(left: u64, right: u64)
    ensures
        left + right <= 0xffff_ffff_ffff_ffff ==> sum_saturating(left, right) == left + right,
        left + right > 0xffff_ffff_ffff_ffff ==> sum_saturating(left, right)
            == 0xffff_ffff_ffff_ffff,
        left * right <= 0xffff_ffff_ffff_ffff ==> times_saturating(left, right) == left * right,
        left * right > 0xffff_ffff_ffff_ffff ==> times_saturating(left, right)
            == 0xffff_ffff_ffff_ffff,
{
    assert(left * right >= 0) by (nonlinear_arith);
}

/// Sums that start over are remainders by the number of values.
pub proof fn law_wrapping_sums_are_remainders(left: u64, right: u64, number: u32)
    ensures
        sum_wrapping(left, right) == (left + right) % 0x1_0000_0000_0000_0000,
        next_number(number) == (number + 1) % 0x1_0000_0000,
{
}

} // verus!
