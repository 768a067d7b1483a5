//! Saturating machine arithmetic and clamping, stated over the integers.

use vstd::prelude::*;

verus! {

/// The value nearest to `value` that an `i32` can hold.
pub open spec fn saturate_i32(value: int) -> int {
    if value > i32::MAX {
        i32::MAX as int
    } else if value < i32::MIN {
        i32::MIN as int
    } else {
        value
    }
}

/// The value nearest to `value` that a `u32` can hold.
pub open spec fn saturate_u32(value: int) -> int {
    if value > u32::MAX {
        u32::MAX as int
    } else if value < 0 {
        0
    } else {
        value
    }
}

/// The larger of two integers.
pub open spec fn max_of(left: int, right: int) -> int {
    if left >= right {
        left
    } else {
        right
    }
}

/// The smaller of two integers.
pub open spec fn min_of(left: int, right: int) -> int {
    if left <= right {
        left
    } else {
        right
    }
}

/// `value` moved into `low..=high`, for `low <= high`.
pub open spec fn clamp_of(value: int, low: int, high: int) -> int {
    if value < low {
        low
    } else if value > high {
        high
    } else {
        value
    }
}

/// `left + right`, saturating.
pub fn add_i32(left: i32, right: i32) -> (sum: i32)
    ensures
        sum == saturate_i32(left + right),
{
    let wide: i64 = left as i64 + right as i64;
    saturate_i64(wide)
}

/// `left - right`, saturating.
pub fn sub_i32(left: i32, right: i32) -> (difference: i32)
    ensures
        difference == saturate_i32(left - right),
{
    let wide: i64 = left as i64 - right as i64;
    saturate_i64(wide)
}

/// `left * right`, saturating.
pub fn mul_i32(left: i32, right: i32) -> (product: i32)
    ensures
        product == saturate_i32(left * right),
{
    assert(-0x4000_0000_0000_0000 <= left * right <= 0x4000_0000_0000_0000) by (nonlinear_arith)
        requires
            -0x8000_0000 <= left <= 0x7fff_ffff,
            -0x8000_0000 <= right <= 0x7fff_ffff,
    ;
    let wide: i64 = left as i64 * right as i64;
    saturate_i64(wide)
}

/// The `i32` nearest to `value`.
pub fn saturate_i64(value: i64) -> (nearest: i32)
    ensures
        nearest == saturate_i32(value as int),
{
    if value > i32::MAX as i64 {
        i32::MAX
    } else if value < i32::MIN as i64 {
        i32::MIN
    } else {
        value as i32
    }
}

/// `left * right`, saturating.
pub fn mul_u32(left: u32, right: u32) -> (product: u32)
    ensures
        product == saturate_u32(left * right),
{
    assert(0 <= left * right <= 0xffff_ffff * 0xffff_ffff) by (nonlinear_arith)
        requires
            0 <= left <= 0xffff_ffff,
            0 <= right <= 0xffff_ffff,
    ;
    let wide: u64 = left as u64 * right as u64;
    if wide > u32::MAX as u64 {
        u32::MAX
    } else {
        wide as u32
    }
}

/// `value` as an `i32`, or the largest `i32` where it does not fit.
pub fn u32_as_i32(value: u32) -> (nearest: i32)
    ensures
        nearest == saturate_i32(value as int),
{
    if value > i32::MAX as u32 {
        i32::MAX
    } else {
        value as i32
    }
}

/// `value` as an `i32`, or the largest `i32` where it does not fit.
pub fn usize_as_i32(value: usize) -> (nearest: i32)
    ensures
        nearest == saturate_i32(value as int),
{
    if value > i32::MAX as usize {
        i32::MAX
    } else {
        value as i32
    }
}

/// `value` as a `u32`, or the largest `u32` where it does not fit.
pub fn usize_as_u32(value: usize) -> (nearest: u32)
    ensures
        nearest == saturate_u32(value as int),
{
    if value as u64 > u32::MAX as u64 {
        u32::MAX
    } else {
        value as u32
    }
}

/// The larger of two numbers.
pub fn max_i32(left: i32, right: i32) -> (larger: i32)
    ensures
        larger == max_of(left as int, right as int),
{
    if left >= right {
        left
    } else {
        right
    }
}

/// The smaller of two numbers.
pub fn min_i32(left: i32, right: i32) -> (smaller: i32)
    ensures
        smaller == min_of(left as int, right as int),
{
    if left <= right {
        left
    } else {
        right
    }
}

/// The larger of two numbers.
pub fn max_u32(left: u32, right: u32) -> (larger: u32)
    ensures
        larger == max_of(left as int, right as int),
{
    if left >= right {
        left
    } else {
        right
    }
}

/// The smaller of two numbers.
pub fn min_u32(left: u32, right: u32) -> (smaller: u32)
    ensures
        smaller == min_of(left as int, right as int),
{
    if left <= right {
        left
    } else {
        right
    }
}

/// The smaller of two numbers.
pub fn min_usize(left: usize, right: usize) -> (smaller: usize)
    ensures
        smaller == min_of(left as int, right as int),
{
    if left <= right {
        left
    } else {
        right
    }
}

/// `value` moved into `low..=high`.
pub fn clamp_i32(value: i32, low: i32, high: i32) -> (clamped: i32)
    requires
        low <= high,
    ensures
        clamped == clamp_of(value as int, low as int, high as int),
{
    if value < low {
        low
    } else if value > high {
        high
    } else {
        value
    }
}

} // verus!
