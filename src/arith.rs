use vstd::prelude::*;

verus! {

pub open spec fn abs_int(x: int) -> int {
    if x < 0 {
        -x
    } else {
        x
    }
}

/// Integer division rounding toward zero.
pub open spec fn trunc_div(a: int, b: int) -> int {
    if (a < 0) == (b < 0) {
        abs_int(a) / abs_int(b)
    } else {
        -(abs_int(a) / abs_int(b))
    }
}

/// The remainder that goes with `trunc_div`: it takes the sign of `a`.
pub open spec fn trunc_rem(a: int, b: int) -> int {
    if a < 0 {
        -(abs_int(a) % abs_int(b))
    } else {
        abs_int(a) % abs_int(b)
    }
}

/// `x` brought into the `i32` range, for `x` at most one period above it.
pub open spec fn wrap_i32(x: int) -> i32 {
    if x > i32::MAX {
        (x - 0x1_0000_0000) as i32
    } else {
        x as i32
    }
}

/// `x` brought into the `i64` range, for `x` at most one period above it.
pub open spec fn wrap_i64(x: int) -> i64 {
    if x > i64::MAX {
        (x - 0x1_0000_0000_0000_0000) as i64
    } else {
        x as i64
    }
}

/// `a / b` rounding toward zero; `i32::MIN / -1` wraps to `i32::MIN`.
pub fn int_div(a: i32, b: i32) -> (r: i32)
    requires
        b != 0,
    ensures
        r == wrap_i32(trunc_div(a as int, b as int)),
{
    let ua: u64 = if a < 0 { (-(a as i64)) as u64 } else { a as u64 };
    let ub: u64 = if b < 0 { (-(b as i64)) as u64 } else { b as u64 };
    let q: u64 = ua / ub;
    assert(q <= ua) by (nonlinear_arith)
        requires q == ua / ub, ub >= 1;
    if (a < 0) == (b < 0) {
        if q > i32::MAX as u64 {
            i32::MIN
        } else {
            q as i32
        }
    } else {
        (-(q as i64)) as i32
    }
}

/// The remainder of `a / b` rounding toward zero.
pub fn int_rem(a: i32, b: i32) -> (r: i32)
    requires
        b != 0,
    ensures
        r == trunc_rem(a as int, b as int),
{
    let ua: u64 = if a < 0 { (-(a as i64)) as u64 } else { a as u64 };
    let ub: u64 = if b < 0 { (-(b as i64)) as u64 } else { b as u64 };
    let m: u64 = ua % ub;
    assert(m < ub);
    if a < 0 {
        (-(m as i64)) as i32
    } else {
        m as i32
    }
}

/// `a / b` rounding toward zero; `i64::MIN / -1` wraps to `i64::MIN`.
pub fn long_div(a: i64, b: i64) -> (r: i64)
    requires
        b != 0,
    ensures
        r == wrap_i64(trunc_div(a as int, b as int)),
{
    let ua: u128 = if a < 0 { (-(a as i128)) as u128 } else { a as u128 };
    let ub: u128 = if b < 0 { (-(b as i128)) as u128 } else { b as u128 };
    let q: u128 = ua / ub;
    assert(q <= ua) by (nonlinear_arith)
        requires q == ua / ub, ub >= 1;
    if (a < 0) == (b < 0) {
        if q > i64::MAX as u128 {
            i64::MIN
        } else {
            q as i64
        }
    } else {
        (-(q as i128)) as i64
    }
}

/// The remainder of `a / b` rounding toward zero.
pub fn long_rem(a: i64, b: i64) -> (r: i64)
    requires
        b != 0,
    ensures
        r == trunc_rem(a as int, b as int),
{
    let ua: u128 = if a < 0 { (-(a as i128)) as u128 } else { a as u128 };
    let ub: u128 = if b < 0 { (-(b as i128)) as u128 } else { b as u128 };
    let m: u128 = ua % ub;
    assert(m < ub);
    if a < 0 {
        (-(m as i128)) as i64
    } else {
        m as i64
    }
}

} // verus!
