//! Integer arithmetic that rounds toward zero, and clamping.

use vstd::prelude::*;

verus! {

/// The quotient rounded toward zero.
pub open spec fn quot(a: int, b: int) -> int {
    if a >= 0 {
        a / b
    } else {
        -((-a) / b)
    }
}

/// `x` brought into the range from `lo` to `hi`.
pub open spec fn clamped(x: int, lo: int, hi: int) -> int {
    if x < lo {
        lo
    } else if x > hi {
        hi
    } else {
        x
    }
}

pub open spec fn magnitude(x: int) -> int {
    if x >= 0 {
        x
    } else {
        -x
    }
}

pub open spec fn smaller(a: int, b: int) -> int {
    if a <= b {
        a
    } else {
        b
    }
}

pub open spec fn larger(a: int, b: int) -> int {
    if a >= b {
        a
    } else {
        b
    }
}

proof fn lemma_quotient_bound(a: int, b: int, m: int)
    by (nonlinear_arith)
    requires
        b >= 1,
        0 <= a <= m,
    ensures
        0 <= a / b <= m,
{
}

proof fn lemma_quotient_sign(a: int, b: int)
    by (nonlinear_arith)
    requires
        b >= 1,
        a >= 0,
    ensures
        a / (-b) == -(a / b),
{
}

/// A larger number has no smaller quotient.
pub proof fn lemma_quotient_order(a: int, c: int, b: int)
    by (nonlinear_arith)
    requires
        b >= 1,
        0 <= a <= c,
    ensures
        a / b <= c / b,
{
}

/// A larger number has no larger quotient by a negative divisor.
pub proof fn lemma_negative_quotient_order(a: int, c: int, b: int)
    requires
        b <= -1,
        0 <= a <= c,
    ensures
        quot(c, b) <= quot(a, b) <= 0,
{
    lemma_quotient_sign(a, -b);
    lemma_quotient_sign(c, -b);
    lemma_quotient_order(a, c, -b);
    lemma_quotient_bound(a, -b, a);
}

/// The quotient rounded toward zero.
pub fn divide(a: i32, b: i32) -> (r: i32)
    requires
        b != 0,
        b > i32::MIN,
        a > i32::MIN,
    ensures
        r == quot(a as int, b as int),
        magnitude(r as int) <= magnitude(a as int),
        b > 0 && a >= 0 ==> r >= 0,
        b > 0 && a <= 0 ==> r <= 0,
{
    let m: i32 = if a >= 0 {
        a
    } else {
        -a
    };
    let d: i32 = if b > 0 {
        b
    } else {
        -b
    };
    proof {
        lemma_quotient_bound(m as int, d as int, m as int);
        lemma_quotient_sign(m as int, d as int);
    }
    let q: i32 = m / d;
    if (a >= 0) == (b > 0) {
        q
    } else {
        -q
    }
}

pub fn clamp(x: i32, lo: i32, hi: i32) -> (r: i32)
    ensures
        r == clamped(x as int, lo as int, hi as int),
{
    if x < lo {
        lo
    } else if x > hi {
        hi
    } else {
        x
    }
}

pub fn min(a: i32, b: i32) -> (r: i32)
    ensures
        r == smaller(a as int, b as int),
{
    if a <= b {
        a
    } else {
        b
    }
}

pub fn max(a: i32, b: i32) -> (r: i32)
    ensures
        r == larger(a as int, b as int),
{
    if a >= b {
        a
    } else {
        b
    }
}

} // verus!
