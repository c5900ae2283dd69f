//! Fixed-point decimal arithmetic.
//!
//! Amounts, prices and rates are stored as `i64` multiples of `1 / SCALE`
//! (so `1.0` is `SCALE` and `0.04` is `SCALE / 25`).  Multiplication and
//! division round to the nearest representable value, ties away from zero.
//! Every operation reports, instead of panicking, when a result would leave
//! the representable range.

use vstd::prelude::*;

verus! {

/// Number of fixed-point units in one whole unit (seven decimal places).
pub const SCALE: i64 = 10_000_000;

/// Magnitude of a mathematical integer.
pub open spec fn abs_int(p: int) -> int {
    if p < 0 {
        -p
    } else {
        p
    }
}

/// Division rounded to the nearest integer, ties away from zero.
pub open spec fn round_div(p: int, q: int) -> int
    recommends
        q != 0,
{
    let m = (abs_int(p) + abs_int(q) / 2) / abs_int(q);
    if (p < 0) != (q < 0) {
        -m
    } else {
        m
    }
}

/// Product of two fixed-point numbers.
pub open spec fn fix_mul(a: int, b: int) -> int {
    round_div(a * b, SCALE as int)
}

/// Quotient of two fixed-point numbers.
pub open spec fn fix_div(a: int, b: int) -> int {
    round_div(a * SCALE, b)
}

/// Whether `v` lies in the symmetric `i64` range used for amounts.
pub open spec fn fits(v: int) -> bool {
    -0x7fff_ffff_ffff_ffff <= v <= 0x7fff_ffff_ffff_ffff
}

/// Rounded division of `p` by `q`, brought back to the amount range.
/// `None` exactly when the rounded quotient lies outside that range.
fn round_div_i128(p: i128, q: i128) -> (r: Option<i64>)
    requires
        q != 0,
        -0x4000_0000_0000_0000_0000_0000_0000_0000 <= p
            <= 0x4000_0000_0000_0000_0000_0000_0000_0000,
        -0x4000_0000_0000_0000_0000_0000_0000_0000 <= q
            <= 0x4000_0000_0000_0000_0000_0000_0000_0000,
    ensures
        r matches Some(v) ==> v as int == round_div(p as int, q as int),
        r is Some <==> fits(round_div(p as int, q as int)),
{
    let neg = (p < 0) != (q < 0);
    let pm: u128 = if p >= 0 {
        p as u128
    } else {
        (-p) as u128
    };
    let qm: u128 = if q >= 0 {
        q as u128
    } else {
        (-q) as u128
    };
    let m: u128 = (pm + qm / 2) / qm;
    if m > 0x7fff_ffff_ffff_ffffu128 {
        None
    } else if neg {
        Some(-(m as i64))
    } else {
        Some(m as i64)
    }
}

/// Fixed-point product `a * b`; `None` when the result leaves the amount range.
pub fn mul_fix(a: i64, b: i64) -> (r: Option<i64>)
    ensures
        r matches Some(v) ==> v as int == fix_mul(a as int, b as int),
        r is Some <==> fits(fix_mul(a as int, b as int)),
{
    proof {
        assert((a as int) * (b as int) <= 0x4000_0000_0000_0000_0000_0000_0000_0000
            && (a as int) * (b as int) >= -0x4000_0000_0000_0000_0000_0000_0000_0000)
            by (nonlinear_arith)
            requires
                -0x8000_0000_0000_0000 <= a as int <= 0x7fff_ffff_ffff_ffff,
                -0x8000_0000_0000_0000 <= b as int <= 0x7fff_ffff_ffff_ffff,
        ;
    }
    let p: i128 = (a as i128) * (b as i128);
    round_div_i128(p, SCALE as i128)
}

/// Fixed-point quotient `a / b`; `None` when the result leaves the amount range.
pub fn div_fix(a: i64, b: i64) -> (r: Option<i64>)
    requires
        b != 0,
    ensures
        r matches Some(v) ==> v as int == fix_div(a as int, b as int),
        r is Some <==> fits(fix_div(a as int, b as int)),
{
    proof {
        assert((a as int) * (SCALE as int) <= 0x4000_0000_0000_0000_0000_0000_0000_0000
            && (a as int) * (SCALE as int) >= -0x4000_0000_0000_0000_0000_0000_0000_0000)
            by (nonlinear_arith)
            requires
                -0x8000_0000_0000_0000 <= a as int <= 0x7fff_ffff_ffff_ffff,
        ;
    }
    let p: i128 = (a as i128) * (SCALE as i128);
    round_div_i128(p, b as i128)
}

/// Rounded division of an amount by a plain integer divisor.
pub fn div_int(a: i64, n: i64) -> (r: Option<i64>)
    requires
        n != 0,
    ensures
        r matches Some(v) ==> v as int == round_div(a as int, n as int),
        r is Some <==> fits(round_div(a as int, n as int)),
{
    round_div_i128(a as i128, n as i128)
}

/// Product of an amount and a plain integer factor; `None` when it leaves
/// the amount range.
pub fn mul_int(a: i64, b: i64) -> (r: Option<i64>)
    ensures
        r matches Some(v) ==> v as int == a * b,
        r is Some <==> fits(a * b),
{
    proof {
        assert((a as int) * (b as int) <= 0x4000_0000_0000_0000_0000_0000_0000_0000
            && (a as int) * (b as int) >= -0x4000_0000_0000_0000_0000_0000_0000_0000)
            by (nonlinear_arith)
            requires
                -0x8000_0000_0000_0000 <= a as int <= 0x7fff_ffff_ffff_ffff,
                -0x8000_0000_0000_0000 <= b as int <= 0x7fff_ffff_ffff_ffff,
        ;
    }
    let p: i128 = (a as i128) * (b as i128);
    if p > 0x7fff_ffff_ffff_ffffi128 || p < -0x7fff_ffff_ffff_ffffi128 {
        None
    } else {
        Some(p as i64)
    }
}

/// Sum of two amounts; `None` when the sum leaves the amount range.
pub fn add_fix(a: i64, b: i64) -> (r: Option<i64>)
    ensures
        r matches Some(v) ==> v as int == a + b,
        r is Some <==> fits(a + b),
{
    let s: i128 = (a as i128) + (b as i128);
    if s > 0x7fff_ffff_ffff_ffffi128 || s < -0x7fff_ffff_ffff_ffffi128 {
        None
    } else {
        Some(s as i64)
    }
}

/// Difference of two amounts; `None` when it leaves the amount range.
pub fn sub_fix(a: i64, b: i64) -> (r: Option<i64>)
    ensures
        r matches Some(v) ==> v as int == a - b,
        r is Some <==> fits(a - b),
{
    let s: i128 = (a as i128) - (b as i128);
    if s > 0x7fff_ffff_ffff_ffffi128 || s < -0x7fff_ffff_ffff_ffffi128 {
        None
    } else {
        Some(s as i64)
    }
}

/// A nonnegative amount rounded by a positive divisor stays nonnegative and
/// does not grow.
pub proof fn lemma_round_div_nonneg(p: int, q: int)
    requires
        p >= 0,
        q > 0,
    ensures
        0 <= round_div(p, q) <= p,
{
    let m = (p + q / 2) / q;
    assert(m >= 0) by (nonlinear_arith)
        requires
            p >= 0,
            q > 0,
            m == (p + q / 2) / q,
    ;
    assert(m <= p) by (nonlinear_arith)
        requires
            p >= 0,
            q > 0,
            m == (p + q / 2) / q,
    ;
}

} // verus!
