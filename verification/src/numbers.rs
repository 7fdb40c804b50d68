//! Fixed-point decimal arithmetic. A quantity is stored as an integer count
//! of millionths (`SCALE` units per whole), which keeps every pipeline
//! computation in exact integer arithmetic. Division rounds half away from
//! zero, the convention used everywhere a quotient is taken.

use vstd::prelude::*;

verus! {

/// Fixed-point scale: one stored unit is `1 / 1_000_000` of the value.
pub const FX_SCALE: i64 = 1_000_000;

/// Largest representable magnitude, in stored units: one hundred billion
/// wholes. Numeric text outside this domain is rejected at parse time, so
/// every stored quantity `q` satisfies `-FX_LIMIT <= q <= FX_LIMIT`.
pub const FX_LIMIT: i64 = 100_000_000_000_000_000;

pub open spec fn pow10(e: nat) -> int
    decreases e,
{
    if e == 0 {
        1
    } else {
        10 * pow10((e - 1) as nat)
    }
}

pub proof fn lemma_pow10_small()
    ensures
        pow10(0) == 1,
        pow10(1) == 10,
        pow10(2) == 100,
        pow10(3) == 1000,
        pow10(4) == 10000,
        pow10(5) == 100000,
        pow10(6) == 1000000,
{
    assert(pow10(0) == 1);
    assert(pow10(1) == 10);
    assert(pow10(2) == 100);
    assert(pow10(3) == 1000);
    assert(pow10(4) == 10000);
    assert(pow10(5) == 100000);
    assert(pow10(6) == 1000000);
}

/// Ten to a small power stays within a million.
pub proof fn lemma_pow10_le6(e: nat)
    requires
        e <= 6,
    ensures
        1 <= pow10(e) <= 1_000_000,
{
    lemma_pow10_small();
    if e == 0 {
    } else if e == 1 {
    } else if e == 2 {
    } else if e == 3 {
    } else if e == 4 {
    } else if e == 5 {
    } else {
        assert(e == 6);
    }
}

pub fn pow10_i64(e: usize) -> (r: i64)
    requires
        e <= 6,
    ensures
        r as int == pow10(e as nat),
        1 <= r <= 1_000_000,
{
    proof {
        lemma_pow10_small();
    }
    if e == 0 {
        1
    } else if e == 1 {
        10
    } else if e == 2 {
        100
    } else if e == 3 {
        1000
    } else if e == 4 {
        10000
    } else if e == 5 {
        100000
    } else {
        1000000
    }
}

/// Quotient of `a / b` rounded half away from zero, for `b > 0`.
pub open spec fn div_round_half(a: int, b: int) -> int
    recommends
        b > 0,
{
    if a >= 0 {
        (2 * a + b) / (2 * b)
    } else {
        -((2 * -a + b) / (2 * b))
    }
}

/// The rounded quotient cannot exceed a bound that the dividend respects:
/// `|a| <= m * b` gives `|round(a / b)| <= m`.
pub proof fn lemma_div_round_half_bound(a: int, b: int, m: int)
    requires
        b > 0,
        m >= 0,
        -(m * b) <= a <= m * b,
    ensures
        -m <= div_round_half(a, b) <= m,
{
    if a >= 0 {
        assert(2 * a + b <= 2 * m * b + b) by (nonlinear_arith)
            requires
                a <= m * b,
        ;
        assert((2 * a + b) / (2 * b) <= m) by (nonlinear_arith)
            requires
                b > 0,
                m >= 0,
                2 * a + b <= 2 * m * b + b,
        ;
        assert((2 * a + b) / (2 * b) >= 0) by (nonlinear_arith)
            requires
                b > 0,
                a >= 0,
        ;
    } else {
        assert(2 * -a + b <= 2 * m * b + b) by (nonlinear_arith)
            requires
                -a <= m * b,
        ;
        assert((2 * -a + b) / (2 * b) <= m) by (nonlinear_arith)
            requires
                b > 0,
                m >= 0,
                2 * -a + b <= 2 * m * b + b,
        ;
        assert((2 * -a + b) / (2 * b) >= 0) by (nonlinear_arith)
            requires
                b > 0,
                -a > 0,
        ;
    }
}

/// Fixed-point division, rounding half away from zero.
pub fn div_round_i128(a: i128, b: i128) -> (q: i128)
    requires
        b > 0,
        -0x20000000000000000000000000000000 < a < 0x20000000000000000000000000000000,
        b < 0x20000000000000000000000000000000,
    ensures
        q as int == div_round_half(a as int, b as int),
{
    let m: u128 = if a >= 0 {
        a as u128
    } else {
        (-a) as u128
    };
    let q0: u128 = (2 * m + b as u128) / (2 * (b as u128));
    proof {
        assert(q0 <= m) by (nonlinear_arith)
            requires
                b as u128 >= 1,
                q0 == (2 * m + b as u128) / (2 * (b as u128)),
        ;
    }
    if a >= 0 {
        q0 as i128
    } else {
        -(q0 as i128)
    }
}

/// `x` forced into the inclusive band `[lo, hi]`.
pub open spec fn clamp_int(x: int, lo: int, hi: int) -> int
    recommends
        lo <= hi,
{
    if x < lo {
        lo
    } else if x > hi {
        hi
    } else {
        x
    }
}

pub fn clamp_i128(x: i128, lo: i128, hi: i128) -> (r: i128)
    requires
        lo <= hi,
    ensures
        r as int == clamp_int(x as int, lo as int, hi as int),
{
    if x < lo {
        lo
    } else if x > hi {
        hi
    } else {
        x
    }
}

} // verus!
