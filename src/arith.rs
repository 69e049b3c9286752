//! Division rounded toward zero, the rounding of Rust's integer division and
//! of its float-to-integer casts.
use vstd::prelude::*;

verus! {

/// `n / d` rounded toward zero.
pub open spec fn div_trunc(n: int, d: int) -> int {
    if n >= 0 {
        n / d
    } else {
        -((-n) / d)
    }
}

/// A floor quotient stays within integer bounds that hold of the exact quotient.
proof fn lemma_floor_div_within(n: int, d: int, lo: int, hi: int)
    requires
        d > 0,
        lo * d <= n,
        n <= hi * d,
    ensures
        lo <= n / d <= hi,
{
    let q = n / d;
    let r = n % d;
    vstd::arithmetic::div_mod::lemma_fundamental_div_mod(n, d);
    assert(0 <= r < d);
    assert(lo <= q) by (nonlinear_arith)
        requires
            d > 0,
            lo * d <= n,
            n == d * q + r,
            r < d,
    ;
    assert(q <= hi) by (nonlinear_arith)
        requires
            d > 0,
            n <= hi * d,
            n == d * q + r,
            0 <= r,
    ;
}

/// A quotient rounded toward zero stays within integer bounds that hold of
/// the exact quotient.
pub proof fn lemma_div_trunc_within(n: int, d: int, lo: int, hi: int)
    requires
        d > 0,
        lo * d <= n,
        n <= hi * d,
    ensures
        lo <= div_trunc(n, d) <= hi,
{
    if n >= 0 {
        lemma_floor_div_within(n, d, lo, hi);
    } else {
        assert((-hi) * d <= -n) by (nonlinear_arith)
            requires
                n <= hi * d,
        ;
        assert(-n <= (-lo) * d) by (nonlinear_arith)
            requires
                lo * d <= n,
        ;
        lemma_floor_div_within(-n, d, -hi, -lo);
    }
}

/// Rounding toward zero twice, first at a finer resolution `1 / m`, gives
/// the same as rounding once.
pub proof fn lemma_div_trunc_nested(a: int, d: int, m: int)
    requires
        d > 0,
        m > 0,
    ensures
        div_trunc(div_trunc(a * m, d), m) == div_trunc(a, d),
{
    let b = if a >= 0 { a } else { -a };
    assert(b * m >= 0 && b * m == m * b && d * m == m * d && (-a) * m == -(a * m)) by (
    nonlinear_arith)
        requires
            b >= 0,
            m > 0,
    ;
    vstd::arithmetic::div_mod::lemma_div_denominator(b * m, d, m);
    vstd::arithmetic::div_mod::lemma_div_multiples_vanish_quotient(m, b, d);
    assert((b * m) / d >= 0) by (nonlinear_arith)
        requires
            b * m >= 0,
            d > 0,
    ;
    if a < 0 {
        assert(a * m < 0) by (nonlinear_arith)
            requires
                a < 0,
                m > 0,
        ;
        if (b * m) / d == 0 {
            assert(b / d == 0);
        }
    }
}

/// Divides `n` by `d`, rounding toward zero.
pub fn div_trunc_exec(n: i128, d: u128) -> (q: i128)
    requires
        d > 0,
        n > i128::MIN,
    ensures
        q == div_trunc(n as int, d as int),
{
    if n >= 0 {
        let m = n as u128;
        assert(m / d <= m) by (nonlinear_arith)
            requires
                d > 0,
        ;
        (m / d) as i128
    } else {
        let m = (-n) as u128;
        assert(m / d <= m) by (nonlinear_arith)
            requires
                d > 0,
        ;
        -((m / d) as i128)
    }
}

} // verus!
