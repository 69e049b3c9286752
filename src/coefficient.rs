//! The smoothing factor of a first-order lowpass filter, derived from the
//! sample rate and the cutoff frequency and kept as an exact fraction.
use crate::arith::{div_trunc, div_trunc_exec, lemma_div_trunc_nested, lemma_div_trunc_within};
use vstd::prelude::*;

verus! {

/// Numerator of π as `f32` holds it: the value is exactly
/// `PI_SINGLE_NUM / PI_SINGLE_DEN`.
pub const PI_SINGLE_NUM: u64 = 13176795;

/// Denominator of π as `f32` holds it (two to the 22nd).
pub const PI_SINGLE_DEN: u64 = 4194304;

/// Numerator of π as `f64` holds it: the value is exactly
/// `PI_DOUBLE_NUM / PI_DOUBLE_DEN`.
pub const PI_DOUBLE_NUM: u64 = 884279719003555;

/// Denominator of π as `f64` holds it (two to the 48th).
pub const PI_DOUBLE_DEN: u64 = 281474976710656;

/// Bound on the denominator of every smoothing factor built from `u32` rates
/// (two to the 84th).
pub const ALPHA_DEN_LIMIT: u128 = 19342813113834066795298816;

/// Bound on the denominator of every smoothing factor built from `u16` rates
/// (two to the 68th).
pub const NARROW_DEN_LIMIT: u128 = 295147905179352825856;

/// Bound on the magnitude of the values that [`Alpha::scale_wide`] and
/// [`Alpha::blend_wide`] take (two to the 55th).
pub const WIDE_VALUE_LIMIT: i64 = 36028797018963968;

/// Which approximation of π the smoothing factor is derived from: the one that
/// single-precision (`f32`) or double-precision (`f64`) arithmetic holds.
#[derive(Clone, Copy, Debug, PartialEq, Eq, Structural)]
pub enum Precision {
    Single,
    Double,
}

impl Precision {
    pub open spec fn pi_num(self) -> nat {
        match self {
            Precision::Single => PI_SINGLE_NUM as nat,
            Precision::Double => PI_DOUBLE_NUM as nat,
        }
    }

    pub open spec fn pi_den(self) -> nat {
        match self {
            Precision::Single => PI_SINGLE_DEN as nat,
            Precision::Double => PI_DOUBLE_DEN as nat,
        }
    }

    /// π at this precision, as (numerator, denominator).
    pub fn pi(self) -> (r: (u64, u64))
        ensures
            r.0 == self.pi_num(),
            r.1 == self.pi_den(),
    {
        match self {
            Precision::Single => (PI_SINGLE_NUM, PI_SINGLE_DEN),
            Precision::Double => (PI_DOUBLE_NUM, PI_DOUBLE_DEN),
        }
    }
}

/// A smoothing factor `num / den`.
pub struct Ratio {
    pub num: nat,
    pub den: nat,
}

impl Ratio {
    /// The factor `alpha = dt / (rc + dt)` with `rc = 1 / (2 π fc)` and
    /// `dt = 1 / fs`, that is `2 π fc / (fs + 2 π fc)`; π is taken at the
    /// given precision, and both terms are multiplied by the denominator of π.
    pub open spec fn of_rates(precision: Precision, sample_rate_hz: nat, cutoff_frequency_hz: nat) -> Ratio {
        let num = 2 * cutoff_frequency_hz * precision.pi_num();
        Ratio { num, den: sample_rate_hz * precision.pi_den() + num }
    }

    /// The factor lies in `[0, 1]` and has a positive denominator.
    pub open spec fn is_valid(self) -> bool {
        0 < self.den && self.num <= self.den
    }

    /// `alpha * x`, rounded toward zero.
    pub open spec fn scale(self, x: int) -> int {
        div_trunc(self.num * x, self.den as int)
    }

    /// `prev + alpha * (x - prev)`, rounded toward zero.
    pub open spec fn blend(self, prev: int, x: int) -> int {
        div_trunc(prev * self.den + self.num * (x - prev), self.den as int)
    }
}

/// The smaller of two integers.
pub open spec fn min_int(a: int, b: int) -> int {
    if a <= b {
        a
    } else {
        b
    }
}

/// The larger of two integers.
pub open spec fn max_int(a: int, b: int) -> int {
    if a <= b {
        b
    } else {
        a
    }
}

/// A factor built from a positive sample rate is valid.
pub proof fn lemma_of_rates_valid(precision: Precision, sample_rate_hz: nat, cutoff_frequency_hz: nat)
    requires
        sample_rate_hz > 0,
    ensures
        Ratio::of_rates(precision, sample_rate_hz, cutoff_frequency_hz).is_valid(),
{
    let pd = precision.pi_den();
    assert(sample_rate_hz * pd > 0) by (nonlinear_arith)
        requires
            sample_rate_hz > 0,
            pd > 0,
    ;
}

/// `alpha * x` rounded toward zero lies between zero and `x`.
pub proof fn lemma_scale_between(alpha: Ratio, x: int)
    requires
        alpha.is_valid(),
    ensures
        min_int(0, x) <= alpha.scale(x) <= max_int(0, x),
{
    let d = alpha.den as int;
    let n = alpha.num * x;
    let lo = min_int(0, x);
    let hi = max_int(0, x);
    assert(lo * d <= n && n <= hi * d) by (nonlinear_arith)
        requires
            0 <= alpha.num <= d,
            n == alpha.num * x,
            lo == min_int(0, x),
            hi == max_int(0, x),
    ;
    lemma_div_trunc_within(n, d, lo, hi);
}

/// `prev + alpha * (x - prev)` rounded toward zero lies between `prev` and `x`.
pub proof fn lemma_blend_between(alpha: Ratio, prev: int, x: int)
    requires
        alpha.is_valid(),
    ensures
        min_int(prev, x) <= alpha.blend(prev, x) <= max_int(prev, x),
{
    let d = alpha.den as int;
    let n = prev * d + alpha.num * (x - prev);
    let lo = min_int(prev, x);
    let hi = max_int(prev, x);
    assert(lo * d <= n && n <= hi * d) by (nonlinear_arith)
        requires
            0 <= alpha.num <= d,
            n == prev * d + alpha.num * (x - prev),
            lo == min_int(prev, x),
            hi == max_int(prev, x),
    ;
    lemma_div_trunc_within(n, d, lo, hi);
}

/// A factor built from `u16` rates has a denominator below two to the 68th.
pub proof fn lemma_of_narrow_rates_den(precision: Precision, sample_rate_hz: nat, cutoff_frequency_hz: nat)
    requires
        sample_rate_hz <= 0xffff,
        cutoff_frequency_hz <= 0xffff,
    ensures
        Ratio::of_rates(precision, sample_rate_hz, cutoff_frequency_hz).den < NARROW_DEN_LIMIT,
{
    let pn = precision.pi_num();
    let pd = precision.pi_den();
    assert(cutoff_frequency_hz * pn <= 0xffff * PI_DOUBLE_NUM) by (nonlinear_arith)
        requires
            cutoff_frequency_hz <= 0xffff,
            pn <= PI_DOUBLE_NUM,
    ;
    assert(sample_rate_hz * pd <= 0xffff * PI_DOUBLE_DEN) by (nonlinear_arith)
        requires
            sample_rate_hz <= 0xffff,
            pd <= PI_DOUBLE_DEN,
    ;
    assert(2 * cutoff_frequency_hz * pn == 2 * (cutoff_frequency_hz * pn)) by (nonlinear_arith);
}

/// Scaling a value given in units of `1 / m` and rounding the result to
/// whole units gives `alpha * x` rounded toward zero.
pub proof fn lemma_scale_at_resolution(alpha: Ratio, x: int, m: int)
    requires
        alpha.den > 0,
        m > 0,
    ensures
        div_trunc(alpha.scale(x * m), m) == alpha.scale(x),
{
    assert(alpha.num * (x * m) == (alpha.num * x) * m) by (nonlinear_arith);
    lemma_div_trunc_nested(alpha.num * x, alpha.den as int, m);
}

/// Blending values given in units of `1 / m` and rounding the result to
/// whole units gives `prev + alpha * (x - prev)` rounded toward zero.
pub proof fn lemma_blend_at_resolution(alpha: Ratio, prev: int, x: int, m: int)
    requires
        alpha.den > 0,
        m > 0,
    ensures
        div_trunc(alpha.blend(prev * m, x * m), m) == alpha.blend(prev, x),
{
    let d = alpha.den as int;
    assert((prev * m) * d + alpha.num * (x * m - prev * m) == (prev * d + alpha.num * (x - prev)) * m)
        by (nonlinear_arith);
    lemma_div_trunc_nested(prev * d + alpha.num * (x - prev), d, m);
}

/// A smoothing factor held as an exact fraction of two integers.
pub struct Alpha {
    num: u128,
    den: u128,
}

impl View for Alpha {
    type V = Ratio;

    closed spec fn view(&self) -> Ratio {
        Ratio { num: self.num as nat, den: self.den as nat }
    }
}

impl Alpha {
    #[verifier::type_invariant]
    spec fn fits(self) -> bool {
        0 < self.den <= ALPHA_DEN_LIMIT && self.num <= self.den
    }

    /// Derives the factor from a sample rate and a cutoff frequency in Hz.
    pub fn of_rates(precision: Precision, sample_rate_hz: u32, cutoff_frequency_hz: u32) -> (a: Alpha)
        requires
            sample_rate_hz > 0,
        ensures
            a@ == Ratio::of_rates(precision, sample_rate_hz as nat, cutoff_frequency_hz as nat),
            a@.is_valid(),
    {
        let (pi_num, pi_den) = precision.pi();
        let fs = sample_rate_hz as u128;
        let fc = cutoff_frequency_hz as u128;
        assert(fc * pi_num <= 0xffff_ffffu128 * PI_DOUBLE_NUM) by (nonlinear_arith)
            requires
                fc <= 0xffff_ffff,
                pi_num <= PI_DOUBLE_NUM,
        ;
        assert(fs * pi_den <= 0xffff_ffffu128 * PI_DOUBLE_DEN) by (nonlinear_arith)
            requires
                fs <= 0xffff_ffff,
                pi_den <= PI_DOUBLE_DEN,
        ;
        let num = 2 * (fc * (pi_num as u128));
        let den = fs * (pi_den as u128) + num;
        proof {
            lemma_of_rates_valid(precision, sample_rate_hz as nat, cutoff_frequency_hz as nat);
        }
        Alpha { num, den }
    }

    /// The numerator of the factor.
    pub fn numerator(&self) -> (r: u128)
        ensures
            r == self@.num,
    {
        self.num
    }

    /// The denominator of the factor.
    pub fn denominator(&self) -> (r: u128)
        ensures
            r == self@.den,
    {
        self.den
    }

    /// `alpha * x`, rounded toward zero.
    pub fn scale(&self, x: i32) -> (r: i32)
        ensures
            r == self@.scale(x as int),
            min_int(0, x as int) <= r <= max_int(0, x as int),
    {
        proof {
            use_type_invariant(self);
            lemma_scale_between(self@, x as int);
        }
        let ghost lim = ALPHA_DEN_LIMIT as int;
        assert(-lim * 0x8000_0000 <= self.num * x <= lim * 0x8000_0000) by (nonlinear_arith)
            requires
                0 <= self.num <= lim,
                -0x8000_0000 <= x < 0x8000_0000,
        ;
        let n = (self.num as i128) * (x as i128);
        div_trunc_exec(n, self.den) as i32
    }

    /// `prev + alpha * (x - prev)`, rounded toward zero.
    pub fn blend(&self, prev: i32, x: i32) -> (r: i32)
        ensures
            r == self@.blend(prev as int, x as int),
            min_int(prev as int, x as int) <= r <= max_int(prev as int, x as int),
    {
        proof {
            use_type_invariant(self);
            lemma_blend_between(self@, prev as int, x as int);
        }
        let diff = (x as i128) - (prev as i128);
        let ghost lim = ALPHA_DEN_LIMIT as int;
        assert(-lim * 0x8000_0000 <= prev * self.den <= lim * 0x8000_0000) by (nonlinear_arith)
            requires
                0 <= self.den <= lim,
                -0x8000_0000 <= prev < 0x8000_0000,
        ;
        assert(-lim * 0x1_0000_0000 <= self.num * diff <= lim * 0x1_0000_0000) by (nonlinear_arith)
            requires
                0 <= self.num <= lim,
                -0x1_0000_0000 <= diff <= 0x1_0000_0000,
        ;
        let n = (prev as i128) * (self.den as i128) + (self.num as i128) * diff;
        div_trunc_exec(n, self.den) as i32
    }

    /// `alpha * x`, rounded toward zero, for a factor built from `u16` rates
    /// and a value of at most 55 bits.
    pub fn scale_wide(&self, x: i64) -> (r: i64)
        requires
            self@.den < NARROW_DEN_LIMIT,
            -WIDE_VALUE_LIMIT <= x <= WIDE_VALUE_LIMIT,
        ensures
            r == self@.scale(x as int),
            min_int(0, x as int) <= r <= max_int(0, x as int),
    {
        proof {
            use_type_invariant(self);
            lemma_scale_between(self@, x as int);
        }
        let ghost lim = NARROW_DEN_LIMIT as int;
        let ghost w = WIDE_VALUE_LIMIT as int;
        assert(-lim * w <= self.num * x <= lim * w) by (nonlinear_arith)
            requires
                0 <= self.num <= lim,
                -w <= x <= w,
        ;
        let n = (self.num as i128) * (x as i128);
        div_trunc_exec(n, self.den) as i64
    }

    /// `prev + alpha * (x - prev)`, rounded toward zero, for a factor built
    /// from `u16` rates and values of at most 55 bits.
    pub fn blend_wide(&self, prev: i64, x: i64) -> (r: i64)
        requires
            self@.den < NARROW_DEN_LIMIT,
            -WIDE_VALUE_LIMIT <= prev <= WIDE_VALUE_LIMIT,
            -WIDE_VALUE_LIMIT <= x <= WIDE_VALUE_LIMIT,
        ensures
            r == self@.blend(prev as int, x as int),
            min_int(prev as int, x as int) <= r <= max_int(prev as int, x as int),
    {
        proof {
            use_type_invariant(self);
            lemma_blend_between(self@, prev as int, x as int);
        }
        let diff = (x as i128) - (prev as i128);
        let ghost lim = NARROW_DEN_LIMIT as int;
        let ghost w = WIDE_VALUE_LIMIT as int;
        assert(-lim * w <= prev * self.den <= lim * w) by (nonlinear_arith)
            requires
                0 <= self.den <= lim,
                -w <= prev <= w,
        ;
        assert(-lim * (2 * w) <= self.num * diff <= lim * (2 * w)) by (nonlinear_arith)
            requires
                0 <= self.num <= lim,
                -2 * w <= diff <= 2 * w,
        ;
        let n = (prev as i128) * (self.den as i128) + (self.num as i128) * diff;
        div_trunc_exec(n, self.den) as i64
    }
}

} // verus!
