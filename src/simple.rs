//! Batch filtering of whole buffers of 16- or 32-bit samples.
//!
//! The smoothing factor is an exact fraction and every step is computed
//! exactly before it is rounded toward zero; single and double precision
//! differ only in the value of π the factor is built from. A float
//! evaluation of the same recurrence can differ by one here and there, and
//! by more once 32-bit samples exceed what an `f32` holds exactly.
use crate::arith::{div_trunc, div_trunc_exec, lemma_div_trunc_within};
use crate::coefficient::{
    lemma_blend_at_resolution, lemma_of_narrow_rates_den, lemma_scale_at_resolution, Alpha,
    Precision, Ratio, NARROW_DEN_LIMIT,
};
use crate::filter::{lemma_first_sample_rule, FilterState, LowpassFilter};
use vstd::prelude::*;

verus! {

/// The samples of a 16-bit buffer as integers.
pub open spec fn widen_i16(s: Seq<i16>) -> Seq<int> {
    s.map_values(|v: i16| v as int)
}

/// The samples of a 32-bit buffer as integers.
pub open spec fn widen_i32(s: Seq<i32>) -> Seq<int> {
    s.map_values(|v: i32| v as int)
}

/// What a fresh filter for these rates makes of the samples `xs`.
pub open spec fn lowpassed(precision: Precision, sample_rate_hz: nat, cutoff_frequency_hz: nat, xs: Seq<int>) -> Seq<int> {
    FilterState::initial(Ratio::of_rates(precision, sample_rate_hz, cutoff_frequency_hz)).outputs(xs)
}

/// The first output is `alpha * x0`, and the second `x0 + alpha * (x1 - x0)`
/// with the raw `x0` as seed, both rounded toward zero.
pub open spec fn starts_by_rule(alpha: Ratio, xs: Seq<int>, ys: Seq<int>) -> bool {
    &&& xs.len() >= 1 ==> ys[0] == alpha.scale(xs[0])
    &&& xs.len() >= 2 ==> ys[1] == alpha.blend(xs[0], xs[1])
}

/// Filters a buffer of mono 16-bit samples in place, with a fresh filter for
/// the given sample rate and cutoff frequency in Hz. Each output is rounded
/// toward zero and becomes the seed of the next step. For stereo data, call it
/// once per channel.
pub fn apply_lpf_i16(data: &mut [i16], sample_rate_hz: u16, cutoff_frequency_hz: u16, precision: Precision)
    requires
        sample_rate_hz > 0,
    ensures
        widen_i16(final(data)@) == lowpassed(
            precision,
            sample_rate_hz as nat,
            cutoff_frequency_hz as nat,
            widen_i16(old(data)@),
        ),
        starts_by_rule(
            Ratio::of_rates(precision, sample_rate_hz as nat, cutoff_frequency_hz as nat),
            widen_i16(old(data)@),
            widen_i16(final(data)@),
        ),
{
    let mut filter = LowpassFilter::with_alpha(
        Alpha::of_rates(precision, sample_rate_hz as u32, cutoff_frequency_hz as u32),
    );
    let ghost xs = widen_i16(data@);
    let ghost start = filter@;
    let n = data.len();
    let mut i: usize = 0;
    while i < n
        invariant
            n == data@.len(),
            xs.len() == n,
            i <= n,
            filter@ == start.after(xs.take(i as int)),
            filter@.next_is_first || i16::MIN <= filter@.prev <= i16::MAX,
            widen_i16(data@).take(i as int) == start.outputs(xs.take(i as int)),
            forall|j: int| i <= j < n ==> data@[j] as int == xs[j],
        decreases n - i,
    {
        let ghost before = data@;
        let x = data[i];
        let y = filter.run(x as i32);
        data[i] = y as i16;
        proof {
            assert(xs.take(i + 1).drop_last() =~= xs.take(i as int));
            assert(widen_i16(data@).take(i + 1) =~= widen_i16(before).take(i as int).push(
                y as int,
            )) by {
                assert(widen_i16(data@).take(i as int) =~= widen_i16(before).take(i as int));
            };
        }
        i += 1;
    }
    proof {
        assert(xs.take(n as int) =~= xs);
        assert(widen_i16(data@).take(n as int) =~= widen_i16(data@));
        if n >= 1 {
            lemma_first_sample_rule(start.alpha, xs);
        }
    }
}

/// Filters a buffer of mono 32-bit samples in place, with a fresh filter for
/// the given sample rate and cutoff frequency in Hz. Each output is rounded
/// toward zero and becomes the seed of the next step.
pub fn apply_lpf_i32(data: &mut [i32], sample_rate_hz: u16, cutoff_frequency_hz: u16, precision: Precision)
    requires
        sample_rate_hz > 0,
    ensures
        widen_i32(final(data)@) == lowpassed(
            precision,
            sample_rate_hz as nat,
            cutoff_frequency_hz as nat,
            widen_i32(old(data)@),
        ),
        starts_by_rule(
            Ratio::of_rates(precision, sample_rate_hz as nat, cutoff_frequency_hz as nat),
            widen_i32(old(data)@),
            widen_i32(final(data)@),
        ),
{
    let mut filter = LowpassFilter::with_alpha(
        Alpha::of_rates(precision, sample_rate_hz as u32, cutoff_frequency_hz as u32),
    );
    let ghost xs = widen_i32(data@);
    let ghost start = filter@;
    let n = data.len();
    let mut i: usize = 0;
    while i < n
        invariant
            n == data@.len(),
            xs.len() == n,
            i <= n,
            filter@ == start.after(xs.take(i as int)),
            widen_i32(data@).take(i as int) == start.outputs(xs.take(i as int)),
            forall|j: int| i <= j < n ==> data@[j] as int == xs[j],
        decreases n - i,
    {
        let ghost before = data@;
        let y = filter.run(data[i]);
        data[i] = y;
        proof {
            assert(xs.take(i + 1).drop_last() =~= xs.take(i as int));
            assert(widen_i32(data@).take(i + 1) =~= widen_i32(before).take(i as int).push(
                y as int,
            )) by {
                assert(widen_i32(data@).take(i as int) =~= widen_i32(before).take(i as int));
            };
        }
        i += 1;
    }
    proof {
        assert(xs.take(n as int) =~= xs);
        assert(widen_i32(data@).take(n as int) =~= widen_i32(data@));
        if n >= 1 {
            lemma_first_sample_rule(start.alpha, xs);
        }
    }
}

/// [`apply_lpf_i16`] with the smoothing factor built from π as `f64` holds it;
/// the arithmetic itself is exact, not `f64` arithmetic.
pub fn apply_lpf_i16_dp(data: &mut [i16], sample_rate_hz: u16, cutoff_frequency_hz: u16)
    requires
        sample_rate_hz > 0,
    ensures
        widen_i16(final(data)@) == lowpassed(
            Precision::Double,
            sample_rate_hz as nat,
            cutoff_frequency_hz as nat,
            widen_i16(old(data)@),
        ),
        starts_by_rule(
            Ratio::of_rates(Precision::Double, sample_rate_hz as nat, cutoff_frequency_hz as nat),
            widen_i16(old(data)@),
            widen_i16(final(data)@),
        ),
{
    apply_lpf_i16(data, sample_rate_hz, cutoff_frequency_hz, Precision::Double)
}

/// [`apply_lpf_i32`] with the smoothing factor built from π as `f64` holds it;
/// the arithmetic itself is exact, not `f64` arithmetic.
pub fn apply_lpf_i32_dp(data: &mut [i32], sample_rate_hz: u16, cutoff_frequency_hz: u16)
    requires
        sample_rate_hz > 0,
    ensures
        widen_i32(final(data)@) == lowpassed(
            Precision::Double,
            sample_rate_hz as nat,
            cutoff_frequency_hz as nat,
            widen_i32(old(data)@),
        ),
        starts_by_rule(
            Ratio::of_rates(Precision::Double, sample_rate_hz as nat, cutoff_frequency_hz as nat),
            widen_i32(old(data)@),
            widen_i32(final(data)@),
        ),
{
    apply_lpf_i32(data, sample_rate_hz, cutoff_frequency_hz, Precision::Double)
}

/// [`apply_lpf_i16`] with the smoothing factor built from π as `f32` holds it;
/// the arithmetic itself is exact, not `f32` arithmetic.
pub fn apply_lpf_i16_sp(data: &mut [i16], sample_rate_hz: u16, cutoff_frequency_hz: u16)
    requires
        sample_rate_hz > 0,
    ensures
        widen_i16(final(data)@) == lowpassed(
            Precision::Single,
            sample_rate_hz as nat,
            cutoff_frequency_hz as nat,
            widen_i16(old(data)@),
        ),
        starts_by_rule(
            Ratio::of_rates(Precision::Single, sample_rate_hz as nat, cutoff_frequency_hz as nat),
            widen_i16(old(data)@),
            widen_i16(final(data)@),
        ),
{
    apply_lpf_i16(data, sample_rate_hz, cutoff_frequency_hz, Precision::Single)
}

/// [`apply_lpf_i32`] with the smoothing factor built from π as `f32` holds it;
/// the arithmetic itself is exact, not `f32` arithmetic, so large samples come
/// out as exactly as small ones.
pub fn apply_lpf_i32_sp(data: &mut [i32], sample_rate_hz: u16, cutoff_frequency_hz: u16)
    requires
        sample_rate_hz > 0,
    ensures
        widen_i32(final(data)@) == lowpassed(
            Precision::Single,
            sample_rate_hz as nat,
            cutoff_frequency_hz as nat,
            widen_i32(old(data)@),
        ),
        starts_by_rule(
            Ratio::of_rates(Precision::Single, sample_rate_hz as nat, cutoff_frequency_hz as nat),
            widen_i32(old(data)@),
            widen_i32(final(data)@),
        ),
{
    apply_lpf_i32(data, sample_rate_hz, cutoff_frequency_hz, Precision::Single)
}

/// Units per whole sample in which [`Filter::apply`] keeps its running value
/// (two to the 24th).
pub const WORKING_SCALE: i64 = 16777216;

/// What [`Filter::apply`] makes of `xs`: the recurrence runs on the samples
/// counted in units of `1 / WORKING_SCALE`, and only its outputs are rounded
/// back, toward zero, to whole samples.
pub open spec fn lowpassed_fine(precision: Precision, sample_rate_hz: nat, cutoff_frequency_hz: nat, xs: Seq<int>) -> Seq<int> {
    lowpassed(
        precision,
        sample_rate_hz,
        cutoff_frequency_hz,
        xs.map_values(|x: int| x * WORKING_SCALE),
    ).map_values(|o: int| div_trunc(o, WORKING_SCALE as int))
}

/// A batch filter that leaves its input alone and returns the filtered copy.
///
/// Unlike [`apply_lpf_i32`], it does not round the running value to whole
/// samples between steps: it keeps it in units of `1 / WORKING_SCALE` (finer
/// than an `f32` resolves a 16-bit sample) and rounds only the outputs. The
/// precision picks the value of π behind the smoothing factor.
pub struct Filter {
    pub precision: Precision,
}

impl Filter {
    /// Returns the samples filtered by a fresh filter for the given sample
    /// rate and cutoff frequency in Hz.
    pub fn apply(&self, samples: &[i32], sampling_rate: u16, cutoff_frequency_hz: u16) -> (r: Vec<i32>)
        requires
            sampling_rate > 0,
        ensures
            widen_i32(r@) == lowpassed_fine(
                self.precision,
                sampling_rate as nat,
                cutoff_frequency_hz as nat,
                widen_i32(samples@),
            ),
            starts_by_rule(
                Ratio::of_rates(self.precision, sampling_rate as nat, cutoff_frequency_hz as nat),
                widen_i32(samples@),
                widen_i32(r@),
            ),
    {
        let alpha = Alpha::of_rates(self.precision, sampling_rate as u32, cutoff_frequency_hz as u32);
        proof {
            lemma_of_narrow_rates_den(self.precision, sampling_rate as nat, cutoff_frequency_hz as nat);
        }
        let ghost scale = WORKING_SCALE as int;
        let ghost lo = i32::MIN * scale;
        let ghost hi = i32::MAX * scale;
        let ghost xs = widen_i32(samples@);
        let ghost fine = xs.map_values(|x: int| x * WORKING_SCALE);
        let ghost start = FilterState::initial(alpha@);
        let mut prev: i64 = 0;
        let mut first = true;
        let mut out: Vec<i32> = Vec::with_capacity(samples.len());
        let n = samples.len();
        let mut i: usize = 0;
        while i < n
            invariant
                n == samples@.len(),
                xs == widen_i32(samples@),
                fine == xs.map_values(|x: int| x * WORKING_SCALE),
                scale == WORKING_SCALE,
                lo == i32::MIN * scale,
                hi == i32::MAX * scale,
                i <= n,
                alpha@.den < NARROW_DEN_LIMIT,
                start == FilterState::initial(alpha@),
                (FilterState { alpha: alpha@, prev: prev as int, next_is_first: first }) == start.after(
                    fine.take(i as int),
                ),
                lo <= prev <= hi,
                widen_i32(out@) == start.outputs(fine.take(i as int)).map_values(
                    |o: int| div_trunc(o, scale),
                ),
            decreases n - i,
        {
            let ghost before = out@;
            let ghost state = FilterState { alpha: alpha@, prev: prev as int, next_is_first: first };
            let x = (samples[i] as i64) * WORKING_SCALE;
            assert(x == fine[i as int]);
            let y = if first {
                first = false;
                prev = x;
                alpha.scale_wide(x)
            } else {
                let v = alpha.blend_wide(prev, x);
                prev = v;
                v
            };
            proof {
                lemma_div_trunc_within(y as int, scale, i32::MIN as int, i32::MAX as int);
            }
            let q = div_trunc_exec(y as i128, WORKING_SCALE as u128) as i32;
            out.push(q);
            proof {
                let t = fine.take(i as int);
                let t1 = fine.take(i + 1);
                assert(t1.drop_last() =~= t);
                assert(t1.last() == fine[i as int]);
                assert(y == state.output(x as int));
                assert(start.outputs(t1) == start.outputs(t).push(y as int));
                assert(widen_i32(out@) =~= widen_i32(before).push(q as int));
                assert(start.outputs(t1).map_values(|o: int| div_trunc(o, scale)) =~= start.outputs(
                    t,
                ).map_values(|o: int| div_trunc(o, scale)).push(div_trunc(y as int, scale)));
            }
            i += 1;
        }
        proof {
            assert(fine.take(n as int) =~= fine);
            let rat = Ratio::of_rates(self.precision, sampling_rate as nat, cutoff_frequency_hz as nat);
            assert(alpha@ == rat);
            if n >= 1 {
                lemma_first_sample_rule(rat, fine);
                lemma_scale_at_resolution(rat, xs[0], scale);
                if n >= 2 {
                    lemma_blend_at_resolution(rat, xs[0], xs[1], scale);
                }
            }
        }
        out
    }
}

} // verus!
