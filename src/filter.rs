//! A first-order lowpass filter that consumes and emits samples one by one.
use crate::coefficient::{
    lemma_blend_between, lemma_scale_between, max_int, min_int, Alpha, Precision, Ratio,
};
use vstd::prelude::*;

verus! {

/// The mathematical state of a filter: its smoothing factor, the value that
/// seeds the next step, and whether the next sample is the first one.
pub struct FilterState {
    pub alpha: Ratio,
    pub prev: int,
    pub next_is_first: bool,
}

impl FilterState {
    /// The state of a filter that has seen no sample yet.
    pub open spec fn initial(alpha: Ratio) -> FilterState {
        FilterState { alpha, prev: 0, next_is_first: true }
    }

    /// The state after a reset: the factor stays, the history goes.
    pub open spec fn reset(self) -> FilterState {
        FilterState::initial(self.alpha)
    }

    /// The filtered value of the sample `x`: `alpha * x` for the first
    /// sample, `prev + alpha * (x - prev)` after it, rounded toward zero.
    pub open spec fn output(self, x: int) -> int {
        if self.next_is_first {
            self.alpha.scale(x)
        } else {
            self.alpha.blend(self.prev, x)
        }
    }

    /// The state after the sample `x`. The first sample seeds the recurrence
    /// with its raw value, not with its scaled output.
    pub open spec fn step(self, x: int) -> FilterState {
        FilterState {
            alpha: self.alpha,
            prev: if self.next_is_first {
                x
            } else {
                self.alpha.blend(self.prev, x)
            },
            next_is_first: false,
        }
    }

    /// The state after the samples `xs`, in order.
    pub open spec fn after(self, xs: Seq<int>) -> FilterState
        decreases xs.len(),
    {
        if xs.len() == 0 {
            self
        } else {
            self.after(xs.drop_last()).step(xs.last())
        }
    }

    /// The filtered values of the samples `xs`, in order.
    pub open spec fn outputs(self, xs: Seq<int>) -> Seq<int>
        decreases xs.len(),
    {
        if xs.len() == 0 {
            Seq::empty()
        } else {
            self.outputs(xs.drop_last()).push(self.after(xs.drop_last()).output(xs.last()))
        }
    }
}

/// A first-order IIR lowpass filter on integer samples.
///
/// Each output is `prev + alpha * (input - prev)`, rounded toward zero, and
/// becomes the next `prev`; the first sample after construction or a reset
/// gives `alpha * input` and seeds `prev` with the raw input.
pub struct LowpassFilter {
    alpha: Alpha,
    prev: i32,
    next_is_first: bool,
}

impl View for LowpassFilter {
    type V = FilterState;

    closed spec fn view(&self) -> FilterState {
        FilterState { alpha: self.alpha@, prev: self.prev as int, next_is_first: self.next_is_first }
    }
}

impl LowpassFilter {
    /// Creates a filter for a sample rate and a cutoff frequency in Hz. The
    /// cutoff may be at most half the sample rate (the Nyquist limit).
    pub fn new(precision: Precision, sample_rate_hz: u32, cutoff_frequency_hz: u32) -> (f: Self)
        requires
            0 < sample_rate_hz,
            2 * cutoff_frequency_hz <= sample_rate_hz,
        ensures
            f@ == FilterState::initial(
                Ratio::of_rates(precision, sample_rate_hz as nat, cutoff_frequency_hz as nat),
            ),
    {
        Self::with_alpha(Alpha::of_rates(precision, sample_rate_hz, cutoff_frequency_hz))
    }

    /// Creates a filter with the given smoothing factor.
    pub fn with_alpha(alpha: Alpha) -> (f: Self)
        ensures
            f@ == FilterState::initial(alpha@),
    {
        LowpassFilter { alpha, prev: 0, next_is_first: true }
    }

    /// Filters one sample and returns the filtered value.
    pub fn run(&mut self, input: i32) -> (output: i32)
        ensures
            output == old(self)@.output(input as int),
            final(self)@ == old(self)@.step(input as int),
            old(self)@.next_is_first ==> min_int(0, input as int) <= output <= max_int(
                0,
                input as int,
            ),
            !old(self)@.next_is_first ==> min_int(old(self)@.prev, input as int) <= output
                <= max_int(old(self)@.prev, input as int),
    {
        if self.next_is_first {
            self.next_is_first = false;
            self.prev = input;
            self.alpha.scale(input)
        } else {
            let value = self.alpha.blend(self.prev, input);
            self.prev = value;
            value
        }
    }

    /// Returns the filter to the state of one that has seen no sample.
    pub fn reset(&mut self)
        ensures
            final(self)@ == old(self)@.reset(),
    {
        self.prev = 0;
        self.next_is_first = true;
    }

    /// The smoothing factor.
    pub fn alpha(&self) -> (a: &Alpha)
        ensures
            a@ == self@.alpha,
    {
        &self.alpha
    }
}

/// Filtering keeps the smoothing factor, and gives one output per sample.
pub proof fn lemma_outputs_shape(s: FilterState, xs: Seq<int>)
    ensures
        s.after(xs).alpha == s.alpha,
        s.outputs(xs).len() == xs.len(),
    decreases xs.len(),
{
    if xs.len() > 0 {
        lemma_outputs_shape(s, xs.drop_last());
    }
}

/// The outputs of a filter for a valid factor, started in any state whose
/// seed lies in `[lo, hi]` (or that awaits its first sample), stay in
/// `[lo, hi]` whenever the inputs do and `lo <= 0 <= hi`.
proof fn lemma_outputs_within_from(s: FilterState, xs: Seq<int>, lo: int, hi: int)
    requires
        s.alpha.is_valid(),
        lo <= 0 <= hi,
        s.next_is_first || lo <= s.prev <= hi,
        forall|i: int| 0 <= i < xs.len() ==> lo <= #[trigger] xs[i] <= hi,
    ensures
        s.after(xs).alpha == s.alpha,
        s.after(xs).next_is_first || lo <= s.after(xs).prev <= hi,
        s.outputs(xs).len() == xs.len(),
        forall|i: int| 0 <= i < xs.len() ==> lo <= #[trigger] s.outputs(xs)[i] <= hi,
    decreases xs.len(),
{
    if xs.len() > 0 {
        let init = xs.drop_last();
        let x = xs.last();
        assert(lo <= x <= hi) by {
            assert(x == xs[xs.len() - 1]);
        }
        assert forall|i: int| 0 <= i < init.len() implies lo <= #[trigger] init[i] <= hi by {
            assert(init[i] == xs[i]);
        }
        lemma_outputs_within_from(s, init, lo, hi);
        let mid = s.after(init);
        if mid.next_is_first {
            lemma_scale_between(mid.alpha, x);
        } else {
            lemma_blend_between(mid.alpha, mid.prev, x);
        }
        let outs = s.outputs(xs);
        assert forall|i: int| 0 <= i < xs.len() implies lo <= #[trigger] outs[i] <= hi by {
            if i < init.len() {
                assert(outs[i] == s.outputs(init)[i]);
            }
        }
    }
}

/// Boundedness: when every input sample lies in `[lo, hi]` and that range
/// holds zero, every output sample of a fresh filter lies in it too.
pub proof fn lemma_outputs_within(alpha: Ratio, xs: Seq<int>, lo: int, hi: int)
    requires
        alpha.is_valid(),
        lo <= 0 <= hi,
        forall|i: int| 0 <= i < xs.len() ==> lo <= #[trigger] xs[i] <= hi,
    ensures
        FilterState::initial(alpha).outputs(xs).len() == xs.len(),
        forall|i: int|
            0 <= i < xs.len() ==> lo <= #[trigger] FilterState::initial(alpha).outputs(xs)[i] <= hi,
{
    lemma_outputs_within_from(FilterState::initial(alpha), xs, lo, hi);
}

/// Reset: whatever a filter has seen, resetting it and then filtering `xs`
/// gives what a freshly built filter for the same rates gives, and a second
/// reset changes nothing.
pub proof fn lemma_reset_matches_fresh(
    precision: Precision,
    sample_rate_hz: nat,
    cutoff_frequency_hz: nat,
    history: Seq<int>,
    xs: Seq<int>,
)
    ensures
        ({
            let fresh = FilterState::initial(
                Ratio::of_rates(precision, sample_rate_hz, cutoff_frequency_hz),
            );
            &&& fresh.after(history).reset().outputs(xs) == fresh.outputs(xs)
            &&& fresh.after(history).reset().reset() == fresh.after(history).reset()
        }),
{
    let fresh = FilterState::initial(Ratio::of_rates(precision, sample_rate_hz, cutoff_frequency_hz));
    lemma_outputs_shape(fresh, history);
    assert(fresh.after(history).reset() == fresh);
}

/// First-sample rule: the first output is `alpha * x0` rounded toward zero,
/// and the second, if any, blends `x1` into the raw `x0`, not into the first
/// output.
pub proof fn lemma_first_sample_rule(alpha: Ratio, xs: Seq<int>)
    requires
        xs.len() >= 1,
    ensures
        FilterState::initial(alpha).outputs(xs).len() == xs.len(),
        FilterState::initial(alpha).outputs(xs)[0] == alpha.scale(xs[0]),
        xs.len() >= 2 ==> FilterState::initial(alpha).outputs(xs)[1] == alpha.blend(xs[0], xs[1]),
{
    let s = FilterState::initial(alpha);
    let one = xs.take(1);
    assert(one.drop_last() =~= Seq::<int>::empty());
    assert(one.last() == xs[0]);
    assert(s.after(one.drop_last()) == s);
    assert(s.outputs(one.drop_last()) == Seq::<int>::empty());
    assert(s.outputs(one) =~= seq![alpha.scale(xs[0])]);
    lemma_outputs_shape(s, xs);
    lemma_outputs_prefix(s, xs, 1);
    assert(s.outputs(xs)[0] == s.outputs(xs).take(1)[0]);
    if xs.len() >= 2 {
        let two = xs.take(2);
        assert(two.drop_last() =~= one);
        assert(two.last() == xs[1]);
        assert(s.after(one) == s.step(xs[0]));
        assert(s.outputs(two) =~= seq![alpha.scale(xs[0]), alpha.blend(xs[0], xs[1])]);
        lemma_outputs_prefix(s, xs, 2);
        assert(s.outputs(xs)[1] == s.outputs(xs).take(2)[1]);
    }
}

/// Filtering a prefix of `xs` gives the matching prefix of the outputs.
pub proof fn lemma_outputs_prefix(s: FilterState, xs: Seq<int>, k: int)
    requires
        0 <= k <= xs.len(),
    ensures
        s.outputs(xs.take(k)) == s.outputs(xs).take(k),
    decreases xs.len(),
{
    lemma_outputs_shape(s, xs);
    if k < xs.len() {
        let init = xs.drop_last();
        assert(init.take(k) =~= xs.take(k));
        lemma_outputs_prefix(s, init, k);
        lemma_outputs_shape(s, init);
        assert(s.outputs(init).take(k) =~= s.outputs(xs).take(k));
    } else {
        assert(xs.take(k) =~= xs);
        assert(s.outputs(xs).take(k) =~= s.outputs(xs));
    }
}

} // verus!
