//! First-order IIR lowpass filters on integer audio samples.
//!
//! The smoothing factor `alpha = dt / (rc + dt)`, with `rc = 1 / (2 π fc)`
//! and `dt = 1 / fs`, is kept as an exact fraction, π being the binary value
//! that `f32` or `f64` holds; the arithmetic is exact, not float arithmetic.
//! Each step computes `prev + alpha * (x - prev)` exactly and rounds it toward
//! zero, as a float-to-integer cast does: to whole samples in
//! [`LowpassFilter`] and the `apply_lpf_*` functions, to a finer fixed
//! resolution in [`Filter`], which rounds to whole samples only on output.
use vstd::prelude::*;

pub mod arith;
pub mod coefficient;
pub mod filter;
pub mod simple;

pub use coefficient::{Alpha, Precision};
pub use filter::LowpassFilter;
pub use simple::{
    apply_lpf_i16, apply_lpf_i16_dp, apply_lpf_i16_sp, apply_lpf_i32, apply_lpf_i32_dp,
    apply_lpf_i32_sp, Filter,
};

verus! {

} // verus!
