//! A library of scalar time-series characteristics: each feature takes one
//! read-only numeric series and returns a double-precision scalar, a NaN
//! sentinel meaning "undefined for this input", or a typed failure.
//!
//! Verus has no model of IEEE-754 arithmetic, so every double travels as its
//! raw bit pattern ([`primitive::Float`]); the arithmetic itself sits behind
//! the small trusted surface of [`primitive`], and everything above it - the
//! statistics core, the transform pipeline, the histogram engine, the
//! coarse-graining step and the feature algorithms - is verified against
//! contracts phrased over those named operations.

pub mod error;
pub mod features;
pub mod fft;
pub mod hist_count;
pub mod primitive;
pub mod stat;
pub mod utility;
