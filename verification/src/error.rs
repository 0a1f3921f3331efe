use vstd::prelude::*;

use crate::primitive::Float;

verus! {

/// A structural failure of a feature computation.  NaN contamination is not
/// an error: features report it through the NaN sentinel value instead.
#[derive(Clone, Copy, Debug)]
#[allow(inconsistent_fields)]
pub enum Catch22Error {
    /// The series has zero samples where at least one is required.
    EmptyInput,
    /// An internal size computation (such as the transform padding) exceeds
    /// the representable range; carries the length it failed on.
    SizeOver(usize),
    /// The series is shorter than the feature's minimum required length.
    SizeUnder { len: usize, expect_minimum: usize },
    /// A caller-supplied double parameter violates its domain.
    InvalidFloatParameter { name: &'static str, value: Float },
    /// A caller-supplied size parameter violates its domain.
    InvalidUsizeParameter { name: &'static str, value: usize },
}

pub type Catch22Result<T> = Result<T, Catch22Error>;

} // verus!
