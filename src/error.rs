use vstd::prelude::*;

verus! {

/// Conditions reported by the constructors and by the resampler's output loop.
#[derive(Clone, Copy, Debug, PartialEq, Eq, Structural)]
pub enum DspError {
    /// A size, phase count or rate that the object cannot be built with.
    InvalidConfiguration,
    /// The resampler needs another input sample before it can produce output.
    InputExhausted,
}

} // verus!
