use vstd::prelude::*;

verus! {

/// Why no range or no histogram could be made.
#[derive(Debug, Clone, Copy, PartialEq, Eq, Structural)]
pub enum HistogramError {
    /// The sample set is empty, so it has no least and no greatest sample.
    EmptySamples,
    /// The sample at `index` is not a number; no earlier sample is.
    NanSample { index: usize },
    /// A histogram needs at least one bin.
    NoBins,
    /// `found` quotients were passed for a range of `expected` samples.
    CountMismatch { expected: usize, found: usize },
}

} // verus!
