//! Sample sets: the samples that a histogram is made from.

use vstd::prelude::*;
use crate::error::HistogramError;
use crate::extrema::{
    has_nan, is_first_nan, lemma_range_is_unique, range_of, scan_range, SampleRange,
};

verus! {

/// A sequence of samples with at least one sample, all of them numbers, and
/// with its range.
///
/// The order of the samples is kept: the quotients that a histogram is built
/// from are matched to the samples by position.
#[derive(Debug)]
pub struct SampleSet {
    patterns: Vec<u64>,
    range: SampleRange,
}

impl View for SampleSet {
    type V = Seq<u64>;

    /// The samples, as bit patterns.
    closed spec fn view(&self) -> Seq<u64> {
        self.patterns@
    }
}

impl SampleSet {
    #[verifier::type_invariant]
    spec fn well_formed(&self) -> bool {
        &&& self.range.describes(self.patterns@)
        &&& !has_nan(self.patterns@)
    }

    /// Makes a sample set of the given bit patterns.
    ///
    /// An empty sequence is refused, and so is one that holds a pattern that
    /// is not a number; the error names the first such pattern.
    pub fn from_patterns(patterns: Vec<u64>) -> (r: Result<SampleSet, HistogramError>)
        ensures
            r is Ok <==> patterns@.len() > 0 && !has_nan(patterns@),
            match r {
                Ok(set) => set@ == patterns@,
                Err(HistogramError::EmptySamples) => patterns@.len() == 0,
                Err(HistogramError::NanSample { index }) => is_first_nan(patterns@, index as int),
                Err(_) => false,
            },
    {
        match scan_range(&patterns) {
            Ok(range) => Ok(SampleSet { patterns, range }),
            Err(error) => Err(error),
        }
    }

    /// The number of samples, which is at least one.
    pub fn len(&self) -> (r: usize)
        ensures
            r == self@.len(),
            r >= 1,
    {
        proof {
            use_type_invariant(self);
        }
        self.patterns.len()
    }

    /// The range of the set: its least and its greatest sample.
    pub fn range(&self) -> (r: SampleRange)
        ensures
            r == range_of(self@),
            r.describes(self@),
    {
        proof {
            use_type_invariant(self);
            lemma_range_is_unique(self@, self.range, range_of(self@));
        }
        self.range
    }

    /// The samples in their order, as bit patterns. None of them is not a
    /// number.
    pub fn patterns(&self) -> (r: &Vec<u64>)
        ensures
            r@ == self@,
            r@.len() >= 1,
            !has_nan(r@),
    {
        proof {
            use_type_invariant(self);
        }
        &self.patterns
    }
}

} // verus!
