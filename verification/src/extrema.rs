//! The least and the greatest sample of a set.

use vstd::prelude::*;
use crate::binary64::{has_nan_pattern, is_nan, key_of, order_key};
use crate::error::HistogramError;

verus! {

/// Where a sample set begins and ends: its least and its greatest sample, as
/// bit patterns and as positions in the set, and the size of the set.
#[derive(Debug, Clone, Copy, PartialEq, Eq, Structural)]
pub struct SampleRange {
    /// The least sample.
    pub least: u64,
    /// The greatest sample.
    pub greatest: u64,
    /// The position of the first sample that is as small as `least`.
    pub least_at: usize,
    /// The position of the last sample that is as great as `greatest`.
    pub greatest_at: usize,
    /// The number of samples in the set.
    pub sample_count: usize,
}

/// `at` is the first position of `samples` that holds a least sample: what
/// comes before is greater, what comes after is not smaller.
pub open spec fn is_first_least(samples: Seq<u64>, at: int) -> bool {
    &&& 0 <= at < samples.len()
    &&& forall|i: int| 0 <= i < at ==> order_key(samples[at]) < order_key(#[trigger] samples[i])
    &&& forall|i: int|
        at <= i < samples.len() ==> order_key(samples[at]) <= order_key(#[trigger] samples[i])
}

/// `at` is the last position of `samples` that holds a greatest sample: what
/// comes before is not greater, what comes after is smaller.
pub open spec fn is_last_greatest(samples: Seq<u64>, at: int) -> bool {
    &&& 0 <= at < samples.len()
    &&& forall|i: int| 0 <= i <= at ==> order_key(#[trigger] samples[i]) <= order_key(samples[at])
    &&& forall|i: int|
        at < i < samples.len() ==> order_key(#[trigger] samples[i]) < order_key(samples[at])
}

/// `at` is the first position of `samples` that holds a pattern that is not a
/// number.
pub open spec fn is_first_nan(samples: Seq<u64>, at: int) -> bool {
    &&& 0 <= at < samples.len()
    &&& is_nan(samples[at])
    &&& forall|i: int| 0 <= i < at ==> !is_nan(#[trigger] samples[i])
}

/// Whether some sample is not a number.
pub open spec fn has_nan(samples: Seq<u64>) -> bool {
    exists|i: int| 0 <= i < samples.len() && is_nan(#[trigger] samples[i])
}

impl SampleRange {
    /// This range is the range of `samples`.
    pub open spec fn describes(self, samples: Seq<u64>) -> bool {
        &&& self.sample_count == samples.len()
        &&& is_first_least(samples, self.least_at as int)
        &&& is_last_greatest(samples, self.greatest_at as int)
        &&& self.least == samples[self.least_at as int]
        &&& self.greatest == samples[self.greatest_at as int]
    }

    /// The least and the greatest sample are the same number, so that the
    /// bins have no width.
    pub open spec fn is_degenerate(self) -> bool {
        order_key(self.least) == order_key(self.greatest)
    }

    /// Tells whether the range is degenerate.
    pub fn degenerate(&self) -> (r: bool)
        ensures
            r == self.is_degenerate(),
    {
        key_of(self.least) == key_of(self.greatest)
    }
}

/// The range of `samples`, if they have one: every set of at least one sample
/// has (see [`lemma_every_set_has_a_range`]), and none has two (see
/// [`lemma_range_is_unique`]).
pub open spec fn range_of(samples: Seq<u64>) -> SampleRange {
    choose|range: SampleRange| range.describes(samples)
}

/// Finds the range of `samples` in one pass.
///
/// An empty set has no range. A set that holds a pattern that is not a
/// number is refused, since such a pattern has no place among the numbers;
/// the error names the first one. Among equal samples the first counts as
/// the least and the last as the greatest.
pub fn scan_range(samples: &Vec<u64>) -> (r: Result<SampleRange, HistogramError>)
    ensures
        r is Ok <==> samples@.len() > 0 && !has_nan(samples@),
        match r {
            Ok(range) => range == range_of(samples@) && range.describes(samples@),
            Err(HistogramError::EmptySamples) => samples@.len() == 0,
            Err(HistogramError::NanSample { index }) => is_first_nan(samples@, index as int),
            Err(_) => false,
        },
{
    let n: usize = samples.len();
    if n == 0 {
        return Err(HistogramError::EmptySamples);
    }
    if has_nan_pattern(samples[0]) {
        return Err(HistogramError::NanSample { index: 0 });
    }
    let mut least_at: usize = 0;
    let mut greatest_at: usize = 0;
    let mut least_key: i64 = key_of(samples[0]);
    let mut greatest_key: i64 = least_key;
    let mut i: usize = 1;
    while i < n
        invariant
            n == samples@.len(),
            1 <= i <= n,
            least_at < i,
            greatest_at < i,
            least_key == order_key(samples@[least_at as int]),
            greatest_key == order_key(samples@[greatest_at as int]),
            forall|j: int| 0 <= j < i ==> !is_nan(#[trigger] samples@[j]),
            forall|j: int| 0 <= j < least_at ==> least_key < order_key(#[trigger] samples@[j]),
            forall|j: int| least_at <= j < i ==> least_key <= order_key(#[trigger] samples@[j]),
            forall|j: int|
                0 <= j <= greatest_at ==> order_key(#[trigger] samples@[j]) <= greatest_key,
            forall|j: int|
                greatest_at < j < i ==> order_key(#[trigger] samples@[j]) < greatest_key,
        decreases n - i,
    {
        let sample: u64 = samples[i];
        if has_nan_pattern(sample) {
            return Err(HistogramError::NanSample { index: i });
        }
        let key: i64 = key_of(sample);
        if key < least_key {
            least_at = i;
            least_key = key;
        }
        if key >= greatest_key {
            greatest_at = i;
            greatest_key = key;
        }
        i += 1;
    }
    let range = SampleRange {
        least: samples[least_at],
        greatest: samples[greatest_at],
        least_at,
        greatest_at,
        sample_count: n,
    };
    proof {
        assert(range.describes(samples@));
        lemma_range_is_unique(samples@, range, range_of(samples@));
    }
    Ok(range)
}

/// A sample set has one range only.
pub proof fn lemma_range_is_unique(samples: Seq<u64>, a: SampleRange, b: SampleRange)
    requires
        a.describes(samples),
        b.describes(samples),
    ensures
        a == b,
{
    assert(a.least_at == b.least_at) by {
        if a.least_at < b.least_at {
            let (first, last) = (samples[a.least_at as int], samples[b.least_at as int]);
            assert(order_key(last) < order_key(first));
            assert(order_key(first) <= order_key(last));
        } else if b.least_at < a.least_at {
            let (first, last) = (samples[b.least_at as int], samples[a.least_at as int]);
            assert(order_key(last) < order_key(first));
            assert(order_key(first) <= order_key(last));
        }
    }
    assert(a.greatest_at == b.greatest_at) by {
        if a.greatest_at < b.greatest_at {
            let (first, last) = (samples[a.greatest_at as int], samples[b.greatest_at as int]);
            assert(order_key(last) < order_key(first));
            assert(order_key(first) <= order_key(last));
        } else if b.greatest_at < a.greatest_at {
            let (first, last) = (samples[b.greatest_at as int], samples[a.greatest_at as int]);
            assert(order_key(last) < order_key(first));
            assert(order_key(first) <= order_key(last));
        }
    }
}

/// Every set of at least one sample has a range, as long as its size can be
/// written down at all.
pub proof fn lemma_every_set_has_a_range(samples: Seq<u64>)
    requires
        0 < samples.len() <= usize::MAX,
    ensures
        range_of(samples).describes(samples),
    decreases samples.len(),
{
    let last = samples.len() - 1;
    if samples.len() == 1 {
        let range = SampleRange {
            least: samples[0],
            greatest: samples[0],
            least_at: 0,
            greatest_at: 0,
            sample_count: 1,
        };
        assert(range.describes(samples));
    } else {
        let earlier = samples.drop_last();
        lemma_every_set_has_a_range(earlier);
        let before = range_of(earlier);
        let least_at = if order_key(samples[last]) < order_key(before.least) {
            last as usize
        } else {
            before.least_at
        };
        let greatest_at = if order_key(samples[last]) >= order_key(before.greatest) {
            last as usize
        } else {
            before.greatest_at
        };
        let range = SampleRange {
            least: samples[least_at as int],
            greatest: samples[greatest_at as int],
            least_at,
            greatest_at,
            sample_count: samples.len() as usize,
        };
        assert forall|i: int| 0 <= i < last implies earlier[i] == samples[i] by {}
        assert(is_first_least(samples, least_at as int)) by {
            assert forall|i: int| 0 <= i < least_at implies order_key(samples[least_at as int])
                < order_key(#[trigger] samples[i]) by {
                lemma_range_bounds_samples(earlier, before, i);
                if i < before.least_at {
                    assert(order_key(earlier[before.least_at as int]) < order_key(earlier[i]));
                }
            }
            assert forall|i: int| least_at <= i < samples.len() implies order_key(
                samples[least_at as int],
            ) <= order_key(#[trigger] samples[i]) by {
                if i < last {
                    assert(order_key(earlier[before.least_at as int]) <= order_key(earlier[i]));
                }
            }
        }
        assert(is_last_greatest(samples, greatest_at as int)) by {
            assert forall|i: int| 0 <= i <= greatest_at implies order_key(#[trigger] samples[i])
                <= order_key(samples[greatest_at as int]) by {
                if i < last {
                    lemma_range_bounds_samples(earlier, before, i);
                }
            }
            assert forall|i: int| greatest_at < i < samples.len() implies order_key(
                #[trigger] samples[i],
            ) < order_key(samples[greatest_at as int]) by {
                if i < last {
                    assert(order_key(earlier[i]) < order_key(earlier[before.greatest_at as int]));
                }
            }
        }
        assert(range.describes(samples));
    }
}

/// Every sample of a set lies between the ends of the set's range.
pub proof fn lemma_range_bounds_samples(samples: Seq<u64>, range: SampleRange, i: int)
    requires
        range.describes(samples),
        0 <= i < samples.len(),
    ensures
        order_key(range.least) <= order_key(samples[i]) <= order_key(range.greatest),
{
    if i < range.least_at {
        assert(order_key(samples[range.least_at as int]) < order_key(samples[i]));
    } else {
        assert(order_key(samples[range.least_at as int]) <= order_key(samples[i]));
    }
    if i <= range.greatest_at {
        assert(order_key(samples[i]) <= order_key(samples[range.greatest_at as int]));
    } else {
        assert(order_key(samples[i]) < order_key(samples[range.greatest_at as int]));
    }
}

} // verus!
