//! Bins and their frequencies.
//!
//! The bins divide the span from the least to the greatest sample into
//! `bin_count` parts of equal width. For each sample `v` the caller passes the
//! integer part of the quotient `(v - least) / bin_width`, as the conversion
//! of a floating-point number to an unsigned integer gives it: the greatest
//! integer where the quotient is beyond all integers, and zero where it is
//! not a number. A sample is counted in the bin that its quotient names. A
//! quotient that names no bin drops the sample: this is what happens to the
//! greatest sample, whose quotient is `bin_count` wherever the division comes
//! out exactly. The greatest sample is not moved into the last bin.
//!
//! In a degenerate range, where the least and the greatest sample are the
//! same number, the bins have no width and the quotients are not numbers.
//! Every sample is then counted in the first bin, whatever was passed for it.

use vstd::prelude::*;
use crate::error::HistogramError;
use crate::extrema::{lemma_every_set_has_a_range, range_of, SampleRange};
use crate::sample_set::SampleSet;
use crate::binary64::order_key;
use crate::tally::{
    dropped, lemma_every_sample_counted_or_dropped, lemma_frequency_at_most_total,
    lemma_none_dropped, lemma_occurrences_at_most_len, lemma_occurrences_push,
    lemma_tally_push, lemma_total_of_prefix, occurrences, tally, total,
};

verus! {

/// The first bin, named `sample_count` times.
pub open spec fn first_bin_throughout(sample_count: nat) -> Seq<usize> {
    Seq::new(sample_count, |i: int| 0usize)
}

/// The bin that each sample is assigned to: the one that its quotient names,
/// or the first bin throughout where the range is degenerate.
pub open spec fn placed_bins(range: SampleRange, quotients: Seq<usize>) -> Seq<usize> {
    if range.is_degenerate() {
        first_bin_throughout(quotients.len())
    } else {
        quotients
    }
}

/// What a histogram is: the ends of the range it was made for, the number of
/// samples, and the frequency of each bin.
pub struct HistogramView {
    pub least: u64,
    pub greatest: u64,
    pub sample_count: nat,
    pub frequencies: Seq<nat>,
}

/// The histogram of a sample set with the given range and quotients.
pub open spec fn histogram_of(
    range: SampleRange,
    quotients: Seq<usize>,
    bin_count: nat,
) -> HistogramView {
    HistogramView {
        least: range.least,
        greatest: range.greatest,
        sample_count: quotients.len(),
        frequencies: tally(placed_bins(range, quotients), bin_count),
    }
}

/// Where every sample is assigned to the first bin, the first bin holds them
/// all and the others hold none.
pub proof fn lemma_all_in_first_bin(sample_count: nat, bin_count: nat)
    requires
        bin_count >= 1,
    ensures
        tally(first_bin_throughout(sample_count), bin_count)[0] == sample_count,
        forall|bin: int|
            1 <= bin < bin_count ==> #[trigger] tally(
                first_bin_throughout(sample_count),
                bin_count,
            )[bin] == 0,
    decreases sample_count,
{
    let bins = first_bin_throughout(sample_count);
    if sample_count > 0 {
        let earlier = first_bin_throughout((sample_count - 1) as nat);
        lemma_all_in_first_bin((sample_count - 1) as nat, bin_count);
        assert(earlier.push(0usize) =~= bins);
        lemma_tally_push(earlier, 0usize, bin_count);
    }
}

/// In a degenerate range the first bin holds every sample and the other bins
/// hold none, whatever the quotients are.
pub proof fn lemma_degenerate_range_fills_first_bin(
    range: SampleRange,
    quotients: Seq<usize>,
    bin_count: nat,
)
    requires
        range.is_degenerate(),
        bin_count >= 1,
    ensures
        histogram_of(range, quotients, bin_count).frequencies[0] == quotients.len(),
        forall|bin: int|
            1 <= bin < bin_count ==> #[trigger] histogram_of(
                range,
                quotients,
                bin_count,
            ).frequencies[bin] == 0,
        total(histogram_of(range, quotients, bin_count).frequencies) == quotients.len(),
{
    lemma_all_in_first_bin(quotients.len(), bin_count);
    let bins = placed_bins(range, quotients);
    lemma_every_sample_counted_or_dropped(bins, bin_count);
    assert(dropped(bins, bin_count) == 0) by {
        lemma_none_dropped(bins, bin_count);
    }
}

/// A set in which every sample is as great as the greatest leaves the last of
/// two or more bins empty: its range is degenerate, and its samples are
/// counted in the first bin.
pub proof fn lemma_set_of_maxima_leaves_last_bin_empty(
    samples: Seq<u64>,
    quotients: Seq<usize>,
    bin_count: nat,
)
    requires
        0 < samples.len() <= usize::MAX,
        forall|i: int|
            0 <= i < samples.len() ==> order_key(#[trigger] samples[i]) == order_key(
                range_of(samples).greatest,
            ),
        bin_count >= 2,
    ensures
        range_of(samples).is_degenerate(),
        histogram_of(range_of(samples), quotients, bin_count).frequencies[bin_count - 1] == 0,
        histogram_of(range_of(samples), quotients, bin_count).frequencies[0] == quotients.len(),
{
    let range = range_of(samples);
    lemma_every_set_has_a_range(samples);
    assert(order_key(samples[range.least_at as int]) == order_key(range.greatest));
    lemma_degenerate_range_fills_first_bin(range, quotients, bin_count);
}

/// The frequencies of a histogram sum to no more than the number of samples,
/// and so no bin holds more than that. What is missing from the sum are the
/// dropped samples.
pub proof fn lemma_frequencies_sum_to_at_most_sample_count(
    range: SampleRange,
    quotients: Seq<usize>,
    bin_count: nat,
)
    ensures
        total(histogram_of(range, quotients, bin_count).frequencies) <= histogram_of(
            range,
            quotients,
            bin_count,
        ).sample_count,
        total(histogram_of(range, quotients, bin_count).frequencies) + dropped(
            placed_bins(range, quotients),
            bin_count,
        ) == quotients.len(),
        forall|bin: int|
            0 <= bin < bin_count ==> 0 <= #[trigger] histogram_of(
                range,
                quotients,
                bin_count,
            ).frequencies[bin] <= quotients.len(),
{
    let bins = placed_bins(range, quotients);
    lemma_every_sample_counted_or_dropped(bins, bin_count);
    assert forall|bin: int| 0 <= bin < bin_count implies #[trigger] tally(bins, bin_count)[bin]
        <= quotients.len() by {
        lemma_occurrences_at_most_len(bins, bin);
    }
}

/// The frequencies of a sample set over equally wide bins.
///
/// A histogram is made once, by [`build_histogram`], and never changes. It
/// has at least one bin, and its frequencies sum to no more than the number
/// of samples it was made from.
#[derive(Debug)]
pub struct Histogram {
    least: u64,
    greatest: u64,
    sample_count: usize,
    frequencies: Vec<usize>,
}

impl View for Histogram {
    type V = HistogramView;

    closed spec fn view(&self) -> HistogramView {
        HistogramView {
            least: self.least,
            greatest: self.greatest,
            sample_count: self.sample_count as nat,
            frequencies: Seq::new(
                self.frequencies@.len(),
                |bin: int| self.frequencies@[bin] as nat,
            ),
        }
    }
}

/// Makes the histogram of `samples` over `bin_count` bins.
///
/// `quotients` holds, for each sample `v` in the order of the set, the
/// integer part of `(v - least) / bin_width`, where `least` is the least
/// sample and `bin_width` the span of the set's range divided by `bin_count`.
///
/// A bin count of zero is refused, and so is a number of quotients other
/// than the number of samples. Otherwise each bin's frequency is the number
/// of samples assigned to it, and the samples assigned to no bin are dropped,
/// so that the frequencies never sum to more than the number of samples.
pub fn build_histogram(
    samples: &SampleSet,
    quotients: &Vec<usize>,
    bin_count: usize,
) -> (r: Result<Histogram, HistogramError>)
    ensures
        r is Ok <==> bin_count >= 1 && quotients@.len() == samples@.len(),
        match r {
            Ok(h) => {
                &&& h@ == histogram_of(range_of(samples@), quotients@, bin_count as nat)
                &&& h@.frequencies.len() == bin_count
                &&& total(h@.frequencies) <= samples@.len()
                &&& total(h@.frequencies) + dropped(
                    placed_bins(range_of(samples@), quotients@),
                    bin_count as nat,
                ) == samples@.len()
            },
            Err(HistogramError::NoBins) => bin_count == 0,
            Err(HistogramError::CountMismatch { expected, found }) => {
                &&& bin_count >= 1
                &&& expected == samples@.len()
                &&& found == quotients@.len()
                &&& expected != found
            },
            Err(_) => false,
        },
{
    let range: SampleRange = samples.range();
    if bin_count == 0 {
        return Err(HistogramError::NoBins);
    }
    let n: usize = quotients.len();
    if n != samples.len() {
        return Err(HistogramError::CountMismatch { expected: samples.len(), found: n });
    }
    let collapse: bool = range.degenerate();
    let mut frequencies: Vec<usize> = vec![0usize; bin_count];
    let mut i: usize = 0;
    while i < n
        invariant
            n == quotients@.len(),
            i <= n,
            bin_count >= 1,
            collapse == range.is_degenerate(),
            frequencies@.len() == bin_count,
            forall|bin: int|
                0 <= bin < bin_count ==> #[trigger] frequencies@[bin] == occurrences(
                    placed_bins(range, quotients@).take(i as int),
                    bin,
                ),
        decreases n - i,
    {
        let bin: usize = if collapse {
            0
        } else {
            quotients[i]
        };
        proof {
            let placed = placed_bins(range, quotients@);
            assert(placed[i as int] == bin);
            assert(placed.take(i + 1) =~= placed.take(i as int).push(bin));
            assert forall|other: int| 0 <= other < bin_count implies occurrences(
                placed.take(i + 1),
                other,
            ) == occurrences(placed.take(i as int), other) + if bin == other {
                1nat
            } else {
                0nat
            } by {
                lemma_occurrences_push(placed.take(i as int), bin, other);
            }
            lemma_occurrences_at_most_len(placed.take(i as int), bin as int);
        }
        if bin < bin_count {
            let count: usize = frequencies[bin];
            frequencies.set(bin, count + 1);
        }
        i += 1;
    }
    proof {
        let placed = placed_bins(range, quotients@);
        let counted = Seq::new(frequencies@.len(), |bin: int| frequencies@[bin] as nat);
        assert(placed.take(n as int) =~= placed);
        assert(counted =~= tally(placed, bin_count as nat));
        lemma_every_sample_counted_or_dropped(placed, bin_count as nat);
    }
    Ok(Histogram { least: range.least, greatest: range.greatest, sample_count: n, frequencies })
}

impl Histogram {
    #[verifier::type_invariant]
    spec fn well_formed(&self) -> bool {
        &&& self.frequencies@.len() >= 1
        &&& total(self@.frequencies) <= self.sample_count
    }

    /// The total frequency: the number of samples that were counted in a bin.
    pub fn total(&self) -> (r: usize)
        ensures
            r == total(self@.frequencies),
            r <= self@.sample_count,
    {
        proof {
            use_type_invariant(self);
        }
        let n: usize = self.frequencies.len();
        let mut sum: usize = 0;
        let mut bin: usize = 0;
        while bin < n
            invariant
                n == self.frequencies@.len(),
                bin <= n,
                sum == total(self@.frequencies.take(bin as int)),
                total(self@.frequencies) <= self.sample_count,
            decreases n - bin,
        {
            proof {
                let all = self@.frequencies;
                assert(all.take(bin + 1).drop_last() =~= all.take(bin as int));
                lemma_total_of_prefix(all, bin + 1);
            }
            sum = sum + self.frequencies[bin];
            bin += 1;
        }
        proof {
            assert(self@.frequencies.take(n as int) =~= self@.frequencies);
        }
        sum
    }

    /// The number of samples that were counted in no bin.
    pub fn dropped_count(&self) -> (r: usize)
        ensures
            r == self@.sample_count - total(self@.frequencies),
    {
        self.sample_count - self.total()
    }

    /// The greatest frequency: some bin has it and none has more.
    pub fn max_frequency(&self) -> (r: usize)
        ensures
            forall|bin: int|
                0 <= bin < self@.frequencies.len() ==> #[trigger] self@.frequencies[bin] <= r,
            exists|bin: int|
                0 <= bin < self@.frequencies.len() && #[trigger] self@.frequencies[bin] == r,
            r <= self@.sample_count,
    {
        proof {
            use_type_invariant(self);
            lemma_frequency_at_most_total(self@.frequencies, 0);
        }
        let n: usize = self.frequencies.len();
        let mut greatest: usize = self.frequencies[0];
        let mut bin: usize = 1;
        while bin < n
            invariant
                n == self.frequencies@.len(),
                1 <= bin <= n,
                greatest <= self.sample_count,
                total(self@.frequencies) <= self.sample_count,
                forall|other: int|
                    0 <= other < bin ==> #[trigger] self@.frequencies[other] <= greatest,
                exists|other: int|
                    0 <= other < bin && #[trigger] self@.frequencies[other] == greatest,
            decreases n - bin,
        {
            if self.frequencies[bin] > greatest {
                proof {
                    lemma_frequency_at_most_total(self@.frequencies, bin as int);
                }
                greatest = self.frequencies[bin];
            }
            bin += 1;
        }
        greatest
    }

    /// One pair for each bin, in the order of the bins: the bin's index and
    /// its frequency.
    pub fn bars(&self) -> (r: Vec<(usize, usize)>)
        ensures
            r@.len() == self@.frequencies.len(),
            forall|bin: int|
                0 <= bin < r@.len() ==> (#[trigger] r@[bin]).0 == bin && r@[bin].1
                    == self@.frequencies[bin],
    {
        let n: usize = self.frequencies.len();
        let mut pairs: Vec<(usize, usize)> = Vec::new();
        let mut bin: usize = 0;
        while bin < n
            invariant
                n == self.frequencies@.len(),
                bin <= n,
                pairs@.len() == bin,
                forall|other: int|
                    0 <= other < bin ==> (#[trigger] pairs@[other]).0 == other && pairs@[other].1
                        == self@.frequencies[other],
            decreases n - bin,
        {
            pairs.push((bin, self.frequencies[bin]));
            bin += 1;
        }
        pairs
    }

    /// The frequency of each bin, in the order of the bins.
    pub fn frequencies(&self) -> (r: &Vec<usize>)
        ensures
            r@.len() == self@.frequencies.len(),
            forall|bin: int| 0 <= bin < r@.len() ==> #[trigger] r@[bin] == self@.frequencies[bin],
    {
        &self.frequencies
    }

    /// The frequency of one bin, if there is such a bin.
    pub fn frequency(&self, bin: usize) -> (r: Option<usize>)
        ensures
            r is Some <==> bin < self@.frequencies.len(),
            r matches Some(count) ==> count == self@.frequencies[bin as int],
    {
        if bin < self.frequencies.len() {
            Some(self.frequencies[bin])
        } else {
            None
        }
    }

    /// The number of bins, which is at least one.
    pub fn bin_count(&self) -> (r: usize)
        ensures
            r == self@.frequencies.len(),
            r >= 1,
    {
        proof {
            use_type_invariant(self);
        }
        self.frequencies.len()
    }

    /// The number of samples that the histogram was made from.
    pub fn sample_count(&self) -> (r: usize)
        ensures
            r == self@.sample_count,
    {
        self.sample_count
    }

    /// The least sample, as a bit pattern.
    pub fn least(&self) -> (r: u64)
        ensures
            r == self@.least,
    {
        self.least
    }

    /// The greatest sample, as a bit pattern.
    pub fn greatest(&self) -> (r: u64)
        ensures
            r == self@.greatest,
    {
        self.greatest
    }
}

} // verus!
