//! Counting how often each bin is named.
//!
//! A sequence of bin indices, one for each sample, is tallied into one
//! frequency for each bin. An index that names no bin counts nowhere: its
//! sample is dropped.

use vstd::prelude::*;

verus! {

/// The number of positions of `bins` that hold `bin`.
pub open spec fn occurrences(bins: Seq<usize>, bin: int) -> nat
    decreases bins.len(),
{
    if bins.len() == 0 {
        0
    } else {
        occurrences(bins.drop_last(), bin) + if bins.last() == bin {
            1nat
        } else {
            0nat
        }
    }
}

/// The number of positions of `bins` that name none of `bin_count` bins.
pub open spec fn dropped(bins: Seq<usize>, bin_count: nat) -> nat
    decreases bins.len(),
{
    if bins.len() == 0 {
        0
    } else {
        dropped(bins.drop_last(), bin_count) + if bins.last() >= bin_count {
            1nat
        } else {
            0nat
        }
    }
}

/// The frequencies of `bin_count` bins: for each bin, how often `bins` names
/// it.
pub open spec fn tally(bins: Seq<usize>, bin_count: nat) -> Seq<nat> {
    Seq::new(bin_count, |bin: int| occurrences(bins, bin))
}

/// The sum of the frequencies.
pub open spec fn total(frequencies: Seq<nat>) -> nat
    decreases frequencies.len(),
{
    if frequencies.len() == 0 {
        0
    } else {
        total(frequencies.drop_last()) + frequencies.last()
    }
}

/// One more sample adds one to the count of its bin and nothing to the
/// others.
pub proof fn lemma_occurrences_push(bins: Seq<usize>, next: usize, bin: int)
    ensures
        occurrences(bins.push(next), bin) == occurrences(bins, bin) + if next == bin {
            1nat
        } else {
            0nat
        },
{
    assert(bins.push(next).drop_last() =~= bins);
}

/// No bin is named more often than there are samples.
pub proof fn lemma_occurrences_at_most_len(bins: Seq<usize>, bin: int)
    ensures
        occurrences(bins, bin) <= bins.len(),
    decreases bins.len(),
{
    if bins.len() > 0 {
        lemma_occurrences_at_most_len(bins.drop_last(), bin);
    }
}

/// One more sample is one more dropped sample exactly if its index names no
/// bin.
pub proof fn lemma_dropped_push(bins: Seq<usize>, next: usize, bin_count: nat)
    ensures
        dropped(bins.push(next), bin_count) == dropped(bins, bin_count) + if next >= bin_count {
            1nat
        } else {
            0nat
        },
{
    assert(bins.push(next).drop_last() =~= bins);
}

/// One more sample raises the frequency of the bin that its index names, if
/// it names one, and changes nothing else.
pub proof fn lemma_tally_push(bins: Seq<usize>, next: usize, bin_count: nat)
    ensures
        tally(bins.push(next), bin_count) == if next < bin_count {
            tally(bins, bin_count).update(next as int, tally(bins, bin_count)[next as int] + 1)
        } else {
            tally(bins, bin_count)
        },
{
    let before = tally(bins, bin_count);
    let after = tally(bins.push(next), bin_count);
    let expected = if next < bin_count {
        before.update(next as int, before[next as int] + 1)
    } else {
        before
    };
    assert forall|bin: int| 0 <= bin < bin_count implies after[bin] == expected[bin] by {
        lemma_occurrences_push(bins, next, bin);
    }
    assert(after =~= expected);
}

/// Frequencies that are all zero sum to zero.
proof fn lemma_total_of_zeros(frequencies: Seq<nat>)
    requires
        forall|bin: int| 0 <= bin < frequencies.len() ==> frequencies[bin] == 0,
    ensures
        total(frequencies) == 0,
    decreases frequencies.len(),
{
    if frequencies.len() > 0 {
        lemma_total_of_zeros(frequencies.drop_last());
    }
}

/// Raising one frequency by one raises the sum by one.
proof fn lemma_total_after_increment(frequencies: Seq<nat>, bin: int)
    requires
        0 <= bin < frequencies.len(),
    ensures
        total(frequencies.update(bin, frequencies[bin] + 1)) == total(frequencies) + 1,
    decreases frequencies.len(),
{
    let raised = frequencies.update(bin, frequencies[bin] + 1);
    if bin == frequencies.len() - 1 {
        assert(raised.drop_last() =~= frequencies.drop_last());
    } else {
        lemma_total_after_increment(frequencies.drop_last(), bin);
        assert(raised.drop_last() =~= frequencies.drop_last().update(
            bin,
            frequencies.drop_last()[bin] + 1,
        ));
    }
}

/// The sum over the first `bins` frequencies is at most the sum over all.
pub proof fn lemma_total_of_prefix(frequencies: Seq<nat>, bins: int)
    requires
        0 <= bins <= frequencies.len(),
    ensures
        total(frequencies.take(bins)) <= total(frequencies),
    decreases frequencies.len(),
{
    if bins == frequencies.len() {
        assert(frequencies.take(bins) =~= frequencies);
    } else {
        lemma_total_of_prefix(frequencies.drop_last(), bins);
        assert(frequencies.drop_last().take(bins) =~= frequencies.take(bins));
    }
}

/// No frequency is greater than the sum of all.
pub proof fn lemma_frequency_at_most_total(frequencies: Seq<nat>, bin: int)
    requires
        0 <= bin < frequencies.len(),
    ensures
        frequencies[bin] <= total(frequencies),
    decreases frequencies.len(),
{
    if bin < frequencies.len() - 1 {
        lemma_frequency_at_most_total(frequencies.drop_last(), bin);
    }
}

/// Every sample is either counted in exactly one bin or dropped: the
/// frequencies and the dropped samples add up to the number of samples. So
/// the frequencies never sum to more than the number of samples, and none of
/// them is negative.
pub proof fn lemma_every_sample_counted_or_dropped(bins: Seq<usize>, bin_count: nat)
    ensures
        total(tally(bins, bin_count)) + dropped(bins, bin_count) == bins.len(),
        total(tally(bins, bin_count)) <= bins.len(),
        forall|bin: int| 0 <= bin < bin_count ==> 0 <= #[trigger] tally(bins, bin_count)[bin],
    decreases bins.len(),
{
    if bins.len() == 0 {
        lemma_total_of_zeros(tally(bins, bin_count));
    } else {
        let earlier = bins.drop_last();
        let next = bins.last();
        lemma_every_sample_counted_or_dropped(earlier, bin_count);
        assert(earlier.push(next) =~= bins);
        lemma_tally_push(earlier, next, bin_count);
        lemma_dropped_push(earlier, next, bin_count);
        if next < bin_count {
            lemma_total_after_increment(tally(earlier, bin_count), next as int);
        }
    }
}

/// A sample whose index is `bin_count` or more is counted in no bin: with it
/// the frequencies are what they are without it. In particular a sample whose
/// index is exactly `bin_count` is not counted in the last bin.
pub proof fn lemma_index_past_last_bin_is_dropped(bins: Seq<usize>, next: usize, bin_count: nat)
    requires
        next >= bin_count,
    ensures
        tally(bins.push(next), bin_count) == tally(bins, bin_count),
        dropped(bins.push(next), bin_count) == dropped(bins, bin_count) + 1,
{
    lemma_tally_push(bins, next, bin_count);
    lemma_dropped_push(bins, next, bin_count);
}

/// Where no index names a bin, every bin stays empty and every sample is
/// dropped.
pub proof fn lemma_all_dropped_leaves_bins_empty(bins: Seq<usize>, bin_count: nat)
    requires
        forall|i: int| 0 <= i < bins.len() ==> #[trigger] bins[i] >= bin_count,
    ensures
        forall|bin: int| 0 <= bin < bin_count ==> #[trigger] tally(bins, bin_count)[bin] == 0,
        dropped(bins, bin_count) == bins.len(),
    decreases bins.len(),
{
    if bins.len() > 0 {
        let earlier = bins.drop_last();
        lemma_all_dropped_leaves_bins_empty(earlier, bin_count);
        assert(earlier.push(bins.last()) =~= bins);
        lemma_tally_push(earlier, bins.last(), bin_count);
    }
}

/// Where every index names a bin, no sample is dropped.
pub proof fn lemma_none_dropped(bins: Seq<usize>, bin_count: nat)
    requires
        forall|i: int| 0 <= i < bins.len() ==> #[trigger] bins[i] < bin_count,
    ensures
        dropped(bins, bin_count) == 0,
        total(tally(bins, bin_count)) == bins.len(),
    decreases bins.len(),
{
    lemma_every_sample_counted_or_dropped(bins, bin_count);
    if bins.len() > 0 {
        lemma_none_dropped(bins.drop_last(), bin_count);
    }
}

} // verus!
