use normal_histogram::error::HistogramError;
use normal_histogram::extrema::SampleRange;
use normal_histogram::histogram::build_histogram;
use normal_histogram::sample_set::SampleSet;

/// The number with the given mean and standard deviation that a uniform
/// draw `u` stands for.
fn deviate(u: f64, mean: f64, std_dev: f64) -> f64 {
    let t = if u < 0.5 { (-2.0 * u.ln()).sqrt() } else { (-2.0 * (1.0 - u).ln()).sqrt() };
    let p = 0.322232431088
        + t * (1.0 + t * (0.342242088547 + t * (0.0204231210245 + t * 0.0000453642210148)));
    let q = 0.099348462606
        + t * (0.588581570495
            + t * (0.531103462366 + t * (0.103537752850 + t * 0.00385607006340)));
    let z = if u < 0.5 { (p / q) - t } else { t - (p / q) };
    mean + std_dev * z
}

fn patterns_of(samples: &[f64]) -> Vec<u64> {
    samples.iter().map(|v| v.to_bits()).collect()
}

fn quotients_of(samples: &[f64], range: &SampleRange, bin_count: usize) -> Vec<usize> {
    let least = f64::from_bits(range.least);
    let greatest = f64::from_bits(range.greatest);
    let bin_width = (greatest - least) / bin_count as f64;
    samples.iter().map(|v| ((v - least) / bin_width) as usize).collect()
}

#[test]
fn quarter_draw_gives_the_recorded_deviate() {
    assert_eq!(deviate(0.25, 5.0, 2.0), 3.6510205012352386);
    assert_eq!(deviate(0.75, 5.0, 2.0), 6.348979498764761);
}

#[test]
fn hundred_deviates_in_a_thousand_bins() {
    let samples: Vec<f64> =
        (0..100).map(|i| deviate((i as f64 + 0.5) / 100.0, 5.0, 2.0)).collect();
    let set = SampleSet::from_patterns(patterns_of(&samples)).unwrap();
    let range = set.range();
    assert_eq!(set.len(), 100);
    assert_eq!(range.sample_count, 100);
    assert_eq!(range.least_at, 0);
    assert_eq!(range.greatest_at, 99);
    let quotients = quotients_of(&samples, &range, 1000);
    let h = build_histogram(&set, &quotients, 1000).unwrap();
    let bars = h.bars();
    assert_eq!(bars.len(), 1000);
    assert_eq!(bars.first().unwrap().0, 0);
    assert_eq!(bars.last().unwrap().0, 999);
    for (i, bar) in bars.iter().enumerate() {
        assert_eq!(bar.0, i);
        assert_eq!(Some(bar.1), h.frequency(i));
    }
    assert!(h.total() >= 95 && h.total() <= 100);
    assert_eq!(h.total() + h.dropped_count(), 100);
    assert!(h.dropped_count() <= 1);
    assert_eq!(h.frequency(0), Some(1));
    assert!(h.max_frequency() >= 1);
    assert_eq!(h.max_frequency(), *h.frequencies().iter().max().unwrap());
}

#[test]
fn deviates_of_skewed_draws() {
    let samples: Vec<f64> =
        (1..=400).map(|i| deviate((i as f64 / 401.0).powi(2), 5.0, 2.0)).collect();
    let set = SampleSet::from_patterns(patterns_of(&samples)).unwrap();
    let quotients = quotients_of(&samples, &set.range(), 50);
    let h = build_histogram(&set, &quotients, 50).unwrap();
    assert_eq!(h.sample_count(), 400);
    assert_eq!(h.bin_count(), 50);
    assert!(h.total() >= 399);
    assert_eq!(h.frequencies().iter().sum::<usize>(), h.total());
    assert_eq!(*h.frequencies().iter().max().unwrap(), h.max_frequency());
    let expected: Vec<usize> = (0..50)
        .map(|bin| quotients.iter().filter(|q| **q == bin).count())
        .collect();
    assert_eq!(h.frequencies(), &expected);
}

#[test]
fn draw_of_zero_gives_no_number_and_is_refused() {
    let samples = [deviate(0.25, 5.0, 2.0), deviate(0.0, 5.0, 2.0), deviate(0.75, 5.0, 2.0)];
    assert!(samples[1].is_nan());
    assert_eq!(
        SampleSet::from_patterns(patterns_of(&samples)).err(),
        Some(HistogramError::NanSample { index: 1 })
    );
}
