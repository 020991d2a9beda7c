use normal_histogram::error::HistogramError;
use normal_histogram::extrema::{scan_range, SampleRange};

fn bits_of(samples: &[f64]) -> Vec<u64> {
    samples.iter().map(|v| v.to_bits()).collect()
}

#[test]
fn empty_set_has_no_range() {
    assert_eq!(scan_range(&Vec::new()), Err(HistogramError::EmptySamples));
}

#[test]
fn single_sample_is_both_ends() {
    let range = scan_range(&bits_of(&[5.0])).unwrap();
    assert_eq!(
        range,
        SampleRange {
            least: 5.0f64.to_bits(),
            greatest: 5.0f64.to_bits(),
            least_at: 0,
            greatest_at: 0,
            sample_count: 1,
        }
    );
    assert!(range.degenerate());
}

#[test]
fn range_finds_least_and_greatest() {
    let samples = [5.0, -2.5, 7.25, 3.0, 6.0];
    let range = scan_range(&bits_of(&samples)).unwrap();
    assert_eq!(f64::from_bits(range.least), -2.5);
    assert_eq!(f64::from_bits(range.greatest), 7.25);
    assert_eq!(range.least_at, 1);
    assert_eq!(range.greatest_at, 2);
    assert_eq!(range.sample_count, 5);
    assert!(!range.degenerate());
}

#[test]
fn range_agrees_with_a_float_scan() {
    let samples = [
        3.651_020_501_235_238_6,
        6.348_979_498_764_761,
        5.000_000_029_801_003,
        8.919_927_997_252_824,
        -0.151_658_595_342_226_48,
        10.151_658_595_342_226,
        1e-300,
        -1e-300,
    ];
    let range = scan_range(&bits_of(&samples)).unwrap();
    let least = samples.iter().copied().fold(f64::INFINITY, f64::min);
    let greatest = samples.iter().copied().fold(f64::NEG_INFINITY, f64::max);
    assert_eq!(f64::from_bits(range.least), least);
    assert_eq!(f64::from_bits(range.greatest), greatest);
    assert_eq!(samples[range.least_at], least);
    assert_eq!(samples[range.greatest_at], greatest);
}

#[test]
fn among_equals_the_first_is_least_and_the_last_greatest() {
    let range = scan_range(&bits_of(&[1.0, 3.0, 1.0, 3.0, 2.0])).unwrap();
    assert_eq!(range.least_at, 0);
    assert_eq!(range.greatest_at, 3);
}

#[test]
fn zeros_of_either_sign_are_one_number() {
    let range = scan_range(&bits_of(&[0.0, -0.0, 0.0, -0.0])).unwrap();
    assert_eq!(range.least_at, 0);
    assert_eq!(range.greatest_at, 3);
    assert_eq!(range.least, 0.0f64.to_bits());
    assert_eq!(range.greatest, (-0.0f64).to_bits());
    assert!(range.degenerate());
}

#[test]
fn infinities_are_samples_like_others() {
    let range = scan_range(&bits_of(&[1.0, f64::INFINITY, f64::NEG_INFINITY, -1.0])).unwrap();
    assert_eq!(range.least_at, 2);
    assert_eq!(range.greatest_at, 1);
    assert!(!range.degenerate());
}

#[test]
fn negative_samples_are_ordered_by_value() {
    let range = scan_range(&bits_of(&[-1.0, -3.0, -2.0])).unwrap();
    assert_eq!(range.least_at, 1);
    assert_eq!(range.greatest_at, 0);
}

#[test]
fn nan_is_refused_with_its_position() {
    let samples = bits_of(&[1.0, 2.0, f64::NAN, 0.5, f64::NAN]);
    assert_eq!(scan_range(&samples), Err(HistogramError::NanSample { index: 2 }));
}

#[test]
fn nan_is_refused_in_a_set_of_one() {
    assert_eq!(
        scan_range(&bits_of(&[f64::NAN])),
        Err(HistogramError::NanSample { index: 0 })
    );
    assert_eq!(
        scan_range(&bits_of(&[-f64::NAN])),
        Err(HistogramError::NanSample { index: 0 })
    );
}

#[test]
fn nan_at_the_end_is_found() {
    let samples = bits_of(&[4.0, 3.0, 2.0, 0.0 / 0.0]);
    assert_eq!(scan_range(&samples), Err(HistogramError::NanSample { index: 3 }));
}

#[test]
fn degenerate_range_of_equal_samples() {
    let range = scan_range(&bits_of(&[3.0, 3.0, 3.0])).unwrap();
    assert_eq!(range.least, 3.0f64.to_bits());
    assert_eq!(range.greatest, 3.0f64.to_bits());
    assert_eq!(range.least_at, 0);
    assert_eq!(range.greatest_at, 2);
    assert!(range.degenerate());
}
