use hdrhistogram::errors::{RecordError, SubtractionError};
use hdrhistogram::st::histogram::Histogram;

const HIGHEST_TRACKABLE: u64 = 3600 * 1000 * 1000;
const SIG_V_DIGITS: u8 = 3;
const TEST_VALUE_LEVEL: u64 = 4;

fn verify_max_value(histogram: Histogram) {
    let mut computed_max_value = 0;
    for i in 0..histogram.counts_array_length() {
        if *histogram.get_count_at_index(i).unwrap() > 0 {
            computed_max_value = histogram.value_from_index(i);
        }
    }
    computed_max_value = if computed_max_value == 0 {
        0
    } else {
        histogram.highest_equivalent_value(computed_max_value)
    };
    assert_eq!(computed_max_value, histogram.get_max_value());
}

#[test]
fn test_record_value() {
    let mut histogram = Histogram::with_high_sigvdig(HIGHEST_TRACKABLE, SIG_V_DIGITS).unwrap();
    assert!(histogram.record_value(TEST_VALUE_LEVEL).is_ok());
    assert_eq!(Some(1), histogram.get_count_at_value(TEST_VALUE_LEVEL));
    assert_eq!(1, histogram.get_total_count());
    verify_max_value(histogram);
}

#[test]
fn record_value_overflow_saturates() {
    let highest = 3600_u64 * 1000 * 1000;
    let mut histogram = Histogram::with_high_sigvdig(highest, SIG_V_DIGITS).unwrap();
    assert!(histogram.record_value(highest * 3).is_ok());
    let last_idx = histogram.last_index();
    assert_eq!(Some(1), histogram.get_count_at_index(last_idx).copied());
}

#[test]
fn histogram_auto_resize_edges() {
    let mut histogram = Histogram::new(SIG_V_DIGITS).unwrap();
    histogram.set_auto_resize(true);
    assert!(histogram.record_value((1_u64 << 62) - 1).is_ok());
    let settings = histogram.settings();
    assert_eq!(52, settings.bucket_count);
    assert_eq!(54272, settings.counts_array_length);
    assert!(histogram.record_value(i64::MAX as u64).is_ok());
    let settings = histogram.settings();
    assert_eq!(53, settings.bucket_count);
    assert_eq!(55296, settings.counts_array_length);
}

#[test]
fn histogram_auto_resize_across_range() {
    let mut histogram = Histogram::new(SIG_V_DIGITS).unwrap();
    histogram.set_auto_resize(true);
    for i in 0..63 {
        assert!(histogram.record_value(1_u64 << i).is_ok());
    }
    let settings = histogram.settings();
    assert_eq!(53, settings.bucket_count);
    assert_eq!(55296, settings.counts_array_length);
}

#[test]
fn histogram_reset() {
    let mut histogram = Histogram::with_high_sigvdig(HIGHEST_TRACKABLE, SIG_V_DIGITS).unwrap();
    assert!(histogram.record_value(TEST_VALUE_LEVEL).is_ok());
    histogram.reset();
    assert_eq!(Some(0), histogram.get_count_at_value(TEST_VALUE_LEVEL));
    assert_eq!(0, histogram.get_total_count());
    verify_max_value(histogram);
}

fn assert_approx_eq(expected: f64, value: f64, tolerance: f64) {
    assert!(
        (expected - value).abs() <= tolerance,
        "{} !~= {} within {}",
        expected,
        value,
        tolerance
    );
}

fn mean_of(histogram: &Histogram) -> f64 {
    if histogram.get_total_count() == 0 {
        return 0.0;
    }
    histogram.get_total_of_median_values() as f64 / histogram.get_total_count() as f64
}

fn std_deviation_of(histogram: &Histogram) -> f64 {
    if histogram.get_total_count() == 0 {
        return 0.0;
    }
    let mean = mean_of(histogram);
    let mut geometric_deviation_total = 0.0;
    let mut steps = histogram.recorded_values();
    while let Some(value) = steps.next() {
        let deviation = histogram.median_equivalent_value(value.value_iterated_to) as f64 - mean;
        geometric_deviation_total +=
            (deviation * deviation) * value.count_added_in_this_iteration_step as f64;
    }
    (geometric_deviation_total / histogram.get_total_count() as f64).sqrt()
}

fn percentile_at_or_below_of(histogram: &Histogram, value: u64) -> f64 {
    if histogram.get_total_count() == 0 {
        return 100.0;
    }
    (100.0 * histogram.get_count_at_or_below_value(value) as f64)
        / histogram.get_total_count() as f64
}

#[test]
fn empty_histogram() {
    let h = Histogram::new(SIG_V_DIGITS).unwrap();
    assert_eq!(h.get_min_value(), 0);
    assert_eq!(h.get_max_value(), 0);
    assert_approx_eq(mean_of(&h), 0.0, 0.00000001);
    assert_approx_eq(std_deviation_of(&h), 0.0, 0.00000001);
    assert_approx_eq(percentile_at_or_below_of(&h, 0), 100.0, 0.0000001);
}

#[test]
fn histogram_record_value_with_expected_interval() {
    let mut histogram = Histogram::with_high_sigvdig(HIGHEST_TRACKABLE, SIG_V_DIGITS).unwrap();
    assert!(histogram
        .record_value_with_expected_interval(TEST_VALUE_LEVEL, TEST_VALUE_LEVEL / 4)
        .is_ok());
    let mut raw_histogram = Histogram::with_high_sigvdig(HIGHEST_TRACKABLE, SIG_V_DIGITS).unwrap();
    assert!(raw_histogram.record_value(TEST_VALUE_LEVEL).is_ok());

    // should contain extra compensation entries
    assert_eq!(
        Some(1),
        histogram.get_count_at_value((TEST_VALUE_LEVEL * 1) / 4)
    );
    assert_eq!(
        Some(1),
        histogram.get_count_at_value((TEST_VALUE_LEVEL * 2) / 4)
    );
    assert_eq!(
        Some(1),
        histogram.get_count_at_value((TEST_VALUE_LEVEL * 3) / 4)
    );
    assert_eq!(
        Some(1),
        histogram.get_count_at_value((TEST_VALUE_LEVEL * 4) / 4)
    );
    assert_eq!(4, histogram.get_total_count());

    // should not
    assert_eq!(
        Some(0),
        raw_histogram.get_count_at_value((TEST_VALUE_LEVEL * 1) / 4)
    );
    assert_eq!(
        Some(0),
        raw_histogram.get_count_at_value((TEST_VALUE_LEVEL * 2) / 4)
    );
    assert_eq!(
        Some(0),
        raw_histogram.get_count_at_value((TEST_VALUE_LEVEL * 3) / 4)
    );
    assert_eq!(
        Some(1),
        raw_histogram.get_count_at_value((TEST_VALUE_LEVEL * 4) / 4)
    );
    assert_eq!(1, raw_histogram.get_total_count());

    verify_max_value(histogram);
}

#[test]
fn histogram_size_of_equivalent_value_range() {
    let histogram = Histogram::with_high_sigvdig(HIGHEST_TRACKABLE, SIG_V_DIGITS).unwrap();
    assert_eq!(
        1,
        histogram.size_of_equivalent_value_range(1),
        "Size of equivalent range for value 1 is 1"
    );
    assert_eq!(
        1,
        histogram.size_of_equivalent_value_range(1025),
        "Size of equivalent range for value 1025 is 1"
    );
    assert_eq!(
        1,
        histogram.size_of_equivalent_value_range(2047),
        "Size of equivalent range for value 2047 is 1"
    );
    assert_eq!(
        2,
        histogram.size_of_equivalent_value_range(2048),
        "Size of equivalent range for value 2048 is 2"
    );
    assert_eq!(
        2,
        histogram.size_of_equivalent_value_range(2500),
        "Size of equivalent range for value 2500 is 2"
    );
    assert_eq!(
        4,
        histogram.size_of_equivalent_value_range(8191),
        "Size of equivalent range for value 8191 is 4"
    );
    assert_eq!(
        8,
        histogram.size_of_equivalent_value_range(8192),
        "Size of equivalent range for value 8192 is 8"
    );
    assert_eq!(
        8,
        histogram.size_of_equivalent_value_range(10000),
        "Size of equivalent range for value 10000 is 8"
    );
    verify_max_value(histogram);
}

#[test]
fn scaled_size_of_equivalent_value_range() {
    let histogram = Histogram::with_low_high_sigvdig(1024, HIGHEST_TRACKABLE, SIG_V_DIGITS).unwrap();
    assert_eq!(
        1 * 1024,
        histogram.size_of_equivalent_value_range(1 * 1024),
        "Size of equivalent range for value 1 * 1024 is 1 * 1024"
    );
    assert_eq!(
        2 * 1024,
        histogram.size_of_equivalent_value_range(2500 * 1024),
        "Size of equivalent range for value 2500 * 1024 is 2 * 1024"
    );
    assert_eq!(
        4 * 1024,
        histogram.size_of_equivalent_value_range(8191 * 1024),
        "Size of equivalent range for value 8191 * 1024 is 4 * 1024"
    );
    assert_eq!(
        8 * 1024,
        histogram.size_of_equivalent_value_range(8192 * 1024),
        "Size of equivalent range for value 8192 * 1024 is 8 * 1024"
    );
    assert_eq!(
        8 * 1024,
        histogram.size_of_equivalent_value_range(10000 * 1024),
        "Size of equivalent range for value 10000 * 1024 is 8 * 1024"
    );
    verify_max_value(histogram);
}

#[test]
fn histogram_lowest_equivalent_value() {
    let histogram = Histogram::with_high_sigvdig(HIGHEST_TRACKABLE, SIG_V_DIGITS).unwrap();
    assert_eq!(
        10000,
        histogram.lowest_equivalent_value(10007),
        "The lowest equivalent value to 10007 is 10000"
    );
    assert_eq!(
        10008,
        histogram.lowest_equivalent_value(10009),
        "The lowest equivalent value to 10009 is 10008"
    );
    verify_max_value(histogram);
}

#[test]
fn scaled_lowest_equivalent_value() {
    let histogram = Histogram::with_low_high_sigvdig(1024, HIGHEST_TRACKABLE, SIG_V_DIGITS).unwrap();
    assert_eq!(
        10000 * 1024,
        histogram.lowest_equivalent_value(10007 * 1024),
        "The lowest equivalent value to 10007 * 1024 is 10000 * 1024"
    );
    assert_eq!(
        10008 * 1024,
        histogram.lowest_equivalent_value(10009 * 1024),
        "The lowest equivalent value to 10009 * 1024 is 10008 * 1024"
    );
    verify_max_value(histogram);
}

#[test]
fn equals_with_different_lengths() {
    let mut small = Histogram::with_high_sigvdig(2_000, 2).unwrap();
    let mut large = Histogram::with_high_sigvdig(2_000_000, 2).unwrap();
    assert_ne!(small.counts_array_length(), large.counts_array_length());

    assert!(small.record_value(1).is_ok());
    assert!(small.record_value(1000).is_ok());
    assert!(large.record_value(1).is_ok());
    assert!(large.record_value(1000).is_ok());

    assert!(small.equals(&large));
    assert!(large.equals(&small));
}

#[test]
fn equals_with_different_lengths_detects_mismatch() {
    let mut small = Histogram::with_high_sigvdig(2_000, 2).unwrap();
    let mut large = Histogram::with_high_sigvdig(2_000_000, 2).unwrap();
    assert_ne!(small.counts_array_length(), large.counts_array_length());

    assert!(small.record_value(1000).is_ok());
    assert!(large.record_value(1500).is_ok());

    assert!(!small.equals(&large));
    assert!(!large.equals(&small));
}

#[test]
fn histogram_highest_equivalent_value() {
    let histogram = Histogram::with_low_high_sigvdig(1024, HIGHEST_TRACKABLE, SIG_V_DIGITS).unwrap();
    assert_eq!(
        8183 * 1024 + 1023,
        histogram.highest_equivalent_value(8180 * 1024),
        "The highest equivalent value to 8180 * 1024 is 8183 * 1024 + 1023"
    );
    assert_eq!(
        8191 * 1024 + 1023,
        histogram.highest_equivalent_value(8191 * 1024),
        "The highest equivalent value to 8187 * 1024 is 8191 * 1024 + 1023"
    );
    assert_eq!(
        8199 * 1024 + 1023,
        histogram.highest_equivalent_value(8193 * 1024),
        "The highest equivalent value to 8193 * 1024 is 8199 * 1024 + 1023"
    );
    assert_eq!(
        9999 * 1024 + 1023,
        histogram.highest_equivalent_value(9995 * 1024),
        "The highest equivalent value to 9995 * 1024 is 9999 * 1024 + 1023"
    );
    assert_eq!(
        10007 * 1024 + 1023,
        histogram.highest_equivalent_value(10007 * 1024),
        "The highest equivalent value to 10007 * 1024 is 10007 * 1024 + 1023"
    );
    assert_eq!(
        10015 * 1024 + 1023,
        histogram.highest_equivalent_value(10008 * 1024),
        "The highest equivalent value to 10008 * 1024 is 10015 * 1024 + 1023"
    );
    verify_max_value(histogram);
}

#[test]
fn scaled_highest_equivalent_value() {
    let histogram = Histogram::with_high_sigvdig(HIGHEST_TRACKABLE, SIG_V_DIGITS).unwrap();
    assert_eq!(
        8183,
        histogram.highest_equivalent_value(8180),
        "The highest equivalent value to 8180 is 8183"
    );
    assert_eq!(
        8191,
        histogram.highest_equivalent_value(8191),
        "The highest equivalent value to 8187 is 8191"
    );
    assert_eq!(
        8199,
        histogram.highest_equivalent_value(8193),
        "The highest equivalent value to 8193 is 8199"
    );
    assert_eq!(
        9999,
        histogram.highest_equivalent_value(9995),
        "The highest equivalent value to 9995 is 9999"
    );
    assert_eq!(
        10007,
        histogram.highest_equivalent_value(10007),
        "The highest equivalent value to 10007 is 10007"
    );
    assert_eq!(
        10015,
        histogram.highest_equivalent_value(10008),
        "The highest equivalent value to 10008 is 10015"
    );
    verify_max_value(histogram);
}

#[test]
fn histogram_median_equivalent_value() {
    let histogram = Histogram::with_high_sigvdig(HIGHEST_TRACKABLE, SIG_V_DIGITS).unwrap();
    assert_eq!(
        4,
        histogram.median_equivalent_value(4),
        "The median equivalent value to 4 is 4"
    );
    assert_eq!(
        5,
        histogram.median_equivalent_value(5),
        "The median equivalent value to 5 is 5"
    );
    assert_eq!(
        4001,
        histogram.median_equivalent_value(4000),
        "The median equivalent value to 4000 is 4001"
    );
    assert_eq!(
        8002,
        histogram.median_equivalent_value(8000),
        "The median equivalent value to 8000 is 8002"
    );
    assert_eq!(
        10004,
        histogram.median_equivalent_value(10007),
        "The median equivalent value to 10007 is 10004"
    );
    verify_max_value(histogram);
}

#[test]
fn scaled_median_equivalent_value() {
    let histogram = Histogram::with_low_high_sigvdig(1024, HIGHEST_TRACKABLE, SIG_V_DIGITS).unwrap();
    assert_eq!(
        4 * 1024 + 512,
        histogram.median_equivalent_value(4 * 1024),
        "The median equivalent value to 4 * 1024 is 4 * 1024 + 512"
    );
    assert_eq!(
        5 * 1024 + 512,
        histogram.median_equivalent_value(5 * 1024),
        "The median equivalent value to 5 * 1024 is 5 * 1024 + 512"
    );
    assert_eq!(
        4001 * 1024,
        histogram.median_equivalent_value(4000 * 1024),
        "The median equivalent value to 4000 * 1024 is 4001 * 1024"
    );
    assert_eq!(
        8002 * 1024,
        histogram.median_equivalent_value(8000 * 1024),
        "The median equivalent value to 8000 * 1024 is 8002 * 1024"
    );
    assert_eq!(
        10004 * 1024,
        histogram.median_equivalent_value(10007 * 1024),
        "The median equivalent value to 10007 * 1024 is 10004 * 1024"
    );
    verify_max_value(histogram);
}

#[test]
fn add_histograms() {
    let highest = 3_600_u64 * 1000 * 1000;
    let mut histogram = Histogram::with_high_sigvdig(highest, SIG_V_DIGITS).unwrap();
    let mut other = Histogram::with_high_sigvdig(highest, SIG_V_DIGITS).unwrap();
    assert!(histogram.record_value(TEST_VALUE_LEVEL).is_ok());
    assert!(histogram.record_value(TEST_VALUE_LEVEL * 1000).is_ok());
    assert!(other.record_value(TEST_VALUE_LEVEL).is_ok());
    assert!(other.record_value(TEST_VALUE_LEVEL * 1000).is_ok());
    assert!(histogram.add(&other).is_ok());
    assert_eq!(Some(2), histogram.get_count_at_value(TEST_VALUE_LEVEL));
    assert_eq!(Some(2), histogram.get_count_at_value(TEST_VALUE_LEVEL * 1000));
    assert_eq!(4, histogram.get_total_count());

    let mut bigger_other = Histogram::with_high_sigvdig(highest * 2, SIG_V_DIGITS).unwrap();
    assert!(bigger_other.record_value(TEST_VALUE_LEVEL).is_ok());
    assert!(bigger_other.record_value(TEST_VALUE_LEVEL * 1000).is_ok());
    assert!(bigger_other.record_value(highest * 2).is_ok());
    assert!(bigger_other.add(&histogram).is_ok());
    assert_eq!(Some(3), bigger_other.get_count_at_value(TEST_VALUE_LEVEL));
    assert_eq!(Some(3), bigger_other.get_count_at_value(TEST_VALUE_LEVEL * 1000));
    assert_eq!(Some(1), bigger_other.get_count_at_value(highest * 2));
    assert_eq!(7, bigger_other.get_total_count());

    assert!(matches!(
        histogram.add(&bigger_other),
        Err(RecordError::ValueOutOfRangeResizeDisabled)
    ));

    verify_max_value(histogram);
    verify_max_value(other);
    verify_max_value(bigger_other);
}

#[test]
fn subtract_after_add() {
    let highest = 3_600_u64 * 1000 * 1000;
    let mut histogram = Histogram::with_high_sigvdig(highest, SIG_V_DIGITS).unwrap();
    let mut other = Histogram::with_high_sigvdig(highest, SIG_V_DIGITS).unwrap();
    assert!(histogram.record_value(TEST_VALUE_LEVEL).is_ok());
    assert!(histogram.record_value(TEST_VALUE_LEVEL * 1000).is_ok());
    assert!(other.record_value(TEST_VALUE_LEVEL).is_ok());
    assert!(other.record_value(TEST_VALUE_LEVEL * 1000).is_ok());
    assert!(histogram.add(&other).is_ok());
    assert!(histogram.add(&other).is_ok());
    assert!(histogram.subtract(&other).is_ok());
    assert_eq!(Some(2), histogram.get_count_at_value(TEST_VALUE_LEVEL));
    assert_eq!(Some(2), histogram.get_count_at_value(TEST_VALUE_LEVEL * 1000));
    assert_eq!(4, histogram.get_total_count());
    verify_max_value(histogram);
    verify_max_value(other);
}

#[test]
fn subtract_to_zero_counts() {
    let highest = 3_600_u64 * 1000 * 1000;
    let mut histogram = Histogram::with_high_sigvdig(highest, SIG_V_DIGITS).unwrap();
    let mut other = Histogram::with_high_sigvdig(highest, SIG_V_DIGITS).unwrap();
    assert!(histogram.record_value(TEST_VALUE_LEVEL).is_ok());
    assert!(histogram.record_value(TEST_VALUE_LEVEL * 1000).is_ok());
    assert!(other.record_value(TEST_VALUE_LEVEL).is_ok());
    assert!(other.record_value(TEST_VALUE_LEVEL * 1000).is_ok());
    assert!(histogram.subtract(&other).is_ok());
    assert_eq!(Some(0), histogram.get_count_at_value(TEST_VALUE_LEVEL));
    assert_eq!(Some(0), histogram.get_count_at_value(TEST_VALUE_LEVEL * 1000));
    assert_eq!(0, histogram.get_total_count());
    verify_max_value(histogram);
}

#[test]
fn subtract_to_negative_counts_throws() {
    let highest = 3_600_u64 * 1000 * 1000;
    let mut histogram = Histogram::with_high_sigvdig(highest, SIG_V_DIGITS).unwrap();
    let mut other = Histogram::with_high_sigvdig(highest, SIG_V_DIGITS).unwrap();
    assert!(histogram.record_value(TEST_VALUE_LEVEL).is_ok());
    assert!(histogram.record_value(TEST_VALUE_LEVEL * 1000).is_ok());
    assert!(other.record_value_with_count(TEST_VALUE_LEVEL, 2).is_ok());
    assert!(other.record_value_with_count(TEST_VALUE_LEVEL * 1000, 2).is_ok());

    assert!(matches!(
        histogram.subtract(&other),
        Err(SubtractionError::CountExceededAtValue)
    ));
    assert_eq!(Some(1), histogram.get_count_at_value(TEST_VALUE_LEVEL));
    assert_eq!(Some(1), histogram.get_count_at_value(TEST_VALUE_LEVEL * 1000));
    verify_max_value(histogram);
    verify_max_value(other);
}

#[test]
fn subtract_subtrahend_values_outside_range_throws() {
    let highest = 3_600_u64 * 1000 * 1000;
    let mut histogram = Histogram::with_high_sigvdig(highest, SIG_V_DIGITS).unwrap();
    assert!(histogram.record_value(TEST_VALUE_LEVEL).is_ok());
    assert!(histogram.record_value(TEST_VALUE_LEVEL * 1000).is_ok());

    let mut bigger_other = Histogram::with_high_sigvdig(highest * 2, SIG_V_DIGITS).unwrap();
    assert!(bigger_other.record_value(TEST_VALUE_LEVEL).is_ok());
    assert!(bigger_other.record_value(TEST_VALUE_LEVEL * 1000).is_ok());
    assert!(bigger_other.record_value(highest * 2).is_ok());

    assert!(matches!(
        histogram.subtract(&bigger_other),
        Err(SubtractionError::ValueOutOfRange)
    ));
    verify_max_value(histogram);
    verify_max_value(bigger_other);
}

#[test]
fn subtract_subtrahend_values_inside_range_works() {
    let highest = 3_600_u64 * 1000 * 1000;
    let mut histogram = Histogram::with_high_sigvdig(highest, SIG_V_DIGITS).unwrap();
    assert!(histogram.record_value(TEST_VALUE_LEVEL).is_ok());
    assert!(histogram.record_value(TEST_VALUE_LEVEL * 1000).is_ok());

    let mut bigger_other = Histogram::with_high_sigvdig(highest * 2, SIG_V_DIGITS).unwrap();
    assert!(bigger_other.record_value_with_count(TEST_VALUE_LEVEL, 4).is_ok());
    assert!(bigger_other.record_value_with_count(TEST_VALUE_LEVEL * 1000, 4).is_ok());
    assert!(bigger_other.record_value_with_count(highest * 2, 4).is_ok());

    assert!(bigger_other.subtract(&histogram).is_ok());
    assert_eq!(Some(3), bigger_other.get_count_at_value(TEST_VALUE_LEVEL));
    assert_eq!(Some(3), bigger_other.get_count_at_value(TEST_VALUE_LEVEL * 1000));
    assert_eq!(Some(4), bigger_other.get_count_at_value(highest * 2));
    assert_eq!(10, bigger_other.get_total_count());
    verify_max_value(histogram);
    verify_max_value(bigger_other);
}

#[test]
fn histogram_equals_after_resize() {
    let mut histogram = Histogram::new(SIG_V_DIGITS).unwrap();
    histogram.set_auto_resize(true);
    assert!(histogram.record_value((1_u64 << 62) - 1).is_ok());
    assert!(histogram.record_value(i64::MAX as u64).is_ok());
    histogram.reset();
    assert!(histogram.record_value((1_u64 << 62) - 1).is_ok());

    let mut histogram1 = Histogram::new(SIG_V_DIGITS).unwrap();
    histogram1.set_auto_resize(true);
    assert!(histogram1.record_value((1_u64 << 62) - 1).is_ok());
    assert!(histogram.equals(&histogram1));
}

fn populate_shift_histogram(histogram: &mut Histogram, base_shift: u32, extra_shift: u32) {
    assert!(histogram.record_value_with_count(0, 500).is_ok());
    let shift = base_shift + extra_shift;
    for value in [2_u64, 4, 5, 511, 512, 1023, 1024, 1025] {
        assert!(histogram.record_value(value << shift).is_ok());
    }
}

#[test]
fn histogram_shift_lowest_bucket() {
    let highest = 3_600_u64 * 1000 * 1000;
    for shift_amount in 0..10 {
        let mut histogram = Histogram::with_high_sigvdig(highest, SIG_V_DIGITS).unwrap();
        populate_shift_histogram(&mut histogram, 0, 0);

        let mut expected = Histogram::with_high_sigvdig(highest, SIG_V_DIGITS).unwrap();
        populate_shift_histogram(&mut expected, 0, shift_amount);

        assert!(histogram.shift_values_left(shift_amount).is_ok());
        assert!(histogram.equals(&expected));
    }
}

#[test]
fn histogram_shift_non_lowest_bucket() {
    let highest = 3_600_u64 * 1000 * 1000;
    for shift_amount in 0..10 {
        let mut histogram = Histogram::with_high_sigvdig(highest, SIG_V_DIGITS).unwrap();
        populate_shift_histogram(&mut histogram, 10, 0);

        let mut expected = Histogram::with_high_sigvdig(highest, SIG_V_DIGITS).unwrap();
        populate_shift_histogram(&mut expected, 10, shift_amount);

        let mut unshifted = Histogram::with_high_sigvdig(highest, SIG_V_DIGITS).unwrap();
        populate_shift_histogram(&mut unshifted, 10, 0);

        assert!(histogram.shift_values_left(shift_amount).is_ok());
        assert!(histogram.equals(&expected));

        assert!(histogram.shift_values_right(shift_amount).is_ok());
        assert!(histogram.equals(&unshifted));
    }
}
