use hdrhistogram::double::double_histogram::DoubleHistogram;
use hdrhistogram::double::double_histogram::SaturatingDoubleHistogram;
use hdrhistogram::double::range::derive_internal_highest_to_lowest_value_ratio;
use hdrhistogram::double::sample::{sample_of_bits, DoubleSample, Dyadic};
use hdrhistogram::errors::{DoubleCreationError, RecordError};

const TRACKABLE_VALUE_RANGE_SIZE: u64 = 3600 * 1000 * 1000;
const NUMBER_OF_SIGNIFICANT_VALUE_DIGITS: u8 = 3;
const TEST_VALUE_LEVEL: f64 = 4.0;

fn sample(value: f64) -> DoubleSample {
    sample_of_bits(value.to_bits())
}

fn taken_apart(value: f64) -> DoubleSample {
    if !value.is_finite() {
        DoubleSample::NotFinite
    } else if value < 0.0 {
        DoubleSample::Negative
    } else if value == 0.0 {
        DoubleSample::Zero
    } else {
        let bits = value.to_bits();
        let exponent_bits = ((bits >> 52) & 0x7ff) as i32;
        let fraction = bits & ((1_u64 << 52) - 1);
        if exponent_bits == 0 {
            DoubleSample::Positive(Dyadic { mantissa: fraction, exponent: -1074 })
        } else {
            DoubleSample::Positive(Dyadic {
                mantissa: fraction | (1_u64 << 52),
                exponent: exponent_bits - 1075,
            })
        }
    }
}

fn dyadic(value: f64) -> Dyadic {
    match sample(value) {
        DoubleSample::Positive(x) => x,
        _ => panic!("{} is not a value above zero", value),
    }
}

fn scaled(integer: u64, exponent: i32) -> f64 {
    integer as f64 * 2.0_f64.powi(exponent)
}

fn to_f64(value: Dyadic) -> f64 {
    scaled(value.mantissa, value.exponent)
}

fn assert_approx_eq(expected: f64, value: f64, tolerance: f64) {
    assert!(
        (expected - value).abs() <= tolerance,
        "{} !~= {} within {}",
        expected,
        value,
        tolerance
    );
}

fn count_at(histogram: &DoubleHistogram, value: f64) -> u64 {
    histogram.get_count_at_value(sample(value))
}

fn max_value_of(histogram: &DoubleHistogram) -> f64 {
    to_f64(histogram.get_max_value())
}

fn min_value_of(histogram: &DoubleHistogram) -> f64 {
    to_f64(histogram.get_min_value())
}

fn conversion_ratio(histogram: &DoubleHistogram) -> f64 {
    2.0_f64.powi(histogram.get_integer_to_double_conversion_exponent())
}

fn mean_of(histogram: &DoubleHistogram) -> f64 {
    if histogram.get_total_count() == 0 {
        return 0.0;
    }
    let total = histogram.integer_histogram().get_total_of_median_values();
    total as f64 / histogram.get_total_count() as f64 * conversion_ratio(histogram)
}

fn std_deviation_of(histogram: &DoubleHistogram) -> f64 {
    if histogram.get_total_count() == 0 {
        return 0.0;
    }
    let integers = histogram.integer_histogram();
    let mean = integers.get_total_of_median_values() as f64 / integers.get_total_count() as f64;
    let mut geometric_deviation_total = 0.0;
    let mut steps = integers.recorded_values();
    while let Some(value) = steps.next() {
        let deviation = integers.median_equivalent_value(value.value_iterated_to) as f64 - mean;
        geometric_deviation_total +=
            (deviation * deviation) * value.count_added_in_this_iteration_step as f64;
    }
    (geometric_deviation_total / integers.get_total_count() as f64).sqrt()
        * conversion_ratio(histogram)
}

fn value_at_percentile_of(histogram: &DoubleHistogram, percentile: f64) -> f64 {
    let one_below = if percentile > 0.0 {
        f64::from_bits(percentile.to_bits() - 1)
    } else {
        -f64::from_bits(1)
    };
    let requested_percentile = if one_below > 100.0 {
        100.0
    } else if one_below < 0.0 {
        0.0
    } else {
        one_below
    };
    let fractional_count = (requested_percentile / 100.0) * histogram.get_total_count() as f64;
    let value = histogram
        .integer_histogram()
        .get_value_at_count(fractional_count.ceil() as u64, percentile == 0.0);
    value as f64 * conversion_ratio(histogram)
}

fn copy_corrected_for_coordinated_omission(
    histogram: &DoubleHistogram,
    expected_interval: f64,
) -> DoubleHistogram {
    let mut target = DoubleHistogram::with_highest_to_lowest_value_ratio(
        histogram.get_highest_to_lowest_value_ratio(),
        histogram.get_number_of_significant_value_digits(),
    )
    .unwrap();
    let ratio = conversion_ratio(histogram);
    let mut steps = histogram.integer_histogram().recorded_values();
    while let Some(value) = steps.next() {
        let double_value = value.value_iterated_to as f64 * ratio;
        for _ in 0..value.count_at_value_iterated_to {
            record_with_expected_interval(&mut target, double_value, expected_interval).unwrap();
        }
    }
    target
}

struct DataHistograms {
    histogram: DoubleHistogram,
    scaled_histogram: DoubleHistogram,
    raw_histogram: DoubleHistogram,
    scaled_raw_histogram: DoubleHistogram,
    post_corrected_histogram: DoubleHistogram,
    post_corrected_scaled_histogram: DoubleHistogram,
}

fn new_histogram(ratio: u64) -> DoubleHistogram {
    DoubleHistogram::with_highest_to_lowest_value_ratio(ratio, NUMBER_OF_SIGNIFICANT_VALUE_DIGITS)
        .unwrap()
}

fn build_data_histograms() -> DataHistograms {
    let mut histogram = new_histogram(TRACKABLE_VALUE_RANGE_SIZE);
    let mut scaled_histogram = new_histogram(TRACKABLE_VALUE_RANGE_SIZE / 2);
    let mut raw_histogram = new_histogram(TRACKABLE_VALUE_RANGE_SIZE);
    let mut scaled_raw_histogram = new_histogram(TRACKABLE_VALUE_RANGE_SIZE / 2);

    for _ in 0..10000 {
        assert!(record_with_expected_interval(&mut histogram, 1000.0, 10000.0).is_ok());
        assert!(
            record_with_expected_interval(&mut scaled_histogram, 1000.0 * 512.0, 10000.0 * 512.0)
                .is_ok()
        );
        assert!(raw_histogram.record_value(sample(1000.0)).is_ok());
        assert!(scaled_raw_histogram.record_value(sample(1000.0 * 512.0)).is_ok());
    }
    assert!(record_with_expected_interval(&mut histogram, 100000000.0, 10000.0).is_ok());
    assert!(record_with_expected_interval(
        &mut scaled_histogram,
        100000000.0 * 512.0,
        10000.0 * 512.0
    )
    .is_ok());
    assert!(raw_histogram.record_value(sample(100000000.0)).is_ok());
    assert!(scaled_raw_histogram
        .record_value(sample(100000000.0 * 512.0))
        .is_ok());

    let post_corrected_histogram = copy_corrected_for_coordinated_omission(&raw_histogram, 10000.0);
    let post_corrected_scaled_histogram =
        copy_corrected_for_coordinated_omission(&scaled_raw_histogram, 10000.0 * 512.0);

    DataHistograms {
        histogram,
        scaled_histogram,
        raw_histogram,
        scaled_raw_histogram,
        post_corrected_histogram,
        post_corrected_scaled_histogram,
    }
}

fn lowest_trackable(histogram: &DoubleHistogram) -> f64 {
    2.0_f64.powi(histogram.get_current_lowest_trackable_non_zero_exponent())
}

fn record_with_expected_interval(
    histogram: &mut DoubleHistogram,
    value: f64,
    interval: f64,
) -> Result<(), RecordError> {
    histogram.record_value(sample(value))?;
    if interval <= 0.0 {
        return Ok(());
    }
    let mut missing_value = value - interval;
    while missing_value >= interval {
        histogram.record_value(sample(missing_value))?;
        missing_value -= interval;
    }
    Ok(())
}

#[test]
fn trackable_value_range_must_be_greater_than_two() {
    assert!(
        DoubleHistogram::with_highest_to_lowest_value_ratio(1, NUMBER_OF_SIGNIFICANT_VALUE_DIGITS)
            .is_err()
    );
}

#[test]
fn number_of_significant_value_digits_must_be_less_than_six() {
    assert!(
        DoubleHistogram::with_highest_to_lowest_value_ratio(TRACKABLE_VALUE_RANGE_SIZE, 6).is_err()
    );
}

#[test]
fn double_creation_errors() {
    assert!(matches!(
        DoubleHistogram::with_highest_to_lowest_value_ratio(1, 3),
        Err(DoubleCreationError::HighestToLowestValueRatioTooSmall)
    ));
    assert!(matches!(
        DoubleHistogram::with_highest_to_lowest_value_ratio(2, 6),
        Err(DoubleCreationError::SignificantValueDigitsExceedsMax)
    ));
    assert!(matches!(
        DoubleHistogram::with_highest_to_lowest_value_ratio(1_u64 << 60, 1),
        Err(DoubleCreationError::HighestToLowestValueRatioTooLarge)
    ));
    assert!(DoubleHistogram::with_highest_to_lowest_value_ratio((1_u64 << 60) / 10, 0).is_ok());
}

#[test]
fn construction_argument_gets() {
    let mut histogram = DoubleHistogram::with_highest_to_lowest_value_ratio(
        TRACKABLE_VALUE_RANGE_SIZE,
        NUMBER_OF_SIGNIFICANT_VALUE_DIGITS,
    )
    .unwrap();
    assert!(histogram.record_value(sample(f64::powi(2.0, 20))).is_ok());
    assert!(histogram.record_value(sample(1.0)).is_ok());
    assert!((1.0 - lowest_trackable(&histogram)).abs() <= 0.001);
    assert_eq!(TRACKABLE_VALUE_RANGE_SIZE, histogram.get_highest_to_lowest_value_ratio());
    assert_eq!(
        NUMBER_OF_SIGNIFICANT_VALUE_DIGITS,
        histogram.get_number_of_significant_value_digits()
    );

    let mut histogram2 = DoubleHistogram::with_highest_to_lowest_value_ratio(
        TRACKABLE_VALUE_RANGE_SIZE,
        NUMBER_OF_SIGNIFICANT_VALUE_DIGITS,
    )
    .unwrap();
    assert!(histogram2.record_value(sample(2048.0 * 1024.0 * 1024.0)).is_ok());
    assert!((2048.0 * 1024.0 * 1024.0 - lowest_trackable(&histogram2)).abs() <= 0.001);

    let mut histogram3 = DoubleHistogram::with_highest_to_lowest_value_ratio(
        TRACKABLE_VALUE_RANGE_SIZE,
        NUMBER_OF_SIGNIFICANT_VALUE_DIGITS,
    )
    .unwrap();
    assert!(histogram3.record_value(sample(1.0 / 1000.0)).is_ok());
    assert!((1.0 / 1024.0 - lowest_trackable(&histogram3)).abs() <= 0.001);
}

#[test]
fn record_value() {
    let mut histogram = DoubleHistogram::with_highest_to_lowest_value_ratio(
        TRACKABLE_VALUE_RANGE_SIZE,
        NUMBER_OF_SIGNIFICANT_VALUE_DIGITS,
    )
    .unwrap();
    assert!(histogram.record_value(sample(TEST_VALUE_LEVEL)).is_ok());
    assert_eq!(1, count_at(&histogram, TEST_VALUE_LEVEL));
    assert_eq!(1, histogram.get_total_count());
}

#[test]
fn double_histogram_record_value_with_expected_interval() {
    let mut histogram = DoubleHistogram::with_highest_to_lowest_value_ratio(
        TRACKABLE_VALUE_RANGE_SIZE,
        NUMBER_OF_SIGNIFICANT_VALUE_DIGITS,
    )
    .unwrap();
    assert!(histogram.record_value(sample(0.0)).is_ok());
    assert!(
        record_with_expected_interval(&mut histogram, TEST_VALUE_LEVEL, TEST_VALUE_LEVEL / 4.0)
            .is_ok()
    );

    let mut raw_histogram = DoubleHistogram::with_highest_to_lowest_value_ratio(
        TRACKABLE_VALUE_RANGE_SIZE,
        NUMBER_OF_SIGNIFICANT_VALUE_DIGITS,
    )
    .unwrap();
    assert!(raw_histogram.record_value(sample(0.0)).is_ok());
    assert!(raw_histogram.record_value(sample(TEST_VALUE_LEVEL)).is_ok());

    assert_eq!(1, count_at(&raw_histogram, 0.0));
    assert_eq!(0, count_at(&raw_histogram, (TEST_VALUE_LEVEL * 1.0) / 4.0));
    assert_eq!(0, count_at(&raw_histogram, (TEST_VALUE_LEVEL * 2.0) / 4.0));
    assert_eq!(0, count_at(&raw_histogram, (TEST_VALUE_LEVEL * 3.0) / 4.0));
    assert_eq!(1, count_at(&raw_histogram, (TEST_VALUE_LEVEL * 4.0) / 4.0));
    assert_eq!(2, raw_histogram.get_total_count());

    assert_eq!(1, count_at(&histogram, 0.0));
    assert_eq!(1, count_at(&histogram, (TEST_VALUE_LEVEL * 1.0) / 4.0));
    assert_eq!(1, count_at(&histogram, (TEST_VALUE_LEVEL * 2.0) / 4.0));
    assert_eq!(1, count_at(&histogram, (TEST_VALUE_LEVEL * 3.0) / 4.0));
    assert_eq!(1, count_at(&histogram, (TEST_VALUE_LEVEL * 4.0) / 4.0));
    assert_eq!(5, histogram.get_total_count());
}

#[test]
fn double_histogram_reset() {
    let mut histogram = DoubleHistogram::with_highest_to_lowest_value_ratio(
        TRACKABLE_VALUE_RANGE_SIZE,
        NUMBER_OF_SIGNIFICANT_VALUE_DIGITS,
    )
    .unwrap();
    assert!(histogram.record_value(sample(TEST_VALUE_LEVEL)).is_ok());
    assert!(histogram.record_value(sample(10.0)).is_ok());
    assert!(histogram.record_value(sample(100.0)).is_ok());
    assert!((min_value_of(&histogram) - f64::min(10.0, TEST_VALUE_LEVEL)).abs() <= 1.0);
    assert!((max_value_of(&histogram) - f64::max(100.0, TEST_VALUE_LEVEL)).abs() <= 1.0);
    histogram.reset();
    assert_eq!(0, count_at(&histogram, TEST_VALUE_LEVEL));
    assert_eq!(0, histogram.get_total_count());
    assert!(histogram.record_value(sample(20.0)).is_ok());
    assert!(histogram.record_value(sample(80.0)).is_ok());
    assert!((20.0 - min_value_of(&histogram)).abs() <= 1.0);
    assert!((80.0 - max_value_of(&histogram)).abs() <= 1.0);
}

#[test]
fn double_histogram_refuses_what_is_no_value() {
    let mut histogram = DoubleHistogram::new(3).unwrap();
    assert!(matches!(
        histogram.record_value(sample(f64::NAN)),
        Err(RecordError::ValueOutOfRangeResizeDisabled)
    ));
    assert!(matches!(
        histogram.record_value(sample(f64::INFINITY)),
        Err(RecordError::ValueOutOfRangeResizeDisabled)
    ));
    assert!(matches!(
        histogram.record_value(sample(-1.0)),
        Err(RecordError::ValueOutOfRangeResizeDisabled)
    ));
    assert_eq!(0, histogram.get_total_count());
}

#[test]
fn data_range() {
    let mut histogram = new_histogram(TRACKABLE_VALUE_RANGE_SIZE);
    assert!(histogram.record_value(sample(0.0)).is_ok());
    assert_eq!(1, count_at(&histogram, 0.0));

    let mut top_value = 1.0;
    loop {
        let res = histogram.record_value(sample(top_value));
        if res.is_err() {
            break;
        }
        top_value *= 2.0;
    }
    // 3 600 000 000 has 32 binary digits, and the range has one binary order
    // of magnitude for each: 2^0 to 2^31 are taken, 2^32 is refused
    assert_approx_eq((1_u64 << 32) as f64, top_value, 0.00001);
    assert_eq!(1, count_at(&histogram, 0.0));
    assert_eq!(
        32,
        histogram.get_current_highest_trackable_exponent()
            - histogram.get_current_lowest_trackable_non_zero_exponent()
    );

    let mut histogram = new_histogram(TRACKABLE_VALUE_RANGE_SIZE);
    assert!(histogram.record_value(sample(0.0)).is_ok());

    let mut bottom_value = (1_u64 << 32) as f64;
    loop {
        let res = histogram.record_value(sample(bottom_value));
        if res.is_err() {
            break;
        }
        bottom_value /= 2.0;
    }
    // 2^32 down to 2^1 are taken, 2^0 is refused
    assert_approx_eq(1.0, bottom_value, 0.00001);

    let expected_range = derive_internal_highest_to_lowest_value_ratio(TRACKABLE_VALUE_RANGE_SIZE);
    assert_eq!(expected_range, 1_u64 << 32);
    assert_approx_eq(expected_range as f64, top_value / bottom_value, 0.00001);
    assert_eq!(1, count_at(&histogram, 0.0));
}

#[test]
fn record_value_overflow_should_throw() {
    let mut histogram = new_histogram(TRACKABLE_VALUE_RANGE_SIZE);
    // nothing is recorded yet: the range moves to the value
    assert!(histogram
        .record_value(sample(TRACKABLE_VALUE_RANGE_SIZE as f64 * 3.0))
        .is_ok());
    // the range has 32 binary orders of magnitude, and 1 lies 33 below the
    // value that is recorded: the range cannot cover both
    assert_eq!(
        histogram.record_value(sample(1.0)),
        Err(RecordError::ValueOutOfRangeResizeDisabled)
    );
    assert_eq!(1, histogram.get_total_count());
    assert_eq!(1, count_at(&histogram, TRACKABLE_VALUE_RANGE_SIZE as f64 * 3.0));
    // a value within 32 binary orders of magnitude is taken
    assert!(histogram.record_value(sample(4.0)).is_ok());
    assert_eq!(2, histogram.get_total_count());
}

#[test]
fn values_are_taken_apart_by_their_bits() {
    for value in [
        1.0_f64,
        4.0,
        2.5362386543,
        0.1,
        1.0e-300,
        1.0e300,
        f64::MAX,
        f64::MIN_POSITIVE,
        f64::MIN_POSITIVE / 8.0,
        5.0e-324,
        0.0,
        -0.0,
        -1.0,
        -5.0e-324,
        f64::INFINITY,
        f64::NEG_INFINITY,
        f64::NAN,
    ] {
        assert_eq!(sample(value), taken_apart(value), "{}", value);
    }
    assert_eq!(
        sample_of_bits(0x3ff0_0000_0000_0000),
        DoubleSample::Positive(Dyadic { mantissa: 1 << 52, exponent: -52 })
    );
    assert_eq!(
        sample_of_bits(0x4004_0000_0000_0000),
        DoubleSample::Positive(Dyadic { mantissa: 5 << 50, exponent: -51 })
    );
    assert_eq!(
        sample_of_bits(1),
        DoubleSample::Positive(Dyadic { mantissa: 1, exponent: -1074 })
    );
    assert_eq!(sample_of_bits(0), DoubleSample::Zero);
    assert_eq!(sample_of_bits(1 << 63), DoubleSample::Zero);
    assert_eq!(sample_of_bits((1 << 63) | 1), DoubleSample::Negative);
    assert_eq!(sample_of_bits(0x7ff0_0000_0000_0000), DoubleSample::NotFinite);
    assert_eq!(sample_of_bits(0xfff8_0000_0000_0001), DoubleSample::NotFinite);
}

#[test]
fn range_does_not_move_above_the_highest_allowed_value() {
    // 2^1021 is the highest value that the range moves up to
    let mut histogram = new_histogram(TRACKABLE_VALUE_RANGE_SIZE);
    assert_eq!(
        histogram.record_value(sample(f64::powi(2.0, 1021) * 1.5)),
        Err(RecordError::ValueOutOfRangeResizeDisabled)
    );
    assert_eq!(
        histogram.record_value(sample(f64::powi(2.0, 1022))),
        Err(RecordError::ValueOutOfRangeResizeDisabled)
    );
    assert_eq!(0, histogram.get_total_count());
    assert!(histogram.record_value(sample(f64::powi(2.0, 1021))).is_ok());
    assert_eq!(1, histogram.get_total_count());
    assert_eq!(1, count_at(&histogram, f64::powi(2.0, 1021)));
}

#[test]
fn double_histogram_auto_shift() {
    let mut histogram = DoubleHistogram::new(3).unwrap();
    assert!(histogram.is_auto_resize());
    assert!(histogram.record_value(sample(f64::powi(2.0, 20))).is_ok());
    assert!(histogram.record_value(sample(1.0)).is_ok());
    assert!(histogram.record_value(sample(2.5362386543)).is_ok());
    assert_eq!(3, histogram.get_total_count());
    let expected_max = to_f64(histogram.highest_equivalent_value(sample(f64::powi(2.0, 20))));
    assert!(expected_max >= f64::powi(2.0, 20));
    assert!(expected_max < f64::powi(2.0, 20) * (1.0 + 1.0 / 1024.0));
    assert_eq!(expected_max, max_value_of(&histogram));
    assert!(histogram.values_are_equivalent(
        sample(max_value_of(&histogram)),
        sample(f64::powi(2.0, 20))
    ));
    assert_eq!(1.0, min_value_of(&histogram));
    assert!(histogram.values_are_equivalent(sample(min_value_of(&histogram)), sample(1.0)));
    assert!(to_f64(histogram.lowest_equivalent_value(sample(1.0))) <= min_value_of(&histogram));
    let lowest = lowest_trackable(&histogram);
    let highest = 2.0_f64.powi(histogram.get_current_highest_trackable_exponent());
    assert!(0.0 < lowest && lowest <= 1.0);
    // the lower end is a power of two: its mantissa holds one bit
    assert_eq!(lowest.to_bits() & ((1_u64 << 52) - 1), 0);
    assert!(lowest < highest);
    assert!(f64::powi(2.0, 20) < highest);
    assert_eq!(1, count_at(&histogram, 1.0));
    assert_eq!(1, count_at(&histogram, 2.5362386543));
    assert_eq!(1, count_at(&histogram, f64::powi(2.0, 20)));
}

#[test]
fn double_histogram_saturates_under_the_saturating_policy() {
    let mut histogram = SaturatingDoubleHistogram::with_highest_to_lowest_value_ratio(
        TRACKABLE_VALUE_RANGE_SIZE,
        NUMBER_OF_SIGNIFICANT_VALUE_DIGITS,
    )
    .unwrap();
    assert!(histogram.record_value(sample(1.0)).is_ok());
    // beyond 2^32 times the lowest value: counted in the last slot
    assert!(histogram.record_value(sample(f64::powi(2.0, 40))).is_ok());
    assert_eq!(2, histogram.get_total_count());
    let last = histogram.integer_histogram().last_index();
    assert_eq!(Some(1), histogram.integer_histogram().get_count_at_index(last).copied());

    let mut strict = DoubleHistogram::with_highest_to_lowest_value_ratio(
        TRACKABLE_VALUE_RANGE_SIZE,
        NUMBER_OF_SIGNIFICANT_VALUE_DIGITS,
    )
    .unwrap();
    assert!(strict.record_value(sample(1.0)).is_ok());
    assert!(matches!(
        strict.record_value(sample(f64::powi(2.0, 40))),
        Err(RecordError::ValueOutOfRangeResizeDisabled)
    ));
    assert_eq!(1, strict.get_total_count());
}

#[test]
fn add() {
    let mut histogram = new_histogram(TRACKABLE_VALUE_RANGE_SIZE);
    let mut other = new_histogram(TRACKABLE_VALUE_RANGE_SIZE);

    assert!(histogram.record_value(sample(TEST_VALUE_LEVEL)).is_ok());
    assert!(histogram.record_value(sample(TEST_VALUE_LEVEL * 1000.0)).is_ok());
    assert!(other.record_value(sample(TEST_VALUE_LEVEL)).is_ok());
    assert!(other.record_value(sample(TEST_VALUE_LEVEL * 1000.0)).is_ok());
    assert!(histogram.add(&other).is_ok());
    assert_eq!(2, count_at(&histogram, TEST_VALUE_LEVEL));
    assert_eq!(2, count_at(&histogram, TEST_VALUE_LEVEL * 1000.0));
    assert_eq!(4, histogram.get_total_count());

    let mut bigger_other = new_histogram(TRACKABLE_VALUE_RANGE_SIZE * 2);
    assert!(bigger_other.record_value(sample(TEST_VALUE_LEVEL)).is_ok());
    assert!(bigger_other
        .record_value(sample(TEST_VALUE_LEVEL * 1000.0))
        .is_ok());

    assert!(bigger_other.add(&histogram).is_ok());
    assert_eq!(3, count_at(&bigger_other, TEST_VALUE_LEVEL));
    assert_eq!(3, count_at(&bigger_other, TEST_VALUE_LEVEL * 1000.0));
    assert_eq!(6, bigger_other.get_total_count());

    assert!(histogram.add(&bigger_other).is_ok());

    assert!(histogram.record_value(sample(1.0)).is_ok());
    assert!(other.record_value(sample(1.0)).is_ok());
    assert!(bigger_other
        .record_value(sample(TRACKABLE_VALUE_RANGE_SIZE as f64 * 8.0))
        .is_ok());
    assert!(bigger_other.add(&histogram).is_err());
}

#[test]
fn add_with_auto_resize() {
    let mut histo1 = DoubleHistogram::new(3).unwrap();
    histo1.set_auto_resize(true);
    assert!(histo1.record_value(sample(6.0)).is_ok());
    assert!(histo1.record_value(sample(1.0)).is_ok());
    assert!(histo1.record_value(sample(5.0)).is_ok());
    assert!(histo1.record_value(sample(8.0)).is_ok());
    assert!(histo1.record_value(sample(3.0)).is_ok());
    assert!(histo1.record_value(sample(7.0)).is_ok());
    let mut histo2 = DoubleHistogram::new(3).unwrap();
    histo2.set_auto_resize(true);
    assert!(histo2.record_value(sample(9.0)).is_ok());
    let mut histo3 = DoubleHistogram::new(3).unwrap();
    histo3.set_auto_resize(true);
    assert!(histo3.record_value(sample(4.0)).is_ok());
    assert!(histo3.record_value(sample(2.0)).is_ok());
    assert!(histo3.record_value(sample(10.0)).is_ok());

    let mut merged = DoubleHistogram::new(3).unwrap();
    merged.set_auto_resize(true);
    assert!(merged.add(&histo1).is_ok());
    assert!(merged.add(&histo2).is_ok());
    assert!(merged.add(&histo3).is_ok());

    assert_eq!(
        merged.get_total_count(),
        histo1.get_total_count() + histo2.get_total_count() + histo3.get_total_count()
    );
    assert_approx_eq(1.0, min_value_of(&merged), 0.01);
    assert_approx_eq(10.0, max_value_of(&merged), 0.01);
}

#[test]
fn double_histogram_size_of_equivalent_value_range() {
    let mut histogram = new_histogram(TRACKABLE_VALUE_RANGE_SIZE);
    assert!(histogram.record_value(sample(1.0)).is_ok());
    let size = |value: f64| to_f64(histogram.size_of_equivalent_value_range(sample(value)));
    assert_approx_eq(1.0 / 1024.0, size(1.0), 0.001);
    assert_approx_eq(2.0, size(2500.0), 0.001);
    assert_approx_eq(4.0, size(8191.0), 0.001);
    assert_approx_eq(8.0, size(8192.0), 0.001);
    assert_approx_eq(8.0, size(10000.0), 0.001);
    assert_eq!(1.0 / 1024.0, size(1.0));
    assert_eq!(2.0, size(2500.0));
}

#[test]
fn double_histogram_lowest_equivalent_value() {
    let mut histogram = new_histogram(TRACKABLE_VALUE_RANGE_SIZE);
    assert!(histogram.record_value(sample(1.0)).is_ok());
    let lowest = |value: f64| to_f64(histogram.lowest_equivalent_value(sample(value)));
    assert_approx_eq(10000.0, lowest(10007.0), 0.001);
    assert_approx_eq(10008.0, lowest(10009.0), 0.001);
}

#[test]
fn double_histogram_highest_equivalent_value() {
    let mut histogram = new_histogram(TRACKABLE_VALUE_RANGE_SIZE);
    assert!(histogram.record_value(sample(1.0)).is_ok());
    let highest = |value: f64| to_f64(histogram.highest_equivalent_value(sample(value)));
    assert_approx_eq(8183.99999, highest(8180.0), 0.001);
    assert_approx_eq(8191.99999, highest(8191.0), 0.001);
    assert_approx_eq(8199.99999, highest(8193.0), 0.001);
    assert_approx_eq(9999.99999, highest(9995.0), 0.001);
    assert_approx_eq(10007.99999, highest(10007.0), 0.001);
    assert_approx_eq(10015.99999, highest(10008.0), 0.001);
    // The highest value below 8192 that 64 bits of floating point hold.
    assert_eq!(f64::from_bits(8192.0_f64.to_bits() - 1), highest(8191.0));
    assert_eq!(f64::from_bits(8184.0_f64.to_bits() - 1), highest(8180.0));
}

#[test]
fn double_histogram_median_equivalent_value() {
    let mut histogram = new_histogram(TRACKABLE_VALUE_RANGE_SIZE);
    assert!(histogram.record_value(sample(1.0)).is_ok());
    let median = |value: f64| to_f64(histogram.median_equivalent_value(sample(value)));
    assert_approx_eq(4.002, median(4.0), 0.001);
    assert_approx_eq(5.002, median(5.0), 0.001);
    assert_approx_eq(4001.0, median(4000.0), 0.001);
    assert_approx_eq(8002.0, median(8000.0), 0.001);
    assert_approx_eq(10004.0, median(10007.0), 0.001);
}

#[test]
fn max_value() {
    let mut histogram = DoubleHistogram::with_highest_to_lowest_value_ratio(1_000_000_000, 2).unwrap();
    assert!(histogram.record_value(sample(2.5362386543)).is_ok());
    let max = max_value_of(&histogram);
    assert_approx_eq(
        max,
        to_f64(histogram.highest_equivalent_value(sample(2.5362386543))),
        0.00001,
    );
    assert!(max >= 2.5362386543);
}

#[test]
fn scaling_equivalence() {
    let data = build_data_histograms();

    assert_approx_eq(
        mean_of(&data.histogram) * 512.0,
        mean_of(&data.scaled_histogram),
        mean_of(&data.scaled_histogram) * 0.000001,
    );
    assert_eq!(
        data.histogram.get_total_count(),
        data.scaled_histogram.get_total_count()
    );
    let scaled_highest = |value: f64| {
        to_f64(data.scaled_histogram.highest_equivalent_value(sample(value)))
    };
    assert_approx_eq(
        scaled_highest(value_at_percentile_of(&data.histogram, 99.0) * 512.0),
        scaled_highest(value_at_percentile_of(&data.scaled_histogram, 99.0)),
        scaled_highest(value_at_percentile_of(&data.scaled_histogram, 99.0)) * 0.000001,
    );
    assert_approx_eq(
        scaled_highest(max_value_of(&data.histogram) * 512.0),
        max_value_of(&data.scaled_histogram),
        max_value_of(&data.scaled_histogram) * 0.000001,
    );

    assert_eq!(
        data.post_corrected_histogram.get_total_count(),
        data.post_corrected_scaled_histogram.get_total_count()
    );
    let corrected_lowest = to_f64(data.post_corrected_histogram.lowest_equivalent_value(sample(
        value_at_percentile_of(&data.post_corrected_histogram, 99.0),
    )));
    let corrected_scaled_lowest =
        to_f64(data.post_corrected_scaled_histogram.lowest_equivalent_value(sample(
            value_at_percentile_of(&data.post_corrected_scaled_histogram, 99.0),
        )));
    assert_approx_eq(
        corrected_lowest * 512.0,
        corrected_scaled_lowest,
        corrected_scaled_lowest * 0.000001,
    );
    assert_approx_eq(
        to_f64(data.post_corrected_scaled_histogram.highest_equivalent_value(sample(
            max_value_of(&data.post_corrected_histogram) * 512.0,
        ))),
        max_value_of(&data.post_corrected_scaled_histogram),
        max_value_of(&data.post_corrected_scaled_histogram) * 0.000001,
    );
}

#[test]
fn get_total_count() {
    let data = build_data_histograms();
    assert_eq!(10001, data.raw_histogram.get_total_count());
    assert_eq!(20000, data.histogram.get_total_count());
    assert_eq!(10001, data.scaled_raw_histogram.get_total_count());
}

#[test]
fn get_max_value() {
    let data = build_data_histograms();
    assert!(data.histogram.values_are_equivalent(
        sample(100.0 * 1000.0 * 1000.0),
        sample(max_value_of(&data.histogram))
    ));
}

#[test]
fn get_min_value() {
    let data = build_data_histograms();
    assert!(data
        .histogram
        .values_are_equivalent(sample(1000.0), sample(min_value_of(&data.histogram))));
}

#[test]
fn get_mean() {
    let data = build_data_histograms();
    let expected_raw_mean = ((10000.0 * 1000.0) + (1.0 * 100000000.0)) / 10001.0;
    let expected_mean = (1000.0 + 50000000.0) / 2.0;
    assert_approx_eq(
        expected_raw_mean,
        mean_of(&data.raw_histogram),
        expected_raw_mean * 0.001,
    );
    assert_approx_eq(expected_mean, mean_of(&data.histogram), expected_mean * 0.001);
}

#[test]
fn get_std_deviation() {
    let data = build_data_histograms();
    let expected_raw_mean = ((10000.0 * 1000.0) + (1.0 * 100000000.0)) / 10001.0;
    let expected_raw_stddev = (((10000.0 * (1000.0_f64 - expected_raw_mean).powi(2))
        + (100000000.0_f64 - expected_raw_mean).powi(2))
        / 10001.0)
        .sqrt();

    let expected_mean = (1000.0 + 50000000.0) / 2.0;
    let mut expected_square_deviation_sum = 10000.0 * (1000.0_f64 - expected_mean).powi(2);
    let mut value = 10000.0_f64;
    while value <= 100000000.0 {
        expected_square_deviation_sum += (value - expected_mean).powi(2);
        value += 10000.0;
    }
    let expected_stddev = (expected_square_deviation_sum / 20000.0).sqrt();

    assert_approx_eq(
        expected_raw_stddev,
        std_deviation_of(&data.raw_histogram),
        expected_raw_stddev * 0.001,
    );
    assert_approx_eq(
        expected_stddev,
        std_deviation_of(&data.histogram),
        expected_stddev * 0.001,
    );
}

#[test]
fn get_value_at_percentile() {
    let data = build_data_histograms();
    let raw = &data.raw_histogram;
    assert_approx_eq(1000.0, value_at_percentile_of(raw, 30.0), 1000.0 * 0.001);
    assert_approx_eq(1000.0, value_at_percentile_of(raw, 99.0), 1000.0 * 0.001);
    assert_approx_eq(1000.0, value_at_percentile_of(raw, 99.99), 1000.0 * 0.001);
    assert_approx_eq(100000000.0, value_at_percentile_of(raw, 99.999), 100000000.0 * 0.001);
    assert_approx_eq(100000000.0, value_at_percentile_of(raw, 100.0), 100000000.0 * 0.001);

    let corrected = &data.histogram;
    assert_approx_eq(1000.0, value_at_percentile_of(corrected, 30.0), 1000.0 * 0.001);
    assert_approx_eq(1000.0, value_at_percentile_of(corrected, 50.0), 1000.0 * 0.001);
    assert_approx_eq(50000000.0, value_at_percentile_of(corrected, 75.0), 50000000.0 * 0.001);
    assert_approx_eq(80000000.0, value_at_percentile_of(corrected, 90.0), 80000000.0 * 0.001);
    assert_approx_eq(98000000.0, value_at_percentile_of(corrected, 99.0), 98000000.0 * 0.001);
    assert_approx_eq(100000000.0, value_at_percentile_of(corrected, 99.999), 100000000.0 * 0.001);
    assert_approx_eq(100000000.0, value_at_percentile_of(corrected, 100.0), 100000000.0 * 0.001);
}

#[test]
fn clamped_integer_values() {
    let mut histogram = new_histogram(TRACKABLE_VALUE_RANGE_SIZE);
    assert!(histogram.record_value(sample(1.0)).is_ok());
    // One unit of the integer histogram stands for 1/1024.
    assert_eq!(histogram.get_integer_to_double_conversion_exponent(), -10);
    assert_eq!(histogram.to_integer_value_clamped(sample(1.0)), 1024);
    assert_eq!(histogram.to_integer_value_clamped(sample(2.5)), 2560);
    assert_eq!(histogram.to_integer_value_clamped(sample(0.0)), 0);
    assert_eq!(histogram.to_integer_value_clamped(sample(-3.0)), 0);
    assert_eq!(histogram.to_integer_value_clamped(sample(f64::NAN)), 0);
    assert_eq!(histogram.to_integer_value_clamped(sample(1.0 / 4096.0)), 0);
    assert_eq!(histogram.to_integer_value_clamped(sample(1.0e-300)), 0);
    assert_eq!(histogram.to_integer_value_clamped(sample(1.0e300)), u64::MAX);
    assert_eq!(
        histogram.to_integer_value_clamped(sample(f64::powi(2.0, 53))),
        1_u64 << 63
    );
    assert_eq!(
        histogram.to_integer_value_clamped(sample(f64::powi(2.0, 54))),
        u64::MAX
    );
}

#[test]
fn samples_of_scaled_integers() {
    assert_eq!(DoubleSample::from_scaled(0, 7), Some(DoubleSample::Zero));
    assert_eq!(
        DoubleSample::from_scaled(5, -3),
        Some(DoubleSample::Positive(Dyadic { mantissa: 5, exponent: -3 }))
    );
    // 64 bits are cut to 53.
    assert_eq!(
        DoubleSample::from_scaled(u64::MAX, 0),
        Some(DoubleSample::Positive(Dyadic { mantissa: (1 << 53) - 1, exponent: 11 }))
    );
    // An exponent above those of floating-point values goes into the mantissa.
    assert_eq!(
        DoubleSample::from_scaled(3, 973),
        Some(DoubleSample::Positive(Dyadic { mantissa: 12, exponent: 971 }))
    );
    // An exponent below them cuts the mantissa.
    assert_eq!(
        DoubleSample::from_scaled(13, -1076),
        Some(DoubleSample::Positive(Dyadic { mantissa: 3, exponent: -1074 }))
    );
    assert_eq!(DoubleSample::from_scaled(1, -1075), None);
    assert_eq!(DoubleSample::from_scaled(1, 1024), None);
    assert_eq!(DoubleSample::from_scaled(1, 1023).map(|_| ()), Some(()));
}

#[test]
fn just_below_is_the_neighbour_in_floating_point() {
    for value in [1.0_f64, 2.0, 3.0, 8192.0, 0.1, 1.0e-10, 6.02e23, 4503599627370497.0] {
        let below = dyadic(value).just_below();
        assert_eq!(to_f64(below), f64::from_bits(value.to_bits() - 1), "below {}", value);
        assert!(below.mantissa >= 1 << 52 && below.mantissa < 1 << 53);
    }
    // A mantissa of more than 53 bits: what is cut off lies above the result.
    let wide = Dyadic { mantissa: (1 << 60) + 1, exponent: 0 };
    assert_eq!(wide.just_below(), Dyadic { mantissa: 1 << 52, exponent: 8 });
    let power = Dyadic { mantissa: 1 << 60, exponent: 0 };
    assert_eq!(power.just_below(), Dyadic { mantissa: (1 << 53) - 1, exponent: 7 });
}

#[test]
fn a_move_down_scales_the_extremes_of_the_integers() {
    let mut histogram = DoubleHistogram::new(3).unwrap();
    assert!(histogram.record_value(sample(f64::powi(2.0, 20))).is_ok());
    let lowest_before = histogram.get_current_lowest_trackable_non_zero_exponent();
    let min_before = histogram.integer_histogram().get_min_non_zero_value();
    let max_before = max_value_of(&histogram);
    // 1.0 lies below the range: the range moves down to take it
    assert!(0 < lowest_before);
    assert!(histogram.record_value(sample(1.0)).is_ok());
    let lowest_after = histogram.get_current_lowest_trackable_non_zero_exponent();
    assert!(lowest_after <= 0);
    let orders = (lowest_before - lowest_after) as u32;
    let integers = histogram.integer_histogram();
    assert_eq!(
        integers.get_max_value(),
        integers.highest_equivalent_value(min_before << orders)
    );
    assert!(histogram.values_are_equivalent(
        sample(max_value_of(&histogram)),
        sample(max_before)
    ));
}
