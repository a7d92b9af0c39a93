use hdrhistogram::concurrent::static_histogram::StaticHistogram;
use hdrhistogram::histogram_settings::HistogramSettings;
use hdrhistogram::st::histogram::Histogram;

const HIGHEST: u64 = 3_600_000_000;

fn sample_values() -> Vec<u64> {
    let mut values = vec![0, 1, 2, 3, 1023, 1024, 2047, 2048, 2049, 4095, 4096, 9999, 10_000];
    let mut value: u64 = 17;
    while value < HIGHEST {
        values.push(value);
        values.push(value + 1);
        value = value * 3 + 1;
    }
    values.push(HIGHEST);
    values
}

#[test]
fn value_lies_within_its_equivalent_range() {
    let settings = HistogramSettings::new(1, HIGHEST, 3).unwrap();
    for value in sample_values() {
        assert!(settings.lowest_equivalent_value(value) <= value);
        assert!(value <= settings.highest_equivalent_value(value));
        assert_eq!(
            settings.highest_equivalent_value(value) - settings.lowest_equivalent_value(value) + 1,
            settings.size_of_equivalent_value_range(value)
        );
    }
}

#[test]
fn slot_width_keeps_the_significant_digits() {
    for digits in 0..=5_u8 {
        let settings = HistogramSettings::new(1, HIGHEST, digits).unwrap();
        let scale = 10_u64.pow(digits as u32);
        for value in sample_values() {
            if 2 * value >= scale {
                let size = settings.size_of_equivalent_value_range(value);
                let median = settings.median_equivalent_value(value);
                // size / median <= 2 / 10^digits
                assert!(
                    size as u128 * scale as u128 <= 2 * median as u128,
                    "digits {} value {}",
                    digits,
                    value
                );
            }
        }
    }
    // below half of 10^digits units a slot is one unit wide
    let settings = HistogramSettings::new(1, HIGHEST, 3).unwrap();
    assert_eq!(settings.size_of_equivalent_value_range(1), 1);
    assert_eq!(settings.median_equivalent_value(1), 1);
}

#[test]
fn index_round_trip_gives_the_lowest_equivalent_value() {
    for (lowest, digits) in [(1_u64, 3_u8), (1000, 2), (1, 5), (16, 0)] {
        let settings = HistogramSettings::new(lowest, HIGHEST, digits).unwrap();
        for value in sample_values() {
            let index = settings.counts_array_index(value);
            assert_eq!(
                settings.value_from_index(index),
                settings.lowest_equivalent_value(value)
            );
        }
    }
}

#[test]
fn index_does_not_decrease_with_the_value() {
    let settings = HistogramSettings::new(1, HIGHEST, 3).unwrap();
    let mut values = sample_values();
    values.sort();
    let mut last = 0;
    for value in values {
        let index = settings.counts_array_index(value);
        assert!(index >= last, "value {}", value);
        last = index;
    }
    for value in 0..5000_u64 {
        assert!(settings.counts_array_index(value) <= settings.counts_array_index(value + 1));
    }
}

#[test]
fn records_are_conserved() {
    let mut histogram = Histogram::with_low_high_sigvdig(1, HIGHEST, 3).unwrap();
    let values = sample_values();
    for value in values.iter() {
        assert!(histogram.record_value(*value).is_ok());
    }
    assert_eq!(histogram.get_total_count(), values.len() as u64);
    let mut sum = 0;
    for index in 0..histogram.counts_array_length() {
        sum += *histogram.get_count_at_index(index).unwrap();
    }
    assert_eq!(sum, values.len() as u64);
}

#[test]
fn shift_left_then_right_is_the_identity() {
    for shift in 1..10_u32 {
        let mut histogram = Histogram::with_low_high_sigvdig(1, HIGHEST, 3).unwrap();
        let mut unshifted = Histogram::with_low_high_sigvdig(1, HIGHEST, 3).unwrap();
        for value in [2048_u64, 5000, 70_000, 1_000_000] {
            assert!(histogram.record_value(value).is_ok());
            assert!(unshifted.record_value(value).is_ok());
        }
        assert!(histogram.shift_values_left(shift).is_ok());
        assert_eq!(histogram.get_count_at_value(5000 << shift), Some(1));
        assert!(histogram.shift_values_right(shift).is_ok());
        assert!(histogram.equals(&unshifted));
        for index in 0..histogram.counts_array_length() {
            assert_eq!(
                histogram.get_count_at_index(index),
                unshifted.get_count_at_index(index)
            );
        }
    }
}

#[test]
fn subtract_undoes_a_record() {
    let mut twice = Histogram::with_low_high_sigvdig(1, HIGHEST, 3).unwrap();
    let mut once = Histogram::with_low_high_sigvdig(1, HIGHEST, 3).unwrap();
    assert!(twice.record_value(12_345).is_ok());
    assert!(twice.record_value(12_345).is_ok());
    assert!(once.record_value(12_345).is_ok());
    let mut one = Histogram::with_low_high_sigvdig(1, HIGHEST, 3).unwrap();
    assert!(one.record_value(12_345).is_ok());
    assert!(twice.subtract(&one).is_ok());
    assert!(twice.equals(&once));
    assert_eq!(twice.get_total_count(), 1);
    assert_eq!(twice.get_count_at_value(12_345), Some(1));
    for index in 0..twice.counts_array_length() {
        assert_eq!(twice.get_count_at_index(index), once.get_count_at_index(index));
    }
}

#[test]
fn reset_empties_the_histogram() {
    let mut histogram = Histogram::with_low_high_sigvdig(1, HIGHEST, 3).unwrap();
    for value in sample_values() {
        assert!(histogram.record_value(value).is_ok());
    }
    histogram.meta_data.set_tag_string(String::from("interval"));
    histogram.meta_data.set_start_now();
    histogram.meta_data.set_end_now();
    assert!(histogram.get_meta_data().start_timestamp.is_some());
    assert!(histogram.get_meta_data().end_timestamp.is_some());
    histogram.reset();
    assert_eq!(histogram.get_total_count(), 0);
    assert_eq!(histogram.get_min_non_zero_value(), u64::MAX);
    assert_eq!(histogram.get_max_value(), 0);
    assert_eq!(histogram.get_min_value(), 0);
    for index in 0..histogram.counts_array_length() {
        assert_eq!(histogram.get_count_at_index(index), Some(&0));
    }
    assert_eq!(histogram.get_meta_data().tag, None);
    assert_eq!(histogram.get_meta_data().start_timestamp, None);
    assert_eq!(histogram.get_meta_data().end_timestamp, None);
}

#[test]
fn adding_an_empty_histogram_changes_nothing() {
    let mut histogram = Histogram::with_low_high_sigvdig(1, HIGHEST, 3).unwrap();
    let mut same = Histogram::with_low_high_sigvdig(1, HIGHEST, 3).unwrap();
    for value in sample_values() {
        assert!(histogram.record_value(value).is_ok());
        assert!(same.record_value(value).is_ok());
    }
    let empty = Histogram::with_low_high_sigvdig(1, HIGHEST, 3).unwrap();
    assert!(histogram.add(&empty).is_ok());
    assert!(histogram.equals(&same));
    assert_eq!(histogram.get_total_count(), same.get_total_count());
    assert_eq!(histogram.get_max_value(), same.get_max_value());
    assert_eq!(histogram.get_min_non_zero_value(), same.get_min_non_zero_value());
    let other_geometry = Histogram::with_low_high_sigvdig(1, 1000, 2).unwrap();
    assert!(histogram.add(&other_geometry).is_ok());
    assert!(histogram.equals(&same));
}

#[test]
fn zero_lands_in_slot_zero() {
    let mut histogram = Histogram::with_low_high_sigvdig(1, HIGHEST, 3).unwrap();
    assert!(histogram.record_value(0).is_ok());
    assert_eq!(histogram.get_count_at_index(0), Some(&1));
    assert_eq!(histogram.get_total_count(), 1);
    assert_eq!(histogram.get_min_value(), 0);
    assert_eq!(histogram.get_max_value(), 0);
}

#[test]
fn highest_number_saturates_or_grows() {
    let mut fixed = Histogram::with_low_high_sigvdig(1, HIGHEST, 3).unwrap();
    let length = fixed.counts_array_length();
    assert!(fixed.record_value(u64::MAX).is_ok());
    assert_eq!(fixed.counts_array_length(), length);
    assert_eq!(fixed.get_count_at_index(fixed.last_index()), Some(&1));
    assert_eq!(fixed.get_total_count(), 1);

    let mut growing = Histogram::with_low_high_sigvdig(1, HIGHEST, 3).unwrap();
    growing.set_auto_resize(true);
    assert!(growing.record_value(u64::MAX).is_ok());
    assert!(growing.counts_array_length() > length);
    assert_eq!(growing.get_count_at_value(u64::MAX), Some(1));
    assert_eq!(growing.get_max_value(), u64::MAX);

    let concurrent = StaticHistogram::with_low_high_sigvdig(1, HIGHEST, 3).unwrap();
    assert!(concurrent.record_value(u64::MAX).is_ok());
    let last = concurrent.counts_array_length() - 1;
    assert_eq!(concurrent.get_count_at_index(last), Some(1));
}

#[test]
fn value_at_the_first_and_the_last_rank() {
    let mut histogram = Histogram::with_low_high_sigvdig(1, HIGHEST, 3).unwrap();
    for value in [70_000_u64, 5000, 900_000, 5001] {
        assert!(histogram.record_value(value).is_ok());
    }
    assert_eq!(
        histogram.get_value_at_count(1, true),
        histogram.lowest_equivalent_value(5000)
    );
    assert_eq!(
        histogram.get_value_at_count(histogram.get_total_count(), false),
        histogram.highest_equivalent_value(900_000)
    );
}

#[test]
fn empty_histogram_has_no_extremes() {
    let histogram = Histogram::new(3).unwrap();
    assert_eq!(histogram.get_min_value(), 0);
    assert_eq!(histogram.get_max_value(), 0);
    assert_eq!(histogram.get_total_count(), 0);
    assert_eq!(histogram.get_min_non_zero_value(), u64::MAX);
    assert_eq!(histogram.get_value_at_count(1, false), 0);
    assert_eq!(histogram.get_count_at_or_below_value(0), 0);
}

#[test]
fn equal_slots_with_other_extremes_are_not_the_same_recording() {
    let empty = Histogram::with_low_high_sigvdig(1, HIGHEST, 3).unwrap();
    let mut touched = Histogram::with_low_high_sigvdig(1, HIGHEST, 3).unwrap();
    // a record of no count leaves every slot as it is and sets the extremes
    assert!(touched.record_value_with_count(5, 0).is_ok());
    for index in 0..touched.counts_array_length() {
        assert_eq!(touched.get_count_at_index(index), empty.get_count_at_index(index));
    }
    assert_eq!(touched.get_total_count(), 0);
    assert_eq!(touched.get_max_value(), 5);
    assert!(!touched.equals(&empty));
    assert!(!empty.equals(&touched));
}

#[test]
fn one_record_changes_one_slot() {
    let mut histogram = Histogram::with_low_high_sigvdig(1, HIGHEST, 3).unwrap();
    for value in sample_values() {
        let before: Vec<u64> = (0..histogram.counts_array_length())
            .map(|index| *histogram.get_count_at_index(index).unwrap())
            .collect();
        let total = histogram.get_total_count();
        assert!(histogram.record_value(value).is_ok());
        assert_eq!(histogram.get_total_count(), total + 1);
        let slot = histogram.saturating_counts_array_index(value);
        for index in 0..histogram.counts_array_length() {
            let count = *histogram.get_count_at_index(index).unwrap();
            if index == slot {
                assert_eq!(count, before[index as usize] + 1);
            } else {
                assert_eq!(count, before[index as usize]);
            }
        }
    }
}
