use hdrhistogram::concurrent::concurrent_util::{update_max_value, update_min_non_zero_value};
use hdrhistogram::concurrent::counts_array::CountsArray;
use hdrhistogram::concurrent::inline_backing_array::InlineBackingArray;
use hdrhistogram::concurrent::resizable_histogram::ResizableHistogram;
use hdrhistogram::concurrent::static_histogram::StaticHistogram;
use hdrhistogram::concurrent::writer_reader_phaser::{
    flip_leads_to_even_phase, phase_start_value, writer_belongs_to_odd_phase,
};
use hdrhistogram::double::double_histogram::DoubleHistogram;
use hdrhistogram::double::range::{
    derive_integer_value_range, derive_internal_highest_to_lowest_value_ratio,
    find_containing_binary_order_of_magnitude_long, shift_to_cover_above, shift_to_cover_below,
    sub_bucket_half_count_for_sig_digits,
};
use hdrhistogram::double::sample::{DoubleSample, Dyadic};
use hdrhistogram::errors::CreationError;
use hdrhistogram::histogram_settings::{sub_bucket_count_magnitude, HistogramSettings};
use hdrhistogram::iteration::iteration_state::IterationState;
use hdrhistogram::iteration::iteration_strategy::{default_has_next, times_or_highest};
use hdrhistogram::meta_data::HistogramMetaData;
use hdrhistogram::serialization::deserializable_histogram::zero_counts;
use hdrhistogram::serialization::zigzag::{fold_sign, get_varint, put_varint, unfold_sign};
use hdrhistogram::sliceable_histogram::counts_of_first_slots;
use hdrhistogram::st::backing_array::BackingArray;
use hdrhistogram::st::histogram::Histogram;
use hdrhistogram::util::{
    add_mix32, add_mix64, alloc_guard, hash_mix, recalculate_internal_tracking_values,
    slot_position,
};
use std::sync::atomic::{AtomicU64, Ordering};
use std::time::{Duration, UNIX_EPOCH};

const HIGHEST: u64 = 3_600_000_000;

#[test]
fn sub_bucket_count_magnitude_is_the_ceiling_of_a_logarithm() {
    // the least magnitude with 2^magnitude >= 2 * 10^digits
    assert_eq!(sub_bucket_count_magnitude(0), 1);
    assert_eq!(sub_bucket_count_magnitude(1), 5);
    assert_eq!(sub_bucket_count_magnitude(2), 8);
    assert_eq!(sub_bucket_count_magnitude(3), 11);
    assert_eq!(sub_bucket_count_magnitude(4), 15);
    assert_eq!(sub_bucket_count_magnitude(5), 18);
}

#[test]
fn geometry_of_an_hour_in_microseconds() {
    let settings = HistogramSettings::new(1, HIGHEST, 3).unwrap();
    assert_eq!(settings.unit_magnitude, 0);
    assert_eq!(settings.unit_magnitude_mask, 0);
    assert_eq!(settings.sub_bucket_count, 2048);
    assert_eq!(settings.sub_bucket_half_count, 1024);
    assert_eq!(settings.sub_bucket_half_count_magnitude, 10);
    assert_eq!(settings.sub_bucket_mask, 2047);
    assert_eq!(settings.leading_zero_count_base, 53);
    assert_eq!(settings.bucket_count, 22);
    assert_eq!(settings.counts_array_length, 23 * 1024);
    assert!(!settings.auto_resize);

    assert_eq!(settings.get_buckets_needed_to_cover_value(2047), 1);
    assert_eq!(settings.get_buckets_needed_to_cover_value(2048), 2);
    assert_eq!(settings.get_buckets_needed_to_cover_value(HIGHEST), 22);
    assert_eq!(settings.get_length_for_number_of_buckets(22), 23 * 1024);
    assert_eq!(settings.get_length_for_number_of_buckets(1), 2048);
    assert_eq!(settings.determine_array_length_needed(HIGHEST), 23 * 1024);
    assert_eq!(settings.determine_array_length_needed(1), 2048);

    assert_eq!(settings.get_bucket_index(2047), 0);
    assert_eq!(settings.get_bucket_index(2048), 1);
    assert_eq!(settings.get_bucket_index(6000), 2);
    assert_eq!(settings.get_sub_bucket_index(6000, 2), 1500);
    assert_eq!(settings.value_from_indexes(2, 1500), 6000);
    assert_eq!(settings.counts_array_index(6000), 2 * 1024 + 1500);
    assert_eq!(settings.value_from_index(2 * 1024 + 1500), 6000);

    assert_eq!(settings.next_non_equivalent_value(2047), 2048);
    assert_eq!(settings.next_non_equivalent_value(5000), 5004);
    assert_eq!(settings.next_non_equivalent_value(u64::MAX), u64::MAX);
    assert_eq!(settings.get_max_value(0), 0);
    assert_eq!(settings.get_max_value(5001), 5003);
    assert_eq!(settings.get_min_non_zero_value(u64::MAX), u64::MAX);
    assert_eq!(settings.get_min_non_zero_value(5001), 5000);
}

#[test]
fn geometry_with_a_unit_of_1024() {
    let settings = HistogramSettings::new(1024, HIGHEST, 3).unwrap();
    assert_eq!(settings.unit_magnitude, 10);
    assert_eq!(settings.unit_magnitude_mask, 1023);
    assert_eq!(settings.unit_floor(5000), 4096);
    assert_eq!(settings.unit_ceiling(5000), 5119);
    assert_eq!(settings.unit_floor(4096), 4096);
    assert_eq!(settings.unit_ceiling(4096), 5119);
    assert_eq!(settings.size_of_equivalent_value_range(5000), 1024);
}

#[test]
fn geometries_are_compared_with_and_without_their_length() {
    let settings = HistogramSettings::new(1, HIGHEST, 3).unwrap();
    let same = HistogramSettings::new(1, HIGHEST, 3).unwrap();
    let longer = HistogramSettings::new(1, HIGHEST * 1000, 3).unwrap();
    let finer = HistogramSettings::new(1, HIGHEST, 4).unwrap();
    assert!(settings.is_add_compatible_with(&same));
    assert!(!settings.is_add_compatible_with(&finer));
    assert!(settings.equals(&same));
    assert!(!settings.equals(&finer));
    let mut grown = settings;
    assert_eq!(grown.resize(HIGHEST * 1000), Ok(longer.counts_array_length));
    assert_eq!(grown.bucket_count, longer.bucket_count);
    assert!(grown.highest_trackable_value >= HIGHEST * 1000);
}

#[test]
fn geometry_errors() {
    assert_eq!(HistogramSettings::new(0, 10, 3).err(), Some(CreationError::LowIsZero));
    assert_eq!(
        HistogramSettings::new(u64::MAX / 2 + 1, u64::MAX, 3).err(),
        Some(CreationError::LowGtMax)
    );
    assert_eq!(
        HistogramSettings::new(10, 19, 3).err(),
        Some(CreationError::HighLt2Low)
    );
    assert_eq!(
        HistogramSettings::new(1, 10, 6).err(),
        Some(CreationError::SignificantValueDigitsExceedsMax)
    );
    assert_eq!(
        HistogramSettings::new(1 << 53, 1 << 60, 3).err(),
        Some(CreationError::CantReprSigDigitsLtLowestDiscernible)
    );
    assert!(HistogramSettings::new(10, 20, 3).is_ok());
}

#[test]
fn hash_rounds() {
    let mut h: i64 = 1;
    hash_mix(&mut h);
    // 1 + (1 << 10) = 1025, and 1025 ^ (1025 >> 6) = 1025 ^ 16
    assert_eq!(h, 1041);
    let mut h: i64 = 0;
    add_mix32(&mut h, 1);
    assert_eq!(h, 1041);
    let mut h: i64 = 0;
    add_mix64(&mut h, 1);
    assert_eq!(h, 1041);
    let mut h: i64 = 5;
    add_mix64(&mut h, u64::MAX);
    let mut expected: i64 = 4;
    hash_mix(&mut expected);
    assert_eq!(h, expected);
}

#[test]
fn hash_code_mixes_what_identifies_a_recording() {
    let mut histogram = Histogram::with_low_high_sigvdig(1024, HIGHEST, 3).unwrap();
    let empty = histogram.hash_code();
    let mut h: i64 = 0;
    add_mix32(&mut h, 10);
    add_mix32(&mut h, 3);
    add_mix64(&mut h, 0);
    add_mix64(&mut h, 0);
    add_mix64(&mut h, u64::MAX);
    h = h.wrapping_add(h << 3);
    h ^= h >> 11;
    h = h.wrapping_add(h << 15);
    assert_eq!(empty, h);
    assert!(histogram.record_value(5000).is_ok());
    assert_ne!(histogram.hash_code(), empty);
    let mut other = Histogram::with_low_high_sigvdig(1024, HIGHEST * 8, 3).unwrap();
    assert!(other.record_value(5001).is_ok());
    assert_eq!(histogram.hash_code(), other.hash_code());
}

#[test]
fn tracking_values_from_counts() {
    assert_eq!(
        recalculate_internal_tracking_values(&vec![3, 0, 5, 0, 7, 0], 6),
        (Some(4), Some(2), 15)
    );
    assert_eq!(
        recalculate_internal_tracking_values(&vec![3, 0, 5, 0, 7, 0], 3),
        (Some(2), Some(2), 8)
    );
    assert_eq!(recalculate_internal_tracking_values(&vec![0, 0], 2), (None, None, 0));
    assert_eq!(recalculate_internal_tracking_values(&vec![9], 1), (Some(0), None, 9));
    assert_eq!(slot_position(7), 7);
    alloc_guard(1 << 20);
    assert_eq!(zero_counts(3), vec![0, 0, 0]);
}

#[test]
fn binary_orders_of_magnitude() {
    assert_eq!(find_containing_binary_order_of_magnitude_long(0), 0);
    assert_eq!(find_containing_binary_order_of_magnitude_long(1), 1);
    assert_eq!(find_containing_binary_order_of_magnitude_long(2), 2);
    assert_eq!(find_containing_binary_order_of_magnitude_long(3), 2);
    assert_eq!(find_containing_binary_order_of_magnitude_long(4), 3);
    assert_eq!(find_containing_binary_order_of_magnitude_long(HIGHEST), 32);
    assert_eq!(find_containing_binary_order_of_magnitude_long(u64::MAX), 64);
    // one binary order of magnitude for each binary digit of the ratio
    assert_eq!(derive_internal_highest_to_lowest_value_ratio(2), 4);
    assert_eq!(derive_internal_highest_to_lowest_value_ratio(3), 4);
    assert_eq!(derive_internal_highest_to_lowest_value_ratio(4), 8);
    assert_eq!(derive_internal_highest_to_lowest_value_ratio(HIGHEST), 1 << 32);
    assert_eq!(sub_bucket_half_count_for_sig_digits(0), 1);
    assert_eq!(sub_bucket_half_count_for_sig_digits(3), 1024);
    assert_eq!(sub_bucket_half_count_for_sig_digits(5), 1 << 17);
    assert_eq!(derive_integer_value_range(HIGHEST, 3), Some(1 << 42));
    assert_eq!(derive_integer_value_range(2, 0), Some(4));
}

#[test]
fn magnitude_of_a_number() {
    let three_times_sixteen = Dyadic { mantissa: 3, exponent: 4 };
    assert_eq!(three_times_sixteen.get_magnitude(), 5);
    assert!(three_times_sixteen.is_above_pow2(5));
    assert!(!three_times_sixteen.is_above_pow2(6));
    assert!(three_times_sixteen.is_above_pow2(-3));
    let thirty_two = Dyadic { mantissa: 1, exponent: 5 };
    assert_eq!(thirty_two.get_magnitude(), 5);
    assert!(!thirty_two.is_above_pow2(5));
    assert!(thirty_two.is_above_pow2(4));
    let small = Dyadic { mantissa: 1 << 52, exponent: -1074 };
    assert_eq!(small.get_magnitude(), -1022);
}

#[test]
fn steps_of_the_range_are_capped_by_the_ratio() {
    let one = Dyadic { mantissa: 1, exponent: 0 };
    // the range begins at 2^10: it lies 1023 times the value above it, which
    // takes 10 binary digits
    assert_eq!(shift_to_cover_below(&one, 10, HIGHEST), 10);
    // beyond a ratio of 4 a step is as wide as the binary logarithm of the ratio
    assert_eq!(shift_to_cover_below(&one, 10, 4), 2);
    assert_eq!(shift_to_cover_below(&one, 1, 4), 1);
    let high = Dyadic { mantissa: 1, exponent: 20 };
    // the value next above 2^20 lies 2047 times the upper end 2^10 above it
    assert_eq!(shift_to_cover_above(&high, 10, HIGHEST), 11);
    assert_eq!(shift_to_cover_above(&high, 10, 4), 2);
}

#[test]
fn range_moves_to_the_value() {
    let mut histogram = DoubleHistogram::with_highest_to_lowest_value_ratio(HIGHEST, 3).unwrap();
    assert_eq!(histogram.get_current_lowest_trackable_non_zero_exponent(), 800);
    assert_eq!(histogram.get_current_highest_trackable_exponent(), 832);
    let one = Dyadic { mantissa: 1, exponent: 0 };
    assert!(!histogram.covers(&one));
    assert!(histogram.covers(&Dyadic { mantissa: 1, exponent: 800 }));
    assert!(histogram.covers(&Dyadic { mantissa: 3, exponent: 830 }));
    assert!(!histogram.covers(&Dyadic { mantissa: 1, exponent: 832 }));

    assert!(histogram.shift_covered_range_to_the_right(3).is_ok());
    assert_eq!(histogram.get_current_lowest_trackable_non_zero_exponent(), 797);
    assert_eq!(histogram.get_current_highest_trackable_exponent(), 829);
    assert!(histogram.shift_covered_range_to_the_left(5).is_ok());
    assert_eq!(histogram.get_current_lowest_trackable_non_zero_exponent(), 802);

    assert!(histogram.auto_adjust_range_for_value(&one).is_ok());
    assert!(histogram.covers(&one));
    let lowest = histogram.get_current_lowest_trackable_non_zero_exponent();
    assert!(lowest <= 0 && lowest > -32);
    assert_eq!(
        histogram.get_integer_to_double_conversion_exponent(),
        lowest - 10
    );
    assert_eq!(histogram.to_integer_value(&one), 1024_u64 << (-lowest));
    assert_eq!(
        histogram.next_non_equivalent_value(DoubleSample::Positive(one)).mantissa,
        histogram
            .integer_histogram()
            .next_non_equivalent_value(1024_u64 << (-lowest))
    );
}

#[test]
fn phases_of_the_phaser() {
    assert!(!writer_belongs_to_odd_phase(0));
    assert!(!writer_belongs_to_odd_phase(17));
    assert!(writer_belongs_to_odd_phase(isize::MIN));
    assert!(writer_belongs_to_odd_phase(isize::MIN + 5));
    assert!(!flip_leads_to_even_phase(3));
    assert!(flip_leads_to_even_phase(isize::MIN + 3));
    assert_eq!(phase_start_value(true), 0);
    assert_eq!(phase_start_value(false), isize::MIN);
}

#[test]
fn counts_array_keeps_its_counts_when_it_grows() {
    let mut counts = CountsArray::new(4);
    assert_eq!(counts.length(), 4);
    counts.set(2, 7);
    counts.set(0, 1);
    assert_eq!(counts.get(2), 7);
    assert_eq!(counts.get(3), 0);
    let grown = counts.grown_to(8);
    assert_eq!(grown.length(), 8);
    assert_eq!(grown.get(0), 1);
    assert_eq!(grown.get(2), 7);
    assert_eq!(grown.get(7), 0);
    counts.clear();
    assert_eq!(counts.length(), 4);
    assert_eq!(counts.get(2), 0);
    let given = CountsArray::from_counts(vec![1, 2, 3]);
    assert_eq!(given.length(), 3);
    assert_eq!(given.get(1), 2);
}

#[test]
fn backing_array() {
    let mut counts = BackingArray::new(3);
    assert_eq!(counts.length(), 3);
    assert_eq!(counts.get(1), Some(&0));
    assert_eq!(counts.get(3), None);
    counts.set(1, 5);
    assert_eq!(counts.get_unchecked(1), &5);
    if let Some(count) = counts.get_mut(2) {
        *count = 9;
    }
    assert_eq!(counts.get(2), Some(&9));
    assert!(counts.get_mut(3).is_none());
    counts.grow(5);
    assert_eq!(counts.length(), 5);
    assert_eq!(counts.get(4), Some(&0));
    assert_eq!(counts.get(2), Some(&9));
    assert_eq!(counts.get_slice(3), Some(&[0_u64, 5, 9][..]));
    assert_eq!(counts.get_slice(6), None);
    counts.clear();
    assert_eq!(counts.get(1), Some(&0));
    assert_eq!(counts.length(), 5);
    assert_eq!(BackingArray::empty().length(), 0);
    let given = BackingArray::from_counts(vec![4, 5]);
    assert_eq!(given.length(), 2);
    assert_eq!(given.get(1), Some(&5));
}

#[test]
fn atomic_counts_and_extremes() {
    let counts = InlineBackingArray::new_in(3);
    assert_eq!(counts.length(), 3);
    assert!(counts.get(2).is_some());
    assert!(counts.get(3).is_none());
    counts.get_unchecked(1).fetch_add(4, Ordering::Relaxed);
    assert_eq!(counts.get(1).map(|count| count.load(Ordering::Relaxed)), Some(4));
    assert_eq!(counts.get_unchecked(0).load(Ordering::Relaxed), 0);

    let settings = HistogramSettings::new(1024, HIGHEST, 3).unwrap();
    let max = AtomicU64::new(0);
    update_max_value(&settings, &max, 5000);
    assert_eq!(max.load(Ordering::Relaxed), 5119);
    update_max_value(&settings, &max, 4200);
    assert_eq!(max.load(Ordering::Relaxed), 5119);
    let min = AtomicU64::new(u64::MAX);
    update_min_non_zero_value(&settings, &min, 5000);
    assert_eq!(min.load(Ordering::Relaxed), 4096);
    update_min_non_zero_value(&settings, &min, 500);
    assert_eq!(min.load(Ordering::Relaxed), 4096);
    update_min_non_zero_value(&settings, &min, 2047);
    assert_eq!(min.load(Ordering::Relaxed), 1024);
}

#[test]
fn meta_data_of_an_interval() {
    let mut meta_data = HistogramMetaData::new();
    assert_eq!(meta_data.start_timestamp, None);
    assert_eq!(meta_data.end_timestamp, None);
    assert_eq!(meta_data.tag, None);
    let start = UNIX_EPOCH + Duration::from_secs(10);
    let end = UNIX_EPOCH + Duration::from_secs(20);
    meta_data.set_start_timestamp(start);
    meta_data.set_end_timestamp(end);
    meta_data.set_tag_string(String::from("tag"));
    assert_eq!(meta_data.start_timestamp, Some(start));
    assert_eq!(meta_data.end_timestamp, Some(end));
    assert_eq!(meta_data.tag, Some(String::from("tag")));
    meta_data.set_start_now();
    meta_data.set_end_now();
    assert!(meta_data.start_timestamp.unwrap() > end);
    assert!(meta_data.end_timestamp.unwrap() >= meta_data.start_timestamp.unwrap());
    meta_data.clear();
    assert_eq!(meta_data.start_timestamp, None);
    assert_eq!(meta_data.end_timestamp, None);
    assert_eq!(meta_data.tag, None);

    let mut concurrent = StaticHistogram::with_low_high_sigvdig(1, HIGHEST, 3).unwrap();
    concurrent.meta_data_mut().set_tag_string(String::from("static"));
    assert_eq!(concurrent.meta_data().tag, Some(String::from("static")));
    let mut growing = ResizableHistogram::with_sigvdig(2).unwrap();
    growing.meta_data_mut().set_tag_string(String::from("growing"));
    assert_eq!(growing.get_meta_data().tag, Some(String::from("growing")));
}

#[test]
fn signs_are_folded_into_the_lowest_bit() {
    assert_eq!(fold_sign(0), 0);
    assert_eq!(fold_sign(-1), 1);
    assert_eq!(fold_sign(1), 2);
    assert_eq!(fold_sign(-2), 3);
    assert_eq!(fold_sign(i64::MAX), u64::MAX - 1);
    assert_eq!(fold_sign(i64::MIN), u64::MAX);
    assert_eq!(unfold_sign(3), -2);
    assert_eq!(unfold_sign(4), 2);
    assert_eq!(unfold_sign(u64::MAX), i64::MIN);
    let mut buf: Vec<u8> = Vec::new();
    put_varint(&mut buf, 300, 8);
    assert_eq!(buf, vec![0xac, 0x02]);
    assert_eq!(get_varint(&buf, 0, 8), Some((300, 2)));
    assert_eq!(get_varint(&buf, 1, 8), Some((2, 2)));
    assert_eq!(get_varint(&buf, 2, 8), None);
    // with no group left the byte is taken whole
    assert_eq!(get_varint(&buf, 0, 0), Some((0xac, 1)));
}

#[test]
fn histogram_getters() {
    let mut histogram = Histogram::with_sigvdig(3).unwrap();
    assert!(histogram.supports_auto_resize());
    assert!(!histogram.is_auto_resize());
    assert_eq!(histogram.get_lowest_discernable_value(), 1);
    assert_eq!(histogram.get_highest_trackable_value(), 2);
    assert_eq!(histogram.get_number_of_significant_value_digits(), 3);
    assert_eq!(histogram.counts_array_length(), 2048);
    assert_eq!(histogram.highest_recordable_value(), 2047);
    assert_eq!(histogram.saturating_counts_array_index(2047), 2047);
    assert_eq!(histogram.saturating_counts_array_index(u64::MAX), 2047);
    assert_eq!(histogram.next_non_equivalent_value(7), 8);

    assert!(histogram
        .record_value_with_count_and_expected_interval(100, 3, 25)
        .is_ok());
    assert_eq!(histogram.get_total_count(), 12);
    for value in [25, 50, 75, 100] {
        assert_eq!(histogram.get_count_at_value(value), Some(3));
        assert_eq!(histogram.raw_count(value as u32), 3);
    }
    assert_eq!(histogram.raw_count(99), 0);
    histogram.establish_internal_tracking_values();
    assert_eq!(histogram.get_total_count(), 12);
    assert_eq!(histogram.get_max_value(), 100);
    assert_eq!(histogram.get_min_non_zero_value(), 25);
    assert_eq!(counts_of_first_slots(&histogram, 3), vec![0, 0, 0]);
    assert_eq!(counts_of_first_slots(&histogram, 26)[25], 3);

    let large = Histogram::with_low_high_sigvdig(1, HIGHEST, 3).unwrap();
    assert_eq!(large.highest_recordable_value(), u32::MAX as u64);
}

#[test]
fn growing_histogram_works_out_its_extremes() {
    let mut histogram = ResizableHistogram::with_sigvdig(2).unwrap();
    assert!(histogram.record_value(300).is_ok());
    assert!(histogram.record_value(7).is_ok());
    let total = histogram.get_total_count();
    histogram.establish_internal_tracking_values();
    assert_eq!(histogram.get_total_count(), total);
    assert_eq!(histogram.get_min_non_zero_value(), 7);
    assert!(histogram.get_max_value() >= 300);
}

#[test]
fn steps_of_an_iteration() {
    let mut histogram = Histogram::with_low_high_sigvdig(1, HIGHEST, 3).unwrap();
    assert!(histogram.record_value_with_count(5, 2).is_ok());
    assert!(histogram.record_value(5000).is_ok());
    let mut steps = histogram.recorded_values();
    let state: IterationState = steps.0.state;
    assert!(default_has_next(&state));
    assert_eq!(state.array_total_count, 3);
    assert_eq!(state.current_index, 0);
    let first = steps.0.next_value().unwrap();
    assert_eq!(first.value_iterated_to, 5);
    assert_eq!(first.count_at_value_iterated_to, 2);
    assert_eq!(first.count_added_in_this_iteration_step, 2);
    assert_eq!(first.total_count_to_this_value, 2);
    assert_eq!(first.total_value_to_this_value, 10);
    assert_eq!(first.value_iterated_from, 0);
    let second = steps.0.next_value().unwrap();
    assert_eq!(second.value_iterated_to, 5003);
    assert_eq!(second.value_iterated_from, 5);
    assert_eq!(second.total_count_to_this_value, 3);
    assert_eq!(second.total_value_to_this_value, 10 + 5003);
    assert!(!default_has_next(&steps.0.state));
    assert_eq!(steps.0.next_value(), None);

    assert_eq!(times_or_highest(3, 4), 12);
    assert_eq!(times_or_highest(5, 0), 0);
    assert_eq!(times_or_highest(u64::MAX, 2), u64::MAX);
    assert_eq!(times_or_highest(1 << 32, 1 << 32), u64::MAX);
    assert_eq!(times_or_highest(1 << 32, (1 << 32) - 1), u64::MAX - (1 << 32) + 1);
}
