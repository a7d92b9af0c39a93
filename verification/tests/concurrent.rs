use hdrhistogram::concurrent::resizable_histogram::ResizableHistogram;
use hdrhistogram::concurrent::static_histogram::StaticHistogram;
use hdrhistogram::concurrent::extremes::{max_to_store, min_non_zero_to_store, raw_min_non_zero_of};
use hdrhistogram::concurrent::writer_reader_phaser::{
    flip_has_caught_up, FlipTicket, WriterReaderPhaser,
};
use hdrhistogram::util::missed_value_below;
use hdrhistogram::concurrent::reading::HistogramReading;
use hdrhistogram::errors::RecordError;
use hdrhistogram::histogram_settings::HistogramSettings;
use hdrhistogram::st::histogram::{established_tracking_values, Histogram};

const HIGHEST_TRACKABLE: u64 = 3600 * 1000 * 1000;

#[test]
fn phaser_reader_waits_for_writers_of_the_old_phase() {
    let phaser = WriterReaderPhaser::new();
    let early_writer = phaser.begin_writer_critical_section();
    let guard = phaser.reader_lock();
    let ticket = guard.begin_flip();
    assert!(ticket.next_phase_is_even == (ticket.start_value_at_flip < 0));
    assert!(!ticket.next_phase_is_even);
    assert_eq!(1, ticket.start_value_at_flip);
    assert!(!guard.writers_have_caught_up(&ticket));
    // a writer of the new phase does not keep the reader waiting
    let late_writer = phaser.begin_writer_critical_section();
    assert!(!guard.writers_have_caught_up(&ticket));
    early_writer.end_writer_critical_section();
    assert!(guard.writers_have_caught_up(&ticket));
    late_writer.end_writer_critical_section();
    // the next flip leads back to an even phase
    let second = guard.begin_flip();
    assert!(second.next_phase_is_even);
    assert!(guard.writers_have_caught_up(&second));
    guard.reader_unlock();
    let again = phaser.reader_lock();
    again.reader_unlock();
}

#[test]
fn static_histogram_counts_and_saturates() {
    let histogram = StaticHistogram::with_low_high_sigvdig(1, HIGHEST_TRACKABLE, 3).unwrap();
    assert!(!histogram.is_auto_resize());
    assert!(histogram.record_value(4).is_ok());
    assert!(histogram.record_value_with_count(4, 2).is_ok());
    assert!(histogram.record_value(0).is_ok());
    assert!(histogram.record_value(u64::MAX).is_ok());
    assert_eq!(Some(3), histogram.get_count_at_index(4));
    assert_eq!(Some(1), histogram.get_count_at_index(0));
    let last = histogram.counts_array_length() - 1;
    assert_eq!(Some(1), histogram.get_count_at_index(last));
    assert_eq!(None, histogram.get_count_at_index(last + 1));
    assert_eq!(5, histogram.get_total_count());
    assert_eq!(4, histogram.get_min_non_zero_value());
    assert!(matches!(
        histogram.record_value_with_count_strict(u64::MAX, 1),
        Err(RecordError::ValueOutOfRangeResizeDisabled)
    ));
    assert_eq!(5, histogram.get_total_count());
    histogram.clear_counts();
    assert_eq!(0, histogram.get_total_count());
    assert_eq!(Some(0), histogram.get_count_at_index(4));
    assert_eq!(histogram.counts_array_length() as usize, histogram.snapshot_counts().len());
}

#[test]
fn resizable_histogram_grows_both_arrays() {
    let mut histogram = ResizableHistogram::new(3).unwrap();
    assert!(histogram.is_auto_resize());
    let short = histogram.counts_array_length();
    assert!(histogram.record_value(1).is_ok());
    assert!(histogram.record_value(10_000_000).is_ok());
    assert!(histogram.counts_array_length() > short);
    assert!(histogram.record_value_with_count(500, 1 << 42).is_ok());
    assert_eq!((1 << 42) + 2, histogram.get_total_count());
    assert_eq!(Some(1), histogram.get_count_at_index(1));
    let index = histogram.settings().counts_array_index(10_000_000);
    assert_eq!(Some(1), histogram.get_count_at_index(index));
    let length = histogram.counts_array_length();
    assert!(histogram.resize(1 << 40).is_ok());
    assert!(histogram.counts_array_length() > length);
    assert_eq!(Some(1), histogram.get_count_at_index(index));
    histogram.write_inactive_to_active();
    assert_eq!(Some(1), histogram.get_count_at_index(index));
    assert_eq!((1 << 42) + 2, histogram.get_total_count());

    let mut other = ResizableHistogram::new(3).unwrap();
    assert!(other.record_value(1).is_ok());
    assert!(other.record_value(10_000_000).is_ok());
    assert!(!histogram.equals(&other));
    assert!(other.record_value_with_count(500, 1 << 42).is_ok());
    assert!(histogram.equals(&other));
    assert!(other.equals(&histogram));

    other.set_auto_resize(false);
    assert!(matches!(
        other.record_value(u64::MAX),
        Err(RecordError::ValueOutOfRangeResizeDisabled)
    ));
    other.clear_counts();
    assert_eq!(0, other.get_total_count());
    assert_eq!(0, other.get_max_value());
    assert_eq!(Some(0), other.get_count_at_index(1));
}

#[test]
fn static_histogram_compares_and_works_out_its_extremes() {
    let mut histogram = StaticHistogram::with_low_high_sigvdig(1, HIGHEST_TRACKABLE, 3).unwrap();
    let mut same = StaticHistogram::fresh(histogram.settings()).unwrap();
    assert_eq!(same.counts_array_length(), histogram.counts_array_length());
    assert!(histogram.equals(&mut same));
    assert!(histogram.record_value(500).is_ok());
    assert!(histogram.record_value_with_count(70_000, 3).is_ok());
    assert!(!histogram.equals(&mut same));
    assert!(same.record_value_with_count(70_000, 3).is_ok());
    assert!(same.record_value(500).is_ok());
    assert!(histogram.equals(&mut same));
    assert!(same.equals(&mut histogram));

    let mut longer = StaticHistogram::with_low_high_sigvdig(1, HIGHEST_TRACKABLE * 16, 3).unwrap();
    assert!(longer.record_value(500).is_ok());
    assert!(longer.record_value_with_count(70_000, 3).is_ok());
    assert!(histogram.equals(&mut longer));
    assert!(longer.record_value(HIGHEST_TRACKABLE * 8).is_ok());
    assert!(!histogram.equals(&mut longer));

    let mut finer = StaticHistogram::with_low_high_sigvdig(1, HIGHEST_TRACKABLE, 4).unwrap();
    assert!(!histogram.equals(&mut finer));

    histogram.clear_counts();
    assert_eq!(histogram.get_total_count(), 0);
    assert!(histogram.record_value(9).is_ok());
    histogram.establish_internal_tracking_values();
    assert_eq!(histogram.get_total_count(), 1);
    assert_eq!(histogram.get_max_value(), 9);
    assert_eq!(histogram.get_min_non_zero_value(), 9);

    let growing = ResizableHistogram::fresh(histogram.settings()).unwrap();
    assert!(growing.is_auto_resize());
    assert_eq!(growing.counts_array_length(), histogram.counts_array_length());
}

#[test]
fn resizable_histogram_shifts_its_values() {
    let mut histogram = ResizableHistogram::with_high_sigvdig(HIGHEST_TRACKABLE, 3).unwrap();
    let mut expected = ResizableHistogram::with_high_sigvdig(HIGHEST_TRACKABLE, 3).unwrap();
    for value in [2048_u64, 5000, 70_000] {
        assert!(histogram.record_value(value).is_ok());
        assert!(expected.record_value(value << 3).is_ok());
    }
    assert!(histogram.record_value_with_count(0, 5).is_ok());
    assert!(expected.record_value_with_count(0, 5).is_ok());
    histogram.meta_data_mut().set_tag_string(String::from("kept"));

    assert!(histogram.shift_values_left(3).is_ok());
    assert!(histogram.equals(&expected));
    assert_eq!(histogram.get_total_count(), 8);
    assert_eq!(histogram.get_meta_data().tag, Some(String::from("kept")));
    let index = histogram.settings().counts_array_index(5000 << 3);
    assert_eq!(histogram.get_count_at_index(index), Some(1));
    assert_eq!(histogram.get_count_at_index(0), Some(5));

    assert!(histogram.shift_values_right(3).is_ok());
    let index = histogram.settings().counts_array_index(5000);
    assert_eq!(histogram.get_count_at_index(index), Some(1));
    assert_eq!(histogram.get_min_non_zero_value(), 2048);

    // a quarter of 2048 lies in the lower half of bucket 0, where no value goes
    assert!(matches!(
        histogram.shift_values_right(2),
        Err(hdrhistogram::errors::ShiftError::ShiftUnderflow)
    ));
    histogram.set_auto_resize(false);
    assert!(matches!(
        histogram.shift_values_left(40),
        Err(hdrhistogram::errors::ShiftError::ShiftOverflow)
    ));
    assert_eq!(histogram.get_total_count(), 8);
}

#[test]
fn concurrent_histograms_fill_in_what_was_missed() {
    let fixed = StaticHistogram::with_low_high_sigvdig(1, HIGHEST_TRACKABLE, 3).unwrap();
    assert!(fixed.record_value_with_expected_interval(4, 1).is_ok());
    for value in 1..=4 {
        assert_eq!(fixed.get_count_at_index(value), Some(1));
    }
    assert_eq!(fixed.get_total_count(), 4);
    assert!(fixed
        .record_value_with_count_and_expected_interval(100, 3, 25)
        .is_ok());
    assert_eq!(fixed.get_count_at_index(25), Some(3));
    assert_eq!(fixed.get_count_at_index(100), Some(3));
    assert_eq!(fixed.get_total_count(), 16);
    assert!(fixed.record_value_with_expected_interval(7, 0).is_ok());
    assert_eq!(fixed.get_total_count(), 17);

    let mut growing = ResizableHistogram::new(3).unwrap();
    assert!(growing
        .record_value_with_count_and_expected_interval(10_000, 2, 2_500)
        .is_ok());
    assert_eq!(growing.get_total_count(), 8);
    for value in [2_500_u64, 5_000, 7_500, 10_000] {
        let index = growing.settings().counts_array_index(value);
        assert_eq!(growing.get_count_at_index(index), Some(2));
    }
    growing.set_auto_resize(false);
    assert!(matches!(
        growing.record_value_with_count_and_expected_interval(u64::MAX, 1, 1 << 62),
        Err(RecordError::ValueOutOfRangeResizeDisabled)
    ));
    assert_eq!(growing.get_total_count(), 8);
}

#[test]
fn readings_are_compared_slot_by_slot() {
    let settings = HistogramSettings::new(1, HIGHEST_TRACKABLE, 3).unwrap();
    let longer = HistogramSettings::new(1, HIGHEST_TRACKABLE * 16, 3).unwrap();
    let finer = HistogramSettings::new(1, HIGHEST_TRACKABLE, 4).unwrap();
    let reading = HistogramReading {
        total_count: 3,
        max_value: 9,
        min_non_zero_value: 2,
        counts: vec![0, 0, 1, 0, 2],
    };
    let padded = HistogramReading {
        total_count: 3,
        max_value: 9,
        min_non_zero_value: 2,
        counts: vec![0, 0, 1, 0, 2, 0, 0],
    };
    let other_count = HistogramReading {
        total_count: 3,
        max_value: 9,
        min_non_zero_value: 2,
        counts: vec![0, 0, 1, 0, 2, 0, 1],
    };
    let other_total = HistogramReading {
        total_count: 4,
        max_value: 9,
        min_non_zero_value: 2,
        counts: vec![0, 0, 1, 0, 2],
    };
    assert!(reading.same_as(&settings, &reading, &settings));
    assert!(reading.same_as(&settings, &padded, &longer));
    assert!(padded.same_as(&longer, &reading, &settings));
    assert!(!reading.same_as(&settings, &other_count, &longer));
    assert!(!other_count.same_as(&longer, &reading, &settings));
    assert!(!reading.same_as(&settings, &other_total, &settings));
    assert!(!reading.same_as(&settings, &reading, &finer));

    let histogram = StaticHistogram::with_low_high_sigvdig(1, HIGHEST_TRACKABLE, 3).unwrap();
    assert!(histogram.record_value_with_count(4, 2).is_ok());
    assert!(histogram.record_value(5000).is_ok());
    let read = histogram.reading();
    assert_eq!(read.total_count, 3);
    assert_eq!(read.max_value, 5003);
    assert_eq!(read.min_non_zero_value, 4);
    assert_eq!(read.counts.len(), histogram.counts_array_length() as usize);
    assert_eq!(read.counts[4], 2);
    assert_eq!(read.counts.iter().sum::<u64>(), 3);
}

#[test]
fn histogram_of_given_counts() {
    let settings = HistogramSettings::new(1, 2047, 3).unwrap();
    let mut counts: Vec<u64> = vec![0; settings.counts_array_length as usize];
    counts[0] = 1;
    counts[7] = 4;
    counts[100] = 2;
    assert_eq!(established_tracking_values(&settings, &counts), (100, 7, 7));
    let histogram = Histogram::with_counts(settings, counts);
    assert_eq!(histogram.get_total_count(), 7);
    assert_eq!(histogram.get_max_value(), 100);
    assert_eq!(histogram.get_min_non_zero_value(), 7);
    assert_eq!(histogram.get_min_value(), 0);
    assert_eq!(histogram.get_count_at_value(7), Some(4));
    assert_eq!(histogram.get_count_at_value(8), Some(0));

    let coarse = HistogramSettings::new(1024, HIGHEST_TRACKABLE, 3).unwrap();
    let mut counts: Vec<u64> = vec![0; coarse.counts_array_length as usize];
    counts[3] = 1;
    // slot 3 holds the values from 3 * 1024 to 4 * 1024 - 1
    assert_eq!(
        established_tracking_values(&coarse, &counts),
        (4 * 1024 - 1, 3 * 1024, 1)
    );
    let empty: Vec<u64> = vec![0; coarse.counts_array_length as usize];
    assert_eq!(established_tracking_values(&coarse, &empty), (0, u64::MAX, 0));

    let concurrent = StaticHistogram::with_low_high_sigvdig(1, 2047, 3).unwrap();
    assert!(concurrent.record_value_with_count(7, 4).is_ok());
    let snapshot = concurrent.as_snapshot().unwrap();
    assert_eq!(snapshot.get_total_count(), 4);
    assert_eq!(snapshot.get_count_at_value(7), Some(4));
    assert!(concurrent.record_value_with_count(9, u64::MAX - 2).is_ok());
    assert!(concurrent.as_snapshot().is_none());
}

#[test]
fn reader_has_caught_up_when_the_end_epoch_reaches_the_ticket() {
    let to_even = FlipTicket { next_phase_is_even: true, start_value_at_flip: isize::MIN + 3 };
    // the flip led to an even phase: the odd end epoch is the one to reach the ticket
    assert!(!flip_has_caught_up(&to_even, isize::MIN + 2, isize::MIN + 3));
    assert!(flip_has_caught_up(&to_even, isize::MIN + 3, 0));
    assert!(flip_has_caught_up(&to_even, isize::MIN + 3, isize::MIN + 3));
    let to_odd = FlipTicket { next_phase_is_even: false, start_value_at_flip: 5 };
    assert!(!flip_has_caught_up(&to_odd, 5, 4));
    assert!(flip_has_caught_up(&to_odd, isize::MIN, 5));
    assert!(!flip_has_caught_up(&to_odd, 5, 6));
}

#[test]
fn missed_values_lie_one_interval_apart() {
    assert_eq!(missed_value_below(100, 25), Some(75));
    assert_eq!(missed_value_below(75, 25), Some(50));
    assert_eq!(missed_value_below(50, 25), Some(25));
    assert_eq!(missed_value_below(25, 25), None);
    assert_eq!(missed_value_below(49, 25), None);
    assert_eq!(missed_value_below(10, 25), None);
    assert_eq!(missed_value_below(100, 0), None);
    assert_eq!(missed_value_below(0, 0), None);
    assert_eq!(missed_value_below(u64::MAX, 1), Some(u64::MAX - 1));
    assert_eq!(missed_value_below(u64::MAX, u64::MAX), None);
    assert_eq!(missed_value_below(u64::MAX, 1 << 63), None);
    assert_eq!(missed_value_below(u64::MAX, (1 << 63) - 1), Some(1 << 63));
}

#[test]
fn what_a_recording_hands_to_the_extremes() {
    let settings = HistogramSettings::new(1024, HIGHEST_TRACKABLE, 3).unwrap();
    assert_eq!(raw_min_non_zero_of(&settings, 5000), Some(4096));
    assert_eq!(raw_min_non_zero_of(&settings, 1024), Some(1024));
    assert_eq!(raw_min_non_zero_of(&settings, 1023), None);
    assert_eq!(raw_min_non_zero_of(&settings, 0), None);
    assert_eq!(max_to_store(&settings, 5000, 0), Some(5119));
    assert_eq!(max_to_store(&settings, 5000, 4999), Some(5119));
    assert_eq!(max_to_store(&settings, 5000, 5000), None);
    assert_eq!(max_to_store(&settings, 0, 0), None);
    assert_eq!(min_non_zero_to_store(&settings, 5000, u64::MAX), Some(4096));
    assert_eq!(min_non_zero_to_store(&settings, 5000, 5000), None);
    assert_eq!(min_non_zero_to_store(&settings, 500, u64::MAX), None);
}

#[test]
fn shifts_turn_the_counts_array() {
    let mut histogram = Histogram::with_low_high_sigvdig(1, HIGHEST_TRACKABLE, 3).unwrap();
    let length = histogram.counts_array_length();
    assert_eq!(histogram.get_normalizing_index_offset(), 0);
    // nothing above zero is recorded: nothing turns
    assert!(histogram.record_value(0).is_ok());
    assert!(histogram.shift_values_left(3).is_ok());
    assert_eq!(histogram.get_normalizing_index_offset(), 0);
    assert!(histogram.record_value(5000).is_ok());
    assert!(histogram.shift_values_left(0).is_ok());
    assert_eq!(histogram.get_normalizing_index_offset(), 0);
    // half a bucket has 1024 slots
    assert!(histogram.shift_values_left(3).is_ok());
    assert_eq!(histogram.get_normalizing_index_offset(), 3 * 1024);
    assert!(histogram.shift_values_right(1).is_ok());
    assert_eq!(histogram.get_normalizing_index_offset(), 2 * 1024);
    assert!(histogram.shift_values_right(2).is_ok());
    assert_eq!(histogram.get_normalizing_index_offset(), 0);
    assert!(histogram.shift_values_left(1).is_ok());
    assert!(histogram.shift_values_right(1).is_ok());
    assert!(histogram.shift_values_left(2).is_ok());
    assert!(histogram.shift_values_right(3).is_ok());
    // one half bucket down from 0 is one half bucket below the end
    assert_eq!(histogram.get_normalizing_index_offset(), length - 1024);
    assert_eq!(histogram.get_count_at_value(2500), Some(1));
    // a refused shift turns nothing
    assert!(histogram.shift_values_left(40).is_err());
    assert_eq!(histogram.get_normalizing_index_offset(), length - 1024);
    // growing lays the counts out anew
    assert!(histogram.resize(HIGHEST_TRACKABLE * 16).is_ok());
    assert_eq!(histogram.get_normalizing_index_offset(), 0);
    assert_eq!(histogram.get_count_at_value(2500), Some(1));
    assert!(histogram.resize(10).is_ok());
    assert_eq!(histogram.get_normalizing_index_offset(), 0);
}

#[test]
fn growing_and_subtracting_lay_the_counts_out_anew() {
    let mut histogram = Histogram::with_low_high_sigvdig(1, HIGHEST_TRACKABLE, 3).unwrap();
    assert!(histogram.record_value(5000).is_ok());
    assert!(histogram.shift_values_left(2).is_ok());
    assert_eq!(histogram.get_normalizing_index_offset(), 2 * 1024);
    // a record within the array leaves the array as it is turned
    assert!(histogram.record_value(7).is_ok());
    assert!(histogram.record_value_with_expected_interval(100, 30).is_ok());
    assert_eq!(histogram.get_normalizing_index_offset(), 2 * 1024);
    // so does a record that is counted in the last slot
    assert!(histogram.record_value(u64::MAX).is_ok());
    assert_eq!(histogram.get_normalizing_index_offset(), 2 * 1024);
    let other = Histogram::with_low_high_sigvdig(1, 2047, 3).unwrap();
    assert!(histogram.add(&other).is_ok());
    assert_eq!(histogram.get_normalizing_index_offset(), 2 * 1024);
    let mut one = Histogram::with_low_high_sigvdig(1, 2047, 3).unwrap();
    assert!(one.record_value(7).is_ok());
    assert!(histogram.subtract(&one).is_ok());
    assert_eq!(histogram.get_normalizing_index_offset(), 0);
    assert_eq!(histogram.get_count_at_value(7), Some(0));
    assert_eq!(histogram.get_count_at_value(20_000), Some(1));

    let mut growing = Histogram::with_low_high_sigvdig(1, HIGHEST_TRACKABLE, 3).unwrap();
    growing.set_auto_resize(true);
    assert!(growing.record_value(5000).is_ok());
    assert!(growing.shift_values_left(1).is_ok());
    assert_eq!(growing.get_normalizing_index_offset(), 1024);
    assert!(growing.record_value(HIGHEST_TRACKABLE * 100).is_ok());
    assert_eq!(growing.get_normalizing_index_offset(), 0);
    assert_eq!(growing.get_count_at_value(10_000), Some(1));
    // the maximum lies in the highest bucket: there is no room to shift
    assert!(growing.shift_values_left(1).is_err());
    assert!(growing.shift_values_right(1).is_ok());
    assert_ne!(growing.get_normalizing_index_offset(), 0);
    let mut wider = Histogram::with_low_high_sigvdig(1, HIGHEST_TRACKABLE * 100_000, 3).unwrap();
    assert!(wider.record_value(HIGHEST_TRACKABLE * 50_000).is_ok());
    assert!(growing.add(&wider).is_ok());
    assert_eq!(growing.get_normalizing_index_offset(), 0);
    assert_eq!(growing.get_count_at_value(5_000), Some(1));
}
