//! The histogram of fixed size that many threads record into.
//!
//! Every count and both extremes are atomic, so that recording takes no lock.
//! What the counts hold at a given moment is for a reader to find out once the
//! writers are done; what is proved here is that every access stays within
//! the counts array, and that a value beyond the array is counted in the last
//! slot.

use vstd::prelude::*;
use std::sync::atomic::{AtomicU64, Ordering};
use crate::concurrent::concurrent_util::{update_max_value, update_min_non_zero_value};
use crate::concurrent::extremes::{max_to_store, min_non_zero_to_store};
use crate::concurrent::inline_backing_array::InlineBackingArray;
use crate::concurrent::reading::HistogramReading;
use crate::errors::{CreationError, RecordError};
use crate::histogram_settings::{HistogramSettings, creation_error, ORIGINAL_MAX, ORIGINAL_MIN};
use crate::meta_data::HistogramMetaData;
use crate::serialization::deserializable_histogram::counts_fit;
use crate::st::histogram::{established_tracking_values, Histogram};
use crate::st::histogram_view::HistogramView;
use crate::util::{missed_value_below, spec_missed_value_below};

verus! {

/// A histogram of fixed size with atomic counts.
pub struct StaticHistogram {
    meta_data: HistogramMetaData,
    settings: HistogramSettings,
    raw_max_value: AtomicU64,
    raw_min_non_zero_value: AtomicU64,
    total_count: AtomicU64,
    counts: InlineBackingArray,
}

impl StaticHistogram {
    /// The geometry.
    pub closed spec fn spec_settings(&self) -> HistogramSettings {
        self.settings
    }

    /// Whether the counts array fills the geometry.
    pub closed spec fn wf(&self) -> bool {
        &&& self.settings.wf()
        &&& self.counts.spec_length() == self.settings.counts_array_length
    }

    /// What the constructors return: a histogram of the geometry of the three
    /// parameters, or what stands in the way of that geometry.
    pub open spec fn created(
        r: Result<StaticHistogram, CreationError>,
        lowest_discernible_value: u64,
        highest_trackable_value: u64,
        significant_value_digits: u8,
    ) -> bool {
        match r {
            Ok(h) => {
                &&& creation_error(
                    lowest_discernible_value,
                    highest_trackable_value,
                    significant_value_digits,
                ) is None
                &&& h.wf()
                &&& h.spec_settings().wf()
                &&& h.spec_settings().lowest_discernible_value == lowest_discernible_value
                &&& h.spec_settings().highest_trackable_value == highest_trackable_value
                &&& h.spec_settings().number_of_significant_value_digits
                    == significant_value_digits
                &&& !h.spec_settings().auto_resize
            },
            Err(e) => creation_error(
                lowest_discernible_value,
                highest_trackable_value,
                significant_value_digits,
            ) == Some(e),
        }
    }

    /// An empty histogram that keeps `significant_value_digits` digits of
    /// values from 1 to `highest_trackable_value`.
    pub fn new(highest_trackable_value: u64, significant_value_digits: u8) -> (r: Result<
        StaticHistogram,
        CreationError,
    >)
        ensures
            Self::created(r, 1, highest_trackable_value, significant_value_digits),
    {
        StaticHistogram::with_low_high_sigvdig(1, highest_trackable_value, significant_value_digits)
    }

    /// An empty histogram that keeps `significant_value_digits` digits of
    /// values from `lowest_discernible_value` to `highest_trackable_value`.
    pub fn with_low_high_sigvdig(
        lowest_discernible_value: u64,
        highest_trackable_value: u64,
        significant_value_digits: u8,
    ) -> (r: Result<StaticHistogram, CreationError>)
        ensures
            Self::created(
                r,
                lowest_discernible_value,
                highest_trackable_value,
                significant_value_digits,
            ),
    {
        let settings = match HistogramSettings::new(
            lowest_discernible_value,
            highest_trackable_value,
            significant_value_digits,
        ) {
            Ok(settings) => settings,
            Err(e) => {
                return Err(e);
            },
        };
        let counts = InlineBackingArray::new_in(settings.counts_array_length);
        Ok(
            StaticHistogram {
                meta_data: HistogramMetaData::new(),
                settings,
                raw_max_value: AtomicU64::new(ORIGINAL_MAX),
                raw_min_non_zero_value: AtomicU64::new(ORIGINAL_MIN),
                total_count: AtomicU64::new(0),
                counts,
            },
        )
    }

    /// The geometry.
    pub fn settings(&self) -> (r: &HistogramSettings)
        ensures
            *r == self.spec_settings(),
    {
        &self.settings
    }

    /// The meta data.
    pub closed spec fn spec_meta_data(&self) -> HistogramMetaData {
        self.meta_data
    }

    /// The meta data.
    pub fn meta_data(&self) -> (r: &HistogramMetaData)
        ensures
            *r == self.spec_meta_data(),
    {
        &self.meta_data
    }

    /// The meta data, for writing.
    pub fn meta_data_mut(&mut self) -> (r: &mut HistogramMetaData)
        ensures
            *r == old(self).spec_meta_data(),
            final(self).spec_meta_data() == *final(r),
            final(self).wf() == old(self).wf(),
            final(self).spec_settings() == old(self).spec_settings(),
    {
        &mut self.meta_data
    }

    /// The number of slots.
    pub fn counts_array_length(&self) -> (r: u32)
        ensures
            r == self.spec_settings().counts_array_length,
    {
        self.settings.counts_array_length
    }

    /// Whether the histogram grows to cover a value beyond its counts array:
    /// it never does.
    pub fn is_auto_resize(&self) -> (r: bool)
        ensures
            r == self.spec_settings().auto_resize,
    {
        self.settings.auto_resize
    }

    /// The slot that a recording of `value` adds to: the slot of `value`, or
    /// the last slot where `value` lies beyond the counts array.
    pub fn saturating_counts_array_index(&self, value: u64) -> (r: u32)
        requires
            self.wf(),
        ensures
            r == (if self.spec_settings().spec_counts_array_index(value)
                < self.spec_settings().counts_array_length {
                self.spec_settings().spec_counts_array_index(value) as int
            } else {
                self.spec_settings().counts_array_length - 1
            }),
            r < self.spec_settings().counts_array_length,
    {
        let length = self.counts.length();
        proof {
            HistogramView::empty(self.settings).lemma_highest_recordable();
        }
        let idx = self.settings.counts_array_index(value);
        if idx < length {
            idx
        } else {
            length - 1
        }
    }

    /// Records `value` once. See `record_value_with_count`.
    pub fn record_value(&self, value: u64) -> (r: Result<(), RecordError>)
        requires
            self.wf(),
        ensures
            r is Ok,
    {
        self.record_value_with_count(value, 1)
    }

    /// Records `value` `count` times: adds `count` to the slot of `value`, or
    /// to the last slot where `value` lies beyond the counts array, takes the
    /// value into the extremes and `count` into the total. The counts wrap
    /// around at 64 bits.
    pub fn record_value_with_count(&self, value: u64, count: u64) -> (r: Result<(), RecordError>)
        requires
            self.wf(),
        ensures
            r is Ok,
    {
        let slot = self.saturating_counts_array_index(value);
        let _ = self.counts.get_unchecked(slot).fetch_add(count, Ordering::Relaxed);
        self.update_min_and_max(value);
        let _ = self.total_count.fetch_add(count, Ordering::Relaxed);
        Ok(())
    }

    /// Records `value` `count` times, and as often each value that was missed
    /// if a value was expected every
    /// `expected_interval_between_value_samples`. The values that are missed
    /// are those that `missed_value_below` gives, one after the other; for a
    /// histogram that one thread holds,
    /// `HistogramView::lemma_expected_interval_by_missed_values` shows that
    /// recording them is recording with the expected interval.
    pub fn record_value_with_count_and_expected_interval(
        &self,
        value: u64,
        count: u64,
        expected_interval_between_value_samples: u64,
    ) -> (r: Result<(), RecordError>)
        requires
            self.wf(),
        ensures
            r is Ok,
    {
        let interval = expected_interval_between_value_samples;
        let _ = self.record_value_with_count(value, count);
        let mut last_recorded = value;
        let mut missed = missed_value_below(value, interval);
        while missed.is_some()
            invariant
                self.wf(),
                missed == spec_missed_value_below(last_recorded, interval),
            decreases last_recorded,
        {
            let missing_value = missed.unwrap();
            let _ = self.record_value_with_count(missing_value, count);
            last_recorded = missing_value;
            missed = missed_value_below(missing_value, interval);
        }
        Ok(())
    }

    /// Records `value` once, and once each value that was missed if a value
    /// was expected every `expected_interval_between_value_samples`.
    pub fn record_value_with_expected_interval(
        &self,
        value: u64,
        expected_interval_between_value_samples: u64,
    ) -> (r: Result<(), RecordError>)
        requires
            self.wf(),
        ensures
            r is Ok,
    {
        self.record_value_with_count_and_expected_interval(
            value,
            1,
            expected_interval_between_value_samples,
        )
    }

    /// Records `value` `count` times, unless it lies beyond the counts array.
    pub fn record_value_with_count_strict(&self, value: u64, count: u64) -> (r: Result<
        (),
        RecordError,
    >)
        requires
            self.wf(),
        ensures
            r is Ok <==> self.spec_settings().spec_counts_array_index(value)
                < self.spec_settings().counts_array_length,
            r matches Err(e) ==> e == RecordError::ValueOutOfRangeResizeDisabled,
    {
        let idx = self.settings.counts_array_index(value);
        if idx < self.counts.length() {
            let _ = self.counts.get_unchecked(idx).fetch_add(count, Ordering::Relaxed);
            self.update_min_and_max(value);
            let _ = self.total_count.fetch_add(count, Ordering::Relaxed);
            Ok(())
        } else {
            Err(RecordError::ValueOutOfRangeResizeDisabled)
        }
    }

    /// Takes `value` into both extremes: each is read, and handed `value`
    /// where `max_to_store` or `min_non_zero_to_store` says so for what was
    /// read.
    fn update_min_and_max(&self, value: u64)
        requires
            self.wf(),
    {
        let raw_max_value = self.raw_max_value.load(Ordering::Relaxed);
        if max_to_store(&self.settings, value, raw_max_value).is_some() {
            update_max_value(&self.settings, &self.raw_max_value, value);
        }
        let raw_min_non_zero_value = self.raw_min_non_zero_value.load(Ordering::Relaxed);
        if min_non_zero_to_store(&self.settings, value, raw_min_non_zero_value).is_some() {
            update_min_non_zero_value(&self.settings, &self.raw_min_non_zero_value, value);
        }
    }

    /// The count of slot `index` as it is just now, where the counts array
    /// reaches that far.
    pub fn get_count_at_index(&self, index: u32) -> (r: Option<u64>)
        requires
            self.wf(),
        ensures
            r is Some <==> index < self.spec_settings().counts_array_length,
    {
        match self.counts.get(index) {
            Some(count) => Some(count.load(Ordering::Relaxed)),
            None => None,
        }
    }

    /// The number of recorded values as it is just now.
    pub fn get_total_count(&self) -> u64 {
        self.total_count.load(Ordering::Relaxed)
    }

    /// The highest value that shares a slot with the highest value recorded
    /// so far; 0 where nothing was recorded. Whatever was recorded, the
    /// result is 0 or the highest value of its own slot.
    pub fn get_max_value(&self) -> (r: u64)
        requires
            self.wf(),
        ensures
            r == 0 || r == self.spec_settings().spec_highest_equivalent_value(r),
    {
        let raw_max = self.raw_max_value.load(Ordering::Relaxed);
        proof {
            self.settings.lemma_highest_equivalent_tops_its_slot(raw_max);
        }
        self.settings.get_max_value(raw_max)
    }

    /// The lowest value that shares a slot with the lowest value of at least
    /// one unit recorded so far; `u64::MAX` where no such value was recorded.
    /// Whatever was recorded, the result is `u64::MAX` or the lowest value of
    /// its own slot.
    pub fn get_min_non_zero_value(&self) -> (r: u64)
        requires
            self.wf(),
        ensures
            r == u64::MAX || r == self.spec_settings().spec_lowest_equivalent_value(r),
    {
        let raw_min = self.raw_min_non_zero_value.load(Ordering::Relaxed);
        proof {
            self.settings.lemma_lowest_equivalent_opens_its_slot(raw_min);
        }
        self.settings.get_min_non_zero_value(raw_min)
    }

    /// Sets every count and the total to zero.
    pub fn clear_counts(&self)
        requires
            self.wf(),
    {
        let length = self.counts.length();
        let mut i: u32 = 0;
        while i < length
            invariant
                i <= length,
                length == self.counts.spec_length(),
            decreases length - i,
        {
            self.counts.get_unchecked(i).store(0, Ordering::Relaxed);
            i = i + 1;
        }
        self.total_count.store(0, Ordering::Relaxed);
    }

    /// The counts as they are just now, in the order of their slots.
    pub fn snapshot_counts(&self) -> (r: Vec<u64>)
        requires
            self.wf(),
        ensures
            r@.len() == self.spec_settings().counts_array_length,
    {
        let length = self.counts.length();
        let mut counts: Vec<u64> = Vec::new();
        let mut i: u32 = 0;
        while i < length
            invariant
                i <= length,
                length == self.counts.spec_length(),
                counts@.len() == i,
            decreases length - i,
        {
            counts.push(self.counts.get_unchecked(i).load(Ordering::Relaxed));
            i = i + 1;
        }
        counts
    }

    /// An empty histogram of the lowest discernible value, the highest
    /// trackable value and the number of significant digits of `settings`.
    pub fn fresh(settings: &HistogramSettings) -> (r: Result<StaticHistogram, CreationError>)
        requires
            settings.wf(),
        ensures
            Self::created(
                r,
                settings.lowest_discernible_value,
                settings.highest_trackable_value,
                settings.number_of_significant_value_digits as u8,
            ),
    {
        StaticHistogram::with_low_high_sigvdig(
            settings.lowest_discernible_value,
            settings.highest_trackable_value,
            settings.number_of_significant_value_digits as u8,
        )
    }

    /// Works out the total and the extremes from the counts again, for a
    /// holder that has the histogram to itself. They are left as they are
    /// where the counts sum to more than 64 bits can count.
    pub fn establish_internal_tracking_values(&mut self)
        requires
            old(self).wf(),
        ensures
            final(self).wf(),
            final(self).spec_settings() == old(self).spec_settings(),
            final(self).spec_meta_data() == old(self).spec_meta_data(),
    {
        let counts = self.snapshot_counts();
        if counts_fit(&counts) {
            let (raw_max_value, raw_min_non_zero_value, total_count) = established_tracking_values(
                &self.settings,
                &counts,
            );
            self.raw_max_value.store(raw_max_value, Ordering::Relaxed);
            self.raw_min_non_zero_value.store(raw_min_non_zero_value, Ordering::Relaxed);
            self.total_count.store(total_count, Ordering::Relaxed);
        }
    }

    /// Whether a reading of this histogram and a reading of `other`, both
    /// taken now, hold the same recording; `HistogramReading::same_as` says
    /// what that is. What the readings hold is known to the threads alone:
    /// all that holds of every outcome is that histograms of different
    /// geometries are not the same.
    pub fn equals(&mut self, other: &mut StaticHistogram) -> (r: bool)
        requires
            old(self).wf(),
            old(other).wf(),
        ensures
            final(self).wf(),
            final(other).wf(),
            final(self).spec_settings() == old(self).spec_settings(),
            final(other).spec_settings() == old(other).spec_settings(),
            r ==> old(self).spec_settings().lowest_discernible_value
                == old(other).spec_settings().lowest_discernible_value && old(
                self,
            ).spec_settings().number_of_significant_value_digits
                == old(other).spec_settings().number_of_significant_value_digits,
    {
        let mine = self.reading();
        let theirs = other.reading();
        mine.same_as(&self.settings, &theirs, &other.settings)
    }

    /// What the histogram holds just now: the total, the extremes and the
    /// count of each slot, each as it was when it was read.
    pub fn reading(&self) -> (r: HistogramReading)
        requires
            self.wf(),
        ensures
            r.counts@.len() == self.spec_settings().counts_array_length,
            r.max_value == 0 || r.max_value == self.spec_settings().spec_highest_equivalent_value(
                r.max_value,
            ),
            r.min_non_zero_value == u64::MAX || r.min_non_zero_value
                == self.spec_settings().spec_lowest_equivalent_value(r.min_non_zero_value),
    {
        HistogramReading {
            total_count: self.get_total_count(),
            max_value: self.get_max_value(),
            min_non_zero_value: self.get_min_non_zero_value(),
            counts: self.snapshot_counts(),
        }
    }

    /// The histogram as it is just now, as a histogram that a single thread
    /// reads: the counts, with the total and the extremes worked out from
    /// them. Where the counts sum to more than 64 bits can count there is
    /// none.
    pub fn as_snapshot(&self) -> (r: Option<Histogram>)
        requires
            self.wf(),
        ensures
            r matches Some(h) ==> {
                &&& h.wf()
                &&& h@.settings == self.spec_settings()
                &&& h@ == HistogramView::empty(h@.settings).established(h@.counts)
            },
    {
        let counts = self.snapshot_counts();
        if !counts_fit(&counts) {
            return None;
        }
        Some(Histogram::with_counts(self.settings, counts))
    }

    /// The histogram of fixed size with the geometry and the counts of
    /// `histogram`.
    pub fn from_histogram(histogram: &Histogram) -> (r: StaticHistogram)
        requires
            histogram.wf(),
        ensures
            r.wf(),
            r.spec_settings() == (HistogramSettings { auto_resize: false, ..histogram@.settings }),
    {
        proof {
            histogram.lemma_view_wf();
        }
        let mut settings = *histogram.settings();
        settings.auto_resize = false;
        let length = settings.counts_array_length;
        let counts = InlineBackingArray::new_in(length);
        let mut i: u32 = 0;
        while i < length
            invariant
                histogram.wf(),
                i <= length,
                length == counts.spec_length(),
                length == histogram@.counts.len(),
            decreases length - i,
        {
            counts.get_unchecked(i).store(histogram.raw_count(i), Ordering::Relaxed);
            i = i + 1;
        }
        StaticHistogram {
            meta_data: HistogramMetaData::new(),
            settings,
            raw_max_value: AtomicU64::new(histogram.raw_max_value()),
            raw_min_non_zero_value: AtomicU64::new(histogram.raw_min_non_zero_value()),
            total_count: AtomicU64::new(histogram.get_total_count()),
            counts,
        }
    }
}

} // verus!
