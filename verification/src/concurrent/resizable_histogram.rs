//! The histogram that grows, as a reader sees it while the writers are held
//! off: two counts arrays, of which the writers record into the active one,
//! and the steps by which both are grown or emptied.
//!
//! The count of a slot is what the two arrays hold for it together. Every
//! operation here needs the histogram to itself; among many threads that is
//! what the reader lock and the flips of the phaser are for.

use vstd::prelude::*;
use crate::concurrent::counts_array::CountsArray;
use crate::counts::{sum_counts, zeros, lemma_sum_all_zero};
use crate::errors::{CreationError, RecordError, ShiftError};
use crate::histogram_settings::{HistogramSettings, ORIGINAL_MAX, ORIGINAL_MIN, array_length_for, creation_error};
use crate::meta_data::HistogramMetaData;
use crate::st::histogram::{established_tracking_values, Histogram};
use crate::st::histogram_view::HistogramView;

verus! {

/// The counts of two arrays of the same length, slot by slot together.
pub open spec fn combined_counts(active: Seq<u64>, inactive: Seq<u64>) -> Seq<u64> {
    Seq::new(active.len(), |i: int| (active[i] + inactive[i]) as u64)
}

/// A histogram with an active and an inactive counts array.
pub struct ResizableHistogram {
    meta_data: HistogramMetaData,
    settings: HistogramSettings,
    raw_max_value: u64,
    raw_min_non_zero_value: u64,
    total_count: u64,
    active_counts: CountsArray,
    inactive_counts: CountsArray,
}

impl View for ResizableHistogram {
    type V = HistogramView;

    closed spec fn view(&self) -> HistogramView {
        HistogramView {
            settings: self.settings,
            counts: combined_counts(self.active_counts@, self.inactive_counts@),
            raw_max_value: self.raw_max_value,
            raw_min_non_zero_value: self.raw_min_non_zero_value,
            total_count: self.total_count,
            meta_data: self.meta_data,
        }
    }
}

impl ResizableHistogram {
    /// Whether the histogram is in a state that its operations keep: both
    /// arrays fill the geometry, no slot holds more in both together than 64
    /// bits can count, and the view is well formed.
    pub closed spec fn wf(&self) -> bool {
        &&& self@.wf()
        &&& self.active_counts.wf()
        &&& self.inactive_counts.wf()
        &&& self.active_counts@.len() == self.settings.counts_array_length
        &&& self.inactive_counts@.len() == self.settings.counts_array_length
        &&& forall|i: int|
            0 <= i < self.active_counts@.len() ==> #[trigger] self.active_counts@[i]
                + self.inactive_counts@[i] <= u64::MAX
    }

    /// The counts of the active array, in the order of their slots.
    pub closed spec fn active(&self) -> Seq<u64> {
        self.active_counts@
    }

    /// The counts of the inactive array, in the order of their slots.
    pub closed spec fn inactive(&self) -> Seq<u64> {
        self.inactive_counts@
    }

    /// The view of a histogram in a state that its operations keep is well
    /// formed, and its counts are those of the two arrays together.
    pub proof fn lemma_view_wf(&self)
        requires
            self.wf(),
        ensures
            self@.wf(),
            self@.counts == combined_counts(self.active(), self.inactive()),
            self.active().len() == self@.counts.len(),
            self.inactive().len() == self@.counts.len(),
    {
    }

    /// What the constructors return: an empty histogram of the geometry of the
    /// three parameters, which grows by itself, or what stands in the way of
    /// that geometry.
    pub open spec fn created(
        r: Result<ResizableHistogram, CreationError>,
        lowest_discernible_value: u64,
        highest_trackable_value: u64,
        significant_value_digits: u8,
    ) -> bool {
        match r {
            Ok(h) => {
                &&& creation_error(
                    lowest_discernible_value,
                    highest_trackable_value,
                    significant_value_digits,
                ) is None
                &&& h.wf()
                &&& h@ == HistogramView::empty(h@.settings)
                &&& h@.settings.lowest_discernible_value == lowest_discernible_value
                &&& h@.settings.highest_trackable_value == highest_trackable_value
                &&& h@.settings.number_of_significant_value_digits == significant_value_digits
                &&& h@.settings.auto_resize
            },
            Err(e) => creation_error(
                lowest_discernible_value,
                highest_trackable_value,
                significant_value_digits,
            ) == Some(e),
        }
    }

    /// An empty histogram that keeps `significant_value_digits` digits of
    /// values from 1 to 2, and grows from there.
    pub fn new(significant_value_digits: u8) -> (r: Result<ResizableHistogram, CreationError>)
        ensures
            Self::created(r, 1, 2, significant_value_digits),
    {
        ResizableHistogram::with_sigvdig(significant_value_digits)
    }

    /// An empty histogram that keeps `significant_value_digits` digits of
    /// values from 1 to 2, and grows from there.
    pub fn with_sigvdig(significant_value_digits: u8) -> (r: Result<
        ResizableHistogram,
        CreationError,
    >)
        ensures
            Self::created(r, 1, 2, significant_value_digits),
    {
        ResizableHistogram::with_high_sigvdig(2, significant_value_digits)
    }

    /// An empty histogram that keeps `significant_value_digits` digits of
    /// values from 1 to `highest_trackable_value`, and grows from there.
    pub fn with_high_sigvdig(highest_trackable_value: u64, significant_value_digits: u8) -> (r:
        Result<ResizableHistogram, CreationError>)
        ensures
            Self::created(r, 1, highest_trackable_value, significant_value_digits),
    {
        ResizableHistogram::with_low_high_sigvdig(
            1,
            highest_trackable_value,
            significant_value_digits,
        )
    }

    /// An empty histogram that keeps `significant_value_digits` digits of
    /// values from `lowest_discernible_value` to `highest_trackable_value`,
    /// and grows from there.
    pub fn with_low_high_sigvdig(
        lowest_discernible_value: u64,
        highest_trackable_value: u64,
        significant_value_digits: u8,
    ) -> (r: Result<ResizableHistogram, CreationError>)
        ensures
            Self::created(
                r,
                lowest_discernible_value,
                highest_trackable_value,
                significant_value_digits,
            ),
    {
        let mut settings = match HistogramSettings::new(
            lowest_discernible_value,
            highest_trackable_value,
            significant_value_digits,
        ) {
            Ok(settings) => settings,
            Err(e) => {
                return Err(e);
            },
        };
        settings.auto_resize = true;
        proof {
            HistogramView::empty(settings).lemma_highest_recordable();
            settings.lemma_layout();
        }
        let active_counts = CountsArray::new(settings.counts_array_length);
        let inactive_counts = CountsArray::new(settings.counts_array_length);
        let h = ResizableHistogram {
            meta_data: HistogramMetaData::new(),
            settings,
            raw_max_value: ORIGINAL_MAX,
            raw_min_non_zero_value: ORIGINAL_MIN,
            total_count: 0,
            active_counts,
            inactive_counts,
        };
        proof {
            assert(h@.counts =~= zeros(settings.counts_array_length as nat));
            lemma_sum_all_zero(h@.counts);
        }
        Ok(h)
    }

    /// An empty histogram of the lowest discernible value, the highest
    /// trackable value and the number of significant digits of `settings`.
    pub fn fresh(settings: &HistogramSettings) -> (r: Result<ResizableHistogram, CreationError>)
        requires
            settings.wf(),
        ensures
            Self::created(
                r,
                settings.lowest_discernible_value,
                settings.highest_trackable_value,
                settings.number_of_significant_value_digits as u8,
            ),
    {
        ResizableHistogram::with_low_high_sigvdig(
            settings.lowest_discernible_value,
            settings.highest_trackable_value,
            settings.number_of_significant_value_digits as u8,
        )
    }

    /// The geometry.
    pub fn settings(&self) -> (r: &HistogramSettings)
        ensures
            *r == self@.settings,
    {
        &self.settings
    }

    /// The number of slots.
    pub fn counts_array_length(&self) -> (r: u32)
        ensures
            r == self@.settings.counts_array_length,
    {
        self.settings.counts_array_length
    }

    /// Whether the histogram grows to cover a value beyond its counts arrays.
    pub fn is_auto_resize(&self) -> (r: bool)
        ensures
            r == self@.settings.auto_resize,
    {
        self.settings.auto_resize
    }

    /// Lets or keeps the histogram from growing.
    pub fn set_auto_resize(&mut self, resize: bool)
        requires
            old(self).wf(),
        ensures
            final(self).wf(),
            final(self)@ == (HistogramView {
                settings: HistogramSettings { auto_resize: resize, ..old(self)@.settings },
                ..old(self)@
            }),
            final(self).active() == old(self).active(),
            final(self).inactive() == old(self).inactive(),
    {
        self.settings.auto_resize = resize;
    }

    /// The number of recorded values.
    pub fn get_total_count(&self) -> (r: u64)
        ensures
            r == self@.total_count,
    {
        self.total_count
    }

    /// The highest value that shares a slot with the highest recorded value;
    /// 0 where nothing was recorded.
    pub fn get_max_value(&self) -> (r: u64)
        requires
            self.wf(),
        ensures
            r == self@.max_value(),
    {
        self.settings.get_max_value(self.raw_max_value)
    }

    /// The lowest value that shares a slot with the lowest recorded value of
    /// at least one unit; `u64::MAX` where no such value was recorded.
    pub fn get_min_non_zero_value(&self) -> (r: u64)
        requires
            self.wf(),
        ensures
            r == self@.min_non_zero_value(),
    {
        self.settings.get_min_non_zero_value(self.raw_min_non_zero_value)
    }

    /// The count of slot `index`, where the counts arrays reach that far:
    /// what the active and the inactive array hold for the slot together.
    pub fn get_count_at_index(&self, index: u32) -> (r: Option<u64>)
        requires
            self.wf(),
        ensures
            r == (if index < self@.counts.len() {
                Some(self@.counts[index as int])
            } else {
                None
            }),
    {
        if index >= self.settings.counts_array_length {
            return None;
        }
        proof {
            assert(self.active_counts@[index as int] + self.inactive_counts@[index as int]
                <= u64::MAX);
        }
        Some(self.active_counts.get(index) + self.inactive_counts.get(index))
    }

    /// Records `value` once. See `record_value_with_count`.
    pub fn record_value(&mut self, value: u64) -> (r: Result<(), RecordError>)
        requires
            old(self).wf(),
            old(self)@.total_count + 1 <= u64::MAX,
        ensures
            final(self).wf(),
            Self::recorded(old(self)@, final(self)@, r, value, 1),
            final(self).inactive() =~= old(self).inactive() + zeros(
                (final(self).inactive().len() - old(self).inactive().len()) as nat,
            ),
    {
        self.record_value_with_count(value, 1)
    }

    /// Records `value` `count` times, and as often each value that was missed
    /// if a value was expected every
    /// `expected_interval_between_value_samples`: the values that lie a
    /// multiple of the interval below `value` and are not less than the
    /// interval. An interval of 0 expects nothing. Where `value` is refused,
    /// nothing is recorded.
    pub fn record_value_with_count_and_expected_interval(
        &mut self,
        value: u64,
        count: u64,
        expected_interval_between_value_samples: u64,
    ) -> (r: Result<(), RecordError>)
        requires
            old(self).wf(),
            old(self)@.total_count + count * HistogramView::expected_interval_samples(
                value,
                expected_interval_between_value_samples,
            ) <= u64::MAX,
        ensures
            final(self).wf(),
            if old(self)@.in_range(value) || old(self)@.settings.auto_resize {
                &&& r is Ok
                &&& final(self)@ == old(self)@.recorded_with_expected_interval(
                    value,
                    count,
                    expected_interval_between_value_samples,
                )
            } else {
                &&& r == Err::<(), RecordError>(RecordError::ValueOutOfRangeResizeDisabled)
                &&& final(self)@ == old(self)@
            },
            final(self).inactive() =~= old(self).inactive() + zeros(
                (final(self).inactive().len() - old(self).inactive().len()) as nat,
            ),
    {
        let interval = expected_interval_between_value_samples;
        let ghost samples = HistogramView::expected_interval_samples(value, interval) as int;
        let ghost target = self@.recorded_with_expected_interval(value, count, interval);
        proof {
            if interval != 0 && value > interval {
                crate::histogram_settings::lemma_div_at_least(value as nat, interval as nat, 1);
            }
            assert(count * samples >= count) by (nonlinear_arith)
                requires
                    samples >= 1,
                    count >= 0,
            ;
            self.lemma_view_wf();
            self@.lemma_recorded_wf(value, count);
            if !self@.in_range(value) && self@.settings.auto_resize {
                self@.lemma_resized_wf(value);
            }
        }
        match self.record_value_with_count(value, count) {
            Ok(()) => {},
            Err(e) => {
                return Err(e);
            },
        }
        if interval != 0 && value > interval {
            let mut missing_value = value - interval;
            proof {
                assert(count * samples == count + count * (missing_value as int / interval as int))
                    by (nonlinear_arith)
                    requires
                        samples == value as int / interval as int,
                        missing_value == value - interval,
                        interval > 0,
                        value > interval,
                ;
            }
            while missing_value >= interval
                invariant
                    self.wf(),
                    interval != 0,
                    missing_value <= value,
                    self@.in_range(value),
                    self.inactive() =~= old(self).inactive() + zeros(
                        (self.inactive().len() - old(self).inactive().len()) as nat,
                    ),
                    self@.back_filled(missing_value, count, interval) == target,
                    self@.total_count + count * (missing_value as int / interval as int)
                        <= u64::MAX,
                decreases missing_value,
            {
                proof {
                    let q = missing_value as int / interval as int;
                    assert(count * q == count + count * ((missing_value - interval) / (
                    interval as int))) by (nonlinear_arith)
                        requires
                            q == missing_value as int / interval as int,
                            interval > 0,
                            missing_value >= interval,
                    ;
                    assert(count * ((missing_value - interval) / (interval as int)) >= 0)
                        by (nonlinear_arith)
                        requires
                            interval > 0,
                            missing_value >= interval,
                            count >= 0,
                    ;
                    self.lemma_view_wf();
                    self@.settings.lemma_index_monotonic(missing_value, value);
                    self@.lemma_recorded_wf(missing_value, count);
                }
                let _ = self.record_value_with_count(missing_value, count);
                missing_value = missing_value - interval;
            }
        }
        Ok(())
    }

    /// What recording `value` `count` times does: the value is counted in its
    /// slot; where it lies beyond the counts arrays, the histogram grows
    /// first, or refuses the value where it may not grow.
    pub open spec fn recorded(
        before: HistogramView,
        after: HistogramView,
        r: Result<(), RecordError>,
        value: u64,
        count: u64,
    ) -> bool {
        if before.in_range(value) || before.settings.auto_resize {
            &&& r is Ok
            &&& after == before.recorded(value, count)
        } else {
            &&& r == Err::<(), RecordError>(RecordError::ValueOutOfRangeResizeDisabled)
            &&& after == before
        }
    }

    /// Records `value` `count` times, in the active array.
    pub fn record_value_with_count(&mut self, value: u64, count: u64) -> (r: Result<
        (),
        RecordError,
    >)
        requires
            old(self).wf(),
            old(self)@.total_count + count <= u64::MAX,
        ensures
            final(self).wf(),
            Self::recorded(old(self)@, final(self)@, r, value, count),
            final(self).inactive() =~= old(self).inactive() + zeros(
                (final(self).inactive().len() - old(self).inactive().len()) as nat,
            ),
    {
        let idx = self.settings.counts_array_index(value);
        if idx < self.settings.counts_array_length {
            self.count_at(idx, value, count);
            proof {
                assert(self.inactive_counts@ =~= old(self).inactive_counts@ + zeros(0));
            }
            Ok(())
        } else if !self.is_auto_resize() {
            proof {
                assert(self.inactive_counts@ =~= old(self).inactive_counts@ + zeros(0));
            }
            Err(RecordError::ValueOutOfRangeResizeDisabled)
        } else {
            proof {
                self@.lemma_resized_wf(value);
            }
            match self.resize(value) {
                Ok(()) => {},
                Err(e) => {
                    return Err(RecordError::ResizeFailed(e));
                },
            }
            self.count_at(idx, value, count);
            Ok(())
        }
    }

    /// Adds `count` to slot `slot` of the active array, which is the slot of
    /// `value`, and takes `value` into the extremes and `count` into the
    /// total.
    fn count_at(&mut self, slot: u32, value: u64, count: u64)
        requires
            old(self).wf(),
            slot < old(self)@.counts.len(),
            slot == old(self)@.index_of(value),
            old(self)@.total_count + count <= u64::MAX,
        ensures
            final(self).wf(),
            final(self)@ == old(self)@.counted(slot as int, value, count),
            final(self).inactive_counts == old(self).inactive_counts,
    {
        let ghost before = self@;
        proof {
            before.lemma_counted_wf(slot as int, value, count);
            self.settings.lemma_unit_masking(value);
            assert(self.active_counts@[slot as int] + self.inactive_counts@[slot as int]
                <= u64::MAX);
        }
        let current = self.active_counts.get(slot);
        self.active_counts.set(slot, current + count);
        if value > self.raw_max_value {
            let internal_value = self.settings.unit_ceiling(value);
            if internal_value > self.raw_max_value {
                self.raw_max_value = internal_value;
            }
        }
        if value < self.raw_min_non_zero_value && value > self.settings.unit_magnitude_mask {
            let internal_value = self.settings.unit_floor(value);
            if internal_value < self.raw_min_non_zero_value {
                self.raw_min_non_zero_value = internal_value;
            }
        }
        self.total_count = self.total_count + count;
        proof {
            let after = before.counted(slot as int, value, count);
            assert forall|i: int| 0 <= i < self.active_counts@.len() implies self@.counts[i]
                == after.counts[i] && #[trigger] self.active_counts@[i] + self.inactive_counts@[i]
                <= u64::MAX by {
                assert(old(self).active_counts@[i] + old(self).inactive_counts@[i] <= u64::MAX);
            }
            assert(self@.counts =~= after.counts);
        }
    }

    /// Grows the histogram to cover `new_highest_trackable_value`. A histogram
    /// that covers the value already is left as it is. First the inactive
    /// array is laid out anew at the new length and takes the place of the
    /// active one; then the former active array is laid out anew and takes
    /// its place back, and the grown inactive array becomes the inactive one
    /// again; last the geometry is set to the new length. Among many threads
    /// a flip of the phaser follows each of the two swaps, so that no writer
    /// is at work on an array while it is laid out anew.
    pub fn resize(&mut self, new_highest_trackable_value: u64) -> (r: Result<(), CreationError>)
        requires
            old(self).wf(),
        ensures
            r is Ok,
            final(self).wf(),
            final(self)@ == (if array_length_for(
                old(self)@.settings.u(),
                old(self)@.settings.m(),
                new_highest_trackable_value,
            ) > old(self)@.counts.len() {
                old(self)@.resized(new_highest_trackable_value)
            } else {
                old(self)@
            }),
            final(self).active() =~= old(self).active() + zeros(
                (final(self).active().len() - old(self).active().len()) as nat,
            ),
            final(self).inactive() =~= old(self).inactive() + zeros(
                (final(self).inactive().len() - old(self).inactive().len()) as nat,
            ),
    {
        let value = new_highest_trackable_value;
        let new_array_length = self.settings.determine_array_length_needed(value);
        if new_array_length > 0x7fff_ffff {
            return Err(CreationError::RequiresExcessiveArrayLen);
        }
        if new_array_length <= self.settings.counts_array_length {
            proof {
                assert(self.active_counts@ =~= self.active_counts@ + zeros(0));
                assert(self.inactive_counts@ =~= self.inactive_counts@ + zeros(0));
            }
            return Ok(());
        }
        let ghost before = self@;
        let ghost old_active = self.active_counts@;
        let ghost old_inactive = self.inactive_counts@;
        proof {
            before.lemma_highest_recordable();
            if before.in_range(value) {
                let s = self.settings;
                let top = s.highest_recordable_value() as u64;
                s.lemma_index_monotonic(value, top);
                s.lemma_layout();
                s.lemma_highest_value_of_buckets(s.bucket_count as nat);
                let h = vstd::arithmetic::power2::pow2(s.m()) as int;
                let a = crate::histogram_settings::buckets_needed_for(s.u(), s.m(), value) as int;
                let b = s.bucket_count as int;
                assert((a + 1) * h <= (b + 1) * h) by (nonlinear_arith)
                    requires
                        a <= b,
                        h >= 0,
                ;
            }
            before.lemma_resized_wf(value);
        }
        // the inactive array, grown, takes the place of the active one
        let mut swapped = self.inactive_counts.grown_to(new_array_length);
        std::mem::swap(&mut self.active_counts, &mut swapped);
        // the former active array, grown, takes its place back
        let mut resized = swapped.grown_to(new_array_length);
        std::mem::swap(&mut self.active_counts, &mut resized);
        self.inactive_counts = resized;
        // the geometry follows
        let mut settings = self.settings;
        match settings.resize(value) {
            Ok(_) => {},
            Err(e) => {
                return Err(e);
            },
        }
        self.settings = settings;
        proof {
            let grown = before.resized(value);
            assert forall|i: int| 0 <= i < new_array_length implies self@.counts[i]
                == grown.counts[i] && #[trigger] self.active_counts@[i] + self.inactive_counts@[i]
                <= u64::MAX by {
                if i < old_active.len() {
                    assert(old_active[i] + old_inactive[i] <= u64::MAX);
                }
            }
            assert(self@.counts =~= grown.counts);
        }
        Ok(())
    }

    /// Moves what the inactive array holds into the active array, so that the
    /// active array alone holds every count.
    pub fn write_inactive_to_active(&mut self)
        requires
            old(self).wf(),
        ensures
            final(self).wf(),
            final(self)@ == old(self)@,
            final(self).active() == old(self)@.counts,
            final(self).inactive() == zeros(old(self)@.counts.len()),
    {
        let length = self.settings.counts_array_length;
        let ghost before = self@;
        let ghost old_active = self.active_counts@;
        let ghost old_inactive = self.inactive_counts@;
        let mut idx: u32 = 0;
        while idx < length
            invariant
                idx <= length,
                length == old_active.len(),
                length == old_inactive.len(),
                self.active_counts.wf(),
                self.inactive_counts.wf(),
                self.active_counts@.len() == length,
                self.inactive_counts@.len() == length,
                self.settings == before.settings,
                self.raw_max_value == before.raw_max_value,
                self.raw_min_non_zero_value == before.raw_min_non_zero_value,
                self.total_count == before.total_count,
                self.meta_data == before.meta_data,
                before.counts == combined_counts(old_active, old_inactive),
                forall|i: int|
                    0 <= i < length ==> #[trigger] old_active[i] + old_inactive[i] <= u64::MAX,
                forall|i: int|
                    0 <= i < idx ==> #[trigger] self.active_counts@[i] == old_active[i]
                        + old_inactive[i],
                forall|i: int| 0 <= i < idx ==> #[trigger] self.inactive_counts@[i] == 0,
                forall|i: int|
                    idx <= i < length ==> #[trigger] self.active_counts@[i] == old_active[i],
                forall|i: int|
                    idx <= i < length ==> #[trigger] self.inactive_counts@[i] == old_inactive[i],
            decreases length - idx,
        {
            proof {
                assert(old_active[idx as int] + old_inactive[idx as int] <= u64::MAX);
            }
            let count = self.inactive_counts.get(idx);
            let current = self.active_counts.get(idx);
            self.active_counts.set(idx, current + count);
            self.inactive_counts.set(idx, 0);
            idx = idx + 1;
        }
        proof {
            assert(self@.counts =~= before.counts);
            assert(self.active_counts@ =~= before.counts);
            assert(self.inactive_counts@ =~= zeros(before.counts.len()));
            assert forall|i: int| 0 <= i < length implies #[trigger] self.active_counts@[i]
                + self.inactive_counts@[i] <= u64::MAX by {
                assert(old_active[i] + old_inactive[i] <= u64::MAX);
            }
        }
    }

    /// The counts, in the order of their slots: what both arrays hold for
    /// each slot together.
    pub(crate) fn logical_counts_vec(&self) -> (r: Vec<u64>)
        requires
            self.wf(),
        ensures
            r@ == self@.counts,
    {
        let length = self.settings.counts_array_length;
        let mut counts: Vec<u64> = Vec::new();
        let mut i: u32 = 0;
        while i < length
            invariant
                self.wf(),
                length == self@.counts.len(),
                i <= length,
                counts@ == self@.counts.subrange(0, i as int),
            decreases length - i,
        {
            let count = match self.get_count_at_index(i) {
                Some(count) => count,
                None => 0,
            };
            counts.push(count);
            i = i + 1;
            assert(counts@ =~= self@.counts.subrange(0, i as int));
        }
        assert(counts@ =~= self@.counts);
        counts
    }

    /// Takes `counts` for the counts, all of them in the active array, and
    /// works out the total and the extremes from them.
    pub(crate) fn establish_counts(&mut self, counts: Vec<u64>)
        requires
            old(self).wf(),
            counts@.len() == old(self)@.counts.len(),
            sum_counts(counts@) <= u64::MAX,
        ensures
            final(self).wf(),
            final(self)@ == old(self)@.established(counts@),
            final(self).active() == counts@,
            final(self).inactive() == zeros(counts@.len()),
    {
        let ghost before = self@;
        let ghost logical = counts@;
        proof {
            before.lemma_established_wf(logical);
            self.settings.lemma_layout();
            HistogramView::empty(self.settings).lemma_highest_recordable();
        }
        let (raw_max_value, raw_min_non_zero_value, total_count) = established_tracking_values(
            &self.settings,
            &counts,
        );
        self.raw_max_value = raw_max_value;
        self.raw_min_non_zero_value = raw_min_non_zero_value;
        self.total_count = total_count;
        self.active_counts = CountsArray::from_counts(counts);
        self.inactive_counts.clear();
        proof {
            assert(self@.counts =~= logical);
        }
    }

    /// Works out the total and the extremes from the counts again, and
    /// gathers every count in the active array.
    pub fn establish_internal_tracking_values(&mut self)
        requires
            old(self).wf(),
        ensures
            final(self).wf(),
            final(self)@ == old(self)@.established(old(self)@.counts),
            final(self).active() == old(self)@.counts,
            final(self).inactive() == zeros(old(self)@.counts.len()),
    {
        proof {
            self.lemma_view_wf();
        }
        let counts = self.logical_counts_vec();
        self.establish_counts(counts);
    }

    /// The histogram as one that a single thread holds, with every count in
    /// one array. It takes the meta data along and leaves none behind.
    fn take_single(&mut self) -> (r: Histogram)
        requires
            old(self).wf(),
        ensures
            r.wf(),
            r@ == old(self)@,
            final(self).wf(),
            final(self)@ == (HistogramView {
                meta_data: HistogramMetaData { start_timestamp: None, end_timestamp: None, tag: None },
                ..old(self)@
            }),
    {
        proof {
            self.lemma_view_wf();
        }
        let counts = self.logical_counts_vec();
        let mut meta_data = HistogramMetaData::new();
        std::mem::swap(&mut meta_data, &mut self.meta_data);
        Histogram::from_parts(
            self.settings,
            counts,
            self.raw_max_value,
            self.raw_min_non_zero_value,
            self.total_count,
            meta_data,
        )
    }

    /// Takes over what `single` holds, every count in the active array.
    fn put_single(&mut self, single: Histogram)
        requires
            old(self).wf(),
            single.wf(),
            single@.settings == old(self)@.settings,
        ensures
            final(self).wf(),
            final(self)@ == single@,
            final(self).active() == single@.counts,
            final(self).inactive() == zeros(single@.counts.len()),
    {
        proof {
            single.lemma_view_wf();
            self.settings.lemma_layout();
            HistogramView::empty(self.settings).lemma_highest_recordable();
        }
        let counts = single.logical_counts_vec();
        self.raw_max_value = single.raw_max_value();
        self.raw_min_non_zero_value = single.raw_min_non_zero_value();
        self.total_count = single.get_total_count();
        self.active_counts = CountsArray::from_counts(counts);
        self.inactive_counts.clear();
        self.meta_data = single.into_meta_data();
        proof {
            assert(self@.counts =~= single@.counts);
        }
    }

    /// Multiplies every recorded value by `2^n`, where `n` is
    /// `number_of_binary_orders_of_magnitude`. Every count is gathered in the
    /// active array, whether the shift is made or refused.
    pub fn shift_values_left(&mut self, number_of_binary_orders_of_magnitude: u32) -> (r: Result<
        (),
        ShiftError,
    >)
        requires
            old(self).wf(),
        ensures
            final(self).wf(),
            HistogramView::left_shift_outcome(
                old(self)@,
                final(self)@,
                r,
                number_of_binary_orders_of_magnitude as nat,
            ),
            final(self).active() == final(self)@.counts,
            final(self).inactive() == zeros(final(self)@.counts.len()),
    {
        let mut single = self.take_single();
        let r = single.shift_values_left(number_of_binary_orders_of_magnitude);
        proof {
            single.lemma_view_wf();
        }
        self.put_single(single);
        r
    }

    /// Divides every recorded value by `2^n`, where `n` is
    /// `number_of_binary_orders_of_magnitude`. Every count is gathered in the
    /// active array, whether the shift is made or refused.
    pub fn shift_values_right(&mut self, number_of_binary_orders_of_magnitude: u32) -> (r: Result<
        (),
        ShiftError,
    >)
        requires
            old(self).wf(),
        ensures
            final(self).wf(),
            HistogramView::right_shift_outcome(
                old(self)@,
                final(self)@,
                r,
                number_of_binary_orders_of_magnitude as nat,
            ),
            final(self).active() == final(self)@.counts,
            final(self).inactive() == zeros(final(self)@.counts.len()),
    {
        let mut single = self.take_single();
        let r = single.shift_values_right(number_of_binary_orders_of_magnitude);
        proof {
            single.lemma_view_wf();
        }
        self.put_single(single);
        r
    }

    /// Empties the histogram: every count of both arrays is zero, the extremes
    /// are unset, and the meta data is cleared.
    pub fn clear_counts(&mut self)
        requires
            old(self).wf(),
        ensures
            final(self).wf(),
            final(self)@ == HistogramView::empty(old(self)@.settings),
            final(self).active() == zeros(old(self)@.counts.len()),
            final(self).inactive() == zeros(old(self)@.counts.len()),
    {
        proof {
            self.settings.lemma_layout();
        }
        self.active_counts.clear();
        self.inactive_counts.clear();
        self.raw_max_value = ORIGINAL_MAX;
        self.raw_min_non_zero_value = ORIGINAL_MIN;
        self.total_count = 0;
        self.meta_data.clear();
        proof {
            assert(self@.counts =~= zeros(self.settings.counts_array_length as nat));
            lemma_sum_all_zero(self@.counts);
        }
    }

    /// Whether the two histograms hold the same recording. The lengths of
    /// their counts arrays may differ, and so may what the active and the
    /// inactive array of each hold of a count.
    pub fn equals(&self, other: &ResizableHistogram) -> (r: bool)
        requires
            self.wf(),
            other.wf(),
        ensures
            r == self@.same_recording(other@),
    {
        if !self.settings.equals(&other.settings) {
            return false;
        }
        if self.get_total_count() != other.get_total_count() {
            return false;
        }
        if self.get_max_value() != other.get_max_value() {
            return false;
        }
        if self.get_min_non_zero_value() != other.get_min_non_zero_value() {
            return false;
        }
        let own_length = self.counts_array_length();
        let other_length = other.counts_array_length();
        let length = if own_length > other_length {
            own_length
        } else {
            other_length
        };
        let mut i: u32 = 0;
        while i < length
            invariant
                self.wf(),
                other.wf(),
                i <= length,
                own_length == self@.counts.len(),
                other_length == other@.counts.len(),
                length >= own_length,
                length >= other_length,
                forall|j: int| 0 <= j < i ==> #[trigger] self@.count_at(j) == other@.count_at(j),
            decreases length - i,
        {
            let own_count = match self.get_count_at_index(i) {
                Some(count) => count,
                None => 0,
            };
            let other_count = match other.get_count_at_index(i) {
                Some(count) => count,
                None => 0,
            };
            if own_count != other_count {
                assert(self@.count_at(i as int) != other@.count_at(i as int));
                return false;
            }
            i = i + 1;
        }
        assert forall|j: int| 0 <= j implies #[trigger] self@.count_at(j) == other@.count_at(j) by {
            if j >= length {
            }
        }
        true
    }

    /// The meta data.
    pub fn get_meta_data(&self) -> (r: &HistogramMetaData)
        ensures
            *r == self@.meta_data,
    {
        &self.meta_data
    }

    /// The meta data, for writing.
    pub fn meta_data_mut(&mut self) -> (r: &mut HistogramMetaData)
        ensures
            *r == old(self)@.meta_data,
            final(self)@ == (HistogramView { meta_data: *final(r), ..old(self)@ }),
            final(self).wf() == old(self).wf(),
    {
        &mut self.meta_data
    }
}

} // verus!
