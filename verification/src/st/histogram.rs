//! The histogram for one thread: a geometry, its counts array, and the
//! extremes and number of the recorded values.
//!
//! The counts array is read rotated by a normalizing index offset, so that the
//! tracked range can be shifted without moving most of the counts.

use vstd::prelude::*;
use vstd::arithmetic::power2::pow2;
use crate::counts::{sum_counts, zeros, logical_counts, normalize_index, lemma_normalize_index, lemma_logical_sum, lemma_sum_update, lemma_sum_all_zero, lemma_prefix_sum_monotone, lemma_last_recorded_index, lemma_first_recorded_index_above_zero};
use crate::util::recalculate_internal_tracking_values;
use crate::errors::{CreationError, RecordError};
use crate::histogram_settings::{HistogramSettings, ORIGINAL_MAX, ORIGINAL_MIN, creation_error, array_length_for};
use crate::meta_data::HistogramMetaData;
use crate::st::backing_array::BackingArray;
use crate::st::histogram_view::HistogramView;

verus! {

/// A histogram that one thread records into.
pub struct Histogram {
    pub meta_data: HistogramMetaData,
    settings: HistogramSettings,
    raw_max_value: u64,
    raw_min_non_zero_value: u64,
    total_count: u64,
    normalizing_index_offset: u32,
    counts: BackingArray,
}

impl View for Histogram {
    type V = HistogramView;

    closed spec fn view(&self) -> HistogramView {
        HistogramView {
            settings: self.settings,
            counts: logical_counts(self.counts@, self.normalizing_index_offset as int),
            raw_max_value: self.raw_max_value,
            raw_min_non_zero_value: self.raw_min_non_zero_value,
            total_count: self.total_count,
            meta_data: self.meta_data,
        }
    }
}

/// Writing one slot of the array changes the one count that is read from it.
proof fn lemma_logical_update(physical: Seq<u64>, offset: int, index: int, count: u64)
    requires
        0 <= index < physical.len(),
        0 <= offset < physical.len(),
    ensures
        0 <= normalize_index(index, offset, physical.len() as int) < physical.len(),
        logical_counts(
            physical.update(normalize_index(index, offset, physical.len() as int), count),
            offset,
        ) == logical_counts(physical, offset).update(index, count),
{
    let n = physical.len() as int;
    let slot = normalize_index(index, offset, n);
    lemma_normalize_index(index, offset, n);
    let left = logical_counts(physical.update(slot, count), offset);
    let right = logical_counts(physical, offset).update(index, count);
    assert forall|j: int| 0 <= j < n implies left[j] == right[j] by {
        lemma_normalize_index(j, offset, n);
    }
    assert(left =~= right);
}

impl Histogram {
    /// Whether the histogram is in a state that its operations keep: its view
    /// is well formed and the rotation of the counts array lies within it.
    pub closed spec fn wf(&self) -> bool {
        &&& self@.wf()
        &&& self.layout_wf()
    }

    /// Whether the counts array fills the geometry and the rotation lies
    /// within it. The total and the extremes need not fit the counts.
    pub closed spec fn layout_wf(&self) -> bool {
        &&& self.settings.wf()
        &&& self.counts@.len() == self.settings.counts_array_length
        &&& self.normalizing_index_offset < self.counts@.len()
    }

    /// A histogram whose layout and whose view are well formed is in a state
    /// that its operations keep, and the other way round.
    pub proof fn lemma_wf_parts(&self)
        ensures
            self.wf() <==> self.layout_wf() && self@.wf(),
            self.layout_wf() ==> self@.settings.wf() && self@.counts.len()
                == self@.settings.counts_array_length && 0
                <= self.spec_normalizing_index_offset() < self@.counts.len(),
    {
    }

    /// The rotation by which the counts array is read.
    pub closed spec fn spec_normalizing_index_offset(&self) -> int {
        self.normalizing_index_offset as int
    }

    /// The rotation by which the counts array is read once `value` is
    /// recorded: a histogram that grows to cover the value lays its counts
    /// out anew, unrotated; else the rotation stays.
    pub open spec fn offset_after_record(&self, value: u64) -> int {
        if !self@.in_range(value) && self@.settings.auto_resize {
            0
        } else {
            self.spec_normalizing_index_offset()
        }
    }

    /// A histogram in a state that its operations keep has a well-formed view.
    pub proof fn lemma_view_wf(&self)
        requires
            self.wf(),
        ensures
            self@.wf(),
            0 <= self.spec_normalizing_index_offset() < self@.counts.len(),
    {
    }

    /// An empty histogram that keeps `significant_value_digits` digits of
    /// values from 1 to 2.
    pub fn new(significant_value_digits: u8) -> (r: Result<Histogram, CreationError>)
        ensures
            Self::created(r, 1, 2, significant_value_digits),
    {
        Histogram::with_sigvdig(significant_value_digits)
    }

    /// An empty histogram that keeps `significant_value_digits` digits of
    /// values from 1 to 2.
    pub fn with_sigvdig(significant_value_digits: u8) -> (r: Result<Histogram, CreationError>)
        ensures
            Self::created(r, 1, 2, significant_value_digits),
    {
        Histogram::with_high_sigvdig(2, significant_value_digits)
    }

    /// An empty histogram that keeps `significant_value_digits` digits of
    /// values from 1 to `highest_trackable_value`.
    pub fn with_high_sigvdig(highest_trackable_value: u64, significant_value_digits: u8) -> (r:
        Result<Histogram, CreationError>)
        ensures
            Self::created(r, 1, highest_trackable_value, significant_value_digits),
    {
        Histogram::with_low_high_sigvdig(1, highest_trackable_value, significant_value_digits)
    }

    /// What the constructors return for the three parameters: an empty
    /// histogram of their geometry, which does not grow by itself, or what
    /// stands in the way of that geometry.
    pub open spec fn created(
        r: Result<Histogram, CreationError>,
        lowest_discernible_value: u64,
        highest_trackable_value: u64,
        significant_value_digits: u8,
    ) -> bool {
        match r {
            Ok(h) => {
                &&& creation_error(
                    lowest_discernible_value,
                    highest_trackable_value,
                    significant_value_digits,
                ) is None
                &&& h.wf()
                &&& h@ == HistogramView::empty(h@.settings)
                &&& h@.settings.wf()
                &&& h@.settings.lowest_discernible_value == lowest_discernible_value
                &&& h@.settings.highest_trackable_value == highest_trackable_value
                &&& h@.settings.number_of_significant_value_digits == significant_value_digits
                &&& !h@.settings.auto_resize
                &&& h.spec_normalizing_index_offset() == 0
            },
            Err(e) => creation_error(
                lowest_discernible_value,
                highest_trackable_value,
                significant_value_digits,
            ) == Some(e),
        }
    }

    /// An empty histogram that keeps `significant_value_digits` digits of
    /// values from `lowest_discernible_value` to `highest_trackable_value`.
    pub fn with_low_high_sigvdig(
        lowest_discernible_value: u64,
        highest_trackable_value: u64,
        significant_value_digits: u8,
    ) -> (r: Result<Histogram, CreationError>)
        ensures
            Self::created(
                r,
                lowest_discernible_value,
                highest_trackable_value,
                significant_value_digits,
            ),
    {
        let settings = match HistogramSettings::new(
            lowest_discernible_value,
            highest_trackable_value,
            significant_value_digits,
        ) {
            Ok(settings) => settings,
            Err(e) => {
                return Err(e);
            },
        };
        let counts_array_length = settings.counts_array_length;
        let h = Histogram {
            meta_data: HistogramMetaData::new(),
            settings,
            raw_max_value: ORIGINAL_MAX,
            raw_min_non_zero_value: ORIGINAL_MIN,
            total_count: 0,
            normalizing_index_offset: 0,
            counts: BackingArray::new(counts_array_length),
        };
        proof {
            HistogramView::empty(settings).lemma_highest_recordable();
            settings.lemma_layout();
            assert(h@.counts =~= zeros(counts_array_length as nat));
            lemma_sum_all_zero(h@.counts);
        }
        Ok(h)
    }

    /// The rotation by which the counts array is read.
    pub fn get_normalizing_index_offset(&self) -> (r: u32)
        ensures
            r == self.spec_normalizing_index_offset(),
    {
        self.normalizing_index_offset
    }

    /// The geometry.
    pub fn settings(&self) -> (r: &HistogramSettings)
        ensures
            *r == self@.settings,
    {
        &self.settings
    }

    /// The number of recorded values.
    pub fn get_total_count(&self) -> (r: u64)
        ensures
            r == self@.total_count,
    {
        self.total_count
    }

    /// The number of slots.
    pub fn counts_array_length(&self) -> (r: u32)
        requires
            self.wf(),
        ensures
            r == self@.counts.len(),
            r == self@.settings.counts_array_length,
            r >= 2,
    {
        proof {
            self@.lemma_highest_recordable();
        }
        self.counts.length()
    }

    /// The slot of `value`, which may lie beyond the counts array.
    pub fn counts_array_index(&self, value: u64) -> (r: u32)
        requires
            self.wf(),
        ensures
            r == self@.index_of(value),
    {
        self.settings.counts_array_index(value)
    }

    /// Whether this kind of histogram can grow.
    pub fn supports_auto_resize(&self) -> (r: bool)
        ensures
            r,
    {
        true
    }

    /// Whether the histogram grows to cover a value beyond its counts array.
    pub fn is_auto_resize(&self) -> (r: bool)
        ensures
            r == self@.settings.auto_resize,
    {
        self.settings.auto_resize
    }

    /// Lets or keeps the histogram from growing to cover a value beyond its
    /// counts array.
    pub fn set_auto_resize(&mut self, auto_resize: bool)
        requires
            old(self).wf(),
        ensures
            final(self).wf(),
            final(self)@ == (HistogramView {
                settings: HistogramSettings { auto_resize, ..old(self)@.settings },
                ..old(self)@
            }),
            final(self).spec_normalizing_index_offset() == old(self).spec_normalizing_index_offset(),
    {
        self.settings.auto_resize = auto_resize;
    }

    /// The slot of the array in which the count for `index` is kept.
    fn normalized_index(&self, index: u32) -> (r: u32)
        requires
            self.layout_wf(),
            index < self@.counts.len(),
        ensures
            r == normalize_index(
                index as int,
                self.normalizing_index_offset as int,
                self.counts@.len() as int,
            ),
            r < self.counts@.len(),
    {
        proof {
            lemma_normalize_index(
                index as int,
                self.normalizing_index_offset as int,
                self.counts@.len() as int,
            );
        }
        if index >= self.normalizing_index_offset {
            index - self.normalizing_index_offset
        } else {
            index + (self.counts.length() - self.normalizing_index_offset)
        }
    }

    /// The count of slot `index`, where the counts array reaches that far.
    pub fn get_count_at_index(&self, index: u32) -> (r: Option<&u64>)
        requires
            self.wf(),
        ensures
            match r {
                Some(count) => index < self@.counts.len() && *count == self@.counts[index as int],
                None => index >= self@.counts.len(),
            },
    {
        if index < self.counts.length() {
            let slot = self.normalized_index(index);
            Some(self.counts.get_unchecked(slot))
        } else {
            None
        }
    }

    /// The count of the slot of `value`, where the counts array reaches that
    /// far.
    pub fn get_count_at_value(&self, value: u64) -> (r: Option<u64>)
        requires
            self.wf(),
        ensures
            r == (if self@.in_range(value) {
                Some(self@.counts[self@.index_of(value)])
            } else {
                None
            }),
    {
        let idx = self.settings.counts_array_index(value);
        match self.get_count_at_index(idx) {
            Some(count) => Some(*count),
            None => None,
        }
    }

    /// The last slot.
    pub fn last_index(&self) -> (r: u32)
        requires
            self.wf(),
        ensures
            r == self@.counts.len() - 1,
    {
        self.counts_array_length() - 1
    }

    /// The slot of `value`, or the last slot where `value` lies beyond the
    /// counts array.
    pub fn saturating_counts_array_index(&self, value: u64) -> (r: u32)
        requires
            self.wf(),
        ensures
            r == (if self@.in_range(value) {
                self@.index_of(value)
            } else {
                self@.counts.len() - 1
            }),
    {
        let idx = self.counts_array_index(value);
        let max_idx = self.counts_array_length() - 1;
        if idx > max_idx {
            max_idx
        } else {
            idx
        }
    }

    /// The highest value that has a slot of its own in the counts array.
    pub fn highest_recordable_value(&self) -> (r: u64)
        requires
            self.wf(),
        ensures
            r == self@.settings.highest_recordable_value(),
            self@.index_of(r) == self@.counts.len() - 1,
    {
        proof {
            self@.lemma_highest_recordable();
            self.settings.lemma_layout();
            self.settings.lemma_highest_value_of_buckets(self.settings.bucket_count as nat);
        }
        let last = self.last_index();
        self.settings.highest_equivalent_value(self.settings.value_from_index(last))
    }

    /// Takes `value` into the raw maximum.
    fn update_max_value(&mut self, value: u64)
        requires
            old(self).settings.wf(),
        ensures
            final(self).raw_max_value == (if old(self).settings.spec_unit_ceiling(value) > old(self).raw_max_value {
                old(self).settings.spec_unit_ceiling(value) as u64
            } else {
                old(self).raw_max_value
            }),
            final(self).settings == old(self).settings,
            final(self).counts == old(self).counts,
            final(self).normalizing_index_offset == old(self).normalizing_index_offset,
            final(self).raw_min_non_zero_value == old(self).raw_min_non_zero_value,
            final(self).total_count == old(self).total_count,
            final(self).meta_data == old(self).meta_data,
    {
        let internal_value = self.settings.unit_ceiling(value);
        if internal_value > self.raw_max_value {
            self.raw_max_value = internal_value;
        }
    }

    /// Takes `value` into the raw non-zero minimum, unless it is below one
    /// unit.
    fn update_min_non_zero_value(&mut self, value: u64)
        requires
            old(self).settings.wf(),
        ensures
            final(self).raw_min_non_zero_value == (if value >= pow2(old(self).settings.u()) && old(self).settings.spec_unit_floor(value) < old(self).raw_min_non_zero_value {
                old(self).settings.spec_unit_floor(value) as u64
            } else {
                old(self).raw_min_non_zero_value
            }),
            final(self).settings == old(self).settings,
            final(self).counts == old(self).counts,
            final(self).normalizing_index_offset == old(self).normalizing_index_offset,
            final(self).raw_max_value == old(self).raw_max_value,
            final(self).total_count == old(self).total_count,
            final(self).meta_data == old(self).meta_data,
    {
        if value <= self.settings.unit_magnitude_mask {
            return ;
        }
        let internal_value = self.settings.unit_floor(value);
        if internal_value < self.raw_min_non_zero_value {
            self.raw_min_non_zero_value = internal_value;
        }
    }

    /// Takes `value` into both extremes.
    fn update_min_and_max(&mut self, value: u64)
        requires
            old(self).settings.wf(),
        ensures
            final(self).raw_max_value == old(self)@.max_after(value),
            final(self).raw_min_non_zero_value == old(self)@.min_after(value),
            final(self).settings == old(self).settings,
            final(self).counts == old(self).counts,
            final(self).normalizing_index_offset == old(self).normalizing_index_offset,
            final(self).total_count == old(self).total_count,
            final(self).meta_data == old(self).meta_data,
    {
        proof {
            self.settings.lemma_unit_masking(value);
        }
        if value > self.raw_max_value {
            self.update_max_value(value)
        }
        if value < self.raw_min_non_zero_value {
            self.update_min_non_zero_value(value)
        }
    }

    /// Adds `count` to slot `slot`, which is the slot of `value`, and takes
    /// `value` into the extremes and `count` into the total.
    pub(crate) fn count_at(&mut self, slot: u32, value: u64, count: u64)
        requires
            old(self).wf(),
            slot < old(self)@.counts.len(),
            slot == old(self)@.index_of(value),
            old(self)@.total_count + count <= u64::MAX,
        ensures
            final(self).wf(),
            final(self)@ == old(self)@.counted(slot as int, value, count),
            final(self).spec_normalizing_index_offset() == old(self).spec_normalizing_index_offset(),
    {
        proof {
            self@.lemma_counted_wf(slot as int, value, count);
            lemma_logical_update(
                self.counts@,
                self.normalizing_index_offset as int,
                slot as int,
                (self@.counts[slot as int] + count) as u64,
            );
        }
        let physical = self.normalized_index(slot);
        let current = *self.counts.get_unchecked(physical);
        self.counts.set(physical, current + count);
        self.update_min_and_max(value);
        self.total_count = self.total_count + count;
    }

    /// Records `value` once. See `record_value_with_count`.
    pub fn record_value(&mut self, value: u64) -> (r: Result<(), RecordError>)
        requires
            old(self).wf(),
            old(self)@.total_count + 1 <= u64::MAX,
        ensures
            r is Ok,
            final(self).wf(),
            final(self)@ == old(self)@.recorded(value, 1),
            final(self).spec_normalizing_index_offset() == old(self).offset_after_record(value),
    {
        self.record_value_with_count(value, 1)
    }

    /// Records `value` `count` times. A value beyond the counts array makes
    /// the histogram grow where it may; where it may not, the value is taken
    /// for the highest that the array has a slot for, and so is counted in the
    /// last slot.
    pub fn record_value_with_count(&mut self, value: u64, count: u64) -> (r: Result<
        (),
        RecordError,
    >)
        requires
            old(self).wf(),
            old(self)@.total_count + count <= u64::MAX,
        ensures
            r is Ok,
            final(self).wf(),
            final(self)@ == old(self)@.recorded(value, count),
            final(self).spec_normalizing_index_offset() == old(self).offset_after_record(value),
    {
        let idx = self.settings.counts_array_index(value);
        if idx < self.counts.length() {
            self.count_at(idx, value, count);
            Ok(())
        } else if !self.is_auto_resize() {
            let last = self.last_index();
            let top = self.highest_recordable_value();
            self.count_at(last, top, count);
            Ok(())
        } else {
            self.resize_and_record(value, idx, count)
        }
    }

    /// Records `value` `count` times, unless it lies beyond the counts array of
    /// a histogram that may not grow.
    pub fn record_value_with_count_strict(&mut self, value: u64, count: u64) -> (r: Result<
        (),
        RecordError,
    >)
        requires
            old(self).wf(),
            old(self)@.total_count + count <= u64::MAX,
        ensures
            final(self).wf(),
            final(self).spec_normalizing_index_offset() == old(self).offset_after_record(value),
            match r {
                Ok(()) => {
                    &&& old(self)@.in_range(value) || old(self)@.settings.auto_resize
                    &&& final(self)@ == old(self)@.recorded(value, count)
                },
                Err(e) => {
                    &&& e == RecordError::ValueOutOfRangeResizeDisabled
                    &&& !old(self)@.in_range(value)
                    &&& !old(self)@.settings.auto_resize
                    &&& final(self)@ == old(self)@
                },
            },
    {
        let idx = self.settings.counts_array_index(value);
        if idx < self.counts.length() {
            self.count_at(idx, value, count);
            Ok(())
        } else if !self.is_auto_resize() {
            Err(RecordError::ValueOutOfRangeResizeDisabled)
        } else {
            self.resize_and_record(value, idx, count)
        }
    }

    /// Grows the histogram to cover `value`, whose slot `idx` lies beyond the
    /// counts array, and records it there `count` times.
    fn resize_and_record(&mut self, value: u64, idx: u32, count: u64) -> (r: Result<
        (),
        RecordError,
    >)
        requires
            old(self).wf(),
            idx == old(self)@.index_of(value),
            !old(self)@.in_range(value),
            old(self)@.total_count + count <= u64::MAX,
        ensures
            r is Ok,
            final(self).wf(),
            final(self)@ == old(self)@.resized(value).counted(idx as int, value, count),
            final(self).meta_data == old(self).meta_data,
            final(self).spec_normalizing_index_offset() == 0,
    {
        proof {
            self@.lemma_resized_wf(value);
        }
        match self.resize(value) {
            Ok(()) => {
                self.count_at(idx, value, count);
                Ok(())
            },
            Err(e) => Err(RecordError::ResizeFailed(e)),
        }
    }

    /// Grows the histogram to cover `new_highest_trackable_value`. A histogram
    /// that covers the value already is left as it is.
    pub fn resize(&mut self, new_highest_trackable_value: u64) -> (r: Result<(), CreationError>)
        requires
            old(self).wf(),
        ensures
            r is Ok,
            final(self).wf(),
            final(self)@ == (if array_length_for(
                old(self)@.settings.u(),
                old(self)@.settings.m(),
                new_highest_trackable_value,
            ) > old(self)@.counts.len() {
                old(self)@.resized(new_highest_trackable_value)
            } else {
                old(self)@
            }),
            final(self).spec_normalizing_index_offset() == (if array_length_for(
                old(self)@.settings.u(),
                old(self)@.settings.m(),
                new_highest_trackable_value,
            ) > old(self)@.counts.len() {
                0
            } else {
                old(self).spec_normalizing_index_offset()
            }),
    {
        let value = new_highest_trackable_value;
        let old_length = self.counts.length();
        let needed = self.settings.determine_array_length_needed(value);
        if needed <= old_length {
            return Ok(());
        }
        let ghost before = self@;
        proof {
            before.lemma_highest_recordable();
            if before.in_range(value) {
                // a value within the array needs no more buckets than there are
                let s = self.settings;
                let top = s.highest_recordable_value() as u64;
                s.lemma_index_monotonic(value, top);
                s.lemma_layout();
                s.lemma_highest_value_of_buckets(s.bucket_count as nat);
                let h = pow2(s.m()) as int;
                let a = crate::histogram_settings::buckets_needed_for(s.u(), s.m(), value) as int;
                let b = s.bucket_count as int;
                assert((a + 1) * h <= (b + 1) * h) by (nonlinear_arith)
                    requires
                        a <= b,
                        h >= 0,
                ;
            }
            before.lemma_resized_wf(value);
        }
        let mut settings = self.settings;
        let new_length = match settings.resize(value) {
            Ok(new_length) => new_length,
            Err(e) => {
                return Err(e);
            },
        };
        let mut counts = BackingArray::new(new_length);
        let mut i: u32 = 0;
        while i < old_length
            invariant
                self.wf(),
                self@ == before,
                i <= old_length,
                old_length == before.counts.len(),
                old_length < new_length,
                counts@.len() == new_length,
                forall|j: int| 0 <= j < i ==> counts@[j] == before.counts[j],
                forall|j: int| i <= j < new_length ==> counts@[j] == 0,
            decreases old_length - i,
        {
            let slot = self.normalized_index(i);
            let count = *self.counts.get_unchecked(slot);
            counts.set(i, count);
            i = i + 1;
        }
        self.settings = settings;
        self.counts = counts;
        self.normalizing_index_offset = 0;
        proof {
            let grown = before.resized(value);
            assert forall|j: int| 0 <= j < new_length implies self@.counts[j] == grown.counts[j] by {
                lemma_normalize_index(j, 0, new_length as int);
            }
            assert(self@.counts =~= grown.counts);
        }
        Ok(())
    }

    /// Empties the histogram: every count is zero, the extremes are unset, the
    /// counts array is read unrotated, and the meta data is cleared.
    pub fn reset(&mut self)
        requires
            old(self).wf(),
        ensures
            final(self).wf(),
            final(self)@ == HistogramView::empty(old(self)@.settings),
            final(self).spec_normalizing_index_offset() == 0,
    {
        proof {
            self@.lemma_highest_recordable();
            self.settings.lemma_layout();
        }
        self.counts.clear();
        self.raw_max_value = ORIGINAL_MAX;
        self.raw_min_non_zero_value = ORIGINAL_MIN;
        self.total_count = 0;
        self.normalizing_index_offset = 0;
        self.meta_data.clear();
        proof {
            assert(self@.counts =~= zeros(self.counts@.len())) by {
                assert forall|j: int| 0 <= j < self.counts@.len() implies self@.counts[j] == 0 by {
                    lemma_normalize_index(j, 0, self.counts@.len() as int);
                }
            }
            lemma_sum_all_zero(self@.counts);
        }
    }

    /// The lowest discernible value.
    pub fn get_lowest_discernable_value(&self) -> (r: u64)
        ensures
            r == self@.settings.lowest_discernible_value,
    {
        self.settings.lowest_discernible_value
    }

    /// The highest trackable value.
    pub fn get_highest_trackable_value(&self) -> (r: u64)
        ensures
            r == self@.settings.highest_trackable_value,
    {
        self.settings.highest_trackable_value
    }

    /// The number of significant decimal digits.
    pub fn get_number_of_significant_value_digits(&self) -> (r: u32)
        ensures
            r == self@.settings.number_of_significant_value_digits,
    {
        self.settings.number_of_significant_value_digits
    }

    /// The lowest value that shares a slot with `value`.
    pub fn lowest_equivalent_value(&self, value: u64) -> (r: u64)
        requires
            self.wf(),
        ensures
            r == self@.settings.spec_lowest_equivalent_value(value),
    {
        self.settings.lowest_equivalent_value(value)
    }

    /// The highest value that shares a slot with `value`.
    pub fn highest_equivalent_value(&self, value: u64) -> (r: u64)
        requires
            self.wf(),
        ensures
            r == self@.settings.spec_highest_equivalent_value(value),
    {
        self.settings.highest_equivalent_value(value)
    }

    /// The value in the middle of the slot of `value`.
    pub fn median_equivalent_value(&self, value: u64) -> (r: u64)
        requires
            self.wf(),
        ensures
            r == self@.settings.spec_median_equivalent_value(value),
    {
        self.settings.median_equivalent_value(value)
    }

    /// The lowest value of the slot after that of `value`; `u64::MAX` where
    /// that value does not fit in 64 bits.
    pub fn next_non_equivalent_value(&self, value: u64) -> (r: u64)
        requires
            self.wf(),
        ensures
            r == self@.settings.spec_next_non_equivalent_value(value),
    {
        self.settings.next_non_equivalent_value(value)
    }

    /// How many values share a slot with `value`.
    pub fn size_of_equivalent_value_range(&self, value: u64) -> (r: u64)
        requires
            self.wf(),
        ensures
            r == self@.settings.spec_size_of_equivalent_value_range(value),
    {
        self.settings.size_of_equivalent_value_range(value)
    }

    /// Whether the two values share a slot.
    pub fn values_are_equivalent(&self, v1: u64, v2: u64) -> (r: bool)
        requires
            self.wf(),
        ensures
            r == (self@.settings.spec_lowest_equivalent_value(v1)
                == self@.settings.spec_lowest_equivalent_value(v2)),
    {
        self.settings.values_are_equivalent(v1, v2)
    }

    /// The lowest value that is counted in slot `index`.
    pub fn value_from_index(&self, index: u32) -> (r: u64)
        requires
            self.wf(),
            self@.settings.index_in_reach(index as nat),
        ensures
            r == self@.settings.spec_value_from_index(index as nat),
    {
        self.settings.value_from_index(index)
    }

    /// The highest value that shares a slot with the highest recorded value;
    /// 0 where nothing was recorded.
    pub fn get_max_value(&self) -> (r: u64)
        requires
            self.wf(),
        ensures
            r == self@.max_value(),
    {
        self.settings.get_max_value(self.raw_max_value)
    }

    /// The lowest value that shares a slot with the lowest recorded value of
    /// at least one unit; `u64::MAX` where no such value was recorded.
    pub fn get_min_non_zero_value(&self) -> (r: u64)
        requires
            self.wf(),
        ensures
            r == self@.min_non_zero_value(),
    {
        self.settings.get_min_non_zero_value(self.raw_min_non_zero_value)
    }

    /// The lowest value that shares a slot with the lowest recorded value; 0
    /// where nothing was recorded or a value below one unit was.
    pub fn get_min_value(&self) -> (r: u64)
        requires
            self.wf(),
        ensures
            r == self@.min_value(),
    {
        let zero_count = match self.get_count_at_index(0) {
            Some(count) => *count,
            None => 0,
        };
        proof {
            self@.lemma_highest_recordable();
        }
        if self.get_total_count() == 0 || zero_count != 0 {
            0
        } else {
            self.lowest_equivalent_value(self.raw_min_non_zero_value)
        }
    }

    /// Records `value` once, and once each value that was missed if a value
    /// was expected every `expected_interval_between_value_samples`. See
    /// `record_value_with_count_and_expected_interval`.
    pub fn record_value_with_expected_interval(
        &mut self,
        value: u64,
        expected_interval_between_value_samples: u64,
    ) -> (r: Result<(), RecordError>)
        requires
            old(self).wf(),
            old(self)@.total_count + HistogramView::expected_interval_samples(
                value,
                expected_interval_between_value_samples,
            ) <= u64::MAX,
        ensures
            r is Ok,
            final(self).wf(),
            final(self)@ == old(self)@.recorded_with_expected_interval(
                value,
                1,
                expected_interval_between_value_samples,
            ),
            final(self).spec_normalizing_index_offset() == old(self).offset_after_record(value),
    {
        proof {
            let n = HistogramView::expected_interval_samples(
                value,
                expected_interval_between_value_samples,
            );
            assert(1 * n == n);
        }
        self.record_value_with_count_and_expected_interval(
            value,
            1,
            expected_interval_between_value_samples,
        )
    }

    /// Records `value` `count` times, and as often each value that was missed
    /// if a value was expected every
    /// `expected_interval_between_value_samples`: the values that lie a
    /// multiple of the interval below `value` and are not less than the
    /// interval. This makes up for samples that a stalled producer did not
    /// take. An interval of 0 expects nothing.
    pub fn record_value_with_count_and_expected_interval(
        &mut self,
        value: u64,
        count: u64,
        expected_interval_between_value_samples: u64,
    ) -> (r: Result<(), RecordError>)
        requires
            old(self).wf(),
            old(self)@.total_count + count * HistogramView::expected_interval_samples(
                value,
                expected_interval_between_value_samples,
            ) <= u64::MAX,
        ensures
            r is Ok,
            final(self).wf(),
            final(self)@ == old(self)@.recorded_with_expected_interval(
                value,
                count,
                expected_interval_between_value_samples,
            ),
            final(self).spec_normalizing_index_offset() == old(self).offset_after_record(value),
    {
        let interval = expected_interval_between_value_samples;
        let ghost samples = HistogramView::expected_interval_samples(value, interval) as int;
        let ghost target = self@.recorded_with_expected_interval(value, count, interval);
        proof {
            if interval != 0 && value > interval {
                crate::histogram_settings::lemma_div_at_least(value as nat, interval as nat, 1);
            }
            assert(count * samples >= count) by (nonlinear_arith)
                requires
                    samples >= 1,
                    count >= 0,
            ;
            self@.lemma_recorded_wf(value, count);
            self.lemma_view_wf();
            if !self@.in_range(value) && self@.settings.auto_resize {
                self@.lemma_resized_wf(value);
            }
        }
        let _ = self.record_value_with_count(value, count);
        if interval != 0 && value > interval {
            let mut missing_value = value - interval;
            proof {
                assert(count * samples == count + count * (missing_value as int / interval as int))
                    by (nonlinear_arith)
                    requires
                        samples == value as int / interval as int,
                        missing_value == value - interval,
                        interval > 0,
                        value > interval,
                ;
            }
            while missing_value >= interval
                invariant
                    self.wf(),
                    interval != 0,
                    missing_value <= value,
                    self@.in_range(value) || !self@.settings.auto_resize,
                    self.spec_normalizing_index_offset() == old(self).offset_after_record(value),
                    self@.back_filled(missing_value, count, interval) == target,
                    self@.total_count + count * (missing_value as int / interval as int)
                        <= u64::MAX,
                decreases missing_value,
            {
                proof {
                    let q = missing_value as int / interval as int;
                    assert(count * q == count + count * ((missing_value - interval) / (
                    interval as int))) by (nonlinear_arith)
                        requires
                            q == missing_value as int / interval as int,
                            interval > 0,
                            missing_value >= interval,
                    ;
                    assert(count * ((missing_value - interval) / (interval as int)) >= 0)
                        by (nonlinear_arith)
                        requires
                            interval > 0,
                            missing_value >= interval,
                            count >= 0,
                    ;
                    self@.lemma_recorded_wf(missing_value, count);
                    self.lemma_view_wf();
                    self@.settings.lemma_index_monotonic(missing_value, value);
                }
                let _ = self.record_value_with_count(missing_value, count);
                missing_value = missing_value - interval;
            }
        }
        Ok(())
    }

    /// The counts, in the order of their slots.
    pub(crate) fn logical_counts_vec(&self) -> (r: Vec<u64>)
        requires
            self.wf(),
        ensures
            r@ == self@.counts,
    {
        let length = self.counts.length();
        let mut counts: Vec<u64> = Vec::new();
        let mut i: u32 = 0;
        while i < length
            invariant
                self.wf(),
                length == self@.counts.len(),
                i <= length,
                counts@ == self@.counts.subrange(0, i as int),
            decreases length - i,
        {
            let slot = self.normalized_index(i);
            counts.push(*self.counts.get_unchecked(slot));
            i = i + 1;
            assert(counts@ =~= self@.counts.subrange(0, i as int));
        }
        assert(counts@ =~= self@.counts);
        counts
    }

    /// Takes `counts` for the counts, and works out the total and the extremes
    /// from them.
    pub(crate) fn establish_counts(&mut self, counts: Vec<u64>)
        requires
            old(self).wf(),
            counts@.len() == old(self)@.counts.len(),
            sum_counts(counts@) <= u64::MAX,
        ensures
            final(self).wf(),
            final(self)@ == old(self)@.established(counts@),
            final(self).spec_normalizing_index_offset() == 0,
    {
        let ghost before = self@;
        let ghost logical = counts@;
        let length = self.counts.length();
        proof {
            before.lemma_established_wf(logical);
        }
        let (raw_max_value, raw_min_non_zero_value, total_count) = established_tracking_values(
            &self.settings,
            &counts,
        );
        self.raw_max_value = raw_max_value;
        self.raw_min_non_zero_value = raw_min_non_zero_value;
        self.total_count = total_count;
        self.counts = BackingArray::from_counts(counts);
        self.normalizing_index_offset = 0;
        proof {
            assert forall|j: int| 0 <= j < length implies self@.counts[j] == logical[j] by {
                lemma_normalize_index(j, 0, length as int);
            }
            assert(self@.counts =~= logical);
        }
    }

    /// The histogram of geometry `settings` that holds `counts`, with the
    /// total and the extremes worked out from them.
    pub fn with_counts(settings: HistogramSettings, counts: Vec<u64>) -> (r: Histogram)
        requires
            settings.wf(),
            counts@.len() == settings.counts_array_length,
            sum_counts(counts@) <= u64::MAX,
        ensures
            r.wf(),
            r@ == HistogramView::empty(settings).established(counts@),
            r.spec_normalizing_index_offset() == 0,
    {
        let ghost logical = counts@;
        let length = settings.counts_array_length;
        proof {
            HistogramView::empty(settings).lemma_established_wf(logical);
            HistogramView::empty(settings).lemma_highest_recordable();
            settings.lemma_layout();
        }
        let (raw_max_value, raw_min_non_zero_value, total_count) = established_tracking_values(
            &settings,
            &counts,
        );
        let r = Histogram {
            meta_data: HistogramMetaData::new(),
            settings,
            raw_max_value,
            raw_min_non_zero_value,
            total_count,
            normalizing_index_offset: 0,
            counts: BackingArray::from_counts(counts),
        };
        proof {
            assert forall|j: int| 0 <= j < length implies r@.counts[j] == logical[j] by {
                lemma_normalize_index(j, 0, length as int);
            }
            assert(r@.counts =~= logical);
        }
        r
    }

    /// The histogram that is `view`, where `view` is given by its parts.
    pub(crate) fn from_parts(
        settings: HistogramSettings,
        counts: Vec<u64>,
        raw_max_value: u64,
        raw_min_non_zero_value: u64,
        total_count: u64,
        meta_data: HistogramMetaData,
    ) -> (r: Histogram)
        requires
            (HistogramView {
                settings,
                counts: counts@,
                raw_max_value,
                raw_min_non_zero_value,
                total_count,
                meta_data,
            }).wf(),
        ensures
            r.wf(),
            r@ == (HistogramView {
                settings,
                counts: counts@,
                raw_max_value,
                raw_min_non_zero_value,
                total_count,
                meta_data,
            }),
    {
        let ghost logical = counts@;
        let length = settings.counts_array_length;
        proof {
            HistogramView::empty(settings).lemma_highest_recordable();
            settings.lemma_layout();
        }
        let r = Histogram {
            meta_data,
            settings,
            raw_max_value,
            raw_min_non_zero_value,
            total_count,
            normalizing_index_offset: 0,
            counts: BackingArray::from_counts(counts),
        };
        proof {
            assert forall|j: int| 0 <= j < length implies r@.counts[j] == logical[j] by {
                lemma_normalize_index(j, 0, length as int);
            }
            assert(r@.counts =~= logical);
        }
        r
    }

    /// Works out the total and the extremes from the counts again. The
    /// extremes are then those of the slots that hold a count.
    pub fn establish_internal_tracking_values(&mut self)
        requires
            old(self).wf(),
        ensures
            final(self).wf(),
            final(self)@ == old(self)@.established(old(self)@.counts),
            final(self).spec_normalizing_index_offset() == 0,
    {
        let counts = self.logical_counts_vec();
        self.establish_counts(counts);
    }

    /// The count of slot `index`, whatever the total and the extremes are.
    pub(crate) fn raw_get(&self, index: u32) -> (r: u64)
        requires
            self.layout_wf(),
            index < self@.counts.len(),
        ensures
            r == self@.counts[index as int],
    {
        let slot = self.normalized_index(index);
        *self.counts.get_unchecked(slot)
    }

    /// Writes `count` to slot `index` and leaves the total and the extremes
    /// as they are.
    pub(crate) fn raw_set(&mut self, index: u32, count: u64)
        requires
            old(self).layout_wf(),
            index < old(self)@.counts.len(),
        ensures
            final(self).layout_wf(),
            final(self)@ == (HistogramView {
                counts: old(self)@.counts.update(index as int, count),
                ..old(self)@
            }),
            final(self).spec_normalizing_index_offset() == old(self).spec_normalizing_index_offset(),
            sum_counts(final(self)@.counts) == sum_counts(old(self)@.counts) - old(self)@.counts[index as int] + count,
    {
        proof {
            lemma_logical_update(
                self.counts@,
                self.normalizing_index_offset as int,
                index as int,
                count,
            );
            lemma_sum_update(self@.counts, index as int, count);
        }
        let slot = self.normalized_index(index);
        self.counts.set(slot, count);
    }

    /// Reads the counts array rotated by `amount` slots further: slot `j` then
    /// has the count that slot `j - amount` had, and the lowest `amount` slots
    /// have the counts that the highest had.
    pub(crate) fn raw_rotate(&mut self, amount: u32)
        requires
            old(self).layout_wf(),
            amount < old(self)@.counts.len(),
        ensures
            final(self).layout_wf(),
            final(self)@ == (HistogramView {
                counts: Seq::new(
                    old(self)@.counts.len(),
                    |j: int|
                        old(self)@.counts[normalize_index(
                            j,
                            amount as int,
                            old(self)@.counts.len() as int,
                        )],
                ),
                ..old(self)@
            }),
            sum_counts(final(self)@.counts) == sum_counts(old(self)@.counts),
            final(self).spec_normalizing_index_offset() == (old(
                self,
            ).spec_normalizing_index_offset() + amount) % (old(self)@.counts.len() as int),
    {
        let length = self.counts.length();
        let ghost before = self@.counts;
        let ghost old_offset = self.normalizing_index_offset as int;
        proof {
            let n = length as int;
            if amount >= n - old_offset {
                vstd::arithmetic::div_mod::lemma_mod_sub_multiples_vanish(
                    old_offset + amount,
                    n,
                );
                vstd::arithmetic::div_mod::lemma_small_mod((old_offset + amount - n) as nat, n as nat);
            } else {
                vstd::arithmetic::div_mod::lemma_small_mod((old_offset + amount) as nat, n as nat);
            }
        }
        let room = length - self.normalizing_index_offset;
        if amount >= room {
            self.normalizing_index_offset = amount - room;
        } else {
            self.normalizing_index_offset = self.normalizing_index_offset + amount;
        }
        proof {
            let n = length as int;
            let new_offset = self.normalizing_index_offset as int;
            let rotated = Seq::new(
                before.len(),
                |j: int| before[normalize_index(j, amount as int, n)],
            );
            assert forall|j: int| 0 <= j < n implies self@.counts[j] == rotated[j] by {
                lemma_normalize_index(j, new_offset, n);
                lemma_normalize_index(j, amount as int, n);
                lemma_normalize_index(normalize_index(j, amount as int, n), old_offset, n);
            }
            assert(self@.counts =~= rotated);
            lemma_logical_sum(self.counts@, old_offset);
            lemma_logical_sum(self.counts@, new_offset);
        }
    }

    /// Takes `raw_max_value` and `raw_min_non_zero_value` for the extremes.
    pub(crate) fn raw_set_extremes(&mut self, raw_max_value: u64, raw_min_non_zero_value: u64)
        requires
            old(self).layout_wf(),
        ensures
            final(self).layout_wf(),
            final(self)@ == (HistogramView {
                raw_max_value,
                raw_min_non_zero_value,
                ..old(self)@
            }),
            final(self).spec_normalizing_index_offset() == old(self).spec_normalizing_index_offset(),
    {
        self.raw_max_value = raw_max_value;
        self.raw_min_non_zero_value = raw_min_non_zero_value;
    }

    /// The raw maximum.
    pub(crate) fn raw_max_value(&self) -> (r: u64)
        ensures
            r == self@.raw_max_value,
    {
        self.raw_max_value
    }

    /// The raw non-zero minimum.
    pub(crate) fn raw_min_non_zero_value(&self) -> (r: u64)
        ensures
            r == self@.raw_min_non_zero_value,
    {
        self.raw_min_non_zero_value
    }

    /// The count of slot `index`, which lies within the counts array.
    pub fn raw_count(&self, index: u32) -> (r: u64)
        requires
            self.wf(),
            index < self@.counts.len(),
        ensures
            r == self@.counts[index as int],
    {
        self.raw_get(index)
    }

    /// The meta data, out of a histogram that is given up.
    pub(crate) fn into_meta_data(self) -> (r: HistogramMetaData)
        ensures
            r == self@.meta_data,
    {
        self.meta_data
    }

    /// The meta data.
    pub fn get_meta_data(&self) -> (r: &HistogramMetaData)
        ensures
            *r == self@.meta_data,
    {
        &self.meta_data
    }
}

/// The raw maximum, the raw non-zero minimum and the total of a histogram of
/// geometry `settings` that holds `counts`: the maximum is the highest value
/// of the highest slot with a count, the minimum the lowest value of the
/// lowest such slot above slot 0.
pub fn established_tracking_values(settings: &HistogramSettings, counts: &Vec<u64>) -> (r: (
    u64,
    u64,
    u64,
))
    requires
        settings.wf(),
        counts@.len() == settings.counts_array_length,
        sum_counts(counts@) <= u64::MAX,
    ensures
        r.0 == HistogramView::empty(*settings).established(counts@).raw_max_value,
        r.1 == HistogramView::empty(*settings).established(counts@).raw_min_non_zero_value,
        r.2 == HistogramView::empty(*settings).established(counts@).total_count,
{
    let length = settings.counts_array_length;
    proof {
        settings.lemma_layout();
        lemma_prefix_sum_monotone(counts@, 0, length as int);
        lemma_last_recorded_index(counts@, length as int);
        lemma_first_recorded_index_above_zero(counts@, length as int);
    }
    let (new_max, new_min, new_total) = recalculate_internal_tracking_values(counts, length);
    let raw_max_value = match new_max {
        Some(mi) => {
            proof {
                settings.lemma_slots_in_reach(mi as nat);
            }
            settings.unit_ceiling(
                settings.highest_equivalent_value(settings.value_from_index(mi)),
            )
        },
        None => ORIGINAL_MAX,
    };
    let raw_min_non_zero_value = match new_min {
        Some(mi) => {
            proof {
                settings.lemma_slots_in_reach(mi as nat);
            }
            settings.unit_floor(settings.value_from_index(mi))
        },
        None => ORIGINAL_MIN,
    };
    (raw_max_value, raw_min_non_zero_value, new_total)
}

} // verus!
