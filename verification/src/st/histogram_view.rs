//! What a histogram is, apart from how its counts are laid out in memory: a
//! geometry, one count for each slot of the geometry, the extremes of the
//! recorded values and their number.

use vstd::prelude::*;
use vstd::arithmetic::power2::pow2;
use crate::counts::{sum_counts, zeros, lemma_sum_update, lemma_sum_concat, lemma_sum_all_zero, last_recorded_index, first_recorded_index_above_zero, lemma_last_recorded_index, lemma_first_recorded_index_above_zero};
use crate::histogram_settings::{HistogramSettings, ORIGINAL_MAX, ORIGINAL_MIN, buckets_needed_for};
use crate::meta_data::HistogramMetaData;
use crate::util::spec_missed_value_below;

verus! {

/// A histogram as its operations see it.
pub struct HistogramView {
    /// The geometry.
    pub settings: HistogramSettings,
    /// The count of each slot, in the order of the slots.
    pub counts: Seq<u64>,
    /// The highest recorded value with the bits below the unit set; 0 where
    /// nothing was recorded.
    pub raw_max_value: u64,
    /// The lowest recorded value of at least one unit, with the bits below the
    /// unit cleared; `u64::MAX` where no such value was recorded.
    pub raw_min_non_zero_value: u64,
    /// The number of recorded values.
    pub total_count: u64,
    /// The interval that the histogram covers, and its tag.
    pub meta_data: HistogramMetaData,
}

impl HistogramView {
    /// The slot of `value`.
    pub open spec fn index_of(self, value: u64) -> int {
        self.settings.spec_counts_array_index(value) as int
    }

    /// The counts fill the geometry, the total is their sum, no count stands
    /// above the slot of the maximum and none between slot 0 and the slot of
    /// the minimum, and the raw minimum is a number of whole units unless it is
    /// unset.
    pub open spec fn wf(self) -> bool {
        &&& self.settings.wf()
        &&& self.counts.len() == self.settings.counts_array_length
        &&& self.total_count == sum_counts(self.counts)
        &&& forall|i: int|
            0 <= i < self.counts.len() && #[trigger] self.counts[i] != 0 ==> i <= self.index_of(
                self.raw_max_value,
            )
        &&& forall|i: int|
            1 <= i < self.counts.len() && #[trigger] self.counts[i] != 0 ==> self.index_of(
                self.raw_min_non_zero_value,
            ) <= i
        &&& self.raw_min_non_zero_value >= pow2(self.settings.u())
        &&& self.raw_min_non_zero_value == ORIGINAL_MIN || self.raw_min_non_zero_value as nat
            % pow2(self.settings.u()) == 0
    }

    /// The histogram of geometry `settings` that holds nothing.
    pub open spec fn empty(settings: HistogramSettings) -> HistogramView {
        HistogramView {
            settings,
            counts: zeros(settings.counts_array_length as nat),
            raw_max_value: ORIGINAL_MAX,
            raw_min_non_zero_value: ORIGINAL_MIN,
            total_count: 0,
            meta_data: HistogramMetaData { start_timestamp: None, end_timestamp: None, tag: None },
        }
    }

    /// Whether the histogram holds nothing and its extremes are unset.
    pub open spec fn is_empty(self) -> bool {
        &&& self.total_count == 0
        &&& self.raw_max_value == ORIGINAL_MAX
        &&& self.raw_min_non_zero_value == ORIGINAL_MIN
        &&& self.meta_data.is_clear()
    }

    /// The raw maximum once `value` is recorded.
    pub open spec fn max_after(self, value: u64) -> u64 {
        if value > self.raw_max_value {
            self.settings.spec_unit_ceiling(value) as u64
        } else {
            self.raw_max_value
        }
    }

    /// The raw non-zero minimum once `value` is recorded. A value below one
    /// unit counts as zero.
    pub open spec fn min_after(self, value: u64) -> u64 {
        if value < self.raw_min_non_zero_value && value >= pow2(self.settings.u()) {
            self.settings.spec_unit_floor(value) as u64
        } else {
            self.raw_min_non_zero_value
        }
    }

    /// The histogram with `count` more in slot `slot`, and with `value` taken
    /// into the extremes.
    pub open spec fn counted(self, slot: int, value: u64, count: u64) -> HistogramView {
        HistogramView {
            counts: self.counts.update(slot, (self.counts[slot] + count) as u64),
            total_count: (self.total_count + count) as u64,
            raw_max_value: self.max_after(value),
            raw_min_non_zero_value: self.min_after(value),
            ..self
        }
    }

    /// The histogram grown to cover `value`: the geometry has the buckets that
    /// `value` needs, and the new slots hold nothing.
    pub open spec fn resized(self, value: u64) -> HistogramView {
        HistogramView {
            settings: self.settings.resized(value),
            counts: self.counts + zeros(
                (self.settings.resized(value).counts_array_length - self.counts.len()) as nat,
            ),
            ..self
        }
    }

    /// Whether `value` has a slot of its own in the counts array.
    pub open spec fn in_range(self, value: u64) -> bool {
        self.index_of(value) < self.counts.len()
    }

    /// The histogram with `value` recorded `count` times. A value beyond the
    /// counts array makes the histogram grow where it may; where it may not,
    /// the value is taken for the highest that the array has a slot for.
    pub open spec fn recorded(self, value: u64, count: u64) -> HistogramView {
        if self.in_range(value) {
            self.counted(self.index_of(value), value, count)
        } else if self.settings.auto_resize {
            self.resized(value).counted(self.index_of(value), value, count)
        } else {
            self.counted(
                self.counts.len() - 1,
                self.settings.highest_recordable_value() as u64,
                count,
            )
        }
    }

    /// The highest value that shares a slot with the highest recorded value; 0
    /// where nothing was recorded.
    pub open spec fn max_value(self) -> nat {
        if self.raw_max_value == ORIGINAL_MAX {
            ORIGINAL_MAX as nat
        } else {
            self.settings.spec_highest_equivalent_value(self.raw_max_value)
        }
    }

    /// The lowest value that shares a slot with the lowest recorded value of at
    /// least one unit; `u64::MAX` where no such value was recorded.
    pub open spec fn min_non_zero_value(self) -> nat {
        if self.raw_min_non_zero_value == ORIGINAL_MIN {
            ORIGINAL_MIN as nat
        } else {
            self.settings.spec_lowest_equivalent_value(self.raw_min_non_zero_value)
        }
    }

    /// The lowest value that shares a slot with the lowest recorded value; 0
    /// where nothing was recorded or a value below one unit was.
    pub open spec fn min_value(self) -> nat {
        if self.total_count == 0 || self.counts[0] != 0 {
            0
        } else {
            self.settings.spec_lowest_equivalent_value(self.raw_min_non_zero_value)
        }
    }

    /// The highest value that has a slot of its own lies in the last slot.
    pub proof fn lemma_highest_recordable(self)
        requires
            self.settings.wf(),
            self.counts.len() == self.settings.counts_array_length,
        ensures
            self.settings.highest_recordable_value() <= u64::MAX,
            self.index_of(self.settings.highest_recordable_value() as u64) == self.counts.len() - 1,
            self.counts.len() >= 2,
            forall|value: u64|
                value <= self.settings.highest_recordable_value() <==> #[trigger] self.in_range(
                    value,
                ),
    {
        let s = self.settings;
        let n = s.bucket_count as nat;
        let last = (self.counts.len() - 1) as nat;
        s.lemma_layout();
        s.lemma_highest_value_of_buckets(n);
        s.lemma_index_class(last);
        let v = s.spec_value_from_index(last) as u64;
        s.lemma_value_within_equivalent_range(v);
        let top = s.highest_recordable_value() as u64;
        s.lemma_same_slot(v, top);
        let h = pow2(s.m()) as int;
        let ni = n as int;
        assert((ni + 1) * h >= 2) by (nonlinear_arith)
            requires
                ni >= 1,
                h >= 1,
        ;
        assert forall|value: u64| value <= top <==> #[trigger] self.in_range(value) by {
            if value <= top {
                s.lemma_index_monotonic(value, top);
            } else {
                s.lemma_index_monotonic(top, value);
                if self.in_range(value) {
                    // the slot of `value` would be the last one, whose highest
                    // value is `top`
                    s.lemma_index_round_trip(value);
                    s.lemma_value_within_equivalent_range(value);
                    let low = s.spec_lowest_equivalent_value(value) as u64;
                    assert(low == v);
                    s.lemma_same_slot(value, low);
                    assert(s.spec_bucket_index(value) == s.spec_bucket_index(top));
                    assert(s.spec_highest_equivalent_value(value)
                        == s.spec_highest_equivalent_value(v));
                }
            }
        }
    }

    /// Counting a value in its own slot, or in a lower slot, keeps the
    /// histogram well formed.
    pub proof fn lemma_counted_wf(self, slot: int, value: u64, count: u64)
        requires
            self.wf(),
            0 <= slot < self.counts.len(),
            slot == self.index_of(value),
            self.total_count + count <= u64::MAX,
        ensures
            self.counted(slot, value, count).wf(),
            self.counts[slot] + count <= u64::MAX,
    {
        let s = self.settings;
        let after = self.counted(slot, value, count);
        lemma_sum_update(self.counts, slot, (self.counts[slot] + count) as u64);
        s.lemma_unit_masking(value);
        s.lemma_unit_equivalent(value);
        s.lemma_layout();
        s.lemma_unit_floor_is_whole(value);
        s.lemma_index_monotonic(value, after.raw_max_value);
        s.lemma_index_monotonic(self.raw_max_value, after.raw_max_value);
        s.lemma_index_monotonic(after.raw_min_non_zero_value, self.raw_min_non_zero_value);
        if value >= self.raw_min_non_zero_value {
            s.lemma_index_monotonic(self.raw_min_non_zero_value, value);
        }
        if value < pow2(s.u()) {
            s.lemma_value_class(value);
            vstd::arithmetic::div_mod::lemma_basic_div(value as int, pow2(s.u()) as int);
            assert(s.spec_bucket_index(value) == 0) by {
                crate::bits::lemma_pow2_monotone(s.u(), s.u() + s.m() + 1);
            }
            assert(0 * pow2(s.m()) == 0);
            assert(slot == 0);
        }
        assert forall|i: int|
            0 <= i < after.counts.len() && #[trigger] after.counts[i] != 0 implies i
            <= after.index_of(after.raw_max_value) by {
            if i != slot {
                assert(self.counts[i] != 0);
            }
        }
        assert forall|i: int|
            1 <= i < after.counts.len() && #[trigger] after.counts[i] != 0 implies after.index_of(
            after.raw_min_non_zero_value,
        ) <= i by {
            if i != slot {
                assert(self.counts[i] != 0);
            }
        }
    }

    /// Growing keeps the histogram well formed, and the slots of all values.
    pub proof fn lemma_resized_wf(self, value: u64)
        requires
            self.wf(),
            !self.in_range(value),
        ensures
            self.resized(value).wf(),
            self.resized(value).in_range(value),
            self.resized(value).counts.len() > self.counts.len(),
            self.resized(value).counts.len() <= i32::MAX,
            forall|other: u64| #[trigger]
                self.resized(value).index_of(other) == self.index_of(other),
    {
        let s = self.settings;
        let grown = self.resized(value);
        let n = buckets_needed_for(s.u(), s.m(), value);
        s.lemma_layout();
        s.lemma_highest_value_of_buckets(n);
        let h = pow2(s.m()) as int;
        let ni = n as int;
        assert((ni + 1) * h <= 65 * 0x20000) by (nonlinear_arith)
            requires
                0 <= ni + 1 <= 65,
                0 <= h <= 0x20000,
        ;
        assert(grown.settings.wf());
        self.lemma_highest_recordable();
        // the slot of `value` lies in its own bucket, which the grown array has
        s.lemma_value_class(value);
        let b = s.spec_bucket_index(value) as int;
        let k = s.spec_sub_bucket_index(value, s.spec_bucket_index(value)) as int;
        assert(b * h + k < (b + 2) * h) by (nonlinear_arith)
            requires
                k < 2 * h,
        ;
        assert(grown.counts.len() == (ni + 1) * h);
        assert(ni == b + 1);
        lemma_sum_concat(self.counts, zeros((grown.counts.len() - self.counts.len()) as nat));
        lemma_sum_all_zero(zeros((grown.counts.len() - self.counts.len()) as nat));
        assert forall|i: int|
            0 <= i < grown.counts.len() && #[trigger] grown.counts[i] != 0 implies i
            <= grown.index_of(grown.raw_max_value) by {
            if i < self.counts.len() {
                assert(self.counts[i] != 0);
            }
        }
        assert forall|i: int|
            1 <= i < grown.counts.len() && #[trigger] grown.counts[i] != 0 implies grown.index_of(
            grown.raw_min_non_zero_value,
        ) <= i by {
            if i < self.counts.len() {
                assert(self.counts[i] != 0);
            }
        }
    }

    /// Recording keeps the histogram well formed and adds to the total.
    pub proof fn lemma_recorded_wf(self, value: u64, count: u64)
        requires
            self.wf(),
            self.total_count + count <= u64::MAX,
        ensures
            self.recorded(value, count).wf(),
            self.recorded(value, count).total_count == self.total_count + count,
    {
        if self.in_range(value) {
            self.lemma_counted_wf(self.index_of(value), value, count);
        } else if self.settings.auto_resize {
            self.lemma_resized_wf(value);
            self.resized(value).lemma_counted_wf(self.index_of(value), value, count);
        } else {
            self.lemma_highest_recordable();
            self.lemma_counted_wf(
                self.counts.len() - 1,
                self.settings.highest_recordable_value() as u64,
                count,
            );
        }
    }
}

impl HistogramView {
    /// How often a value is recorded when it is recorded with an expected
    /// interval: once, and once more for each multiple of the interval that it
    /// exceeds the interval by.
    pub open spec fn expected_interval_samples(value: u64, interval: u64) -> nat {
        if interval != 0 && value > interval {
            (value / interval) as nat
        } else {
            1
        }
    }

    /// The histogram with `missing` recorded `count` times, and so each value
    /// that lies a multiple of `interval` below it and is not less than
    /// `interval`.
    pub open spec fn back_filled(self, missing: u64, count: u64, interval: u64) -> HistogramView
        decreases missing,
    {
        if interval == 0 || missing < interval {
            self
        } else {
            self.recorded(missing, count).back_filled(
                (missing - interval) as u64,
                count,
                interval,
            )
        }
    }

    /// The histogram with every value recorded `count` times that was missed
    /// below `from`, taken one after the other as `spec_missed_value_below`
    /// gives them.
    pub open spec fn missed_recorded(self, from: u64, count: u64, interval: u64) -> HistogramView
        decreases from,
    {
        match spec_missed_value_below(from, interval) {
            Some(missed) => self.recorded(missed, count).missed_recorded(missed, count, interval),
            None => self,
        }
    }

    /// The values that are missed below a value are those that are filled in
    /// below it.
    pub proof fn lemma_missed_is_back_filled(self, from: u64, count: u64, interval: u64)
        requires
            interval != 0,
            from >= interval,
        ensures
            self.missed_recorded(from, count, interval) == self.back_filled(
                (from - interval) as u64,
                count,
                interval,
            ),
        decreases from,
    {
        if from >= 2 * interval {
            let missed = (from - interval) as u64;
            self.recorded(missed, count).lemma_missed_is_back_filled(missed, count, interval);
        }
    }

    /// Recording a value and then, one after the other, each value that
    /// `spec_missed_value_below` gives is recording the value with its
    /// expected interval.
    pub proof fn lemma_expected_interval_by_missed_values(
        self,
        value: u64,
        count: u64,
        interval: u64,
    )
        ensures
            self.recorded(value, count).missed_recorded(value, count, interval)
                == self.recorded_with_expected_interval(value, count, interval),
    {
        if interval != 0 && value >= interval {
            self.recorded(value, count).lemma_missed_is_back_filled(value, count, interval);
        }
    }

    /// The histogram with `value` recorded `count` times, and with the values
    /// that were missed if a value was expected every `interval`: those that
    /// lie a multiple of `interval` below `value` and are not less than
    /// `interval`. An interval of 0 expects nothing.
    pub open spec fn recorded_with_expected_interval(
        self,
        value: u64,
        count: u64,
        interval: u64,
    ) -> HistogramView {
        let first = self.recorded(value, count);
        if interval != 0 && value > interval {
            first.back_filled((value - interval) as u64, count, interval)
        } else {
            first
        }
    }

    /// The histogram with what the first `n` slots of `other` hold recorded,
    /// each count at the lowest value of its slot in `other`.
    pub open spec fn merged(self, other: HistogramView, n: nat) -> HistogramView
        decreases n,
    {
        if n == 0 {
            self
        } else {
            let before = self.merged(other, (n - 1) as nat);
            let count = other.counts[n - 1];
            let value = other.settings.spec_value_from_index((n - 1) as nat) as u64;
            if count == 0 {
                before
            } else {
                before.counted(before.index_of(value), value, count)
            }
        }
    }

    /// Whether all that `other` holds has a slot in the counts array.
    pub open spec fn covers(self, other: HistogramView) -> bool {
        other.max_value() <= self.settings.highest_recordable_value()
    }

    /// Whether the highest value that shares a slot with the maximum of `other`
    /// has a slot in the counts array.
    pub open spec fn reaches(self, other: HistogramView) -> bool {
        self.settings.spec_highest_equivalent_value(other.max_value() as u64)
            <= self.settings.highest_recordable_value()
    }

    /// The histogram, grown where it has to grow to take what `other` holds.
    pub open spec fn grown_for(self, other: HistogramView) -> HistogramView {
        if self.covers(other) {
            self
        } else {
            self.resized(other.max_value() as u64)
        }
    }

    /// The histogram with all that `other` holds recorded as well.
    pub open spec fn added(self, other: HistogramView) -> HistogramView {
        self.grown_for(other).merged(other, other.counts.len())
    }

    /// The counts with what the first `n` slots of `other` hold taken away,
    /// each count from the slot of the lowest value of its slot in `other`;
    /// `None` where a slot holds less than is to be taken from it.
    pub open spec fn counts_without(self, other: HistogramView, n: nat) -> Option<Seq<u64>>
        decreases n,
    {
        if n == 0 {
            Some(self.counts)
        } else {
            match self.counts_without(other, (n - 1) as nat) {
                None => None,
                Some(counts) => {
                    let count = other.counts[n - 1];
                    let slot = self.index_of(
                        other.settings.spec_value_from_index((n - 1) as nat) as u64,
                    );
                    if count == 0 {
                        Some(counts)
                    } else if counts[slot] < count {
                        None
                    } else {
                        Some(counts.update(slot, (counts[slot] - count) as u64))
                    }
                },
            }
        }
    }

    /// The histogram with `counts` for its counts, and with the total and the
    /// extremes worked out from them: the raw maximum is the highest value of
    /// the highest slot with a count, the raw non-zero minimum the lowest value
    /// of the lowest such slot above slot 0.
    pub open spec fn established(self, counts: Seq<u64>) -> HistogramView {
        HistogramView {
            counts,
            total_count: sum_counts(counts) as u64,
            raw_max_value: match last_recorded_index(counts, counts.len() as int) {
                Some(i) => self.settings.spec_unit_ceiling(
                    self.settings.spec_highest_equivalent_value(
                        self.settings.spec_value_from_index(i as nat) as u64,
                    ) as u64,
                ) as u64,
                None => ORIGINAL_MAX,
            },
            raw_min_non_zero_value: match first_recorded_index_above_zero(
                counts,
                counts.len() as int,
            ) {
                Some(i) => self.settings.spec_unit_floor(
                    self.settings.spec_value_from_index(i as nat) as u64,
                ) as u64,
                None => ORIGINAL_MIN,
            },
            ..self
        }
    }

    /// The count of slot `index`; 0 beyond the counts array.
    pub open spec fn count_at(self, index: int) -> u64 {
        if 0 <= index < self.counts.len() {
            self.counts[index]
        } else {
            0
        }
    }

    /// Whether the two histograms hold the same recording: their geometries
    /// have the same lowest discernible value and the same number of
    /// significant digits, so that a value has the same slot in both, each
    /// slot has the same count in both, with nothing where one counts array
    /// ends before the other, and the totals and the extremes agree.
    pub open spec fn same_recording(self, other: HistogramView) -> bool {
        &&& self.settings.lowest_discernible_value == other.settings.lowest_discernible_value
        &&& self.settings.number_of_significant_value_digits
            == other.settings.number_of_significant_value_digits
        &&& self.total_count == other.total_count
        &&& self.max_value() == other.max_value()
        &&& self.min_non_zero_value() == other.min_non_zero_value()
        &&& forall|i: int| 0 <= i ==> #[trigger] self.count_at(i) == other.count_at(i)
    }

    /// A count stands at or below the slot of the maximum, so the lowest value
    /// of its slot is at most the maximum.
    pub proof fn lemma_recorded_below_max(self, index: int)
        requires
            self.wf(),
            0 <= index < self.counts.len(),
            self.counts[index] != 0,
        ensures
            self.settings.index_in_reach(index as nat),
            self.settings.spec_value_from_index(index as nat) <= self.max_value(),
            self.max_value() <= u64::MAX,
    {
        let s = self.settings;
        s.lemma_value_from_index_below(index as nat, self.raw_max_value);
        s.lemma_value_within_equivalent_range(self.raw_max_value);
        if self.raw_max_value == ORIGINAL_MAX {
            s.lemma_value_class(0);
            s.lemma_layout();
            assert(s.spec_bucket_index(0) == 0);
            vstd::arithmetic::div_mod::lemma_basic_div(0, pow2(s.u()) as int);
            assert(0 * pow2(s.m()) == 0);
            assert(index == 0);
            s.lemma_index_class(0);
        }
    }

    /// Merging keeps the histogram well formed where it covers the other, and
    /// adds what the merged slots hold to the total.
    pub proof fn lemma_merged_wf(self, other: HistogramView, n: nat)
        requires
            self.wf(),
            other.wf(),
            self.covers(other),
            n <= other.counts.len(),
            self.total_count + crate::counts::prefix_sum(other.counts, n as int) <= u64::MAX,
        ensures
            self.merged(other, n).wf(),
            self.merged(other, n).settings == self.settings,
            self.merged(other, n).meta_data == self.meta_data,
            self.merged(other, n).total_count == self.total_count + crate::counts::prefix_sum(
                other.counts,
                n as int,
            ),
        decreases n,
    {
        crate::counts::lemma_prefix_sum_monotone(other.counts, 0, n as int);
        if n > 0 {
            crate::counts::lemma_prefix_sum_monotone(other.counts, n - 1, n as int);
            crate::counts::lemma_prefix_sum_step(other.counts, n - 1);
            self.lemma_merged_wf(other, (n - 1) as nat);
            let before = self.merged(other, (n - 1) as nat);
            let count = other.counts[n - 1];
            if count != 0 {
                other.lemma_recorded_below_max(n - 1);
                let value = other.settings.spec_value_from_index((n - 1) as nat) as u64;
                before.lemma_highest_recordable();
                assert(before.in_range(value));
                before.lemma_counted_wf(before.index_of(value), value, count);
            }
        }
    }

    /// Merging a histogram that holds nothing changes nothing.
    pub proof fn lemma_merged_nothing(self, other: HistogramView, n: nat)
        requires
            n <= other.counts.len(),
            forall|i: int| 0 <= i < other.counts.len() ==> other.counts[i] == 0,
        ensures
            self.merged(other, n) == self,
        decreases n,
    {
        if n > 0 {
            self.lemma_merged_nothing(other, (n - 1) as nat);
        }
    }

    /// Adding a histogram that holds nothing changes nothing.
    pub proof fn lemma_add_empty_is_identity(self, other: HistogramView)
        requires
            self.wf(),
            other.wf(),
            other.total_count == 0,
            other.raw_max_value == ORIGINAL_MAX,
        ensures
            self.covers(other),
            self.added(other) == self,
    {
        crate::counts::lemma_sum_zero_all_zero(other.counts);
        self.lemma_merged_nothing(other, other.counts.len());
    }

    /// The counts of a well-formed histogram establish a well-formed
    /// histogram.
    pub proof fn lemma_established_wf(self, counts: Seq<u64>)
        requires
            self.settings.wf(),
            counts.len() == self.settings.counts_array_length,
            sum_counts(counts) <= u64::MAX,
        ensures
            self.established(counts).wf(),
    {
        let s = self.settings;
        let after = self.established(counts);
        let n = counts.len() as int;
        lemma_last_recorded_index(counts, n);
        lemma_first_recorded_index_above_zero(counts, n);
        match last_recorded_index(counts, n) {
            Some(i) => {
                s.lemma_slots_in_reach(i as nat);
                s.lemma_index_class(i as nat);
                let v = s.spec_value_from_index(i as nat) as u64;
                s.lemma_value_within_equivalent_range(v);
                let top = s.spec_highest_equivalent_value(v) as u64;
                s.lemma_same_slot(v, top);
                s.lemma_unit_equivalent(top);
                s.lemma_unit_masking(top);
            },
            None => {},
        }
        match first_recorded_index_above_zero(counts, n) {
            Some(i) => {
                s.lemma_slots_in_reach(i as nat);
                s.lemma_index_class(i as nat);
                let v = s.spec_value_from_index(i as nat) as u64;
                s.lemma_unit_equivalent(v);
                s.lemma_unit_masking(v);
                s.lemma_unit_floor_is_whole(v);
            },
            None => {
                s.lemma_layout();
            },
        }
    }
}

} // verus!
