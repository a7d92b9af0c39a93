//! What holds of every histogram, whatever was recorded.

use vstd::prelude::*;
use vstd::arithmetic::power2::pow2;
use crate::counts::{sum_counts, lemma_sum_all_zero, first_index_reaching, last_recorded_index, lemma_first_index_reaching_one, lemma_first_index_reaching_total, lemma_last_recorded_index};
use crate::histogram_settings::{HistogramSettings, ORIGINAL_MAX};
use crate::st::histogram_view::HistogramView;

verus! {

impl HistogramView {
    /// The histogram with each of `values` recorded once, in their order.
    pub open spec fn recorded_all(self, values: Seq<u64>) -> HistogramView
        decreases values.len(),
    {
        if values.len() == 0 {
            self
        } else {
            self.recorded_all(values.drop_last()).recorded(values.last(), 1)
        }
    }

    /// The empty histogram of a geometry is well formed.
    pub proof fn lemma_empty_wf(settings: HistogramSettings)
        requires
            settings.wf(),
        ensures
            HistogramView::empty(settings).wf(),
            HistogramView::empty(settings).is_empty(),
            HistogramView::empty(settings).max_value() == 0,
            HistogramView::empty(settings).min_value() == 0,
    {
        let empty = HistogramView::empty(settings);
        lemma_sum_all_zero(empty.counts);
        settings.lemma_layout();
    }

    /// Every record counts: after `k` values are recorded once each, the total
    /// has grown by `k`, and the counts sum to the total.
    pub proof fn lemma_records_are_conserved(self, values: Seq<u64>)
        requires
            self.wf(),
            self.total_count + values.len() <= u64::MAX,
        ensures
            self.recorded_all(values).wf(),
            self.recorded_all(values).total_count == self.total_count + values.len(),
            sum_counts(self.recorded_all(values).counts) == self.total_count + values.len(),
        decreases values.len(),
    {
        if values.len() > 0 {
            self.lemma_records_are_conserved(values.drop_last());
            self.recorded_all(values.drop_last()).lemma_recorded_wf(values.last(), 1);
        }
    }

    /// The slot that a record of `value` adds to: the slot of the value, or the
    /// last slot where the value lies beyond the counts array of a histogram
    /// that may not grow.
    pub open spec fn slot_recorded_into(self, value: u64) -> int {
        if self.in_range(value) || self.settings.auto_resize {
            self.index_of(value)
        } else {
            self.counts.len() - 1
        }
    }

    /// One record changes one slot: the total and the sum of the counts grow
    /// by 1, the slot that is recorded into grows by 1, and every other slot
    /// holds what it held, with nothing where the histogram has grown.
    pub proof fn lemma_record_changes_one_slot(self, value: u64)
        requires
            self.wf(),
            self.total_count + 1 <= u64::MAX,
        ensures
            self.recorded(value, 1).wf(),
            self.recorded(value, 1).total_count == self.total_count + 1,
            sum_counts(self.recorded(value, 1).counts) == sum_counts(self.counts) + 1,
            self.recorded(value, 1).count_at(self.slot_recorded_into(value)) == self.count_at(
                self.slot_recorded_into(value),
            ) + 1,
            forall|i: int|
                i != self.slot_recorded_into(value) ==> #[trigger] self.recorded(value, 1).count_at(
                    i,
                ) == self.count_at(i),
    {
        self.lemma_recorded_wf(value, 1);
        self.lemma_highest_recordable();
        if self.in_range(value) {
            self.lemma_counted_wf(self.index_of(value), value, 1);
        } else if self.settings.auto_resize {
            self.lemma_resized_wf(value);
            self.resized(value).lemma_counted_wf(self.index_of(value), value, 1);
        } else {
            self.lemma_counted_wf(
                self.counts.len() - 1,
                self.settings.highest_recordable_value() as u64,
                1,
            );
        }
    }

    /// The value 0 can be recorded, and is counted in slot 0.
    pub proof fn lemma_zero_lands_in_slot_zero(self, count: u64)
        requires
            self.wf(),
            self.total_count + count <= u64::MAX,
        ensures
            self.in_range(0),
            self.index_of(0) == 0,
            self.recorded(0, count).counts == self.counts.update(
                0,
                (self.counts[0] + count) as u64,
            ),
    {
        let s = self.settings;
        self.lemma_highest_recordable();
        s.lemma_value_class(0);
        s.lemma_layout();
        vstd::arithmetic::div_mod::lemma_basic_div(0, pow2(s.u()) as int);
        assert(0 * pow2(s.m()) == 0);
    }

    /// A value beyond the counts array of a histogram that may not grow is
    /// counted in the last slot; one that may grow has a slot for it
    /// afterwards.
    pub proof fn lemma_out_of_range_record(self, value: u64, count: u64)
        requires
            self.wf(),
            !self.in_range(value),
            self.total_count + count <= u64::MAX,
        ensures
            !self.settings.auto_resize ==> self.recorded(value, count).counts == self.counts.update(
                self.counts.len() - 1,
                (self.counts[self.counts.len() - 1] + count) as u64,
            ),
            self.settings.auto_resize ==> self.recorded(value, count).in_range(value)
                && self.recorded(value, count).counts[self.index_of(value)] == count,
    {
        if self.settings.auto_resize {
            self.lemma_resized_wf(value);
        }
    }

    /// The value at the lowest rank is the lowest value of the first slot that
    /// holds a count, and the value at the rank of the total is the highest
    /// value of the last such slot.
    pub proof fn lemma_value_at_extreme_ranks(self)
        requires
            self.wf(),
            self.total_count >= 1,
        ensures
            ({
                let first = first_index_reaching(self.counts, 1, self.counts.len() as int);
                &&& first matches Some(i)
                &&& self.counts[i] != 0
                &&& forall|j: int| 0 <= j < i ==> self.counts[j] == 0
                &&& self.value_at_count(0, true) == self.settings.spec_lowest_equivalent_value(
                    self.settings.spec_value_from_index(i as nat) as u64,
                )
            }),
            ({
                let last = last_recorded_index(self.counts, self.counts.len() as int);
                &&& last matches Some(i)
                &&& self.counts[i] != 0
                &&& forall|j: int| i < j < self.counts.len() ==> self.counts[j] == 0
                &&& self.value_at_count(self.total_count, false)
                    == self.settings.spec_highest_equivalent_value(
                    self.settings.spec_value_from_index(i as nat) as u64,
                )
            }),
    {
        lemma_first_index_reaching_one(self.counts);
        lemma_first_index_reaching_total(self.counts);
        lemma_last_recorded_index(self.counts, self.counts.len() as int);
        if first_index_reaching(self.counts, 1, self.counts.len() as int) is None {
            lemma_sum_all_zero(self.counts);
        }
    }

    /// Two geometries with the same lowest discernible value and the same
    /// number of significant digits count every value in the slot of the same
    /// number, and its slot holds the same values in both.
    pub proof fn lemma_same_geometry_same_slots(self, other: HistogramView, value: u64)
        requires
            self.settings.wf(),
            other.settings.wf(),
            self.settings.lowest_discernible_value == other.settings.lowest_discernible_value,
            self.settings.number_of_significant_value_digits
                == other.settings.number_of_significant_value_digits,
        ensures
            self.index_of(value) == other.index_of(value),
            self.settings.spec_lowest_equivalent_value(value)
                == other.settings.spec_lowest_equivalent_value(value),
            self.settings.spec_highest_equivalent_value(value)
                == other.settings.spec_highest_equivalent_value(value),
    {
    }

    /// Recording a value twice and taking away a histogram that holds the value
    /// once leaves the counts of recording it once.
    pub proof fn lemma_subtract_undoes_record(self, value: u64)
        requires
            self.wf(),
            self.in_range(value),
            self.total_count + 2 <= u64::MAX,
        ensures
            ({
                let once = self.recorded(value, 1);
                let twice = once.recorded(value, 1);
                let other = HistogramView::empty(self.settings).recorded(value, 1);
                &&& twice.reaches(other)
                &&& twice.counts_without(other, other.counts.len()) == Some(once.counts)
            }),
    {
        let s = self.settings;
        let once = self.recorded(value, 1);
        let twice = once.recorded(value, 1);
        let empty = HistogramView::empty(s);
        let other = empty.recorded(value, 1);
        let slot = self.index_of(value);
        Self::lemma_empty_wf(s);
        self.lemma_recorded_wf(value, 1);
        once.lemma_recorded_wf(value, 1);
        empty.lemma_recorded_wf(value, 1);
        assert(once.in_range(value) && empty.in_range(value));
        self.lemma_counted_wf(slot, value, 1);
        once.lemma_counted_wf(slot, value, 1);
        empty.lemma_counted_wf(slot, value, 1);
        assert(once.counts[slot] == self.counts[slot] + 1);
        assert(other.counts[slot] == 1);
        s.lemma_slots_in_reach(slot as nat);
        s.lemma_index_class(slot as nat);
        twice.lemma_highest_recordable();
        // the maximum of the other histogram shares the slot of the value
        s.lemma_unit_masking(value);
        s.lemma_unit_equivalent(value);
        s.lemma_value_within_equivalent_range(other.raw_max_value);
        let top = other.max_value() as u64;
        if other.raw_max_value != ORIGINAL_MAX {
            s.lemma_same_slot(other.raw_max_value, top);
        } else {
            s.lemma_value_class(0);
            s.lemma_layout();
            vstd::arithmetic::div_mod::lemma_basic_div(0, pow2(s.u()) as int);
            assert(0 * pow2(s.m()) == 0);
        }
        s.lemma_value_within_equivalent_range(top);
        let reach = s.spec_highest_equivalent_value(top) as u64;
        s.lemma_same_slot(top, reach);
        assert(twice.in_range(reach));
        lemma_counts_without_single(twice, other, slot, other.counts.len());
        assert(twice.counts[slot] == once.counts[slot] + 1);
        assert(twice.counts.update(slot, (twice.counts[slot] - 1) as u64) =~= once.counts);
    }
}

/// Taking away a histogram that holds a count in one slot alone changes one
/// slot.
proof fn lemma_counts_without_single(
    view: HistogramView,
    other: HistogramView,
    slot: int,
    n: nat,
)
    requires
        view.settings.wf(),
        view.settings == other.settings,
        0 <= slot < other.counts.len(),
        other.counts.len() == view.counts.len(),
        view.counts.len() == view.settings.counts_array_length,
        forall|i: int| 0 <= i < other.counts.len() && i != slot ==> other.counts[i] == 0,
        other.counts[slot] != 0,
        view.counts[slot] >= other.counts[slot],
        n <= other.counts.len(),
    ensures
        view.counts_without(other, n) == (if n <= slot {
            Some(view.counts)
        } else {
            Some(view.counts.update(slot, (view.counts[slot] - other.counts[slot]) as u64))
        }),
    decreases n,
{
    if n > 0 {
        lemma_counts_without_single(view, other, slot, (n - 1) as nat);
        if n - 1 == slot {
            view.settings.lemma_slots_in_reach(slot as nat);
            view.settings.lemma_index_class(slot as nat);
        }
    }
}

} // verus!
