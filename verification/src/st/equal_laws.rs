//! When two histograms hold the same recording: for histograms whose
//! extremes are those of their counts, it is when their slots agree.

use vstd::prelude::*;
use crate::counts::{
    first_recorded_index_above_zero, last_recorded_index, lemma_first_recorded_index_above_zero,
    lemma_last_recorded_index, lemma_sum_all_zero, lemma_sum_concat, sum_counts,
};
use crate::histogram_settings::{ORIGINAL_MAX, ORIGINAL_MIN};
use crate::st::histogram_view::HistogramView;

verus! {

/// The count of slot `index` in `counts`; 0 beyond them.
pub open spec fn count_or_zero(counts: Seq<u64>, index: int) -> u64 {
    if 0 <= index < counts.len() {
        counts[index]
    } else {
        0
    }
}

/// Whether the two runs of counts agree slot by slot, with nothing where one
/// ends before the other.
pub open spec fn slots_agree(mine: Seq<u64>, theirs: Seq<u64>) -> bool {
    forall|i: int| 0 <= i ==> #[trigger] count_or_zero(mine, i) == count_or_zero(theirs, i)
}

/// Counts that agree slot by slot, of which the first run is not the longer,
/// differ by empty slots at the end.
proof fn lemma_longer_is_padded(shorter: Seq<u64>, longer: Seq<u64>)
    requires
        slots_agree(shorter, longer),
        shorter.len() <= longer.len(),
    ensures
        longer == shorter + longer.subrange(shorter.len() as int, longer.len() as int),
        forall|i: int| shorter.len() <= i < longer.len() ==> longer[i] == 0,
{
    assert forall|i: int| shorter.len() <= i < longer.len() implies longer[i] == 0 by {
        assert(count_or_zero(shorter, i) == count_or_zero(longer, i));
    }
    assert forall|i: int| 0 <= i < shorter.len() implies longer[i] == shorter[i] by {
        assert(count_or_zero(shorter, i) == count_or_zero(longer, i));
    }
    assert(longer =~= shorter + longer.subrange(shorter.len() as int, longer.len() as int));
}

/// Counts that agree slot by slot have the same sum.
pub proof fn lemma_agreeing_sums(mine: Seq<u64>, theirs: Seq<u64>)
    requires
        slots_agree(mine, theirs),
    ensures
        sum_counts(mine) == sum_counts(theirs),
{
    if mine.len() <= theirs.len() {
        lemma_longer_is_padded(mine, theirs);
        let tail = theirs.subrange(mine.len() as int, theirs.len() as int);
        lemma_sum_concat(mine, tail);
        lemma_sum_all_zero(tail);
    } else {
        assert(slots_agree(theirs, mine)) by {
            assert forall|i: int| 0 <= i implies #[trigger] count_or_zero(theirs, i)
                == count_or_zero(mine, i) by {
                assert(count_or_zero(mine, i) == count_or_zero(theirs, i));
            }
        }
        lemma_longer_is_padded(theirs, mine);
        let tail = mine.subrange(theirs.len() as int, mine.len() as int);
        lemma_sum_concat(theirs, tail);
        lemma_sum_all_zero(tail);
    }
}

/// Counts that agree slot by slot have the same highest slot with a count,
/// and the same lowest such slot above slot 0.
pub proof fn lemma_agreeing_extreme_slots(mine: Seq<u64>, theirs: Seq<u64>)
    requires
        slots_agree(mine, theirs),
    ensures
        last_recorded_index(mine, mine.len() as int) == last_recorded_index(
            theirs,
            theirs.len() as int,
        ),
        first_recorded_index_above_zero(mine, mine.len() as int)
            == first_recorded_index_above_zero(theirs, theirs.len() as int),
{
    lemma_last_recorded_index(mine, mine.len() as int);
    lemma_last_recorded_index(theirs, theirs.len() as int);
    lemma_first_recorded_index_above_zero(mine, mine.len() as int);
    lemma_first_recorded_index_above_zero(theirs, theirs.len() as int);
    let my_last = last_recorded_index(mine, mine.len() as int);
    let their_last = last_recorded_index(theirs, theirs.len() as int);
    match my_last {
        Some(i) => {
            assert(count_or_zero(mine, i) == count_or_zero(theirs, i));
            match their_last {
                Some(j) => {
                    assert(count_or_zero(mine, j) == count_or_zero(theirs, j));
                },
                None => {},
            }
        },
        None => {
            match their_last {
                Some(j) => {
                    assert(count_or_zero(mine, j) == count_or_zero(theirs, j));
                },
                None => {},
            }
        },
    }
    let my_first = first_recorded_index_above_zero(mine, mine.len() as int);
    let their_first = first_recorded_index_above_zero(theirs, theirs.len() as int);
    match my_first {
        Some(i) => {
            assert(count_or_zero(mine, i) == count_or_zero(theirs, i));
            match their_first {
                Some(j) => {
                    assert(count_or_zero(mine, j) == count_or_zero(theirs, j));
                },
                None => {},
            }
        },
        None => {
            match their_first {
                Some(j) => {
                    assert(count_or_zero(mine, j) == count_or_zero(theirs, j));
                },
                None => {},
            }
        },
    }
}

impl HistogramView {
    /// Whether the extremes are those of the counts: the maximum is the
    /// highest value of the highest slot with a count, and the non-zero
    /// minimum the lowest value of the lowest such slot above slot 0; both
    /// are unset where there is no such slot.
    pub open spec fn extremes_fit_counts(self) -> bool {
        &&& self.max_value() == (match last_recorded_index(self.counts, self.counts.len() as int) {
            Some(i) => self.settings.spec_highest_equivalent_value(
                self.settings.spec_value_from_index(i as nat) as u64,
            ),
            None => ORIGINAL_MAX as nat,
        })
        &&& self.min_non_zero_value() == (match first_recorded_index_above_zero(
            self.counts,
            self.counts.len() as int,
        ) {
            Some(i) => self.settings.spec_value_from_index(i as nat),
            None => ORIGINAL_MIN as nat,
        })
    }

    /// Two histograms of the same lowest discernible value and number of
    /// significant digits, whose extremes are those of their counts, hold the
    /// same recording if and only if their slots agree, with nothing where
    /// one counts array ends before the other.
    pub proof fn lemma_same_recording_is_agreeing_slots(self, other: HistogramView)
        requires
            self.wf(),
            other.wf(),
            self.settings.lowest_discernible_value == other.settings.lowest_discernible_value,
            self.settings.number_of_significant_value_digits
                == other.settings.number_of_significant_value_digits,
            self.extremes_fit_counts(),
            other.extremes_fit_counts(),
        ensures
            self.same_recording(other) <==> slots_agree(self.counts, other.counts),
    {
        if slots_agree(self.counts, other.counts) {
            lemma_agreeing_sums(self.counts, other.counts);
            lemma_agreeing_extreme_slots(self.counts, other.counts);
            assert forall|i: int| 0 <= i implies #[trigger] self.count_at(i) == other.count_at(
                i,
            ) by {
                assert(count_or_zero(self.counts, i) == count_or_zero(other.counts, i));
            }
            assert(self.settings.u() == other.settings.u());
            assert(self.settings.m() == other.settings.m());
        }
        if self.same_recording(other) {
            assert forall|i: int| 0 <= i implies #[trigger] count_or_zero(self.counts, i)
                == count_or_zero(other.counts, i) by {
                assert(self.count_at(i) == other.count_at(i));
            }
        }
    }

    /// An empty histogram has the extremes of its counts: none.
    pub proof fn lemma_empty_extremes_fit(settings: crate::histogram_settings::HistogramSettings)
        requires
            settings.wf(),
        ensures
            HistogramView::empty(settings).extremes_fit_counts(),
    {
        let empty = HistogramView::empty(settings);
        lemma_last_recorded_index(empty.counts, empty.counts.len() as int);
        lemma_first_recorded_index_above_zero(empty.counts, empty.counts.len() as int);
    }

    /// A record of a value of at least one unit and below `u64::MAX`, made
    /// at least once, into a slot of its own keeps the extremes those of the
    /// counts.
    pub proof fn lemma_record_keeps_extremes_fit(self, value: u64, count: u64)
        requires
            self.wf(),
            self.extremes_fit_counts(),
            self.in_range(value),
            vstd::arithmetic::power2::pow2(self.settings.u()) <= value < u64::MAX,
            count >= 1,
            self.total_count + count <= u64::MAX,
        ensures
            self.recorded(value, count).extremes_fit_counts(),
    {
        let s = self.settings;
        let n = self.counts.len() as int;
        let slot = self.index_of(value);
        let after = self.recorded(value, count);
        s.lemma_layout();
        self.lemma_counted_wf(slot, value, count);
        lemma_last_recorded_index(self.counts, n);
        lemma_last_recorded_index(after.counts, n);
        lemma_first_recorded_index_above_zero(self.counts, n);
        lemma_first_recorded_index_above_zero(after.counts, n);
        s.lemma_slot_zero_is_below_one_unit(value);
        s.lemma_slots_in_reach(slot as nat);
        s.lemma_index_round_trip(value);
        s.lemma_value_within_equivalent_range(value);
        s.lemma_unit_masking(value);
        s.lemma_unit_equivalent(value);
        s.lemma_unit_floor_is_whole(value);
        let lowest = s.spec_lowest_equivalent_value(value) as u64;
        s.lemma_same_slot(value, lowest);
        let up = s.spec_unit_ceiling(value) as u64;
        let down = s.spec_unit_floor(value) as u64;
        s.lemma_index_round_trip(up);
        s.lemma_index_round_trip(down);
        s.lemma_value_within_equivalent_range(up);
        s.lemma_value_within_equivalent_range(down);
        s.lemma_same_slot(up, value);
        s.lemma_same_slot(value, down);
        assert(after.counts[slot] != 0);
        assert forall|i: int| 0 <= i < n && i != slot implies after.counts[i] == self.counts[i] by {}
        // the maximum
        if value > self.raw_max_value {
            match last_recorded_index(self.counts, n) {
                Some(i) => {
                    s.lemma_index_monotonic(self.raw_max_value, value);
                },
                None => {},
            }
            assert(last_recorded_index(after.counts, n) == Some(slot));
        } else {
            let raw = self.raw_max_value;
            s.lemma_value_within_equivalent_range(raw);
            let top = s.spec_highest_equivalent_value(raw) as u64;
            s.lemma_same_slot(raw, top);
            s.lemma_index_monotonic(value, raw);
            let last = last_recorded_index(self.counts, n);
            assert(last is Some);
            let i = last->0;
            s.lemma_slots_in_reach(i as nat);
            s.lemma_index_class(i as nat);
            let v = s.spec_value_from_index(i as nat) as u64;
            s.lemma_value_within_equivalent_range(v);
            s.lemma_same_slot(v, s.spec_highest_equivalent_value(v) as u64);
            assert(self.index_of(raw) == i);
            assert(last_recorded_index(after.counts, n) == Some(i));
        }
        // the minimum above zero
        if value < self.raw_min_non_zero_value {
            assert forall|i: int| 1 <= i < slot implies self.counts[i] == 0 by {
                if self.counts[i] != 0 {
                    s.lemma_index_monotonic(value, self.raw_min_non_zero_value);
                }
            }
            assert(first_recorded_index_above_zero(after.counts, n) == Some(slot));
        } else {
            let raw = self.raw_min_non_zero_value;
            s.lemma_value_within_equivalent_range(raw);
            let bottom = s.spec_lowest_equivalent_value(raw) as u64;
            s.lemma_same_slot(raw, bottom);
            s.lemma_index_monotonic(raw, value);
            let first = first_recorded_index_above_zero(self.counts, n);
            assert(first is Some);
            let i = first->0;
            s.lemma_slots_in_reach(i as nat);
            s.lemma_index_class(i as nat);
            assert(self.index_of(raw) == i);
            assert(first_recorded_index_above_zero(after.counts, n) == Some(i));
        }
    }

    /// A histogram with the total and the extremes worked out from its
    /// counts has the extremes of its counts.
    pub proof fn lemma_established_extremes_fit(self, counts: Seq<u64>)
        requires
            self.settings.wf(),
            counts.len() == self.settings.counts_array_length,
            sum_counts(counts) <= u64::MAX,
        ensures
            self.established(counts).extremes_fit_counts(),
    {
        let s = self.settings;
        let n = counts.len() as int;
        s.lemma_layout();
        lemma_last_recorded_index(counts, n);
        lemma_first_recorded_index_above_zero(counts, n);
        self.lemma_established_wf(counts);
        match last_recorded_index(counts, n) {
            Some(i) => {
                s.lemma_slots_in_reach(i as nat);
                s.lemma_index_class(i as nat);
                let v = s.spec_value_from_index(i as nat) as u64;
                s.lemma_value_within_equivalent_range(v);
                let top = s.spec_highest_equivalent_value(v) as u64;
                s.lemma_same_slot(v, top);
                s.lemma_unit_equivalent(top);
                s.lemma_unit_masking(top);
                s.lemma_highest_equivalent_tops_its_slot(v);
                let raw = s.spec_unit_ceiling(top) as u64;
                s.lemma_index_round_trip(raw);
                s.lemma_index_round_trip(top);
                s.lemma_value_within_equivalent_range(raw);
                s.lemma_same_slot(raw, top);
            },
            None => {},
        }
        match first_recorded_index_above_zero(counts, n) {
            Some(i) => {
                s.lemma_slots_in_reach(i as nat);
                s.lemma_index_class(i as nat);
                let v = s.spec_value_from_index(i as nat) as u64;
                s.lemma_value_within_equivalent_range(v);
                s.lemma_unit_equivalent(v);
                s.lemma_unit_masking(v);
                s.lemma_unit_floor_is_whole(v);
                let raw = s.spec_unit_floor(v) as u64;
                s.lemma_index_round_trip(raw);
                s.lemma_index_round_trip(v);
                s.lemma_value_within_equivalent_range(raw);
                s.lemma_value_class(v);
                vstd::arithmetic::power2::lemma2_to64();
                vstd::arithmetic::power2::lemma_pow2_pos(s.spec_bucket_index(v) + s.u());
                assert(raw != ORIGINAL_MIN);
            },
            None => {},
        }
    }
}

} // verus!
