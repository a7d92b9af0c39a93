//! Operations between two histograms: adding one to another, taking one from
//! another, and comparing them.

use vstd::prelude::*;
use vstd::arithmetic::power2::lemma_pow2_strictly_increases;
use crate::counts::{sum_counts, lemma_sum_update, lemma_prefix_sum_monotone, lemma_prefix_sum_step};
use crate::errors::{RecordError, SubtractionError};
use crate::st::histogram::Histogram;
use crate::st::histogram_view::HistogramView;

verus! {

/// What taking the first `n` slots of `other` away leaves: counts that fill
/// the array and do not sum to more than before.
proof fn lemma_counts_without(view: HistogramView, other: HistogramView, n: nat)
    requires
        view.wf(),
        other.wf(),
        view.covers(other),
        n <= other.counts.len(),
    ensures
        match view.counts_without(other, n) {
            Some(counts) => counts.len() == view.counts.len() && sum_counts(counts) <= sum_counts(
                view.counts,
            ),
            None => true,
        },
    decreases n,
{
    if n > 0 {
        lemma_counts_without(view, other, (n - 1) as nat);
        match view.counts_without(other, (n - 1) as nat) {
            Some(counts) => {
                let count = other.counts[n - 1];
                if count != 0 {
                    other.lemma_recorded_below_max(n - 1);
                    view.lemma_highest_recordable();
                    let value = other.settings.spec_value_from_index((n - 1) as nat) as u64;
                    assert(view.in_range(value));
                    let slot = view.index_of(value);
                    if counts[slot] >= count {
                        lemma_sum_update(counts, slot, (counts[slot] - count) as u64);
                    }
                }
            },
            None => {},
        }
    }
}

impl Histogram {
    /// Adds all that `other_histogram` holds: each count is recorded at the
    /// lowest value of its slot in `other_histogram`. Where the two geometries
    /// lay out their slots alike, that is the slot of the same number. A
    /// histogram that does not cover the maximum of the other grows where it
    /// may; where it may not, nothing is added.
    pub fn add(&mut self, other_histogram: &Histogram) -> (r: Result<(), RecordError>)
        requires
            old(self).wf(),
            other_histogram.wf(),
            old(self)@.total_count + other_histogram@.total_count <= u64::MAX,
        ensures
            final(self).wf(),
            match r {
                Ok(()) => {
                    &&& old(self)@.covers(other_histogram@) || old(self)@.settings.auto_resize
                    &&& final(self)@ == old(self)@.added(other_histogram@)
                },
                Err(e) => {
                    &&& e == RecordError::ValueOutOfRangeResizeDisabled
                    &&& !old(self)@.covers(other_histogram@)
                    &&& !old(self)@.settings.auto_resize
                    &&& final(self)@ == old(self)@
                },
            },
            final(self).spec_normalizing_index_offset() == (if r is Ok && !old(self)@.covers(
                other_histogram@,
            ) {
                0
            } else {
                old(self).spec_normalizing_index_offset()
            }),
    {
        proof {
            self.lemma_view_wf();
            other_histogram.lemma_view_wf();
            self@.lemma_highest_recordable();
            other_histogram@.settings.lemma_value_within_equivalent_range(
                other_histogram@.raw_max_value,
            );
        }
        let highest_recordable_value = self.highest_recordable_value();
        let other_max_value = other_histogram.get_max_value();
        if highest_recordable_value < other_max_value {
            if !self.is_auto_resize() {
                return Err(RecordError::ValueOutOfRangeResizeDisabled);
            }
            proof {
                self@.lemma_resized_wf(other_max_value);
            }
            match self.resize(other_max_value) {
                Ok(()) => {},
                Err(e) => {
                    return Err(RecordError::ResizeFailed(e));
                },
            }
        }
        let ghost base = self@;
        let ghost other = other_histogram@;
        let ghost offset = self.spec_normalizing_index_offset();
        proof {
            self.lemma_view_wf();
            base.lemma_highest_recordable();
        }
        let compatible = self.settings().is_add_compatible_with(other_histogram.settings());
        let other_length = other_histogram.counts_array_length();
        let mut i: u32 = 0;
        proof {
            lemma_prefix_sum_monotone(other.counts, 0, 0);
        }
        while i < other_length
            invariant
                self.wf(),
                other_histogram.wf(),
                other_histogram@ == other,
                other.wf(),
                base.wf(),
                base.covers(other),
                i <= other_length,
                other_length == other.counts.len(),
                self@ == base.merged(other, i as nat),
                self.spec_normalizing_index_offset() == offset,
                base.total_count + other.total_count <= u64::MAX,
                compatible == (base.settings.bucket_count == other.settings.bucket_count
                    && base.settings.sub_bucket_count == other.settings.sub_bucket_count
                    && base.settings.unit_magnitude == other.settings.unit_magnitude),
            decreases other_length - i,
        {
            proof {
                lemma_prefix_sum_monotone(other.counts, i + 1, other_length as int);
                lemma_prefix_sum_monotone(other.counts, i as int, other_length as int);
                lemma_prefix_sum_step(other.counts, i as int);
                base.lemma_merged_wf(other, i as nat);
                base.lemma_merged_wf(other, (i + 1) as nat);
                other.settings.lemma_slots_in_reach(i as nat);
            }
            let other_count = match other_histogram.get_count_at_index(i) {
                Some(count) => *count,
                None => 0,
            };
            if other_count != 0 {
                let other_value = other_histogram.value_from_index(i);
                proof {
                    other.lemma_recorded_below_max(i as int);
                    self@.lemma_highest_recordable();
                    assert(self@.in_range(other_value));
                    if compatible {
                        let s = base.settings;
                        let o = other.settings;
                        if s.m() < o.m() {
                            lemma_pow2_strictly_increases(s.m() + 1, o.m() + 1);
                        }
                        if o.m() < s.m() {
                            lemma_pow2_strictly_increases(o.m() + 1, s.m() + 1);
                        }
                        assert(s.m() == o.m());
                        s.lemma_index_class(i as nat);
                    }
                }
                let slot = if compatible {
                    i
                } else {
                    self.counts_array_index(other_value)
                };
                self.count_at(slot, other_value, other_count);
            }
            i = i + 1;
        }
        Ok(())
    }

    /// Takes away all that `other_histogram` holds: each count is taken from
    /// the slot of the lowest value of its slot in `other_histogram`. The
    /// total and the extremes are then worked out from the counts that are
    /// left. Nothing is taken away where `other_histogram` reaches beyond the
    /// counts array, or holds more than there is to take in some slot.
    pub fn subtract(&mut self, other_histogram: &Histogram) -> (r: Result<(), SubtractionError>)
        requires
            old(self).wf(),
            other_histogram.wf(),
        ensures
            final(self).wf(),
            match r {
                Ok(()) => {
                    &&& old(self)@.reaches(other_histogram@)
                    &&& old(self)@.counts_without(
                        other_histogram@,
                        other_histogram@.counts.len(),
                    ) matches Some(counts)
                    &&& final(self)@ == old(self)@.established(counts)
                },
                Err(SubtractionError::ValueOutOfRange) => {
                    &&& !old(self)@.reaches(other_histogram@)
                    &&& final(self)@ == old(self)@
                },
                Err(SubtractionError::CountExceededAtValue) => {
                    &&& old(self)@.reaches(other_histogram@)
                    &&& old(self)@.counts_without(
                        other_histogram@,
                        other_histogram@.counts.len(),
                    ) is None
                    &&& final(self)@ == old(self)@
                },
            },
            final(self).spec_normalizing_index_offset() == (if r is Ok {
                0
            } else {
                old(self).spec_normalizing_index_offset()
            }),
    {
        let ghost view = self@;
        let ghost other = other_histogram@;
        proof {
            self.lemma_view_wf();
            other_histogram.lemma_view_wf();
            view.lemma_highest_recordable();
            other.settings.lemma_value_within_equivalent_range(other.raw_max_value);
            view.settings.lemma_value_within_equivalent_range(other.max_value() as u64);
        }
        let highest_recordable_value = self.highest_recordable_value();
        let other_max_value = self.highest_equivalent_value(other_histogram.get_max_value());
        if highest_recordable_value < other_max_value {
            return Err(SubtractionError::ValueOutOfRange);
        }
        let mut counts = self.logical_counts_vec();
        let other_length = other_histogram.counts_array_length();
        let mut i: u32 = 0;
        while i < other_length
            invariant
                self.wf(),
                self@ == view,
                other_histogram.wf(),
                other_histogram@ == other,
                view.wf(),
                other.wf(),
                view.covers(other),
                view.reaches(other),
                i <= other_length,
                other_length == other.counts.len(),
                view.counts_without(other, i as nat) == Some(counts@),
            decreases other_length - i,
        {
            proof {
                lemma_counts_without(view, other, i as nat);
                other.settings.lemma_slots_in_reach(i as nat);
            }
            let other_count = match other_histogram.get_count_at_index(i) {
                Some(count) => *count,
                None => 0,
            };
            if other_count != 0 {
                let other_value = other_histogram.value_from_index(i);
                proof {
                    other.lemma_recorded_below_max(i as int);
                    view.lemma_highest_recordable();
                    assert(view.in_range(other_value));
                }
                let slot = self.counts_array_index(other_value) as usize;
                let current = counts[slot];
                if current < other_count {
                    proof {
                        assert(view.counts_without(other, (i + 1) as nat) is None);
                        lemma_counts_without_stays_none(
                            view,
                            other,
                            (i + 1) as nat,
                            other_length as nat,
                        );
                    }
                    return Err(SubtractionError::CountExceededAtValue);
                }
                counts.set(slot, current - other_count);
            }
            i = i + 1;
        }
        proof {
            lemma_counts_without(view, other, other_length as nat);
        }
        self.establish_counts(counts);
        Ok(())
    }

    /// Whether the two histograms hold the same recording. The lengths of
    /// their counts arrays may differ.
    pub fn equals(&self, other: &Histogram) -> (r: bool)
        requires
            self.wf(),
            other.wf(),
        ensures
            r == self@.same_recording(other@),
    {
        proof {
            self.lemma_view_wf();
            other.lemma_view_wf();
        }
        if !self.settings().equals(other.settings()) {
            return false;
        }
        if self.get_total_count() != other.get_total_count() {
            return false;
        }
        if self.get_max_value() != other.get_max_value() {
            return false;
        }
        if self.get_min_non_zero_value() != other.get_min_non_zero_value() {
            return false;
        }
        let own_length = self.counts_array_length();
        let other_length = other.counts_array_length();
        let length = if own_length > other_length {
            own_length
        } else {
            other_length
        };
        let mut i: u32 = 0;
        while i < length
            invariant
                self.wf(),
                other.wf(),
                i <= length,
                own_length == self@.counts.len(),
                other_length == other@.counts.len(),
                length >= own_length,
                length >= other_length,
                forall|j: int| 0 <= j < i ==> #[trigger] self@.count_at(j) == other@.count_at(j),
            decreases length - i,
        {
            let own_count = match self.get_count_at_index(i) {
                Some(count) => *count,
                None => 0,
            };
            let other_count = match other.get_count_at_index(i) {
                Some(count) => *count,
                None => 0,
            };
            if own_count != other_count {
                assert(self@.count_at(i as int) != other@.count_at(i as int));
                return false;
            }
            i = i + 1;
        }
        assert forall|j: int| 0 <= j implies #[trigger] self@.count_at(j) == other@.count_at(j) by {
            if j >= length {
            }
        }
        true
    }
}

/// Once a slot holds less than is to be taken from it, taking further slots
/// away does not mend it.
proof fn lemma_counts_without_stays_none(
    view: HistogramView,
    other: HistogramView,
    n: nat,
    m: nat,
)
    requires
        n <= m,
        view.counts_without(other, n) is None,
    ensures
        view.counts_without(other, m) is None,
    decreases m,
{
    if n < m {
        lemma_counts_without_stays_none(view, other, n, (m - 1) as nat);
    }
}

} // verus!
