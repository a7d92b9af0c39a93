//! Where an iteration stands.

use vstd::prelude::*;
use vstd::arithmetic::power2::pow2;
use vstd::wrapping::u64_specs::{wrapping_add, wrapping_mul};
use crate::counts::prefix_sum;
use crate::iteration::iteration_value::IterationValue;
use crate::readable_histogram::ReadableHistogram;
use crate::st::histogram_view::HistogramView;

verus! {

/// The slot that an iteration has reached and what it has summed up so far.
#[derive(Clone, Copy, Debug, PartialEq, Eq, Structural)]
pub struct IterationState {
    pub array_total_count: u64,
    pub count_at_this_value: u64,
    pub current_index: u32,
    pub current_value_at_index: u64,
    pub fresh_sub_bucket: bool,
    pub next_value_at_index: u64,
    pub prev_value_iterated_to: u64,
    pub total_count_to_prev_index: u64,
    pub total_count_to_current_index: u64,
    pub total_value_to_current_index: u64,
}

impl IterationState {
    /// Whether the state fits the histogram `view`: the slot reached lies
    /// within the counts array or just behind it, the count summed up is that
    /// of the slots before the one reached, with that slot itself once it is
    /// not fresh any more, and the value of the slot reached is its lowest.
    pub open spec fn fits(&self, view: HistogramView) -> bool {
        &&& self.array_total_count == view.total_count
        &&& self.current_index <= view.counts.len()
        &&& !self.fresh_sub_bucket ==> self.current_index < view.counts.len()
        &&& self.total_count_to_current_index == prefix_sum(
            view.counts,
            if self.fresh_sub_bucket {
                self.current_index as int
            } else {
                self.current_index + 1
            },
        )
        &&& self.total_count_to_prev_index <= self.total_count_to_current_index
        &&& self.current_index < view.counts.len() ==> self.current_value_at_index
            == view.settings.spec_value_from_index(self.current_index as nat)
        &&& !self.fresh_sub_bucket ==> self.count_at_this_value
            == view.counts[self.current_index as int]
    }

    /// The state before the first step.
    pub open spec fn initial(view: HistogramView) -> IterationState {
        IterationState {
            array_total_count: view.total_count,
            count_at_this_value: 0,
            current_index: 0,
            current_value_at_index: 0,
            fresh_sub_bucket: true,
            next_value_at_index: pow2(view.settings.u()) as u64,
            prev_value_iterated_to: 0,
            total_count_to_prev_index: 0,
            total_count_to_current_index: 0,
            total_value_to_current_index: 0,
        }
    }

    /// The state once the count of the slot reached is read: the count is
    /// taken into the sums where the slot was not read before. The sum of the
    /// values takes each value for the highest of its slot and wraps around
    /// at 64 bits.
    pub open spec fn read(self, view: HistogramView) -> IterationState {
        let count = view.counts[self.current_index as int];
        if self.fresh_sub_bucket {
            IterationState {
                count_at_this_value: count,
                total_count_to_current_index: (self.total_count_to_current_index + count) as u64,
                total_value_to_current_index: wrapping_add(
                    self.total_value_to_current_index,
                    wrapping_mul(
                        count,
                        view.settings.spec_highest_equivalent_value(
                            self.current_value_at_index,
                        ) as u64,
                    ),
                ),
                fresh_sub_bucket: false,
                ..self
            }
        } else {
            IterationState { count_at_this_value: count, ..self }
        }
    }

    /// What a step that ends at the slot reached and reports
    /// `value_iterated_to` tells.
    pub open spec fn report(self, value_iterated_to: u64) -> IterationValue {
        IterationValue {
            value_iterated_to,
            value_iterated_from: self.prev_value_iterated_to,
            count_at_value_iterated_to: self.count_at_this_value,
            count_added_in_this_iteration_step: (self.total_count_to_current_index
                - self.total_count_to_prev_index) as u64,
            total_count_to_this_value: self.total_count_to_current_index,
            total_value_to_this_value: self.total_value_to_current_index,
            array_total_count: self.array_total_count,
        }
    }

    /// The state once a step has ended at the slot reached and reported
    /// `value_iterated_to`.
    pub open spec fn reported(self, value_iterated_to: u64) -> IterationState {
        IterationState {
            prev_value_iterated_to: value_iterated_to,
            total_count_to_prev_index: self.total_count_to_current_index,
            ..self
        }
    }

    /// The state moved on to the next slot, which is not read yet. Behind the
    /// last slot the values stay as they are; at the last slot the value of
    /// the next slot is the value after the highest of the last.
    pub open spec fn advanced(self, view: HistogramView) -> IterationState {
        let index = self.current_index + 1;
        if index < view.counts.len() {
            IterationState {
                fresh_sub_bucket: true,
                current_index: index as u32,
                current_value_at_index: view.settings.spec_value_from_index(index as nat) as u64,
                next_value_at_index: if index + 1 < view.counts.len() {
                    view.settings.spec_value_from_index((index + 1) as nat) as u64
                } else {
                    view.settings.spec_next_non_equivalent_value(
                        view.settings.spec_value_from_index(index as nat) as u64,
                    ) as u64
                },
                ..self
            }
        } else {
            IterationState { fresh_sub_bucket: true, current_index: index as u32, ..self }
        }
    }

    /// The state before the first step of an iteration over `histogram`.
    pub fn new<T: ReadableHistogram>(histogram: &T) -> (r: IterationState)
        requires
            histogram.readable_wf(),
        ensures
            r == IterationState::initial(histogram.readable_view()),
            r.fits(histogram.readable_view()),
    {
        proof {
            histogram.lemma_readable();
            let view = histogram.readable_view();
            view.settings.lemma_layout();
            crate::bits::lemma_one_shl_is_pow2(view.settings.unit_magnitude as u64);
            crate::counts::lemma_prefix_sum_monotone(view.counts, 0, 0);
            view.lemma_highest_recordable();
            view.settings.lemma_slots_in_reach(0);
            view.settings.lemma_index_class(0);
        }
        IterationState {
            array_total_count: histogram.get_total_count(),
            count_at_this_value: 0,
            current_index: 0,
            current_value_at_index: 0,
            fresh_sub_bucket: true,
            next_value_at_index: 1_u64 << histogram.settings().unit_magnitude,
            prev_value_iterated_to: 0,
            total_count_to_prev_index: 0,
            total_count_to_current_index: 0,
            total_value_to_current_index: 0,
        }
    }

    /// Sets the state back to before the first step of an iteration over
    /// `histogram`.
    pub fn reset<T: ReadableHistogram>(&mut self, histogram: &T)
        requires
            histogram.readable_wf(),
        ensures
            *final(self) == IterationState::initial(histogram.readable_view()),
            final(self).fits(histogram.readable_view()),
    {
        *self = IterationState::new(histogram);
    }
}

} // verus!
