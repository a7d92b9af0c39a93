//! One step of an iteration, whatever the strategy.

use vstd::prelude::*;
use crate::counts::{prefix_sum, lemma_prefix_sum_step, lemma_prefix_sum_monotone};
use crate::histogram_settings::HistogramSettings;
use crate::iteration::iteration_state::IterationState;
use crate::iteration::iteration_strategy::IterationStrategy;
use crate::iteration::iteration_value::IterationValue;
use crate::readable_histogram::ReadableHistogram;
use crate::st::histogram_view::HistogramView;

verus! {

/// An iteration over a histogram by a strategy.
pub struct HistogramIterator<'a, T, S> {
    pub histogram: &'a T,
    pub state: IterationState,
    pub strategy: S,
}

impl<'a, T: ReadableHistogram, S: IterationStrategy<T>> HistogramIterator<'a, T, S> {
    /// Whether the iteration stands where its histogram lets it stand.
    pub open spec fn wf(&self) -> bool {
        &&& self.histogram.readable_wf()
        &&& self.state.fits(self.histogram.readable_view())
    }

    /// What reading on from the slot that `state` has reached comes to: the
    /// slots are read one by one up to the first at which `strategy` ends a
    /// step. The result is the report of that step, if there is such a slot,
    /// and the state and the strategy as the reading leaves them. (A counts
    /// array has no more slots than 32 bits count.)
    pub open spec fn scanned(strategy: S, state: IterationState, view: HistogramView) -> (
        Option<IterationValue>,
        IterationState,
        S,
    )
        decreases view.counts.len() - state.current_index,
    {
        if state.current_index >= view.counts.len() || view.counts.len() > u32::MAX {
            (None, state, strategy)
        } else if strategy.reaches(state.read(view), view) {
            let value = strategy.value_reached(state.read(view), view);
            (
                Some(state.read(view).report(value)),
                state.read(view).reported(value),
                strategy.moved_on(state.read(view).reported(value), view),
            )
        } else {
            Self::scanned(strategy, state.read(view).advanced(view), view)
        }
    }

    /// What the next step comes to: nothing where the strategy has no
    /// further step, and else what reading on from the slot reached comes
    /// to.
    pub open spec fn stepped(strategy: S, state: IterationState, view: HistogramView) -> (
        Option<IterationValue>,
        IterationState,
        S,
    ) {
        if strategy.goes_on(state, view) {
            Self::scanned(strategy.asked(state, view), state, view)
        } else {
            (None, state, strategy.asked(state, view))
        }
    }

    /// Makes the next step: reads on from the slot reached, slot by slot, to
    /// the next slot at which the strategy ends a step, and reports that
    /// step. `None` where the strategy has no further step, or ends none
    /// before the counts array does.
    pub fn next_value(&mut self) -> (r: Option<IterationValue>)
        requires
            old(self).wf(),
        ensures
            final(self).wf(),
            final(self).histogram == old(self).histogram,
            (r, final(self).state, final(self).strategy) == Self::stepped(
                old(self).strategy,
                old(self).state,
                old(self).histogram.readable_view(),
            ),
            match r {
                Some(value) => {
                    let view = old(self).histogram.readable_view();
                    let index = final(self).state.current_index as int;
                    &&& old(self).state.current_index <= index < view.counts.len()
                    &&& value.count_at_value_iterated_to == view.counts[index]
                    &&& value.total_count_to_this_value == prefix_sum(view.counts, index + 1)
                    &&& value.count_added_in_this_iteration_step == prefix_sum(
                        view.counts,
                        index + 1,
                    ) - old(self).state.total_count_to_prev_index
                    &&& value.value_iterated_from == old(self).state.prev_value_iterated_to
                    &&& value.array_total_count == view.total_count
                    &&& final(self).state.prev_value_iterated_to == value.value_iterated_to
                    &&& final(self).state.total_count_to_prev_index
                        == value.total_count_to_this_value
                },
                None => final(self).state.current_index >= old(self).state.current_index,
            },
    {
        let histogram = self.histogram;
        let ghost view = histogram.readable_view();
        let ghost target = Self::stepped(self.strategy, self.state, view);
        proof {
            histogram.lemma_readable();
            histogram.readable_view().lemma_highest_recordable();
        }
        if !self.strategy.has_next(&self.state, histogram) {
            return None;
        }
        let length = histogram.array_length();
        while self.state.current_index < length
            invariant
                histogram.readable_wf(),
                self.histogram == histogram,
                histogram == old(self).histogram,
                view == histogram.readable_view(),
                view.wf(),
                length == view.counts.len(),
                self.state.fits(view),
                self.state.current_index >= old(self).state.current_index,
                self.state.total_count_to_prev_index == old(self).state.total_count_to_prev_index,
                self.state.prev_value_iterated_to == old(self).state.prev_value_iterated_to,
                Self::scanned(self.strategy, self.state, view) == target,
                target == Self::stepped(old(self).strategy, old(self).state, view),
            decreases length - self.state.current_index,
        {
            let index = self.state.current_index;
            let ghost before = self.state;
            let ghost strategy = self.strategy;
            proof {
                lemma_prefix_sum_step(view.counts, index as int);
                lemma_prefix_sum_monotone(view.counts, index + 1, length as int);
                view.settings.lemma_slots_in_reach(index as nat);
            }
            self.state.count_at_this_value = histogram.unsafe_get_count_at_index(index);
            if self.state.fresh_sub_bucket {
                self.state.total_count_to_current_index = self.state.total_count_to_current_index
                    + self.state.count_at_this_value;
                let highest = histogram.settings().highest_equivalent_value(
                    self.state.current_value_at_index,
                );
                self.state.total_value_to_current_index =
                    self.state.total_value_to_current_index.wrapping_add(
                    self.state.count_at_this_value.wrapping_mul(highest),
                );
                self.state.fresh_sub_bucket = false;
            }
            assert(self.state == before.read(view));
            if self.strategy.reached_iteration_level(&self.state, histogram) {
                let value_iterated_to = self.strategy.get_value_iterated_to(
                    &self.state,
                    histogram,
                );
                let iteration_value = IterationValue {
                    value_iterated_to,
                    count_at_value_iterated_to: self.state.count_at_this_value,
                    value_iterated_from: self.state.prev_value_iterated_to,
                    count_added_in_this_iteration_step: self.state.total_count_to_current_index
                        - self.state.total_count_to_prev_index,
                    total_count_to_this_value: self.state.total_count_to_current_index,
                    total_value_to_this_value: self.state.total_value_to_current_index,
                    array_total_count: self.state.array_total_count,
                };
                self.state.prev_value_iterated_to = value_iterated_to;
                self.state.total_count_to_prev_index = self.state.total_count_to_current_index;
                assert(self.state == before.read(view).reported(value_iterated_to));
                assert(iteration_value == before.read(view).report(value_iterated_to));
                self.strategy.increment_iteration_level(&self.state, histogram);
                assert(Self::scanned(strategy, before, view) == (
                    Some(iteration_value),
                    self.state,
                    self.strategy,
                ));
                return Some(iteration_value);
            }
            increment_sub_bucket(&mut self.state, histogram.settings(), length, Ghost(view));
            assert(Self::scanned(strategy, before, view) == Self::scanned(
                self.strategy,
                self.state,
                view,
            ));
        }
        None
    }
}

/// Moves `state` on to the next slot.
fn increment_sub_bucket(
    state: &mut IterationState,
    settings: &HistogramSettings,
    length: u32,
    Ghost(view): Ghost<HistogramView>,
)
    requires
        view.wf(),
        *settings == view.settings,
        length == view.counts.len(),
        old(state).fits(view),
        old(state).current_index < length,
        !old(state).fresh_sub_bucket,
    ensures
        final(state).fits(view),
        *final(state) == old(state).advanced(view),
{
    state.fresh_sub_bucket = true;
    state.current_index = state.current_index + 1;
    if state.current_index < length {
        proof {
            view.settings.lemma_slots_in_reach(state.current_index as nat);
        }
        state.current_value_at_index = settings.value_from_index(state.current_index);
        if state.current_index + 1 < length {
            proof {
                view.settings.lemma_slots_in_reach((state.current_index + 1) as nat);
            }
            state.next_value_at_index = settings.value_from_index(state.current_index + 1);
        } else {
            // behind the last slot: the value after the highest of that slot
            state.next_value_at_index = settings.next_non_equivalent_value(
                state.current_value_at_index,
            );
        }
    }
}

} // verus!
