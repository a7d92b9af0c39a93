//! What the iterations report, shown on their first steps.

use vstd::prelude::*;
use vstd::wrapping::u64_specs::wrapping_mul;
use crate::iteration::histogram_iterator::HistogramIterator;
use crate::iteration::iteration_state::IterationState;
use crate::iteration::iteration_strategy::{AllValuesStrategy, RecordedValuesStrategy};
use crate::iteration::iteration_value::IterationValue;
use crate::st::histogram::Histogram;
use crate::st::histogram_view::HistogramView;

verus! {

/// The first step over every slot ends at slot 0: it reports the highest
/// value of that slot and its count.
pub proof fn lemma_all_values_first_step(view: HistogramView)
    requires
        view.wf(),
        view.counts.len() > 1,
    ensures
        HistogramIterator::<Histogram, AllValuesStrategy>::stepped(
            AllValuesStrategy { visited_index: -1isize },
            IterationState::initial(view),
            view,
        ).0 == Some(
            IterationValue {
                value_iterated_to: view.settings.spec_highest_equivalent_value(0) as u64,
                value_iterated_from: 0,
                count_at_value_iterated_to: view.counts[0],
                count_added_in_this_iteration_step: view.counts[0],
                total_count_to_this_value: view.counts[0],
                total_value_to_this_value: wrapping_mul(
                    view.counts[0],
                    view.settings.spec_highest_equivalent_value(0) as u64,
                ),
                array_total_count: view.total_count,
            },
        ),
{
    view.lemma_highest_recordable();
    let start = IterationState::initial(view);
    let strategy = AllValuesStrategy { visited_index: -1isize };
    let read = start.read(view);
    assert(<AllValuesStrategy as crate::iteration::iteration_strategy::IterationStrategy<
        Histogram,
    >>::reaches(&strategy, read, view));
}

/// The iteration over the slots that hold a count has no step in a
/// histogram that holds nothing.
pub proof fn lemma_recorded_values_of_nothing(view: HistogramView)
    requires
        view.wf(),
        view.total_count == 0,
    ensures
        HistogramIterator::<Histogram, RecordedValuesStrategy>::stepped(
            RecordedValuesStrategy { visited_index: -1isize },
            IterationState::initial(view),
            view,
        ).0 is None,
{
}

/// A slot without a count ends no step of the iteration over the slots that
/// hold a count: the reading goes on to the next slot.
pub proof fn lemma_recorded_values_pass_empty_slots(
    strategy: RecordedValuesStrategy,
    state: IterationState,
    view: HistogramView,
)
    requires
        state.current_index < view.counts.len() <= u32::MAX,
        view.counts[state.current_index as int] == 0,
    ensures
        HistogramIterator::<Histogram, RecordedValuesStrategy>::scanned(strategy, state, view)
            == HistogramIterator::<Histogram, RecordedValuesStrategy>::scanned(
            strategy,
            state.read(view).advanced(view),
            view,
        ),
{
}

/// A slot with a count that was not reported yet ends a step of the
/// iteration over the slots that hold a count, and the step reports the
/// count of the slot and the highest value of the slot.
pub proof fn lemma_recorded_values_stop_at_counts(
    strategy: RecordedValuesStrategy,
    state: IterationState,
    view: HistogramView,
)
    requires
        view.wf(),
        state.current_index < view.counts.len() <= u32::MAX,
        view.counts[state.current_index as int] != 0,
        strategy.visited_index != state.current_index as isize,
    ensures
        HistogramIterator::<Histogram, RecordedValuesStrategy>::scanned(strategy, state, view).0
            matches Some(value) && value.count_at_value_iterated_to
            == view.counts[state.current_index as int] && value.value_iterated_to
            == view.settings.spec_highest_equivalent_value(state.current_value_at_index),
        HistogramIterator::<Histogram, RecordedValuesStrategy>::scanned(
            strategy,
            state,
            view,
        ).1.current_index == state.current_index,
{
    view.settings.lemma_value_within_equivalent_range(state.current_value_at_index);
}

} // verus!
