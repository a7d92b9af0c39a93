//! The ways to step through a histogram.

use vstd::prelude::*;
use crate::iteration::iteration_state::IterationState;
use crate::readable_histogram::ReadableHistogram;
use crate::st::histogram_view::HistogramView;

verus! {

/// A way to step through a histogram: it says at which slots a step ends, and
/// whether a further step is to come. What each method does is given by a
/// function of the strategy, the state and the histogram.
pub trait IterationStrategy<T: ReadableHistogram>: Sized {
    /// Whether a step ends at the slot that `state` has reached.
    spec fn reaches(&self, state: IterationState, view: HistogramView) -> bool;

    /// The strategy once a step has ended at the slot that `state` has
    /// reached.
    spec fn moved_on(&self, state: IterationState, view: HistogramView) -> Self;

    /// Whether a further step is to come.
    spec fn goes_on(&self, state: IterationState, view: HistogramView) -> bool;

    /// The strategy once it was asked whether a further step is to come.
    spec fn asked(&self, state: IterationState, view: HistogramView) -> Self;

    /// The value that the step which ends at the slot that `state` has
    /// reached reports.
    spec fn value_reached(&self, state: IterationState, view: HistogramView) -> u64;

    /// Whether a step ends at the slot that `state` has reached.
    fn reached_iteration_level(&mut self, state: &IterationState, histogram: &T) -> (r: bool)
        requires
            histogram.readable_wf(),
            state.fits(histogram.readable_view()),
            !state.fresh_sub_bucket,
        ensures
            r == old(self).reaches(*state, histogram.readable_view()),
            *final(self) == *old(self),
    ;

    /// Takes note that a step has ended at the slot that `state` has reached.
    fn increment_iteration_level(&mut self, state: &IterationState, histogram: &T)
        requires
            histogram.readable_wf(),
            state.fits(histogram.readable_view()),
            !state.fresh_sub_bucket,
        ensures
            *final(self) == old(self).moved_on(*state, histogram.readable_view()),
    ;

    /// Whether a further step is to come.
    fn has_next(&mut self, state: &IterationState, histogram: &T) -> (r: bool)
        requires
            histogram.readable_wf(),
            state.fits(histogram.readable_view()),
        ensures
            r == old(self).goes_on(*state, histogram.readable_view()),
            *final(self) == old(self).asked(*state, histogram.readable_view()),
    ;

    /// The value that the step which ends at the slot that `state` has
    /// reached reports.
    fn get_value_iterated_to(&mut self, state: &IterationState, histogram: &T) -> (r: u64)
        requires
            histogram.readable_wf(),
            state.fits(histogram.readable_view()),
            !state.fresh_sub_bucket,
        ensures
            r == old(self).value_reached(*state, histogram.readable_view()),
            *final(self) == *old(self),
    ;
}

/// Whether values are recorded beyond the slots that `state` has summed up.
pub open spec fn more_recorded(state: IterationState) -> bool {
    state.total_count_to_current_index < state.array_total_count
}

/// The highest value of the slot that `state` has reached.
pub open spec fn highest_value_reached(state: IterationState, view: HistogramView) -> u64 {
    view.settings.spec_highest_equivalent_value(state.current_value_at_index) as u64
}

/// Whether `state` has reached the last slot.
pub open spec fn at_last_slot(state: IterationState, view: HistogramView) -> bool {
    state.current_index >= view.counts.len() - 1
}

/// `level + step`, or `u64::MAX` where that does not fit in 64 bits.
pub open spec fn plus_or_highest(level: u64, step: u64) -> u64 {
    if level + step > u64::MAX {
        u64::MAX
    } else {
        (level + step) as u64
    }
}

/// `level * factor`, or `u64::MAX` where that does not fit in 64 bits.
pub open spec fn spec_times_or_highest(level: u64, factor: u64) -> u64 {
    if level * factor > u64::MAX {
        u64::MAX
    } else {
        (level * factor) as u64
    }
}

/// Whether values are recorded beyond the slots that `state` has summed up.
pub fn default_has_next(state: &IterationState) -> (r: bool)
    ensures
        r == more_recorded(*state),
{
    state.total_count_to_current_index < state.array_total_count
}

/// The highest value of the slot that `state` has reached.
fn highest_value_of_current_slot<T: ReadableHistogram>(state: &IterationState, histogram: &T) -> (r:
    u64)
    requires
        histogram.readable_wf(),
    ensures
        r == highest_value_reached(*state, histogram.readable_view()),
{
    proof {
        histogram.lemma_readable();
    }
    histogram.settings().highest_equivalent_value(state.current_value_at_index)
}

/// Whether `state` has reached the last slot of `histogram`.
fn is_at_last_slot<T: ReadableHistogram>(state: &IterationState, histogram: &T) -> (r: bool)
    requires
        histogram.readable_wf(),
    ensures
        r == at_last_slot(*state, histogram.readable_view()),
{
    proof {
        histogram.lemma_readable();
        histogram.readable_view().lemma_highest_recordable();
    }
    state.current_index >= histogram.array_length() - 1
}

/// A step for every slot.
pub struct AllValuesStrategy {
    pub visited_index: isize,
}

impl<T: ReadableHistogram> IterationStrategy<T> for AllValuesStrategy {
    /// A step ends at every slot at which none has ended yet.
    open spec fn reaches(&self, state: IterationState, view: HistogramView) -> bool {
        self.visited_index != state.current_index as isize
    }

    /// The slot at which the step has ended is kept.
    open spec fn moved_on(&self, state: IterationState, view: HistogramView) -> Self {
        AllValuesStrategy { visited_index: state.current_index as isize }
    }

    /// A further step is to come until the last slot is reached.
    open spec fn goes_on(&self, state: IterationState, view: HistogramView) -> bool {
        !at_last_slot(state, view)
    }

    open spec fn asked(&self, state: IterationState, view: HistogramView) -> Self {
        *self
    }

    /// A step reports the highest value of its slot.
    open spec fn value_reached(&self, state: IterationState, view: HistogramView) -> u64 {
        highest_value_reached(state, view)
    }

    fn reached_iteration_level(&mut self, state: &IterationState, histogram: &T) -> (r: bool) {
        self.visited_index != state.current_index as isize
    }

    fn increment_iteration_level(&mut self, state: &IterationState, histogram: &T) {
        self.visited_index = state.current_index as isize;
    }

    fn has_next(&mut self, state: &IterationState, histogram: &T) -> (r: bool) {
        !is_at_last_slot(state, histogram)
    }

    fn get_value_iterated_to(&mut self, state: &IterationState, histogram: &T) -> (r: u64) {
        highest_value_of_current_slot(state, histogram)
    }
}

/// A step for every slot that holds a count.
pub struct RecordedValuesStrategy {
    pub visited_index: isize,
}

impl<T: ReadableHistogram> IterationStrategy<T> for RecordedValuesStrategy {
    /// A step ends at every slot that holds a count and at which none has
    /// ended yet.
    open spec fn reaches(&self, state: IterationState, view: HistogramView) -> bool {
        view.counts[state.current_index as int] != 0 && self.visited_index
            != state.current_index as isize
    }

    /// The slot at which the step has ended is kept.
    open spec fn moved_on(&self, state: IterationState, view: HistogramView) -> Self {
        RecordedValuesStrategy { visited_index: state.current_index as isize }
    }

    /// A further step is to come while values are recorded beyond the slots
    /// that are summed up.
    open spec fn goes_on(&self, state: IterationState, view: HistogramView) -> bool {
        more_recorded(state)
    }

    open spec fn asked(&self, state: IterationState, view: HistogramView) -> Self {
        *self
    }

    /// A step reports the highest value of its slot.
    open spec fn value_reached(&self, state: IterationState, view: HistogramView) -> u64 {
        highest_value_reached(state, view)
    }

    fn reached_iteration_level(&mut self, state: &IterationState, histogram: &T) -> (r: bool) {
        let current_count = histogram.unsafe_get_count_at_index(state.current_index);
        current_count != 0 && self.visited_index != state.current_index as isize
    }

    fn increment_iteration_level(&mut self, state: &IterationState, histogram: &T) {
        self.visited_index = state.current_index as isize;
    }

    fn has_next(&mut self, state: &IterationState, histogram: &T) -> (r: bool) {
        default_has_next(state)
    }

    fn get_value_iterated_to(&mut self, state: &IterationState, histogram: &T) -> (r: u64) {
        highest_value_of_current_slot(state, histogram)
    }
}

/// A step for every `value_units_per_bucket` value units.
pub struct LinearStrategy {
    pub value_units_per_bucket: u64,
    pub current_step_highest_value_reporting_level: u64,
    pub current_step_lowest_value_reporting_level: u64,
}

impl<T: ReadableHistogram> IterationStrategy<T> for LinearStrategy {
    /// A step ends at the first slot whose lowest value has reached the
    /// level of the step, and at the last slot.
    open spec fn reaches(&self, state: IterationState, view: HistogramView) -> bool {
        state.current_value_at_index >= self.current_step_lowest_value_reporting_level
            || at_last_slot(state, view)
    }

    /// The level moves up by the value units of a step, as far as 64 bits
    /// reach.
    open spec fn moved_on(&self, state: IterationState, view: HistogramView) -> Self {
        let highest = plus_or_highest(
            self.current_step_highest_value_reporting_level,
            self.value_units_per_bucket,
        );
        LinearStrategy {
            value_units_per_bucket: self.value_units_per_bucket,
            current_step_highest_value_reporting_level: highest,
            current_step_lowest_value_reporting_level: view.settings.spec_lowest_equivalent_value(
                highest,
            ) as u64,
        }
    }

    /// A further step is to come while values are recorded beyond the slots
    /// that are summed up, or the level lies below the next slot.
    open spec fn goes_on(&self, state: IterationState, view: HistogramView) -> bool {
        more_recorded(state) || self.current_step_highest_value_reporting_level
            < state.next_value_at_index
    }

    open spec fn asked(&self, state: IterationState, view: HistogramView) -> Self {
        *self
    }

    /// A step reports the level up to which it reaches.
    open spec fn value_reached(&self, state: IterationState, view: HistogramView) -> u64 {
        self.current_step_highest_value_reporting_level
    }

    fn reached_iteration_level(&mut self, state: &IterationState, histogram: &T) -> (r: bool) {
        state.current_value_at_index >= self.current_step_lowest_value_reporting_level
            || is_at_last_slot(state, histogram)
    }

    fn increment_iteration_level(&mut self, state: &IterationState, histogram: &T) {
        proof {
            histogram.lemma_readable();
        }
        self.current_step_highest_value_reporting_level =
            self.current_step_highest_value_reporting_level.saturating_add(
            self.value_units_per_bucket,
        );
        self.current_step_lowest_value_reporting_level =
            histogram.settings().lowest_equivalent_value(
            self.current_step_highest_value_reporting_level,
        );
    }

    fn has_next(&mut self, state: &IterationState, histogram: &T) -> (r: bool) {
        default_has_next(state) || (self.current_step_highest_value_reporting_level
            < state.next_value_at_index)
    }

    fn get_value_iterated_to(&mut self, state: &IterationState, histogram: &T) -> (r: u64) {
        self.current_step_highest_value_reporting_level
    }
}

/// `level * factor`, or `u64::MAX` where that does not fit in 64 bits.
pub fn times_or_highest(level: u64, factor: u64) -> (r: u64)
    ensures
        r == spec_times_or_highest(level, factor),
{
    if factor == 0 {
        assert(level * 0 == 0);
        return 0;
    }
    let limit: u64 = u64::MAX / factor;
    proof {
        crate::histogram_settings::lemma_div_brackets(u64::MAX as nat, factor as nat);
        let l = level as int;
        let f = factor as int;
        let q = limit as int;
        if level > limit {
            assert(l * f >= (q + 1) * f) by (nonlinear_arith)
                requires
                    l >= q + 1,
                    f >= 0,
            ;
        } else {
            assert(l * f <= q * f) by (nonlinear_arith)
                requires
                    0 <= l <= q,
                    f >= 0,
            ;
        }
    }
    if level > limit {
        u64::MAX
    } else {
        level * factor
    }
}

/// Steps that grow by a factor: the first step takes
/// `value_units_in_first_bucket` value units, and each further step reaches
/// `log_base` times as far as the one before. The factor is a whole number.
pub struct LogarithmicStrategy {
    pub value_units_in_first_bucket: u64,
    pub log_base: u64,
    pub next_value_reporting_level: u64,
    pub current_step_highest_value_reporting_level: u64,
    pub current_step_lowest_value_reporting_level: u64,
}

impl<T: ReadableHistogram> IterationStrategy<T> for LogarithmicStrategy {
    /// A step ends at the first slot whose lowest value has reached the
    /// level of the step, and at the last slot.
    open spec fn reaches(&self, state: IterationState, view: HistogramView) -> bool {
        state.current_value_at_index >= self.current_step_lowest_value_reporting_level
            || at_last_slot(state, view)
    }

    /// The next level is the factor times the level before, as far as 64
    /// bits reach, and the step reaches up to the value below it.
    open spec fn moved_on(&self, state: IterationState, view: HistogramView) -> Self {
        let next = spec_times_or_highest(self.next_value_reporting_level, self.log_base);
        let highest = if next == 0 {
            0u64
        } else {
            (next - 1) as u64
        };
        LogarithmicStrategy {
            value_units_in_first_bucket: self.value_units_in_first_bucket,
            log_base: self.log_base,
            next_value_reporting_level: next,
            current_step_highest_value_reporting_level: highest,
            current_step_lowest_value_reporting_level: view.settings.spec_lowest_equivalent_value(
                highest,
            ) as u64,
        }
    }

    /// A further step is to come while values are recorded beyond the slots
    /// that are summed up, or the slot of the next level lies below the next
    /// slot.
    open spec fn goes_on(&self, state: IterationState, view: HistogramView) -> bool {
        more_recorded(state) || view.settings.spec_lowest_equivalent_value(
            self.next_value_reporting_level,
        ) < state.next_value_at_index
    }

    open spec fn asked(&self, state: IterationState, view: HistogramView) -> Self {
        *self
    }

    /// A step reports the level up to which it reaches.
    open spec fn value_reached(&self, state: IterationState, view: HistogramView) -> u64 {
        self.current_step_highest_value_reporting_level
    }

    fn reached_iteration_level(&mut self, state: &IterationState, histogram: &T) -> (r: bool) {
        state.current_value_at_index >= self.current_step_lowest_value_reporting_level
            || is_at_last_slot(state, histogram)
    }

    fn increment_iteration_level(&mut self, state: &IterationState, histogram: &T) {
        proof {
            histogram.lemma_readable();
        }
        self.next_value_reporting_level = times_or_highest(
            self.next_value_reporting_level,
            self.log_base,
        );
        self.current_step_highest_value_reporting_level =
            self.next_value_reporting_level.saturating_sub(1);
        self.current_step_lowest_value_reporting_level =
            histogram.settings().lowest_equivalent_value(
            self.current_step_highest_value_reporting_level,
        );
    }

    fn has_next(&mut self, state: &IterationState, histogram: &T) -> (r: bool) {
        proof {
            histogram.lemma_readable();
        }
        default_has_next(state) || histogram.settings().lowest_equivalent_value(
            self.next_value_reporting_level,
        ) < state.next_value_at_index
    }

    fn get_value_iterated_to(&mut self, state: &IterationState, histogram: &T) -> (r: u64) {
        self.current_step_highest_value_reporting_level
    }
}

} // verus!
