//! The iterations that a histogram offers.

use vstd::prelude::*;
use crate::iteration::histogram_iterator::HistogramIterator;
use crate::iteration::iteration_state::IterationState;
use crate::iteration::iteration_strategy::{AllValuesStrategy, LinearStrategy, LogarithmicStrategy, RecordedValuesStrategy};
use crate::iteration::iteration_value::IterationValue;
use crate::readable_histogram::ReadableHistogram;

verus! {

/// The iteration over every slot of a histogram.
pub struct AllValuesIterator<'a, T>(pub HistogramIterator<'a, T, AllValuesStrategy>);

impl<'a, T: ReadableHistogram> AllValuesIterator<'a, T> {
    /// The iteration over every slot of `histogram`, before its first step.
    pub fn new(histogram: &'a T) -> (r: AllValuesIterator<'a, T>)
        requires
            histogram.readable_wf(),
        ensures
            r.0.wf(),
            r.0.histogram == histogram,
            r.0.state == IterationState::initial(histogram.readable_view()),
            r.0.strategy.visited_index == -1,
    {
        let strategy = AllValuesStrategy { visited_index: -1 };
        let state = IterationState::new(histogram);
        AllValuesIterator(HistogramIterator { histogram, state, strategy })
    }

    /// Sets the iteration back to before its first step.
    pub fn reset(&mut self)
        requires
            old(self).0.wf(),
        ensures
            final(self).0.wf(),
            final(self).0.histogram == old(self).0.histogram,
            final(self).0.state == IterationState::initial(old(self).0.histogram.readable_view()),
            final(self).0.strategy.visited_index == -1,
    {
        self.0.state.reset(self.0.histogram);
        self.0.strategy.visited_index = -1;
    }

    /// The next step, if there is one: what reading on from the slot reached
    /// comes to with the strategy of this iteration.
    pub fn next(&mut self) -> (r: Option<IterationValue>)
        requires
            old(self).0.wf(),
        ensures
            final(self).0.wf(),
            final(self).0.histogram == old(self).0.histogram,
            (r, final(self).0.state, final(self).0.strategy) == HistogramIterator::<
                'a,
                T,
                AllValuesStrategy,
            >::stepped(
                old(self).0.strategy,
                old(self).0.state,
                old(self).0.histogram.readable_view(),
            ),
    {
        self.0.next_value()
    }
}

/// The iteration over the slots of a histogram that hold a count.
pub struct RecordedValuesIterator<'a, T>(pub HistogramIterator<'a, T, RecordedValuesStrategy>);

impl<'a, T: ReadableHistogram> RecordedValuesIterator<'a, T> {
    /// The iteration over the slots of `histogram` that hold a count, before
    /// its first step.
    pub fn new(histogram: &'a T) -> (r: RecordedValuesIterator<'a, T>)
        requires
            histogram.readable_wf(),
        ensures
            r.0.wf(),
            r.0.histogram == histogram,
            r.0.state == IterationState::initial(histogram.readable_view()),
            r.0.strategy.visited_index == -1,
    {
        let strategy = RecordedValuesStrategy { visited_index: -1 };
        let state = IterationState::new(histogram);
        RecordedValuesIterator(HistogramIterator { histogram, state, strategy })
    }

    /// Sets the iteration back to before its first step.
    pub fn reset(&mut self)
        requires
            old(self).0.wf(),
        ensures
            final(self).0.wf(),
            final(self).0.histogram == old(self).0.histogram,
            final(self).0.state == IterationState::initial(old(self).0.histogram.readable_view()),
            final(self).0.strategy.visited_index == -1,
    {
        self.0.state.reset(self.0.histogram);
        self.0.strategy.visited_index = -1;
    }

    /// The next step, if there is one: what reading on from the slot reached
    /// comes to with the strategy of this iteration.
    pub fn next(&mut self) -> (r: Option<IterationValue>)
        requires
            old(self).0.wf(),
        ensures
            final(self).0.wf(),
            final(self).0.histogram == old(self).0.histogram,
            (r, final(self).0.state, final(self).0.strategy) == HistogramIterator::<
                'a,
                T,
                RecordedValuesStrategy,
            >::stepped(
                old(self).0.strategy,
                old(self).0.state,
                old(self).0.histogram.readable_view(),
            ),
    {
        self.0.next_value()
    }
}

/// The iteration over a histogram in steps of a fixed number of value units.
pub struct LinearIterator<'a, T>(pub HistogramIterator<'a, T, LinearStrategy>);

impl<'a, T: ReadableHistogram> LinearIterator<'a, T> {
    /// The iteration over `histogram` in steps of `value_units_per_bucket`
    /// value units, before its first step.
    pub fn new(histogram: &'a T, value_units_per_bucket: u64) -> (r: LinearIterator<'a, T>)
        requires
            histogram.readable_wf(),
            value_units_per_bucket >= 1,
        ensures
            r.0.wf(),
            r.0.histogram == histogram,
            r.0.state == IterationState::initial(histogram.readable_view()),
            r.0.strategy.value_units_per_bucket == value_units_per_bucket,
            r.0.strategy.current_step_highest_value_reporting_level == value_units_per_bucket - 1,
            r.0.strategy.current_step_lowest_value_reporting_level
                == histogram.readable_view().settings.spec_lowest_equivalent_value(
                (value_units_per_bucket - 1) as u64,
            ),
    {
        proof {
            histogram.lemma_readable();
        }
        let highest_level = value_units_per_bucket - 1;
        let strategy = LinearStrategy {
            value_units_per_bucket,
            current_step_highest_value_reporting_level: highest_level,
            current_step_lowest_value_reporting_level: histogram.settings().lowest_equivalent_value(
                highest_level,
            ),
        };
        let state = IterationState::new(histogram);
        LinearIterator(HistogramIterator { histogram, state, strategy })
    }

    /// Sets the iteration back to before its first step, with steps of
    /// `value_units_per_bucket` value units.
    pub fn reset(&mut self, value_units_per_bucket: u64)
        requires
            old(self).0.wf(),
            value_units_per_bucket >= 1,
        ensures
            final(self).0.wf(),
            final(self).0.histogram == old(self).0.histogram,
            final(self).0.state == IterationState::initial(old(self).0.histogram.readable_view()),
            final(self).0.strategy.value_units_per_bucket == value_units_per_bucket,
            final(self).0.strategy.current_step_highest_value_reporting_level
                == value_units_per_bucket - 1,
            final(self).0.strategy.current_step_lowest_value_reporting_level == old(
                self,
            ).0.histogram.readable_view().settings.spec_lowest_equivalent_value(
                (value_units_per_bucket - 1) as u64,
            ),
    {
        proof {
            self.0.histogram.lemma_readable();
        }
        self.0.state.reset(self.0.histogram);
        let highest_level = value_units_per_bucket - 1;
        self.0.strategy.value_units_per_bucket = value_units_per_bucket;
        self.0.strategy.current_step_highest_value_reporting_level = highest_level;
        self.0.strategy.current_step_lowest_value_reporting_level =
            self.0.histogram.settings().lowest_equivalent_value(highest_level);
    }

    /// The next step, if there is one: what reading on from the slot reached
    /// comes to with the strategy of this iteration.
    pub fn next(&mut self) -> (r: Option<IterationValue>)
        requires
            old(self).0.wf(),
        ensures
            final(self).0.wf(),
            final(self).0.histogram == old(self).0.histogram,
            (r, final(self).0.state, final(self).0.strategy) == HistogramIterator::<
                'a,
                T,
                LinearStrategy,
            >::stepped(
                old(self).0.strategy,
                old(self).0.state,
                old(self).0.histogram.readable_view(),
            ),
    {
        self.0.next_value()
    }
}

/// The iteration over a histogram in steps that grow by a factor.
pub struct LogarithmicIterator<'a, T>(pub HistogramIterator<'a, T, LogarithmicStrategy>);

impl<'a, T: ReadableHistogram> LogarithmicIterator<'a, T> {
    /// The iteration over `histogram` in steps of which the first takes
    /// `value_units_in_first_bucket` value units and each further one reaches
    /// `log_base` times as far, before its first step.
    pub fn new(histogram: &'a T, value_units_in_first_bucket: u64, log_base: u64) -> (r:
        LogarithmicIterator<'a, T>)
        requires
            histogram.readable_wf(),
            value_units_in_first_bucket >= 1,
        ensures
            r.0.wf(),
            r.0.histogram == histogram,
            r.0.state == IterationState::initial(histogram.readable_view()),
            r.0.strategy.value_units_in_first_bucket == value_units_in_first_bucket,
            r.0.strategy.log_base == log_base,
            r.0.strategy.next_value_reporting_level == value_units_in_first_bucket,
            r.0.strategy.current_step_highest_value_reporting_level == value_units_in_first_bucket
                - 1,
            r.0.strategy.current_step_lowest_value_reporting_level
                == histogram.readable_view().settings.spec_lowest_equivalent_value(
                (value_units_in_first_bucket - 1) as u64,
            ),
    {
        proof {
            histogram.lemma_readable();
        }
        let highest_level = value_units_in_first_bucket - 1;
        let strategy = LogarithmicStrategy {
            value_units_in_first_bucket,
            log_base,
            next_value_reporting_level: value_units_in_first_bucket,
            current_step_highest_value_reporting_level: highest_level,
            current_step_lowest_value_reporting_level: histogram.settings().lowest_equivalent_value(
                highest_level,
            ),
        };
        let state = IterationState::new(histogram);
        LogarithmicIterator(HistogramIterator { histogram, state, strategy })
    }

    /// Sets the iteration back to before its first step, with a first step of
    /// `value_units_in_first_bucket` value units and the factor `log_base`.
    pub fn reset(&mut self, value_units_in_first_bucket: u64, log_base: u64)
        requires
            old(self).0.wf(),
            value_units_in_first_bucket >= 1,
        ensures
            final(self).0.wf(),
            final(self).0.histogram == old(self).0.histogram,
            final(self).0.state == IterationState::initial(old(self).0.histogram.readable_view()),
            final(self).0.strategy.value_units_in_first_bucket == value_units_in_first_bucket,
            final(self).0.strategy.log_base == log_base,
            final(self).0.strategy.next_value_reporting_level == value_units_in_first_bucket,
            final(self).0.strategy.current_step_highest_value_reporting_level
                == value_units_in_first_bucket - 1,
            final(self).0.strategy.current_step_lowest_value_reporting_level == old(
                self,
            ).0.histogram.readable_view().settings.spec_lowest_equivalent_value(
                (value_units_in_first_bucket - 1) as u64,
            ),
    {
        proof {
            self.0.histogram.lemma_readable();
        }
        self.0.state.reset(self.0.histogram);
        let highest_level = value_units_in_first_bucket - 1;
        self.0.strategy.value_units_in_first_bucket = value_units_in_first_bucket;
        self.0.strategy.log_base = log_base;
        self.0.strategy.next_value_reporting_level = value_units_in_first_bucket;
        self.0.strategy.current_step_highest_value_reporting_level = highest_level;
        self.0.strategy.current_step_lowest_value_reporting_level =
            self.0.histogram.settings().lowest_equivalent_value(highest_level);
    }

    /// The next step, if there is one: what reading on from the slot reached
    /// comes to with the strategy of this iteration.
    pub fn next(&mut self) -> (r: Option<IterationValue>)
        requires
            old(self).0.wf(),
        ensures
            final(self).0.wf(),
            final(self).0.histogram == old(self).0.histogram,
            (r, final(self).0.state, final(self).0.strategy) == HistogramIterator::<
                'a,
                T,
                LogarithmicStrategy,
            >::stepped(
                old(self).0.strategy,
                old(self).0.state,
                old(self).0.histogram.readable_view(),
            ),
    {
        self.0.next_value()
    }
}

} // verus!
