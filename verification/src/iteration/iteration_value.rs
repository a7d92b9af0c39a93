//! What an iteration step reports.

use vstd::prelude::*;

verus! {

/// The report of one step of an iteration.
#[derive(Clone, Copy, Debug, PartialEq, Eq, Structural)]
pub struct IterationValue {
    /// The value up to which this step has read.
    pub value_iterated_to: u64,
    /// The value up to which the step before had read.
    pub value_iterated_from: u64,
    /// The count of the slot at which this step ends.
    pub count_at_value_iterated_to: u64,
    /// The number of recorded values between the step before and this one.
    pub count_added_in_this_iteration_step: u64,
    /// The number of recorded values up to `value_iterated_to`.
    pub total_count_to_this_value: u64,
    /// The sum of the recorded values up to `value_iterated_to`, each taken
    /// for the highest value of its slot; it wraps around at 64 bits.
    pub total_value_to_this_value: u64,
    /// The number of recorded values of the whole histogram.
    pub array_total_count: u64,
}

} // verus!
