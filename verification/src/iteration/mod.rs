//! Reading a histogram slot by slot: every slot, the slots that hold a count,
//! or steps of a fixed number of value units.

pub mod histogram_iterator;
pub mod iteration_state;
pub mod iteration_strategy;
pub mod iteration_value;
pub mod iterators;
pub mod laws;
