//! The histogram for one thread.

pub mod backing_array;
pub mod equal_laws;
pub mod histogram;
pub mod histogram_ops;
pub mod histogram_query;
pub mod histogram_shift;
pub mod histogram_view;
pub mod laws;
pub mod shift_view;
