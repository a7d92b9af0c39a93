//! The histogram of floating-point values: an integer histogram whose values
//! stand for multiples of a power of two, and a range that moves by binary
//! orders of magnitude to where the recorded values are.

pub mod double_histogram;
pub mod double_ops;
pub mod double_query;
pub mod double_view;
pub mod laws;
pub mod range;
pub mod sample;
