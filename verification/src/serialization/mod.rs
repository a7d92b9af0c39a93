//! The encoded form of a histogram.

pub mod big_endian;
pub mod compression;
pub mod constants;
pub mod cookie;
pub mod deserializable_histogram;
pub mod round_trip;
pub mod serializable_histogram;
pub mod zigzag;
