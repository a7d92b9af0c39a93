//! Recording from many threads: the phaser that lets a reader wait until the
//! writers of a phase are done, and the counts arrays of atomic slots.

pub mod concurrent_util;
pub mod counts_array;
pub mod extremes;
pub mod inline_backing_array;
pub mod phaser_model;
pub mod reading;
pub mod recorder_model;
pub mod resizable_histogram;
pub mod static_histogram;
pub mod writer_reader_phaser;
