//! What a log of interval histograms holds of a histogram: its tag, and its
//! compressed encoding in base64.

pub mod histogram_log_reader;
pub mod histogram_log_writer;
