//! A high-dynamic-range histogram: integer samples are counted in a
//! log-linear array of slots, so that every recorded value keeps a
//! configured number of significant decimal digits.

pub mod bits;
pub mod concurrent;
pub mod constructable_histogram;
pub mod counts;
pub mod double;
pub mod double_policy;
pub mod errors;
pub mod histogram_settings;
pub mod iteration;
pub mod logging;
pub mod meta_data;
pub mod readable_histogram;
pub mod serialization;
pub mod shift;
pub mod sliceable_histogram;
pub mod util;
pub mod st;
