//! How recording threads keep the extremes of a histogram up to date.

use vstd::prelude::*;
use std::sync::atomic::{AtomicU64, Ordering};
use crate::concurrent::extremes::raw_min_non_zero_of;
use crate::histogram_settings::HistogramSettings;

verus! {

/// Takes `value`, with the bits below the unit set, into the raw maximum: the
/// maximum becomes that value unless it is higher already. Many threads can do
/// so at once; the highest value wins.
pub fn update_max_value(settings: &HistogramSettings, raw_max_value: &AtomicU64, value: u64)
    requires
        settings.wf_layout(),
{
    let internal_value = settings.unit_ceiling(value);
    let _ = raw_max_value.fetch_max(internal_value, Ordering::Relaxed);
}

/// Takes what `raw_min_non_zero_of` makes of `value` into the raw non-zero
/// minimum: the minimum becomes that value unless it is lower already. A
/// value below one unit makes nothing, and leaves the minimum as it is. Many
/// threads can do so at once; the lowest value wins.
pub fn update_min_non_zero_value(
    settings: &HistogramSettings,
    raw_min_non_zero_value: &AtomicU64,
    value: u64,
)
    requires
        settings.wf_layout(),
{
    match raw_min_non_zero_of(settings, value) {
        Some(internal_value) => {
            let _ = raw_min_non_zero_value.fetch_min(internal_value, Ordering::Relaxed);
        },
        None => {},
    }
}

} // verus!
