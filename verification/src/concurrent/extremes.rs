//! What a recording thread hands to the two extremes of a histogram: the
//! decisions are made here, on plain values, and the atomic cells take what
//! they are handed.

use vstd::prelude::*;
use vstd::arithmetic::power2::pow2;
use crate::histogram_settings::HistogramSettings;
use crate::st::histogram_view::HistogramView;

verus! {

/// What `value` makes of the raw non-zero minimum: `value` with the bits
/// below the unit cleared, and nothing for a value below one unit.
pub open spec fn spec_raw_min_non_zero_of(settings: HistogramSettings, value: u64) -> Option<u64> {
    if value >= pow2(settings.u()) {
        Some(settings.spec_unit_floor(value) as u64)
    } else {
        None
    }
}

/// What a recording of `value` hands to the raw maximum, which was read as
/// `raw_max_value`: `value` with the bits below the unit set where `value`
/// lies above what was read, and else nothing.
pub open spec fn spec_max_to_store(settings: HistogramSettings, value: u64, raw_max_value: u64) -> Option<
    u64,
> {
    if value > raw_max_value {
        Some(settings.spec_unit_ceiling(value) as u64)
    } else {
        None
    }
}

/// What a recording of `value` hands to the raw non-zero minimum, which was
/// read as `raw_min_non_zero_value`: what `value` makes of the minimum where
/// `value` lies below what was read, and else nothing.
pub open spec fn spec_min_non_zero_to_store(
    settings: HistogramSettings,
    value: u64,
    raw_min_non_zero_value: u64,
) -> Option<u64> {
    if value < raw_min_non_zero_value {
        spec_raw_min_non_zero_of(settings, value)
    } else {
        None
    }
}

/// What `value` makes of the raw non-zero minimum.
pub fn raw_min_non_zero_of(settings: &HistogramSettings, value: u64) -> (r: Option<u64>)
    requires
        settings.wf_layout(),
    ensures
        r == spec_raw_min_non_zero_of(*settings, value),
{
    proof {
        settings.lemma_unit_masking(value);
    }
    if value <= settings.unit_magnitude_mask {
        None
    } else {
        Some(settings.unit_floor(value))
    }
}

/// What a recording of `value` hands to the raw maximum, which was read as
/// `raw_max_value`.
pub fn max_to_store(settings: &HistogramSettings, value: u64, raw_max_value: u64) -> (r: Option<
    u64,
>)
    requires
        settings.wf_layout(),
    ensures
        r == spec_max_to_store(*settings, value, raw_max_value),
{
    if value > raw_max_value {
        Some(settings.unit_ceiling(value))
    } else {
        None
    }
}

/// What a recording of `value` hands to the raw non-zero minimum, which was
/// read as `raw_min_non_zero_value`.
pub fn min_non_zero_to_store(
    settings: &HistogramSettings,
    value: u64,
    raw_min_non_zero_value: u64,
) -> (r: Option<u64>)
    requires
        settings.wf_layout(),
    ensures
        r == spec_min_non_zero_to_store(*settings, value, raw_min_non_zero_value),
{
    if value < raw_min_non_zero_value {
        raw_min_non_zero_of(settings, value)
    } else {
        None
    }
}

/// In a histogram that one thread holds, the extremes after a recording are
/// what is handed to them, and what they were where nothing is handed.
pub proof fn lemma_stored_extremes(view: HistogramView, value: u64)
    ensures
        view.max_after(value) == (match spec_max_to_store(
            view.settings,
            value,
            view.raw_max_value,
        ) {
            Some(raw) => raw,
            None => view.raw_max_value,
        }),
        view.min_after(value) == (match spec_min_non_zero_to_store(
            view.settings,
            value,
            view.raw_min_non_zero_value,
        ) {
            Some(raw) => raw,
            None => view.raw_min_non_zero_value,
        }),
{
}

} // verus!
