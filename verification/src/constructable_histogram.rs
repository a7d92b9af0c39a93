//! Histograms that can be built from the three parameters of a geometry.

use vstd::prelude::*;
use crate::errors::CreationError;
use crate::histogram_settings::creation_error;
use crate::readable_histogram::ReadableHistogram;
use crate::st::histogram_view::HistogramView;

verus! {

/// Whether `view` is the empty histogram of the geometry of the three
/// parameters, which grows by itself or does not as `auto_resize` says.
pub open spec fn is_new_histogram(
    view: HistogramView,
    lowest_discernible_value: u64,
    highest_trackable_value: u64,
    significant_value_digits: u8,
    auto_resize: bool,
) -> bool {
    &&& view == HistogramView::empty(view.settings)
    &&& view.settings.wf()
    &&& view.settings.lowest_discernible_value == lowest_discernible_value
    &&& view.settings.highest_trackable_value == highest_trackable_value
    &&& view.settings.number_of_significant_value_digits == significant_value_digits
    &&& view.settings.auto_resize == auto_resize
}

/// A histogram that can be built empty for a geometry, and that can work out
/// its totals again after its counts were written from outside.
pub trait ConstructableHistogram: ReadableHistogram + Sized {
    /// Whether a histogram of this kind grows by itself when it is new.
    spec fn grows_by_itself() -> bool;

    /// An empty histogram for the geometry of the three parameters, or what
    /// stands in the way of that geometry.
    fn new(
        lowest_discernible_value: u64,
        highest_trackable_value: u64,
        significant_value_digits: u8,
    ) -> (r: Result<Self, CreationError>)
        ensures
            match r {
                Ok(h) => {
                    &&& h.readable_wf()
                    &&& creation_error(
                        lowest_discernible_value,
                        highest_trackable_value,
                        significant_value_digits,
                    ) is None
                    &&& is_new_histogram(
                        h.readable_view(),
                        lowest_discernible_value,
                        highest_trackable_value,
                        significant_value_digits,
                        Self::grows_by_itself(),
                    )
                },
                Err(e) => creation_error(
                    lowest_discernible_value,
                    highest_trackable_value,
                    significant_value_digits,
                ) == Some(e),
            },
    ;

    /// Works out the total, the maximum and the minimum from the counts.
    fn establish_internal_tracking_values(&mut self)
        requires
            old(self).readable_wf(),
        ensures
            final(self).readable_wf(),
            final(self).readable_view() == old(self).readable_view().established(
                old(self).readable_view().counts,
            ),
    ;
}

} // verus!
