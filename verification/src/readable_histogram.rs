//! What a histogram has to offer to be read slot by slot.

use vstd::prelude::*;
use crate::histogram_settings::HistogramSettings;
use crate::meta_data::HistogramMetaData;
use crate::st::histogram::Histogram;
use crate::st::histogram_view::HistogramView;
use crate::concurrent::resizable_histogram::ResizableHistogram;

verus! {

/// A histogram that can be read slot by slot while nobody records into it.
pub trait ReadableHistogram {
    /// The histogram as its operations see it.
    spec fn readable_view(&self) -> HistogramView;

    /// Whether the histogram is in a state that its operations keep.
    spec fn readable_wf(&self) -> bool;

    /// The view of a histogram in such a state is well formed.
    proof fn lemma_readable(&self)
        requires
            self.readable_wf(),
        ensures
            self.readable_view().wf(),
    ;

    /// The geometry.
    fn settings(&self) -> (r: &HistogramSettings)
        ensures
            *r == self.readable_view().settings,
    ;

    /// The number of slots.
    fn array_length(&self) -> (r: u32)
        requires
            self.readable_wf(),
        ensures
            r == self.readable_view().counts.len(),
    ;

    /// The number of recorded values.
    fn get_total_count(&self) -> (r: u64)
        ensures
            r == self.readable_view().total_count,
    ;

    /// The count of slot `idx`, which lies within the counts array.
    fn unsafe_get_count_at_index(&self, idx: u32) -> (r: u64)
        requires
            self.readable_wf(),
            idx < self.readable_view().counts.len(),
        ensures
            r == self.readable_view().counts[idx as int],
    ;

    /// The highest value that shares a slot with the highest recorded value;
    /// 0 where nothing was recorded.
    fn get_max_value(&self) -> (r: u64)
        requires
            self.readable_wf(),
        ensures
            r == self.readable_view().max_value(),
    ;

    /// The meta data.
    fn meta_data(&self) -> (r: &HistogramMetaData)
        ensures
            *r == self.readable_view().meta_data,
    ;
}

impl ReadableHistogram for Histogram {
    open spec fn readable_view(&self) -> HistogramView {
        self@
    }

    open spec fn readable_wf(&self) -> bool {
        self.wf()
    }

    proof fn lemma_readable(&self) {
        self.lemma_view_wf();
    }

    fn settings(&self) -> (r: &HistogramSettings) {
        Histogram::settings(self)
    }

    fn array_length(&self) -> (r: u32) {
        self.counts_array_length()
    }

    fn get_total_count(&self) -> (r: u64) {
        Histogram::get_total_count(self)
    }

    fn unsafe_get_count_at_index(&self, idx: u32) -> (r: u64) {
        self.raw_count(idx)
    }

    fn get_max_value(&self) -> (r: u64) {
        Histogram::get_max_value(self)
    }

    fn meta_data(&self) -> (r: &HistogramMetaData) {
        self.get_meta_data()
    }
}

impl ReadableHistogram for ResizableHistogram {
    open spec fn readable_view(&self) -> HistogramView {
        self@
    }

    open spec fn readable_wf(&self) -> bool {
        self.wf()
    }

    proof fn lemma_readable(&self) {
        self.lemma_view_wf();
    }

    fn settings(&self) -> (r: &HistogramSettings) {
        ResizableHistogram::settings(self)
    }

    fn array_length(&self) -> (r: u32) {
        proof {
            self.lemma_view_wf();
        }
        self.counts_array_length()
    }

    fn get_total_count(&self) -> (r: u64) {
        ResizableHistogram::get_total_count(self)
    }

    fn unsafe_get_count_at_index(&self, idx: u32) -> (r: u64) {
        match self.get_count_at_index(idx) {
            Some(count) => count,
            None => 0,
        }
    }

    fn get_max_value(&self) -> (r: u64) {
        ResizableHistogram::get_max_value(self)
    }

    fn meta_data(&self) -> (r: &HistogramMetaData) {
        self.get_meta_data()
    }
}

} // verus!
