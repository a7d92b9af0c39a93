//! Histograms whose counts can be taken out and put in as one run of
//! numbers, slot by slot.

use vstd::prelude::*;
use crate::concurrent::resizable_histogram::ResizableHistogram;
use crate::counts::sum_counts;
use crate::readable_histogram::ReadableHistogram;
use crate::st::histogram::Histogram;

verus! {

/// A histogram whose counts can be taken out.
pub trait ReadSliceableHistogram: ReadableHistogram {
    /// The counts of the first `length` slots, in the order of the slots;
    /// none where the histogram has fewer slots. What the histogram holds
    /// stays the same; one with two counts arrays gathers every count in the
    /// active array first.
    fn get_counts_slice(&mut self, length: u32) -> (r: Option<Vec<u64>>)
        requires
            old(self).readable_wf(),
        ensures
            final(self).readable_wf(),
            final(self).readable_view() == old(self).readable_view(),
            match r {
                Some(counts) => length <= old(self).readable_view().counts.len() && counts@
                    == old(self).readable_view().counts.subrange(0, length as int),
                None => length > old(self).readable_view().counts.len(),
            },
    ;
}

/// A histogram whose counts can be put in.
pub trait MutSliceableHistogram: ReadableHistogram {
    /// Takes `counts` for the counts, one for each slot, and works out the
    /// total and the extremes from them.
    fn put_counts_slice(&mut self, counts: Vec<u64>)
        requires
            old(self).readable_wf(),
            counts@.len() == old(self).readable_view().counts.len(),
            sum_counts(counts@) <= u64::MAX,
        ensures
            final(self).readable_wf(),
            final(self).readable_view() == old(self).readable_view().established(counts@),
    ;
}

/// A histogram whose counts can be taken out and put in.
pub trait SliceableHistogram: ReadSliceableHistogram + MutSliceableHistogram {

}

impl<S: ReadSliceableHistogram + MutSliceableHistogram> SliceableHistogram for S {

}

/// The counts of the first `length` slots of `histogram`.
pub fn counts_of_first_slots<H: ReadableHistogram>(histogram: &H, length: u32) -> (r: Vec<u64>)
    requires
        histogram.readable_wf(),
        length <= histogram.readable_view().counts.len(),
    ensures
        r@ == histogram.readable_view().counts.subrange(0, length as int),
{
    let mut counts: Vec<u64> = Vec::new();
    let mut i: u32 = 0;
    while i < length
        invariant
            histogram.readable_wf(),
            length <= histogram.readable_view().counts.len(),
            i <= length,
            counts@ == histogram.readable_view().counts.subrange(0, i as int),
        decreases length - i,
    {
        counts.push(histogram.unsafe_get_count_at_index(i));
        i = i + 1;
        assert(counts@ =~= histogram.readable_view().counts.subrange(0, i as int));
    }
    counts
}

impl ReadSliceableHistogram for Histogram {
    fn get_counts_slice(&mut self, length: u32) -> (r: Option<Vec<u64>>) {
        if length > self.counts_array_length() {
            None
        } else {
            Some(counts_of_first_slots(&*self, length))
        }
    }
}

impl MutSliceableHistogram for Histogram {
    fn put_counts_slice(&mut self, counts: Vec<u64>) {
        self.establish_counts(counts)
    }
}

impl ReadSliceableHistogram for ResizableHistogram {
    fn get_counts_slice(&mut self, length: u32) -> (r: Option<Vec<u64>>) {
        proof {
            self.lemma_view_wf();
        }
        if length > self.counts_array_length() {
            None
        } else {
            self.write_inactive_to_active();
            Some(counts_of_first_slots(&*self, length))
        }
    }
}

impl MutSliceableHistogram for ResizableHistogram {
    fn put_counts_slice(&mut self, counts: Vec<u64>) {
        proof {
            self.lemma_view_wf();
        }
        self.establish_counts(counts)
    }
}

} // verus!
