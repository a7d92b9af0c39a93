//! Adding one histogram of floating-point values to another.

use vstd::prelude::*;
use crate::counts::{lemma_prefix_sum_monotone, lemma_prefix_sum_step, prefix_sum};
use crate::double::double_histogram::DoubleHistogramImpl;
use crate::double::double_view::DoubleHistogramView;
use crate::double::sample::{scaled_sample, DoubleSample};
use crate::double_policy::OverflowPolicy;
use crate::errors::RecordError;

verus! {

impl<P: OverflowPolicy> DoubleHistogramImpl<P> {
    /// The sample that stands for the values of slot `slot` of `other`: the
    /// highest value of the slot.
    pub open spec fn slot_sample(other: DoubleHistogramView, slot: int) -> Option<DoubleSample> {
        scaled_sample(
            other.integer_histogram.settings.spec_highest_equivalent_value(
                other.integer_histogram.settings.spec_value_from_index(slot as nat) as u64,
            ) as u64,
            other.conversion_exponent(),
        )
    }

    /// The histogram once the first `upto` slots of `other` are added, and
    /// whether that went well. Each slot that holds a count is recorded with
    /// its count, as the sample that stands for it; the first slot that is
    /// refused, or that no sample stands for, ends the adding.
    pub open spec fn added_upto(
        before: DoubleHistogramView,
        other: DoubleHistogramView,
        upto: int,
    ) -> (DoubleHistogramView, bool)
        decreases upto,
    {
        if upto <= 0 {
            (before, true)
        } else {
            let so_far = Self::added_upto(before, other, upto - 1);
            let count = other.integer_histogram.counts[upto - 1];
            if !so_far.1 || count == 0 {
                so_far
            } else {
                match Self::slot_sample(other, upto - 1) {
                    None => (so_far.0, false),
                    Some(sample) => (
                        Self::view_after_recording(so_far.0, sample, count),
                        Self::recording_succeeds(so_far.0, sample),
                    ),
                }
            }
        }
    }

    /// Once a slot was refused, the further slots change nothing.
    pub proof fn lemma_added_stays_refused(
        before: DoubleHistogramView,
        other: DoubleHistogramView,
        refused: int,
        upto: int,
    )
        requires
            0 <= refused <= upto,
            !Self::added_upto(before, other, refused).1,
        ensures
            Self::added_upto(before, other, upto) == Self::added_upto(before, other, refused),
        decreases upto - refused,
    {
        if refused < upto {
            Self::lemma_added_stays_refused(before, other, refused, upto - 1);
        }
    }

    /// Adds what `other` holds: each slot of `other` that holds a count is
    /// recorded with its count, as the highest value of the slot.
    pub fn add(&mut self, other: &Self) -> (r: Result<(), RecordError>)
        requires
            old(self).wf(),
            other.wf(),
            old(self)@.integer_histogram.total_count + other@.integer_histogram.total_count
                <= u64::MAX,
        ensures
            final(self).wf(),
            (final(self)@, r is Ok) == Self::added_upto(
                old(self)@,
                other@,
                other@.integer_histogram.counts.len() as int,
            ),
            r matches Err(e) ==> e == RecordError::ValueOutOfRangeResizeDisabled,
    {
        let source = other.integer_histogram();
        let exponent = other.get_integer_to_double_conversion_exponent();
        let length = source.counts_array_length();
        let ghost counts = other@.integer_histogram.counts;
        proof {
            other.lemma_view_wf();
            other@.integer_histogram.settings.lemma_layout();
            lemma_prefix_sum_monotone(counts, 0, length as int);
        }
        let mut i: u32 = 0;
        while i < length
            invariant
                self.wf(),
                other.wf(),
                other@.wf(),
                source.wf(),
                source@ == other@.integer_histogram,
                counts == other@.integer_histogram.counts,
                length == counts.len(),
                exponent == other@.conversion_exponent(),
                i <= length,
                (self@, true) == Self::added_upto(old(self)@, other@, i as int),
                self@.integer_histogram.total_count == old(self)@.integer_histogram.total_count
                    + prefix_sum(counts, i as int),
                old(self)@.integer_histogram.total_count + other@.integer_histogram.total_count
                    <= u64::MAX,
            decreases length - i,
        {
            proof {
                lemma_prefix_sum_step(counts, i as int);
                lemma_prefix_sum_monotone(counts, i + 1, length as int);
                other@.integer_histogram.settings.lemma_slots_in_reach(i as nat);
            }
            let count = source.raw_count(i);
            if count != 0 {
                let value = source.highest_equivalent_value(source.value_from_index(i));
                let ghost so_far = self@;
                match DoubleSample::from_scaled(value, exponent) {
                    None => {
                        proof {
                            Self::lemma_added_stays_refused(
                                old(self)@,
                                other@,
                                i + 1,
                                length as int,
                            );
                        }
                        return Err(RecordError::ValueOutOfRangeResizeDisabled);
                    },
                    Some(sample) => {
                        let recorded = self.record_value_with_count(sample, count);
                        proof {
                            Self::lemma_recorded_is_a_function(
                                so_far,
                                self@,
                                recorded,
                                sample,
                                count,
                            );
                        }
                        match recorded {
                            Ok(()) => {},
                            Err(e) => {
                                proof {
                                    Self::lemma_added_stays_refused(
                                        old(self)@,
                                        other@,
                                        i + 1,
                                        length as int,
                                    );
                                }
                                return Err(e);
                            },
                        }
                    },
                }
            }
            i = i + 1;
        }
        Ok(())
    }
}

} // verus!
