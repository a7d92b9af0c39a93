//! What one reading of a histogram of atomic counts holds, and how two
//! readings are compared.

use vstd::prelude::*;
use crate::histogram_settings::HistogramSettings;

verus! {

/// What a reader found in a histogram at some moment: the total, the two
/// extremes, and the count of each slot.
pub struct HistogramReading {
    pub total_count: u64,
    pub max_value: u64,
    pub min_non_zero_value: u64,
    pub counts: Vec<u64>,
}

/// The count of slot `index` in `counts`; 0 beyond them.
pub open spec fn count_read(counts: Seq<u64>, index: int) -> u64 {
    if 0 <= index < counts.len() {
        counts[index]
    } else {
        0
    }
}

impl HistogramReading {
    /// Whether the two readings, of histograms of the geometries
    /// `my_settings` and `their_settings`, hold the same recording: the
    /// geometries have the same lowest discernible value and number of
    /// significant digits, the totals and the extremes agree, and so does
    /// the count of every slot, with nothing where one reading ends before
    /// the other.
    pub open spec fn agrees_with(
        &self,
        my_settings: HistogramSettings,
        other: &HistogramReading,
        their_settings: HistogramSettings,
    ) -> bool {
        &&& my_settings.lowest_discernible_value == their_settings.lowest_discernible_value
        &&& my_settings.number_of_significant_value_digits
            == their_settings.number_of_significant_value_digits
        &&& self.total_count == other.total_count
        &&& self.max_value == other.max_value
        &&& self.min_non_zero_value == other.min_non_zero_value
        &&& forall|i: int| 0 <= i ==> #[trigger] count_read(self.counts@, i) == count_read(
            other.counts@,
            i,
        )
    }

    /// Whether the two readings hold the same recording.
    pub fn same_as(
        &self,
        my_settings: &HistogramSettings,
        other: &HistogramReading,
        their_settings: &HistogramSettings,
    ) -> (r: bool)
        ensures
            r == self.agrees_with(*my_settings, other, *their_settings),
    {
        if !my_settings.equals(their_settings) {
            return false;
        }
        if self.total_count != other.total_count || self.max_value != other.max_value
            || self.min_non_zero_value != other.min_non_zero_value {
            return false;
        }
        let mine: usize = self.counts.len();
        let theirs: usize = other.counts.len();
        let length: usize = if mine < theirs {
            theirs
        } else {
            mine
        };
        let mut i: usize = 0;
        while i < length
            invariant
                mine == self.counts@.len(),
                theirs == other.counts@.len(),
                length >= mine,
                length >= theirs,
                i <= length,
                forall|j: int|
                    0 <= j < i ==> #[trigger] count_read(self.counts@, j) == count_read(
                        other.counts@,
                        j,
                    ),
            decreases length - i,
        {
            let my_count: u64 = if i < mine {
                self.counts[i]
            } else {
                0
            };
            let their_count: u64 = if i < theirs {
                other.counts[i]
            } else {
                0
            };
            if my_count != their_count {
                assert(count_read(self.counts@, i as int) != count_read(other.counts@, i as int));
                return false;
            }
            i = i + 1;
        }
        assert forall|j: int| 0 <= j implies #[trigger] count_read(self.counts@, j) == count_read(
            other.counts@,
            j,
        ) by {
            if j >= length {
            }
        }
        true
    }
}

} // verus!
