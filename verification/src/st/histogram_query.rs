//! Queries on the recording of a histogram: the value at a rank, the number of
//! values up to a value, and a hash of what identifies the recording.

use vstd::prelude::*;
use crate::concurrent::resizable_histogram::ResizableHistogram;
use crate::constructable_histogram::ConstructableHistogram;
use crate::counts::{prefix_sum, first_index_reaching, lemma_prefix_sum_step, lemma_prefix_sum_monotone};
use crate::errors::CreationError;
use crate::iteration::iteration_state::IterationState;
use crate::iteration::iterators::{
    AllValuesIterator, LinearIterator, LogarithmicIterator, RecordedValuesIterator,
};
use crate::st::histogram::Histogram;
use crate::st::histogram_view::HistogramView;
use crate::util::{add_mix32, add_mix64, spec_hash_mix};

verus! {

impl HistogramView {
    /// The rank that a query for the value at a rank looks for: at least 1, so
    /// that the first recorded value is reached.
    pub open spec fn rank_sought(count_at_percentile: u64) -> nat {
        if count_at_percentile < 1 {
            1
        } else {
            count_at_percentile as nat
        }
    }

    /// The value at rank `count_at_percentile`, counted from the lowest
    /// recorded value: the lowest or the highest value of the first slot up to
    /// which the counts sum to the rank; 0 where they never do.
    pub open spec fn value_at_count(self, count_at_percentile: u64, from_lowest: bool) -> nat {
        match first_index_reaching(
            self.counts,
            Self::rank_sought(count_at_percentile),
            self.counts.len() as int,
        ) {
            Some(i) => {
                let value = self.settings.spec_value_from_index(i as nat) as u64;
                if from_lowest {
                    self.settings.spec_lowest_equivalent_value(value)
                } else {
                    self.settings.spec_highest_equivalent_value(value)
                }
            },
            None => 0,
        }
    }

    /// The number of recorded values up to the slot of `value`, or up to the
    /// last slot where `value` lies beyond the counts array.
    pub open spec fn count_at_or_below(self, value: u64) -> nat {
        prefix_sum(
            self.counts,
            if self.in_range(value) {
                self.index_of(value) + 1
            } else {
                self.counts.len() as int
            },
        )
    }

    /// The sum, over the first `upto` slots, of the count of the slot times the
    /// value in the middle of the slot.
    pub open spec fn total_of_medians(self, upto: int) -> nat
        decreases upto,
    {
        if upto <= 0 {
            0
        } else {
            self.total_of_medians(upto - 1) + self.counts[upto - 1] as nat
                * self.settings.spec_median_equivalent_value(
                self.settings.spec_value_from_index((upto - 1) as nat) as u64,
            )
        }
    }

    /// The sum of the medians is below `2^64` times the number of values.
    pub proof fn lemma_total_of_medians_bound(self, upto: int)
        requires
            self.wf(),
            0 <= upto <= self.counts.len(),
        ensures
            self.total_of_medians(upto) <= prefix_sum(self.counts, upto) * 0xffff_ffff_ffff_ffff,
        decreases upto,
    {
        if upto > 0 {
            self.lemma_total_of_medians_bound(upto - 1);
            lemma_prefix_sum_step(self.counts, upto - 1);
            self.settings.lemma_slots_in_reach((upto - 1) as nat);
            let value = self.settings.spec_value_from_index((upto - 1) as nat) as u64;
            self.settings.lemma_value_within_equivalent_range(value);
            self.settings.lemma_value_class(value);
            let median = self.settings.spec_median_equivalent_value(value) as int;
            let count = self.counts[upto - 1] as int;
            let before = prefix_sum(self.counts, upto - 1) as int;
            assert(count * median <= count * 0xffff_ffff_ffff_ffff) by (nonlinear_arith)
                requires
                    0 <= median <= 0xffff_ffff_ffff_ffff,
                    0 <= count,
            ;
            assert((before + count) * 0xffff_ffff_ffff_ffff == before * 0xffff_ffff_ffff_ffff
                + count * 0xffff_ffff_ffff_ffff) by (nonlinear_arith);
        } else {
            lemma_prefix_sum_monotone(self.counts, 0, 0);
        }
    }

    /// The hash of the unit magnitude, the number of significant digits, the
    /// total and the two raw extremes.
    pub open spec fn hash_code(self) -> i64 {
        let h0 = spec_hash_mix(
            vstd::wrapping::i64_specs::wrapping_add(0, self.settings.unit_magnitude as i64),
        );
        let h1 = spec_hash_mix(
            vstd::wrapping::i64_specs::wrapping_add(
                h0,
                self.settings.number_of_significant_value_digits as i64,
            ),
        );
        let h2 = spec_hash_mix(
            vstd::wrapping::i64_specs::wrapping_add(h1, self.total_count as i64),
        );
        let h3 = spec_hash_mix(
            vstd::wrapping::i64_specs::wrapping_add(h2, self.raw_max_value as i64),
        );
        let h4 = spec_hash_mix(
            vstd::wrapping::i64_specs::wrapping_add(h3, self.raw_min_non_zero_value as i64),
        );
        let h5 = vstd::wrapping::i64_specs::wrapping_add(h4, h4 << 3u32);
        let h6 = h5 ^ (h5 >> 11u32);
        vstd::wrapping::i64_specs::wrapping_add(h6, h6 << 15u32)
    }
}

impl Histogram {
    /// The value at rank `count_at_percentile`, counted from the lowest
    /// recorded value; a rank of 0 counts as rank 1. The result is the lowest
    /// value of the slot of that rank where `from_lowest` is set, and the
    /// highest otherwise; it is 0 where fewer values are recorded.
    pub fn get_value_at_count(&self, count_at_percentile: u64, from_lowest: bool) -> (r: u64)
        requires
            self.wf(),
        ensures
            r == self@.value_at_count(count_at_percentile, from_lowest),
    {
        let target: u64 = if count_at_percentile < 1 {
            1
        } else {
            count_at_percentile
        };
        let length = self.counts_array_length();
        let mut total_to_current_index: u64 = 0;
        let mut i: u32 = 0;
        proof {
            self.lemma_view_wf();
            lemma_prefix_sum_monotone(self@.counts, 0, 0);
        }
        while i < length
            invariant
                self.wf(),
                self@.wf(),
                i <= length,
                length == self@.counts.len(),
                target == HistogramView::rank_sought(count_at_percentile),
                total_to_current_index == prefix_sum(self@.counts, i as int),
                first_index_reaching(self@.counts, target as nat, i as int) is None,
            decreases length - i,
        {
            proof {
                lemma_prefix_sum_step(self@.counts, i as int);
                lemma_prefix_sum_monotone(self@.counts, i + 1, length as int);
                self@.settings.lemma_slots_in_reach(i as nat);
                self@.settings.lemma_index_class(i as nat);
            }
            let count = match self.get_count_at_index(i) {
                Some(count) => *count,
                None => 0,
            };
            total_to_current_index = total_to_current_index + count;
            if total_to_current_index >= target {
                proof {
                    lemma_first_reaching_stays(
                        self@.counts,
                        target as nat,
                        i + 1,
                        length as int,
                    );
                }
                let value_at_index = self.value_from_index(i);
                return if from_lowest {
                    self.lowest_equivalent_value(value_at_index)
                } else {
                    self.highest_equivalent_value(value_at_index)
                };
            }
            i = i + 1;
        }
        0
    }

    /// The number of recorded values up to the slot of `value`, or up to the
    /// last slot where `value` lies beyond the counts array.
    pub fn get_count_at_or_below_value(&self, value: u64) -> (r: u64)
        requires
            self.wf(),
        ensures
            r == self@.count_at_or_below(value),
    {
        let target_index = self.saturating_counts_array_index(value);
        let mut total_to_current_index: u64 = 0;
        let mut i: u32 = 0;
        proof {
            self.lemma_view_wf();
            lemma_prefix_sum_monotone(self@.counts, 0, 0);
        }
        while i <= target_index
            invariant
                self.wf(),
                self@.wf(),
                i <= target_index + 1,
                target_index < self@.counts.len(),
                total_to_current_index == prefix_sum(self@.counts, i as int),
            decreases target_index + 1 - i,
        {
            proof {
                lemma_prefix_sum_step(self@.counts, i as int);
                lemma_prefix_sum_monotone(self@.counts, i + 1, self@.counts.len() as int);
            }
            let count = match self.get_count_at_index(i) {
                Some(count) => *count,
                None => 0,
            };
            total_to_current_index = total_to_current_index + count;
            i = i + 1;
        }
        total_to_current_index
    }

    /// The sum, over all slots, of the count of the slot times the value in
    /// the middle of the slot. The mean of the recorded values is this sum
    /// over their number.
    pub fn get_total_of_median_values(&self) -> (r: u128)
        requires
            self.wf(),
        ensures
            r == self@.total_of_medians(self@.counts.len() as int),
    {
        let length = self.counts_array_length();
        let mut total: u128 = 0;
        let mut i: u32 = 0;
        proof {
            self.lemma_view_wf();
        }
        while i < length
            invariant
                self.wf(),
                self@.wf(),
                i <= length,
                length == self@.counts.len(),
                total == self@.total_of_medians(i as int),
            decreases length - i,
        {
            proof {
                self@.lemma_total_of_medians_bound(i + 1);
                lemma_prefix_sum_monotone(self@.counts, i + 1, length as int);
                self@.settings.lemma_slots_in_reach(i as nat);
                let whole = prefix_sum(self@.counts, i + 1) as int;
                assert(whole * 0xffff_ffff_ffff_ffff <= 0xffff_ffff_ffff_ffff
                    * 0xffff_ffff_ffff_ffff) by (nonlinear_arith)
                    requires
                        0 <= whole <= 0xffff_ffff_ffff_ffff,
                ;
            }
            let count: u64 = self.raw_count(i);
            if count != 0 {
                let median: u64 = self.median_equivalent_value(self.value_from_index(i));
                proof {
                    assert(count * median <= 0xffff_ffff_ffff_ffff * 0xffff_ffff_ffff_ffff)
                        by (nonlinear_arith)
                        requires
                            0 <= count <= 0xffff_ffff_ffff_ffff,
                            0 <= median <= 0xffff_ffff_ffff_ffff,
                    ;
                }
                total = total + (count as u128) * (median as u128);
            } else {
                proof {
                    let median = self@.settings.spec_median_equivalent_value(
                        self@.settings.spec_value_from_index(i as nat) as u64,
                    );
                    assert(0 * median == 0) by (nonlinear_arith);
                }
            }
            i = i + 1;
            assert(total == self@.total_of_medians(i as int));
        }
        total
    }

    /// A hash of what identifies the recording at a glance: the unit
    /// magnitude, the number of significant digits, the total and the two raw
    /// extremes.
    pub fn hash_code(&self) -> (r: i64)
        ensures
            r == self@.hash_code(),
    {
        let mut h: i64 = 0;
        add_mix32(&mut h, self.settings().unit_magnitude);
        add_mix32(&mut h, self.settings().number_of_significant_value_digits);
        add_mix64(&mut h, self.get_total_count());
        add_mix64(&mut h, self.raw_max_value());
        add_mix64(&mut h, self.raw_min_non_zero_value());
        let h5: i64 = h.wrapping_add(h << 3u32);
        let h6: i64 = h5 ^ (h5 >> 11u32);
        h6.wrapping_add(h6 << 15u32)
    }
}

impl Histogram {
    /// The iteration over every slot.
    pub fn all_values(&self) -> (r: AllValuesIterator<'_, Histogram>)
        requires
            self.wf(),
        ensures
            r.0.wf(),
            r.0.histogram == self,
            r.0.state == IterationState::initial(self@),
    {
        AllValuesIterator::new(self)
    }

    /// The iteration over the slots that hold a count.
    pub fn recorded_values(&self) -> (r: RecordedValuesIterator<'_, Histogram>)
        requires
            self.wf(),
        ensures
            r.0.wf(),
            r.0.histogram == self,
            r.0.state == IterationState::initial(self@),
    {
        RecordedValuesIterator::new(self)
    }

    /// The iteration in steps of `value_units_per_bucket` value units.
    pub fn linear_bucket_values(&self, value_units_per_bucket: u64) -> (r: LinearIterator<
        '_,
        Histogram,
    >)
        requires
            self.wf(),
            value_units_per_bucket >= 1,
        ensures
            r.0.wf(),
            r.0.histogram == self,
            r.0.state == IterationState::initial(self@),
    {
        LinearIterator::new(self, value_units_per_bucket)
    }

    /// The iteration in steps of which the first takes
    /// `value_units_in_first_bucket` value units and each further one reaches
    /// `log_base` times as far.
    pub fn logarithmic_bucket_values(&self, value_units_in_first_bucket: u64, log_base: u64) -> (r:
        LogarithmicIterator<'_, Histogram>)
        requires
            self.wf(),
            value_units_in_first_bucket >= 1,
        ensures
            r.0.wf(),
            r.0.histogram == self,
            r.0.state == IterationState::initial(self@),
    {
        LogarithmicIterator::new(self, value_units_in_first_bucket, log_base)
    }
}

/// Once the counts have summed to the rank, the first slot at which they did
/// stays the first.
proof fn lemma_first_reaching_stays(counts: Seq<u64>, target: nat, n: int, m: int)
    requires
        0 <= n <= m,
        first_index_reaching(counts, target, n) is Some,
    ensures
        first_index_reaching(counts, target, m) == first_index_reaching(counts, target, n),
    decreases m - n,
{
    if n < m {
        lemma_first_reaching_stays(counts, target, n, m - 1);
    }
}

impl ConstructableHistogram for Histogram {
    open spec fn grows_by_itself() -> bool {
        false
    }

    fn new(
        lowest_discernible_value: u64,
        highest_trackable_value: u64,
        significant_value_digits: u8,
    ) -> (r: Result<Self, CreationError>) {
        Histogram::with_low_high_sigvdig(
            lowest_discernible_value,
            highest_trackable_value,
            significant_value_digits,
        )
    }

    fn establish_internal_tracking_values(&mut self) {
        Histogram::establish_internal_tracking_values(self)
    }
}

impl ConstructableHistogram for ResizableHistogram {
    open spec fn grows_by_itself() -> bool {
        true
    }

    fn new(
        lowest_discernible_value: u64,
        highest_trackable_value: u64,
        significant_value_digits: u8,
    ) -> (r: Result<Self, CreationError>) {
        match ResizableHistogram::with_low_high_sigvdig(
            lowest_discernible_value,
            highest_trackable_value,
            significant_value_digits,
        ) {
            Ok(h) => {
                proof {
                    h.lemma_view_wf();
                }
                Ok(h)
            },
            Err(e) => Err(e),
        }
    }

    fn establish_internal_tracking_values(&mut self) {
        ResizableHistogram::establish_internal_tracking_values(self)
    }
}

} // verus!
