//! What holds of the range of a histogram of floating-point values as it
//! moves: a value that is recorded is covered, a covered value leaves the
//! range as it is, and a move down keeps what the recorded integers stand
//! for.

use vstd::prelude::*;
use vstd::arithmetic::power2::{lemma2_to64, lemma2_to64_rest, lemma_pow2_pos, pow2};
use crate::bits::{lemma_floor_log2_unique, lemma_pow2_monotone};
use crate::double::double_histogram::DoubleHistogramImpl;
use crate::double::double_view::DoubleHistogramView;
use crate::double::sample::{DoubleSample, Dyadic};
use crate::double_policy::OverflowPolicy;
use crate::errors::RecordError;

verus! {

impl DoubleHistogramView {
    /// Whether `later` holds the values above zero and the extremes of this
    /// histogram with the range moved down: the lower end lies lower by some
    /// number of binary orders of magnitude, and the extremes of the integer
    /// histogram are 2 to that number times what they were, so that they
    /// stand for the same values.
    pub open spec fn keeps_extremes_moved_down(self, later: DoubleHistogramView) -> bool {
        &&& later.lowest_exponent <= self.lowest_exponent
        &&& later.m() == self.m()
        &&& later.has_values()
        &&& later.integer_histogram.raw_max_value == self.integer_histogram.raw_max_value * pow2(
            (self.lowest_exponent - later.lowest_exponent) as nat,
        )
        &&& later.integer_histogram.raw_min_non_zero_value
            == self.integer_histogram.raw_min_non_zero_value * pow2(
            (self.lowest_exponent - later.lowest_exponent) as nat,
        )
    }

    /// A histogram that holds a value above zero keeps its own extremes.
    pub proof fn lemma_keeps_own_extremes(self)
        requires
            self.has_values(),
        ensures
            self.keeps_extremes_moved_down(self),
    {
        lemma2_to64();
        let none = (self.lowest_exponent - self.lowest_exponent) as nat;
        assert(none == 0);
        assert(pow2(none) == 1);
        assert(self.integer_histogram.raw_max_value * pow2(none)
            == self.integer_histogram.raw_max_value);
        assert(self.integer_histogram.raw_min_non_zero_value * pow2(none)
            == self.integer_histogram.raw_min_non_zero_value);
    }

    /// A move down of a histogram that keeps the extremes of another keeps
    /// them too.
    pub proof fn lemma_keeps_extremes_on(self, now: DoubleHistogramView, k: nat)
        requires
            now.wf(),
            k >= 1,
            self.keeps_extremes_moved_down(now),
            now.range_moved_down(k) is Some,
        ensures
            self.keeps_extremes_moved_down(now.range_moved_down(k)->0),
    {
        lemma2_to64();
        now.lemma_move_down_keeps_extremes(k);
        let shift = (self.lowest_exponent - now.lowest_exponent) as nat;
        vstd::arithmetic::power2::lemma_pow2_adds(shift, k);
        let a = pow2(shift) as int;
        let b = pow2(k) as int;
        let top = self.integer_histogram.raw_max_value as int;
        let bottom = self.integer_histogram.raw_min_non_zero_value as int;
        assert((top * a) * b == top * (a * b)) by (nonlinear_arith);
        assert((bottom * a) * b == bottom * (a * b)) by (nonlinear_arith);
    }

    /// A value that the range covers leaves the range where it is.
    pub proof fn lemma_covered_value_leaves_range(self, x: Dyadic)
        requires
            self.covers(x),
        ensures
            self.adjusted_for(x) == self,
    {
    }

    /// The integer histogram of a histogram of floating-point values counts
    /// in units of 1: its unit magnitude is 0, and the bits below the unit
    /// are none.
    pub proof fn lemma_unit_is_one(self)
        requires
            self.wf(),
        ensures
            self.integer_histogram.settings.u() == 0,
            forall|value: u64|
                #[trigger] self.integer_histogram.settings.spec_unit_ceiling(value) == value,
            forall|value: u64|
                #[trigger] self.integer_histogram.settings.spec_unit_floor(value) == value,
    {
        let s = self.integer_histogram.settings;
        s.lemma_layout();
        lemma2_to64();
        lemma_floor_log2_unique(1, 0);
        assert(s.u() == 0);
        assert forall|value: u64| #[trigger] s.spec_unit_floor(value) == value by {
            vstd::arithmetic::div_mod::lemma_div_basics(value as int);
        }
        assert forall|value: u64| #[trigger] s.spec_unit_ceiling(value) == value by {
            assert(s.spec_unit_floor(value) == value);
        }
    }

    /// The integer histogram with `k` more buckets is well formed, holds the
    /// extremes and the total that it held, and holds a value above zero
    /// where it held one.
    pub proof fn lemma_widened(self, k: nat)
        requires
            self.wf(),
            k >= 1,
            self.m() + self.buckets() + k <= 63,
        ensures
            self.widened_histogram(k).wf(),
            self.widened_histogram(k).raw_max_value == self.integer_histogram.raw_max_value,
            self.widened_histogram(k).raw_min_non_zero_value
                == self.integer_histogram.raw_min_non_zero_value,
            self.widened_histogram(k).settings.u() == 0,
            self.widened_histogram(k).settings.m() == self.m(),
            self.widened_histogram(k).only_zero_recorded()
                == self.integer_histogram.only_zero_recorded(),
    {
        let s = self.integer_histogram.settings;
        let top = (self.m() + self.buckets()) as nat;
        self.lemma_unit_is_one();
        s.lemma_layout();
        lemma2_to64();
        lemma2_to64_rest();
        lemma_pow2_pos(top);
        lemma_pow2_pos(top + k);
        lemma_pow2_monotone(top + k, 63);
        vstd::arithmetic::power2::lemma_pow2_strictly_increases(top, top + k);
        self.integer_histogram.lemma_highest_recordable();
        self.integer_histogram.lemma_resized_wf((pow2(top + k) - 1) as u64);
    }

    /// A move of the range down by `k` binary orders of magnitude keeps what
    /// the recorded integers stand for: the lower end and the power of two
    /// that one unit stands for go down by `k`, and the extremes of the
    /// integer histogram are `2^k` times what they were.
    pub proof fn lemma_move_down_keeps_extremes(self, k: nat)
        requires
            self.wf(),
            k >= 1,
            self.has_values(),
            self.range_moved_down(k) is Some,
        ensures
            self.range_moved_down(k)->0.lowest_exponent == self.lowest_exponent - k,
            self.range_moved_down(k)->0.conversion_exponent() == self.conversion_exponent() - k,
            self.range_moved_down(k)->0.integer_histogram.raw_max_value
                == self.integer_histogram.raw_max_value * pow2(k),
            self.range_moved_down(k)->0.integer_histogram.raw_min_non_zero_value
                == self.integer_histogram.raw_min_non_zero_value * pow2(k),
            self.range_moved_down(k)->0.m() == self.m(),
            self.range_moved_down(k)->0.has_values(),
    {
        self.lemma_unit_is_one();
        if !self.integer_histogram.shift_left_overflows(k) {
            self.integer_histogram.lemma_shift_left_fits(k);
        } else {
            self.lemma_widened(k);
            let widened = self.widened_histogram(k);
            widened.lemma_shift_left_fits(k);
            widened.settings.lemma_layout();
            assert forall|value: u64| #[trigger] widened.settings.spec_unit_ceiling(value)
                == value by {
                vstd::arithmetic::div_mod::lemma_div_basics(value as int);
                lemma2_to64();
            }
        }
    }
}

impl<P: OverflowPolicy> DoubleHistogramImpl<P> {
    /// A value above zero that is recorded without being counted at an end of
    /// the range lies within the range afterwards: the lower end of the range
    /// is a power of two that is not above the value, and the upper end one
    /// that is above it.
    pub proof fn lemma_recorded_value_is_covered(
        before: DoubleHistogramView,
        after: DoubleHistogramView,
        r: Result<(), RecordError>,
        x: Dyadic,
        count: u64,
    )
        requires
            Self::recorded(before, after, r, DoubleSample::Positive(x), count),
            r is Ok,
            !P::SATURATE,
        ensures
            after.covers(x),
            after.lowest_exponent <= x.magnitude() < after.highest_exponent,
            after.lowest_exponent == before.adjusted_for(x).lowest_exponent,
            after.highest_exponent == before.adjusted_for(x).highest_exponent,
    {
    }

    /// A record of a value that the range covers leaves the range where it
    /// is, and counts the value as the integer that it makes in the range.
    pub proof fn lemma_covered_value_is_counted(
        before: DoubleHistogramView,
        after: DoubleHistogramView,
        r: Result<(), RecordError>,
        x: Dyadic,
        count: u64,
    )
        requires
            Self::recorded(before, after, r, DoubleSample::Positive(x), count),
            before.covers(x),
        ensures
            r is Ok,
            after.lowest_exponent == before.lowest_exponent,
            after.highest_exponent == before.highest_exponent,
            after.integer_histogram == before.integer_histogram.recorded(
                before.integer_value_of(x) as u64,
                count,
            ),
    {
        before.lemma_covered_value_leaves_range(x);
    }
}

} // verus!
