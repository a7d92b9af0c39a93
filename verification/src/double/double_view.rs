//! What a histogram of floating-point values is: an integer histogram, the
//! range of values that its slots stand for just now, and how it may move.
//!
//! The range reaches from `2^lowest_exponent` up to `2^highest_exponent`, one
//! binary order of magnitude for each bucket of the integer histogram. Within
//! the range a value `x` is recorded as the integer part of
//! `x * 2^(m - lowest_exponent)`, where `2^m` is half the number of
//! sub-buckets.

use vstd::prelude::*;
use vstd::arithmetic::power2::pow2;
use crate::double::range::{capped_containing_binary_order_of_magnitude, times_above, times_below, lemma_step_above_bounds, lemma_step_below_bounds};
use crate::double::sample::{Dyadic, HIGHEST_ALLOWED_MAGNITUDE};
use crate::st::histogram_view::HistogramView;

verus! {

/// A histogram of floating-point values as its operations see it.
pub struct DoubleHistogramView {
    /// The integer histogram that holds the counts.
    pub integer_histogram: HistogramView,
    /// The ratio of the highest to the lowest value that was asked for, times
    /// `2^k` for each widening of the range by `k` orders of magnitude.
    pub configured_highest_to_lowest_value_ratio: u64,
    /// The binary logarithm of the lower end of the range.
    pub lowest_exponent: int,
    /// The binary logarithm of the upper end of the range.
    pub highest_exponent: int,
    /// Whether the range may widen where it cannot move.
    pub auto_resize: bool,
}

impl DoubleHistogramView {
    /// The binary logarithm of half the number of sub-buckets.
    pub open spec fn m(self) -> nat {
        self.integer_histogram.settings.m()
    }

    /// The number of buckets of the integer histogram.
    pub open spec fn buckets(self) -> nat {
        self.integer_histogram.settings.bucket_count as nat
    }

    /// The integer histogram is well formed and counts in units of 1, its
    /// highest trackable value is the highest that its buckets cover, and the
    /// range has one binary order of magnitude for each bucket.
    pub open spec fn wf(self) -> bool {
        &&& self.integer_histogram.wf()
        &&& self.integer_histogram.settings.lowest_discernible_value == 1
        &&& self.integer_histogram.settings.highest_trackable_value
            == self.integer_histogram.settings.highest_recordable_value()
        &&& self.highest_exponent == self.lowest_exponent + self.buckets()
        &&& -1100 <= self.lowest_exponent
        &&& self.highest_exponent <= 1100
        &&& self.configured_highest_to_lowest_value_ratio >= 2
    }

    /// Whether `x` lies within the range.
    pub open spec fn covers(self, x: Dyadic) -> bool {
        self.lowest_exponent <= x.magnitude() < self.highest_exponent
    }

    /// Whether a value above zero is recorded.
    pub open spec fn has_values(self) -> bool {
        !self.integer_histogram.only_zero_recorded()
    }

    /// The integer that `x` is recorded as: the integer part of
    /// `x * 2^(m - lowest_exponent)`.
    pub open spec fn integer_value_of(self, x: Dyadic) -> nat {
        let t = x.exponent + self.m() - self.lowest_exponent;
        if t >= 0 {
            x.mantissa as nat * pow2(t as nat)
        } else {
            x.mantissa as nat / pow2((-t) as nat)
        }
    }

    /// Whether the range can widen by `k` binary orders of magnitude: it may,
    /// and the integer histogram can grow by `k` buckets.
    pub open spec fn can_widen(self, k: nat) -> bool {
        self.auto_resize && self.m() + self.buckets() + k <= 63
    }

    /// The integer histogram with `k` more buckets.
    pub open spec fn widened_histogram(self, k: nat) -> HistogramView {
        self.integer_histogram.resized((pow2(self.m() + self.buckets() + k) - 1) as u64)
    }

    /// The configured ratio after a widening by `k` binary orders of
    /// magnitude: `2^k` times the ratio, as far as 64 bits reach.
    pub open spec fn widened_ratio(self, k: nat) -> u64 {
        if self.configured_highest_to_lowest_value_ratio * pow2(k) > u64::MAX {
            u64::MAX
        } else {
            (self.configured_highest_to_lowest_value_ratio * pow2(k)) as u64
        }
    }

    /// The histogram with the range moved `k` binary orders of magnitude down,
    /// to cover lower values. The recorded integers are multiplied by `2^k`,
    /// so that they stand for the same values. Where that would push the
    /// maximum off the top, the range keeps its upper end and is widened
    /// instead; where it cannot be widened, nothing can be done.
    pub open spec fn range_moved_down(self, k: nat) -> Option<DoubleHistogramView> {
        if !self.has_values() {
            Some(
                DoubleHistogramView {
                    lowest_exponent: self.lowest_exponent - k,
                    highest_exponent: self.highest_exponent - k,
                    ..self
                },
            )
        } else if !self.integer_histogram.shift_left_overflows(k) {
            Some(
                DoubleHistogramView {
                    integer_histogram: self.integer_histogram.shifted_left(k),
                    lowest_exponent: self.lowest_exponent - k,
                    highest_exponent: self.highest_exponent - k,
                    ..self
                },
            )
        } else if !self.can_widen(k) || self.widened_histogram(k).shift_left_overflows(k) {
            None
        } else {
            Some(
                DoubleHistogramView {
                    integer_histogram: self.widened_histogram(k).shifted_left(k),
                    configured_highest_to_lowest_value_ratio: self.widened_ratio(k),
                    lowest_exponent: self.lowest_exponent - k,
                    ..self
                },
            )
        }
    }

    /// The histogram with the range moved `k` binary orders of magnitude up,
    /// to cover higher values. The recorded integers are divided by `2^k`.
    /// Where that would push the minimum below the slots that can tell it
    /// from its neighbours, the range keeps its lower end and is widened
    /// instead; where it cannot be widened, nothing can be done.
    pub open spec fn range_moved_up(self, k: nat) -> Option<DoubleHistogramView> {
        if !self.has_values() {
            Some(
                DoubleHistogramView {
                    lowest_exponent: self.lowest_exponent + k,
                    highest_exponent: self.highest_exponent + k,
                    ..self
                },
            )
        } else if !self.integer_histogram.shift_right_underflows(k) {
            Some(
                DoubleHistogramView {
                    integer_histogram: self.integer_histogram.shifted_right(k),
                    lowest_exponent: self.lowest_exponent + k,
                    highest_exponent: self.highest_exponent + k,
                    ..self
                },
            )
        } else if !self.can_widen(k) {
            None
        } else {
            Some(
                DoubleHistogramView {
                    integer_histogram: self.widened_histogram(k),
                    configured_highest_to_lowest_value_ratio: self.widened_ratio(k),
                    highest_exponent: self.highest_exponent + k,
                    ..self
                },
            )
        }
    }

    /// The number of binary orders of magnitude by which the range moves in
    /// one step towards `x`, which it does not cover.
    pub open spec fn step_size(self, x: Dyadic) -> nat {
        if x.magnitude() < self.lowest_exponent {
            capped_containing_binary_order_of_magnitude(
                times_below(x, self.lowest_exponent),
                self.configured_highest_to_lowest_value_ratio,
            )
        } else {
            capped_containing_binary_order_of_magnitude(
                times_above(x, self.highest_exponent),
                self.configured_highest_to_lowest_value_ratio,
            )
        }
    }

    /// The histogram after one step of the range towards `x`, which it does
    /// not cover; `None` where the step cannot be made, or `x` is higher than
    /// any value that a histogram takes.
    pub open spec fn step_towards(self, x: Dyadic) -> Option<DoubleHistogramView> {
        if x.magnitude() < self.lowest_exponent {
            self.range_moved_down(self.step_size(x))
        } else if x.exceeds_pow2(HIGHEST_ALLOWED_MAGNITUDE as int) {
            None
        } else {
            self.range_moved_up(self.step_size(x))
        }
    }

    /// How far the range is from `x`, in binary orders of magnitude.
    pub open spec fn distance(self, x: Dyadic) -> nat {
        if x.magnitude() < self.lowest_exponent {
            (self.lowest_exponent - x.magnitude()) as nat
        } else if x.magnitude() >= self.highest_exponent {
            (x.magnitude() + 1 - self.highest_exponent) as nat
        } else {
            0
        }
    }

    /// The histogram once the range has moved towards `x` step by step, until
    /// it covers `x` or a step cannot be made; at most `steps` steps are made.
    pub open spec fn settled_for(self, x: Dyadic, steps: nat) -> DoubleHistogramView
        decreases steps,
    {
        if self.covers(x) || steps == 0 {
            self
        } else {
            match self.step_towards(x) {
                None => self,
                Some(next) => next.settled_for(x, (steps - 1) as nat),
            }
        }
    }

    /// The histogram once the range has moved towards `x` until it covers `x`
    /// or cannot move further.
    pub open spec fn adjusted_for(self, x: Dyadic) -> DoubleHistogramView {
        self.settled_for(x, self.distance(x))
    }

    /// Whether the range has a lower end below its upper end, and a ratio to
    /// cap its steps by.
    pub open spec fn has_range(self) -> bool {
        &&& self.lowest_exponent < self.highest_exponent
        &&& self.configured_highest_to_lowest_value_ratio >= 2
    }

    /// A step towards a value brings the range closer to it.
    pub proof fn lemma_step_closer(self, x: Dyadic)
        requires
            self.has_range(),
            x.wf(),
            !self.covers(x),
            self.step_towards(x) is Some,
        ensures
            1 <= self.step_size(x) <= self.distance(x),
            self.step_towards(x)->0.distance(x) < self.distance(x),
            self.step_towards(x)->0.has_range(),
    {
        let k = self.step_size(x);
        if x.magnitude() < self.lowest_exponent {
            lemma_step_below_bounds(
                x,
                self.lowest_exponent,
                self.configured_highest_to_lowest_value_ratio,
            );
        } else {
            lemma_step_above_bounds(
                x,
                self.highest_exponent,
                self.configured_highest_to_lowest_value_ratio,
            );
        }
        vstd::arithmetic::power2::lemma_pow2_pos(k);
        let r = self.configured_highest_to_lowest_value_ratio as int;
        let p = pow2(k) as int;
        assert(r * p >= 2) by (nonlinear_arith)
            requires
                r >= 2,
                p >= 1,
        ;
    }

    /// More steps than the range is away from a value do not get it further.
    pub proof fn lemma_settled_steps(self, x: Dyadic, steps: nat)
        requires
            self.has_range(),
            x.wf(),
            steps >= self.distance(x),
        ensures
            self.settled_for(x, steps) == self.adjusted_for(x),
        decreases steps,
    {
        if !self.covers(x) && steps > 0 {
            match self.step_towards(x) {
                None => {},
                Some(next) => {
                    self.lemma_step_closer(x);
                    next.lemma_settled_steps(x, (steps - 1) as nat);
                    next.lemma_settled_steps(x, (self.distance(x) - 1) as nat);
                },
            }
        }
    }

    /// The integer that a value within the range is recorded as lies in the
    /// upper half of bucket 0 or above, and has a slot.
    pub proof fn lemma_integer_value_in_range(self, x: Dyadic)
        requires
            self.wf(),
            x.wf(),
            self.covers(x),
        ensures
            pow2(self.m()) <= self.integer_value_of(x) < pow2(self.m() + self.buckets()),
            self.integer_value_of(x) <= u64::MAX,
            self.integer_histogram.in_range(self.integer_value_of(x) as u64),
            x.exponent + self.m() - self.lowest_exponent >= 0 ==> x.exponent + self.m()
                - self.lowest_exponent <= 63,
            x.exponent + self.m() - self.lowest_exponent < 0 ==> self.lowest_exponent - x.exponent
                - self.m() <= 52,
    {
        let m = self.m();
        let s = self.integer_histogram.settings;
        let mant = x.mantissa as nat;
        let fl = crate::bits::floor_log2(mant);
        let t = x.exponent + m - self.lowest_exponent;
        let low = (x.magnitude() + m - self.lowest_exponent) as nat;
        s.lemma_layout();
        vstd::arithmetic::power2::lemma2_to64();
        vstd::arithmetic::power2::lemma2_to64_rest();
        crate::bits::lemma_floor_log2_unique(1, 0);
        assert(s.u() == 0);
        crate::bits::lemma_floor_log2_bounds(mant);
        if fl >= 53 {
            crate::bits::lemma_pow2_monotone(53, fl);
        }
        crate::bits::lemma_pow2_monotone(m, low);
        crate::bits::lemma_pow2_monotone(low + 1, m + self.buckets());
        crate::bits::lemma_pow2_monotone(m + self.buckets(), 64);
        if t >= 0 {
            let tn = t as nat;
            vstd::arithmetic::power2::lemma_pow2_adds(fl, tn);
            vstd::arithmetic::power2::lemma_pow2_adds(fl + 1, tn);
            vstd::arithmetic::power2::lemma_pow2_pos(tn);
            let p = pow2(tn) as int;
            let lo = pow2(fl) as int;
            let hi = pow2(fl + 1) as int;
            let mi = mant as int;
            assert(lo * p <= mi * p < hi * p) by (nonlinear_arith)
                requires
                    lo <= mi < hi,
                    p >= 1,
            ;
            if tn >= 64 {
                crate::bits::lemma_pow2_monotone(64, fl + tn);
            }
        } else {
            let sn = (-t) as nat;
            assert(sn <= fl);
            vstd::arithmetic::power2::lemma_pow2_adds(low, sn);
            vstd::arithmetic::power2::lemma_pow2_adds(low + 1, sn);
            vstd::arithmetic::power2::lemma_pow2_pos(sn);
            crate::histogram_settings::lemma_div_at_least(mant, pow2(sn), pow2(low));
            crate::histogram_settings::lemma_div_below(mant, pow2(sn), pow2(low + 1));
        }
        self.integer_histogram.lemma_highest_recordable();
    }
}

} // verus!
