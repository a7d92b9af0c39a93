//! The histogram of floating-point values.
//!
//! Values come in taken apart into mantissa and binary exponent, and the ends
//! of the range are kept as binary exponents: the range moves by whole binary
//! orders of magnitude, so that nothing is ever rounded.

use vstd::prelude::*;
use vstd::arithmetic::power2::{pow2, lemma_pow2_pos, lemma_pow2_adds, lemma2_to64, lemma2_to64_rest};
use std::marker::PhantomData;
use crate::bits::{floor_log2, lemma_floor_log2_bounds, lemma_floor_log2_unique, lemma_pow2_monotone, lemma_one_shl_is_pow2};
use crate::double::double_view::DoubleHistogramView;
use crate::double::range::{derive_integer_value_range, find_containing_binary_order_of_magnitude_long, internal_ratio_for, containing_binary_order_of_magnitude, shift_to_cover_above, shift_to_cover_below};
use crate::double::sample::{DoubleSample, Dyadic, HIGHEST_ALLOWED_MAGNITUDE};
use crate::double_policy::{OverflowPolicy, SaturateOnOverflow, ThrowOnOverflow};
use crate::errors::{DoubleCreationError, RecordError};
use crate::histogram_settings::{creation_error, pow10, sub_bucket_count_magnitude_for, MAX_SIGNIFICANT_VALUE_DIGITS};
use crate::st::histogram::Histogram;
use crate::st::histogram_view::HistogramView;

verus! {

/// The binary logarithm of the lower end of the range of a histogram that
/// holds nothing: in the middle of what the exponent of a floating-point
/// value can be, so that the range can move far either way.
pub const INITIAL_LOWEST_EXPONENT: i32 = 800;

/// A histogram of floating-point values. The policy `P` says what becomes of
/// a value that the range cannot be moved to cover.
pub struct DoubleHistogramImpl<P: OverflowPolicy> {
    integer_histogram: Histogram,
    configured_highest_to_lowest_value_ratio: u64,
    lowest_exponent: i32,
    highest_exponent: i32,
    auto_resize: bool,
    _policy: PhantomData<P>,
}

/// A histogram of floating-point values that refuses a value which its range
/// cannot be moved to cover.
pub type DoubleHistogram = DoubleHistogramImpl<ThrowOnOverflow>;

/// A histogram of floating-point values that records a value which its range
/// cannot be moved to cover at the nearest end of the range.
pub type SaturatingDoubleHistogram = DoubleHistogramImpl<SaturateOnOverflow>;

/// What stands in the way of a histogram for a ratio of the highest to the
/// lowest value of `highest_to_lowest_value_ratio` and
/// `number_of_significant_value_digits` digits, if anything.
pub open spec fn double_creation_error(
    highest_to_lowest_value_ratio: u64,
    number_of_significant_value_digits: u8,
) -> Option<DoubleCreationError> {
    if highest_to_lowest_value_ratio < 2 {
        Some(DoubleCreationError::HighestToLowestValueRatioTooSmall)
    } else if number_of_significant_value_digits > MAX_SIGNIFICANT_VALUE_DIGITS {
        Some(DoubleCreationError::SignificantValueDigitsExceedsMax)
    } else if highest_to_lowest_value_ratio * pow10(number_of_significant_value_digits as nat)
        >= 0x2000_0000_0000_0000 {
        Some(DoubleCreationError::HighestToLowestValueRatioTooLarge)
    } else if integer_value_range(highest_to_lowest_value_ratio, number_of_significant_value_digits)
        > u64::MAX {
        Some(DoubleCreationError::HighestToLowestValueRatioTooLarge)
    } else {
        match creation_error(
            1,
            (integer_value_range(highest_to_lowest_value_ratio, number_of_significant_value_digits)
                - 1) as u64,
            number_of_significant_value_digits,
        ) {
            Some(e) => Some(DoubleCreationError::Internal(e)),
            None => None,
        }
    }
}

/// The number of integers that stand for the range: half the number of
/// sub-buckets for the lowest binary order of magnitude, doubled for each
/// further one.
pub open spec fn integer_value_range(
    highest_to_lowest_value_ratio: u64,
    number_of_significant_value_digits: u8,
) -> nat {
    pow2((sub_bucket_count_magnitude_for(number_of_significant_value_digits as nat) - 1) as nat)
        * internal_ratio_for(highest_to_lowest_value_ratio)
}

impl<P: OverflowPolicy> View for DoubleHistogramImpl<P> {
    type V = DoubleHistogramView;

    closed spec fn view(&self) -> DoubleHistogramView {
        DoubleHistogramView {
            integer_histogram: self.integer_histogram@,
            configured_highest_to_lowest_value_ratio: self.configured_highest_to_lowest_value_ratio,
            lowest_exponent: self.lowest_exponent as int,
            highest_exponent: self.highest_exponent as int,
            auto_resize: self.auto_resize,
        }
    }
}

impl<P: OverflowPolicy> DoubleHistogramImpl<P> {
    /// Whether the histogram is in a state that its operations keep.
    pub closed spec fn wf(&self) -> bool {
        &&& self@.wf()
        &&& self.integer_histogram.wf()
    }

    /// A histogram in a state that its operations keep has a well-formed view.
    pub proof fn lemma_view_wf(&self)
        requires
            self.wf(),
        ensures
            self@.wf(),
    {
    }

    /// What the constructors return: an empty histogram whose range begins at
    /// `2^800` and has one binary order of magnitude for each binary digit of
    /// the ratio, or what stands in the way.
    pub open spec fn created(
        r: Result<Self, DoubleCreationError>,
        highest_to_lowest_value_ratio: u64,
        number_of_significant_value_digits: u8,
        auto_resize: bool,
    ) -> bool {
        match r {
            Ok(h) => {
                &&& double_creation_error(
                    highest_to_lowest_value_ratio,
                    number_of_significant_value_digits,
                ) is None
                &&& h.wf()
                &&& h@.integer_histogram == HistogramView::empty(h@.integer_histogram.settings)
                &&& h@.integer_histogram.settings.number_of_significant_value_digits
                    == number_of_significant_value_digits
                &&& h@.buckets() == containing_binary_order_of_magnitude(
                    highest_to_lowest_value_ratio,
                )
                &&& h@.configured_highest_to_lowest_value_ratio == highest_to_lowest_value_ratio
                &&& h@.lowest_exponent == INITIAL_LOWEST_EXPONENT
                &&& h@.auto_resize == auto_resize
            },
            Err(e) => double_creation_error(
                highest_to_lowest_value_ratio,
                number_of_significant_value_digits,
            ) == Some(e),
        }
    }

    /// An empty histogram for values whose highest is up to twice the lowest,
    /// kept to `number_of_significant_value_digits` digits; its range widens
    /// as values come.
    pub fn new(number_of_significant_value_digits: u8) -> (r: Result<Self, DoubleCreationError>)
        ensures
            Self::created(r, 2, number_of_significant_value_digits, true),
    {
        match Self::with_highest_to_lowest_value_ratio(2, number_of_significant_value_digits) {
            Ok(mut histogram) => {
                histogram.set_auto_resize(true);
                Ok(histogram)
            },
            Err(e) => Err(e),
        }
    }

    /// An empty histogram for values whose highest is up to
    /// `highest_to_lowest_value_ratio` times the lowest, kept to
    /// `number_of_significant_value_digits` digits. Its range moves, and does
    /// not widen.
    pub fn with_highest_to_lowest_value_ratio(
        highest_to_lowest_value_ratio: u64,
        number_of_significant_value_digits: u8,
    ) -> (r: Result<Self, DoubleCreationError>)
        ensures
            Self::created(
                r,
                highest_to_lowest_value_ratio,
                number_of_significant_value_digits,
                false,
            ),
    {
        if highest_to_lowest_value_ratio < 2 {
            return Err(DoubleCreationError::HighestToLowestValueRatioTooSmall);
        }
        if number_of_significant_value_digits > MAX_SIGNIFICANT_VALUE_DIGITS {
            return Err(DoubleCreationError::SignificantValueDigitsExceedsMax);
        }
        let sig_digits_factor: u128 = power_of_ten_wide(number_of_significant_value_digits);
        proof {
            assert(highest_to_lowest_value_ratio * sig_digits_factor <= 0xffff_ffff_ffff_ffff
                * 100_000) by (nonlinear_arith)
                requires
                    highest_to_lowest_value_ratio <= 0xffff_ffff_ffff_ffff,
                    0 <= sig_digits_factor <= 100_000,
            ;
        }
        let ratio_check: u128 = (highest_to_lowest_value_ratio as u128) * sig_digits_factor;
        if ratio_check >= 0x2000_0000_0000_0000 {
            return Err(DoubleCreationError::HighestToLowestValueRatioTooLarge);
        }
        proof {
            crate::histogram_settings::lemma_pow10_positive(
                number_of_significant_value_digits as nat,
            );
            assert(highest_to_lowest_value_ratio < 0x2000_0000_0000_0000) by (nonlinear_arith)
                requires
                    highest_to_lowest_value_ratio * sig_digits_factor < 0x2000_0000_0000_0000,
                    sig_digits_factor >= 1,
            ;
        }
        let integer_value_range = match derive_integer_value_range(
            highest_to_lowest_value_ratio,
            number_of_significant_value_digits,
        ) {
            Some(range) => range,
            None => {
                return Err(DoubleCreationError::HighestToLowestValueRatioTooLarge);
            },
        };
        let ghost m = (sub_bucket_count_magnitude_for(number_of_significant_value_digits as nat)
            - 1) as nat;
        let ghost order = containing_binary_order_of_magnitude(highest_to_lowest_value_ratio);
        proof {
            lemma2_to64();
            lemma_pow2_pos(m);
            lemma_pow2_pos(order);
            lemma_floor_log2_bounds(highest_to_lowest_value_ratio as nat);
            lemma_pow2_monotone(2, order);
            let a = pow2(m) as int;
            let b = pow2(order) as int;
            assert(a * b >= 4) by (nonlinear_arith)
                requires
                    a >= 1,
                    b >= 4,
            ;
        }
        let highest_trackable_value = integer_value_range - 1;
        let integer_histogram = match Histogram::with_low_high_sigvdig(
            1,
            highest_trackable_value,
            number_of_significant_value_digits,
        ) {
            Ok(histogram) => histogram,
            Err(e) => {
                return Err(DoubleCreationError::Internal(e));
            },
        };
        proof {
            // the highest trackable value is what `order` buckets cover
            integer_histogram.lemma_view_wf();
            let s = integer_histogram@.settings;
            lemma2_to64();
            crate::bits::lemma_floor_log2_unique(1, 0);
            assert(s.u() == 0);
            assert(s.m() == m);
            lemma_pow2_adds(m, order);
            lemma2_to64_rest();
            if m + order > 64 {
                lemma_pow2_monotone(65, m + order);
                vstd::arithmetic::power2::lemma_pow2_strictly_increases(64, 65);
            }
            if m + order == 64 {
            }
            s.lemma_highest_value_of_buckets(order);
        }
        let buckets: u32 = integer_histogram.settings().bucket_count;
        Ok(
            DoubleHistogramImpl {
                integer_histogram,
                configured_highest_to_lowest_value_ratio: highest_to_lowest_value_ratio,
                lowest_exponent: INITIAL_LOWEST_EXPONENT,
                highest_exponent: INITIAL_LOWEST_EXPONENT + buckets as i32,
                auto_resize: false,
                _policy: PhantomData,
            },
        )
    }

    /// Lets or keeps the range from widening where it cannot move.
    pub fn set_auto_resize(&mut self, auto_resize: bool)
        requires
            old(self).wf(),
        ensures
            final(self).wf(),
            final(self)@ == (DoubleHistogramView { auto_resize, ..old(self)@ }),
    {
        self.auto_resize = auto_resize;
    }

    /// Whether the range may widen where it cannot move.
    pub fn is_auto_resize(&self) -> (r: bool)
        ensures
            r == self@.auto_resize,
    {
        self.auto_resize
    }

    /// The integer histogram that holds the counts.
    pub fn integer_histogram(&self) -> (r: &Histogram)
        ensures
            r@ == self@.integer_histogram,
            self.wf() ==> r.wf(),
    {
        &self.integer_histogram
    }

    /// The number of recorded values.
    pub fn get_total_count(&self) -> (r: u64)
        ensures
            r == self@.integer_histogram.total_count,
    {
        self.integer_histogram.get_total_count()
    }

    /// The configured ratio of the highest to the lowest value.
    pub fn get_highest_to_lowest_value_ratio(&self) -> (r: u64)
        ensures
            r == self@.configured_highest_to_lowest_value_ratio,
    {
        self.configured_highest_to_lowest_value_ratio
    }

    /// The number of significant decimal digits.
    pub fn get_number_of_significant_value_digits(&self) -> (r: u8)
        requires
            self.wf(),
        ensures
            r == self@.integer_histogram.settings.number_of_significant_value_digits,
    {
        self.integer_histogram.settings().number_of_significant_value_digits as u8
    }

    /// The binary logarithm of the lower end of the range: the lowest value
    /// above zero that can be told from zero just now is 2 to this power.
    pub fn get_current_lowest_trackable_non_zero_exponent(&self) -> (r: i32)
        ensures
            r == self@.lowest_exponent,
    {
        self.lowest_exponent
    }

    /// The binary logarithm of the upper end of the range: the values below 2
    /// to this power have a slot just now.
    pub fn get_current_highest_trackable_exponent(&self) -> (r: i32)
        ensures
            r == self@.highest_exponent,
    {
        self.highest_exponent
    }

    /// The binary logarithm of what an integer of the integer histogram stands
    /// for: a recorded integer `v` stands for the value `v` times 2 to this
    /// power.
    pub fn get_integer_to_double_conversion_exponent(&self) -> (r: i32)
        requires
            self.wf(),
        ensures
            r == self@.lowest_exponent - self@.m(),
    {
        proof {
            self.integer_histogram.lemma_view_wf();
        }
        self.lowest_exponent
            - self.integer_histogram.settings().sub_bucket_half_count_magnitude as i32
    }

    /// Whether a value above zero is recorded.
    fn has_values(&self) -> (r: bool)
        requires
            self.wf(),
        ensures
            r == self@.has_values(),
    {
        proof {
            self.integer_histogram.lemma_view_wf();
            self.integer_histogram@.lemma_highest_recordable();
        }
        let zero_count = match self.integer_histogram.get_count_at_index(0) {
            Some(count) => *count,
            None => 0,
        };
        self.integer_histogram.get_total_count() != zero_count
    }

    /// Widens the range by `number_of_binary_orders_of_magnitude`: the integer
    /// histogram gets as many buckets more, and the configured ratio is
    /// doubled as often. The ends of the range are left for the caller to
    /// set.
    fn handle_shift_values_exception(&mut self, number_of_binary_orders_of_magnitude: u32) -> (r:
        Result<(), RecordError>)
        requires
            old(self).wf(),
            1 <= number_of_binary_orders_of_magnitude <= 63,
        ensures
            match r {
                Ok(()) => {
                    &&& old(self)@.can_widen(number_of_binary_orders_of_magnitude as nat)
                    &&& final(self).integer_histogram.wf()
                    &&& final(self).integer_histogram@ == old(self)@.widened_histogram(
                        number_of_binary_orders_of_magnitude as nat,
                    )
                    &&& final(self).integer_histogram@.settings.bucket_count == old(self)@.buckets() + number_of_binary_orders_of_magnitude
                    &&& final(self).integer_histogram@.settings.highest_trackable_value == final(self).integer_histogram@.settings.highest_recordable_value()
                    &&& final(self).configured_highest_to_lowest_value_ratio == old(self)@.widened_ratio(number_of_binary_orders_of_magnitude as nat)
                    &&& final(self).configured_highest_to_lowest_value_ratio >= 2
                    &&& final(self).lowest_exponent == old(self).lowest_exponent
                    &&& final(self).highest_exponent == old(self).highest_exponent
                    &&& final(self).auto_resize == old(self).auto_resize
                },
                Err(e) => {
                    &&& e == RecordError::ValueOutOfRangeResizeDisabled
                    &&& !old(self)@.can_widen(number_of_binary_orders_of_magnitude as nat)
                    &&& *final(self) == *old(self)
                },
            },
    {
        let k = number_of_binary_orders_of_magnitude;
        if !self.auto_resize {
            return Err(RecordError::ValueOutOfRangeResizeDisabled);
        }
        let ghost view = self@;
        let ghost s = view.integer_histogram.settings;
        let ghost top = (view.m() + view.buckets()) as nat;
        proof {
            self.integer_histogram.lemma_view_wf();
            s.lemma_layout();
            lemma2_to64();
            lemma_floor_log2_unique(1, 0);
            assert(s.u() == 0);
            lemma2_to64_rest();
            lemma_pow2_pos(top);
            lemma_pow2_monotone(1, top);
            vstd::arithmetic::power2::lemma_pow2_unfold(top);
            lemma_pow2_monotone(top, 64);
            if top >= 1 {
                lemma_floor_log2_unique((pow2(top) - 1) as nat, (top - 1) as nat);
            }
        }
        let highest_trackable_value = self.integer_histogram.settings().highest_trackable_value;
        let current_containing_order = find_containing_binary_order_of_magnitude_long(
            highest_trackable_value,
        );
        let new_containing_order = current_containing_order + k;
        if new_containing_order > 63 {
            return Err(RecordError::ValueOutOfRangeResizeDisabled);
        }
        proof {
            lemma_one_shl_is_pow2(new_containing_order as u64);
            lemma_pow2_pos(new_containing_order as nat);
            s.lemma_highest_value_of_buckets((view.buckets() + k) as nat);
            lemma_pow2_monotone(top, new_containing_order as nat);
            vstd::arithmetic::power2::lemma_pow2_strictly_increases(
                top,
                new_containing_order as nat,
            );
            // the new highest value lies beyond the counts array
            view.integer_histogram.lemma_highest_recordable();
            view.integer_histogram.lemma_resized_wf(
                ((1u64 << new_containing_order) - 1) as u64,
            );
        }
        let new_highest_trackable_value: u64 = (1_u64 << new_containing_order) - 1;
        match self.integer_histogram.resize(new_highest_trackable_value) {
            Ok(()) => {},
            Err(e) => {
                return Err(RecordError::ResizeFailed(e));
            },
        }
        self.configured_highest_to_lowest_value_ratio = ratio_times_power_of_two(
            self.configured_highest_to_lowest_value_ratio,
            k,
        );
        Ok(())
    }

    /// Moves the range `number_of_binary_orders_of_magnitude` down, to cover
    /// lower values. Where the recorded values leave no room for that at the
    /// top, the range is widened downwards instead; where it may not widen or
    /// cannot, nothing changes.
    pub fn shift_covered_range_to_the_right(&mut self, number_of_binary_orders_of_magnitude: u32)
        -> (r: Result<(), RecordError>)
        requires
            old(self).wf(),
            1 <= number_of_binary_orders_of_magnitude <= 63,
            old(self)@.lowest_exponent - number_of_binary_orders_of_magnitude >= -1100,
        ensures
            final(self).wf(),
            match r {
                Ok(()) => Some(final(self)@) == old(self)@.range_moved_down(
                    number_of_binary_orders_of_magnitude as nat,
                ),
                Err(e) => {
                    &&& e == RecordError::ValueOutOfRangeResizeDisabled
                    &&& old(self)@.range_moved_down(number_of_binary_orders_of_magnitude as nat)
                        is None
                    &&& final(self)@ == old(self)@
                },
            },
    {
        let k = number_of_binary_orders_of_magnitude;
        let ghost view = self@;
        if self.has_values() {
            proof {
                self.integer_histogram.lemma_view_wf();
                view.integer_histogram.lemma_highest_recordable();
                view.integer_histogram.settings.lemma_layout();
            }
            // would the shift push the maximum off the top?
            let h: u32 = self.integer_histogram.settings().sub_bucket_half_count;
            let length: u32 = self.integer_histogram.counts_array_length();
            let max_index: u32 = self.integer_histogram.counts_array_index(
                self.integer_histogram.get_max_value(),
            );
            proof {
                assert(k * h <= 63 * 0x20000) by (nonlinear_arith)
                    requires
                        0 <= k <= 63,
                        0 <= h <= 0x20000,
                ;
            }
            let shift: u64 = (k as u64) * (h as u64);
            if max_index as u64 + shift >= length as u64 {
                // it would: is there room once the range is widened?
                if !self.auto_resize {
                    return Err(RecordError::ValueOutOfRangeResizeDisabled);
                }
                let highest_trackable_value =
                    self.integer_histogram.settings().highest_trackable_value;
                let order = find_containing_binary_order_of_magnitude_long(highest_trackable_value);
                proof {
                    let s = view.integer_histogram.settings;
                    let top = (view.m() + view.buckets()) as nat;
                    lemma2_to64();
                    lemma_floor_log2_unique(1, 0);
                    assert(s.u() == 0);
                    lemma2_to64_rest();
                    lemma_pow2_pos(top);
                    lemma_pow2_monotone(1, top);
                    vstd::arithmetic::power2::lemma_pow2_unfold(top);
                    lemma_pow2_monotone(top, 64);
                    lemma_floor_log2_unique((pow2(top) - 1) as nat, (top - 1) as nat);
                    assert(order == top);
                }
                if order + k > 63 {
                    return Err(RecordError::ValueOutOfRangeResizeDisabled);
                }
                proof {
                    let s = view.integer_histogram.settings;
                    lemma_one_shl_is_pow2((order + k) as u64);
                    lemma_pow2_pos((order + k) as nat);
                    s.lemma_highest_value_of_buckets((view.buckets() + k) as nat);
                    let hi = h as int;
                    let b = view.buckets() as int;
                    assert((b + k + 1) * hi == (b + 1) * hi + k * hi) by (nonlinear_arith);
                }
                let widened_length: u32 =
                    self.integer_histogram.settings().determine_array_length_needed(
                    (1_u64 << (order + k)) - 1,
                );
                if max_index as u64 + shift >= widened_length as u64 {
                    return Err(RecordError::ValueOutOfRangeResizeDisabled);
                }
                match self.handle_shift_values_exception(k) {
                    Ok(()) => {},
                    Err(e) => {
                        return Err(e);
                    },
                }
                match self.integer_histogram.shift_values_left(k) {
                    Ok(()) => {},
                    Err(_) => {
                        // the check above has shown that there is room
                        proof {
                            assert(false);
                        }
                        return Err(RecordError::ValueOutOfRangeResizeDisabled);
                    },
                }
                self.lowest_exponent = self.lowest_exponent - k as i32;
                proof {
                    self.integer_histogram.lemma_view_wf();
                }
                return Ok(());
            }
            match self.integer_histogram.shift_values_left(k) {
                Ok(()) => {},
                Err(_) => {
                    proof {
                        assert(false);
                    }
                    return Err(RecordError::ValueOutOfRangeResizeDisabled);
                },
            }
            proof {
                self.integer_histogram.lemma_view_wf();
            }
        }
        self.lowest_exponent = self.lowest_exponent - k as i32;
        self.highest_exponent = self.highest_exponent - k as i32;
        Ok(())
    }

    /// Moves the range `number_of_binary_orders_of_magnitude` up, to cover
    /// higher values. Where the recorded values leave no room for that at the
    /// bottom, the range is widened upwards instead; where it may not widen or
    /// cannot, nothing changes.
    pub fn shift_covered_range_to_the_left(&mut self, number_of_binary_orders_of_magnitude: u32)
        -> (r: Result<(), RecordError>)
        requires
            old(self).wf(),
            1 <= number_of_binary_orders_of_magnitude <= 63,
            old(self)@.highest_exponent + number_of_binary_orders_of_magnitude <= 1100,
        ensures
            final(self).wf(),
            match r {
                Ok(()) => Some(final(self)@) == old(self)@.range_moved_up(
                    number_of_binary_orders_of_magnitude as nat,
                ),
                Err(e) => {
                    &&& e == RecordError::ValueOutOfRangeResizeDisabled
                    &&& old(self)@.range_moved_up(number_of_binary_orders_of_magnitude as nat)
                        is None
                    &&& final(self)@ == old(self)@
                },
            },
    {
        let k = number_of_binary_orders_of_magnitude;
        let ghost view = self@;
        if self.has_values() {
            match self.integer_histogram.shift_values_right(k) {
                Ok(()) => {
                    proof {
                        self.integer_histogram.lemma_view_wf();
                    }
                },
                Err(_) => {
                    match self.handle_shift_values_exception(k) {
                        Ok(()) => {},
                        Err(e) => {
                            return Err(e);
                        },
                    }
                    self.highest_exponent = self.highest_exponent + k as i32;
                    proof {
                        self.integer_histogram.lemma_view_wf();
                    }
                    return Ok(());
                },
            }
        }
        self.lowest_exponent = self.lowest_exponent + k as i32;
        self.highest_exponent = self.highest_exponent + k as i32;
        Ok(())
    }

    /// Whether `x` lies within the range.
    pub fn covers(&self, x: &Dyadic) -> (r: bool)
        requires
            x.wf(),
        ensures
            r == self@.covers(*x),
    {
        let magnitude = x.get_magnitude();
        self.lowest_exponent <= magnitude && magnitude < self.highest_exponent
    }

    /// Moves the range towards `x` step by step, until it covers `x` or a step
    /// cannot be made. A step is as wide as `x` is away, but no wider than
    /// the configured ratio. Where the range moves down under values that
    /// the histogram holds, the extremes go on standing for the same values.
    pub fn auto_adjust_range_for_value(&mut self, x: &Dyadic) -> (r: Result<(), RecordError>)
        requires
            old(self).wf(),
            x.wf(),
        ensures
            final(self).wf(),
            final(self)@ == old(self)@.adjusted_for(*x),
            r is Ok <==> final(self)@.covers(*x),
            r matches Err(e) ==> e == RecordError::ValueOutOfRangeResizeDisabled,
            final(self)@.integer_histogram.total_count == old(self)@.integer_histogram.total_count,
            old(self)@.has_values() && x.magnitude() < old(self)@.lowest_exponent ==> old(
                self,
            )@.keeps_extremes_moved_down(final(self)@),
    {
        let ghost target = self@.adjusted_for(*x);
        let ghost went_down = self@.has_values() && x.magnitude() < self@.lowest_exponent;
        proof {
            if went_down {
                self@.lemma_keeps_own_extremes();
            }
        }
        let ghost total = self@.integer_histogram.total_count;
        proof {
            self.integer_histogram.lemma_view_wf();
            self@.integer_histogram.settings.lemma_layout();
        }
        loop
            invariant
                self.wf(),
                x.wf(),
                self@.has_range(),
                self@.adjusted_for(*x) == target,
                self@.integer_histogram.total_count == total,
                target == old(self)@.adjusted_for(*x),
                total == old(self)@.integer_histogram.total_count,
                went_down == (old(self)@.has_values() && x.magnitude() < old(
                    self,
                )@.lowest_exponent),
                went_down ==> old(self)@.keeps_extremes_moved_down(self@) && (x.magnitude()
                    < self@.lowest_exponent || self@.covers(*x)),
            ensures
                self.wf(),
                self@ == target,
                self@.covers(*x),
                self@.integer_histogram.total_count == total,
                went_down ==> old(self)@.keeps_extremes_moved_down(self@),
            decreases self@.distance(*x),
        {
            let ghost view = self@;
            let magnitude = x.get_magnitude();
            if magnitude < self.lowest_exponent {
                let shift_amount = shift_to_cover_below(
                    x,
                    self.lowest_exponent,
                    self.configured_highest_to_lowest_value_ratio,
                );
                match self.shift_covered_range_to_the_right(shift_amount) {
                    Ok(()) => {
                        proof {
                            if went_down {
                                old(self)@.lemma_keeps_extremes_on(view, shift_amount as nat);
                            }
                        }
                    },
                    Err(e) => {
                        proof {
                            assert(view.distance(*x) > 0);
                            assert(view.step_towards(*x) is None);
                        }
                        return Err(e);
                    },
                }
            } else if magnitude >= self.highest_exponent {
                if x.is_above_pow2(HIGHEST_ALLOWED_MAGNITUDE) {
                    proof {
                        assert(view.distance(*x) > 0);
                        assert(view.step_towards(*x) is None);
                    }
                    return Err(RecordError::ValueOutOfRangeResizeDisabled);
                }
                let shift_amount = shift_to_cover_above(
                    x,
                    self.highest_exponent,
                    self.configured_highest_to_lowest_value_ratio,
                );
                match self.shift_covered_range_to_the_left(shift_amount) {
                    Ok(()) => {},
                    Err(e) => {
                        proof {
                            assert(view.distance(*x) > 0);
                            assert(view.step_towards(*x) is None);
                        }
                        return Err(e);
                    },
                }
            } else {
                break ;
            }
            proof {
                view.lemma_step_closer(*x);
                self@.lemma_settled_steps(*x, (view.distance(*x) - 1) as nat);
            }
        }
        Ok(())
    }

    /// The integer that `x`, which lies within the range, is recorded as.
    pub fn to_integer_value(&self, x: &Dyadic) -> (r: u64)
        requires
            self.wf(),
            x.wf(),
            self@.covers(*x),
        ensures
            r == self@.integer_value_of(*x),
            self@.integer_histogram.in_range(r),
    {
        proof {
            self@.lemma_integer_value_in_range(*x);
            self.integer_histogram.lemma_view_wf();
            self@.integer_histogram.settings.lemma_layout();
        }
        let m: i32 = self.integer_histogram.settings().sub_bucket_half_count_magnitude as i32;
        let t: i32 = x.exponent + m - self.lowest_exponent;
        if t >= 0 {
            proof {
                vstd::bits::lemma_u64_shl_is_mul(x.mantissa, t as u64);
            }
            x.mantissa << (t as u32)
        } else {
            proof {
                vstd::bits::lemma_u64_shr_is_div(x.mantissa, (-t) as u64);
            }
            x.mantissa >> ((-t) as u32)
        }
    }

    /// Records `sample` once. See `record_value_with_count`.
    pub fn record_value(&mut self, sample: DoubleSample) -> (r: Result<(), RecordError>)
        requires
            old(self).wf(),
            sample matches DoubleSample::Positive(x) ==> x.wf(),
            old(self)@.integer_histogram.total_count + 1 <= u64::MAX,
        ensures
            final(self).wf(),
            Self::recorded(old(self)@, final(self)@, r, sample, 1),
            sample matches DoubleSample::Positive(x) ==> (old(self)@.has_values() && x.magnitude()
                < old(self)@.lowest_exponent ==> old(self)@.keeps_extremes_moved_down(
                old(self)@.adjusted_for(x),
            )),
    {
        self.record_value_with_count(sample, 1)
    }

    /// What recording `sample` `count` times does. A value that is not finite
    /// or below zero is refused. Zero is counted in slot 0 of the integer
    /// histogram. For a value above zero the range first moves until it covers
    /// the value; the value is then counted as the integer that it makes in
    /// the range. Where the range cannot be moved that far, the value is
    /// refused, or, under the saturating policy, counted at the nearest end of
    /// the range as it then is.
    pub open spec fn recorded(
        before: DoubleHistogramView,
        after: DoubleHistogramView,
        r: Result<(), RecordError>,
        sample: DoubleSample,
        count: u64,
    ) -> bool {
        match sample {
            DoubleSample::NotFinite | DoubleSample::Negative => {
                &&& r == Err::<(), RecordError>(RecordError::ValueOutOfRangeResizeDisabled)
                &&& after == before
            },
            DoubleSample::Zero => {
                &&& r is Ok
                &&& after == (DoubleHistogramView {
                    integer_histogram: before.integer_histogram.recorded(0, count),
                    ..before
                })
            },
            DoubleSample::Positive(x) => {
                let adjusted = before.adjusted_for(x);
                if adjusted.covers(x) {
                    &&& r is Ok
                    &&& after == (DoubleHistogramView {
                        integer_histogram: adjusted.integer_histogram.recorded(
                            adjusted.integer_value_of(x) as u64,
                            count,
                        ),
                        ..adjusted
                    })
                } else if !P::SATURATE {
                    &&& r == Err::<(), RecordError>(RecordError::ValueOutOfRangeResizeDisabled)
                    &&& after == adjusted
                } else {
                    &&& r is Ok
                    &&& after == (DoubleHistogramView {
                        integer_histogram: adjusted.integer_histogram.recorded(
                            if x.magnitude() < adjusted.lowest_exponent {
                                pow2(adjusted.m()) as u64
                            } else {
                                adjusted.integer_histogram.settings.highest_recordable_value() as u64
                            },
                            count,
                        ),
                        ..adjusted
                    })
                }
            },
        }
    }

    /// Whether recording `sample` succeeds: it is zero, or a value above zero
    /// that the range can be moved to cover or that is counted at an end of
    /// the range.
    pub open spec fn recording_succeeds(before: DoubleHistogramView, sample: DoubleSample) -> bool {
        match sample {
            DoubleSample::NotFinite | DoubleSample::Negative => false,
            DoubleSample::Zero => true,
            DoubleSample::Positive(x) => before.adjusted_for(x).covers(x) || P::SATURATE,
        }
    }

    /// The histogram once `sample` is recorded `count` times, or once that
    /// was tried.
    pub open spec fn view_after_recording(
        before: DoubleHistogramView,
        sample: DoubleSample,
        count: u64,
    ) -> DoubleHistogramView {
        match sample {
            DoubleSample::NotFinite | DoubleSample::Negative => before,
            DoubleSample::Zero => DoubleHistogramView {
                integer_histogram: before.integer_histogram.recorded(0, count),
                ..before
            },
            DoubleSample::Positive(x) => {
                let adjusted = before.adjusted_for(x);
                if adjusted.covers(x) {
                    DoubleHistogramView {
                        integer_histogram: adjusted.integer_histogram.recorded(
                            adjusted.integer_value_of(x) as u64,
                            count,
                        ),
                        ..adjusted
                    }
                } else if !P::SATURATE {
                    adjusted
                } else {
                    DoubleHistogramView {
                        integer_histogram: adjusted.integer_histogram.recorded(
                            if x.magnitude() < adjusted.lowest_exponent {
                                pow2(adjusted.m()) as u64
                            } else {
                                adjusted.integer_histogram.settings.highest_recordable_value() as u64
                            },
                            count,
                        ),
                        ..adjusted
                    }
                }
            },
        }
    }

    /// What recording does is a function of the histogram, the sample and the
    /// count.
    pub proof fn lemma_recorded_is_a_function(
        before: DoubleHistogramView,
        after: DoubleHistogramView,
        r: Result<(), RecordError>,
        sample: DoubleSample,
        count: u64,
    )
        requires
            Self::recorded(before, after, r, sample, count),
        ensures
            after == Self::view_after_recording(before, sample, count),
            r is Ok <==> Self::recording_succeeds(before, sample),
            r matches Err(e) ==> e == RecordError::ValueOutOfRangeResizeDisabled,
    {
    }

    /// Records `sample` `count` times. Where the range moves down for the
    /// sample, under values that the histogram holds, the extremes of the
    /// moved range stand for the values that they stood for before.
    pub fn record_value_with_count(&mut self, sample: DoubleSample, count: u64) -> (r: Result<
        (),
        RecordError,
    >)
        requires
            old(self).wf(),
            sample matches DoubleSample::Positive(x) ==> x.wf(),
            old(self)@.integer_histogram.total_count + count <= u64::MAX,
        ensures
            final(self).wf(),
            Self::recorded(old(self)@, final(self)@, r, sample, count),
            final(self)@.integer_histogram.total_count == old(self)@.integer_histogram.total_count
                + (if r is Ok {
                count
            } else {
                0
            }),
            sample matches DoubleSample::Positive(x) ==> (old(self)@.has_values() && x.magnitude()
                < old(self)@.lowest_exponent ==> old(self)@.keeps_extremes_moved_down(
                old(self)@.adjusted_for(x),
            )),
    {
        match sample {
            DoubleSample::NotFinite => Err(RecordError::ValueOutOfRangeResizeDisabled),
            DoubleSample::Negative => Err(RecordError::ValueOutOfRangeResizeDisabled),
            DoubleSample::Zero => {
                proof {
                    self.integer_histogram.lemma_view_wf();
                    self@.integer_histogram.lemma_zero_lands_in_slot_zero(count);
                }
                let recorded = self.integer_histogram.record_value_with_count_strict(0, count);
                proof {
                    self.integer_histogram.lemma_view_wf();
                }
                recorded
            },
            DoubleSample::Positive(x) => {
                if !self.covers(&x) {
                    match self.auto_adjust_range_for_value(&x) {
                        Ok(()) => {},
                        Err(e) => {
                            if P::SATURATE {
                                proof {
                                    self.integer_histogram.lemma_view_wf();
                                    self@.integer_histogram.lemma_highest_recordable();
                                    self@.integer_histogram.settings.lemma_layout();
                                    self.lemma_lowest_integer_in_range();
                                    self@.integer_histogram.lemma_recorded_wf(
                                        pow2(self@.m()) as u64,
                                        count,
                                    );
                                }
                                let magnitude = x.get_magnitude();
                                let integer_value: u64 = if magnitude < self.lowest_exponent {
                                    self.integer_histogram.settings().sub_bucket_half_count as u64
                                } else {
                                    self.integer_histogram.highest_recordable_value()
                                };
                                let recorded = self.integer_histogram.record_value_with_count(
                                    integer_value,
                                    count,
                                );
                                proof {
                                    self.integer_histogram.lemma_view_wf();
                                }
                                return recorded;
                            }
                            return Err(e);
                        },
                    }
                } else {
                    proof {
                        assert(self@.adjusted_for(x) == self@);
                    }
                }
                let integer_value = self.to_integer_value(&x);
                let recorded = self.integer_histogram.record_value_with_count_strict(
                    integer_value,
                    count,
                );
                proof {
                    self.integer_histogram.lemma_view_wf();
                }
                recorded
            },
        }
    }

    /// Recording keeps the geometry of the integer histogram where the value
    /// has a slot: the integer of the lower end of the range has one.
    proof fn lemma_lowest_integer_in_range(&self)
        requires
            self.wf(),
        ensures
            pow2(self@.m()) <= u64::MAX,
            self@.integer_histogram.in_range(pow2(self@.m()) as u64),
    {
        let s = self@.integer_histogram.settings;
        self.integer_histogram.lemma_view_wf();
        s.lemma_layout();
        lemma2_to64();
        lemma_floor_log2_unique(1, 0);
        assert(s.u() == 0);
        self@.integer_histogram.lemma_highest_recordable();
        lemma_pow2_monotone(self@.m() + 1, self@.m() + self@.buckets());
        vstd::arithmetic::power2::lemma_pow2_unfold(self@.m() + 1);
    }

    /// Empties the histogram, and sets the range back to where it began.
    pub fn reset(&mut self)
        requires
            old(self).wf(),
        ensures
            final(self).wf(),
            final(self)@ == (DoubleHistogramView {
                integer_histogram: HistogramView::empty(old(self)@.integer_histogram.settings),
                lowest_exponent: INITIAL_LOWEST_EXPONENT as int,
                highest_exponent: INITIAL_LOWEST_EXPONENT + old(self)@.buckets(),
                ..old(self)@
            }),
    {
        proof {
            self.integer_histogram.lemma_view_wf();
            self@.integer_histogram.settings.lemma_layout();
        }
        self.integer_histogram.reset();
        self.lowest_exponent = INITIAL_LOWEST_EXPONENT;
        self.highest_exponent = INITIAL_LOWEST_EXPONENT
            + self.integer_histogram.settings().bucket_count as i32;
        proof {
            self.integer_histogram.lemma_view_wf();
        }
    }
}

/// `ratio * 2^k`, or `u64::MAX` where that does not fit in 64 bits.
fn ratio_times_power_of_two(ratio: u64, k: u32) -> (r: u64)
    requires
        ratio >= 2,
        k <= 63,
    ensures
        r == (if ratio * pow2(k as nat) > u64::MAX {
            u64::MAX as int
        } else {
            ratio * pow2(k as nat)
        }),
        r >= 2,
{
    proof {
        lemma2_to64();
        lemma2_to64_rest();
        crate::bits::lemma_leading_zeros_is_log(ratio);
        lemma_floor_log2_bounds(ratio as nat);
        let fl = floor_log2(ratio as nat);
        lemma_pow2_adds(fl, k as nat);
        lemma_pow2_adds(fl + 1, k as nat);
        lemma_pow2_pos(k as nat);
        let p = pow2(k as nat) as int;
        let lo = pow2(fl) as int;
        let hi = pow2(fl + 1) as int;
        let ri = ratio as int;
        assert(lo * p <= ri * p < hi * p) by (nonlinear_arith)
            requires
                lo <= ri < hi,
                p >= 1,
        ;
        assert(ri * p >= 2) by (nonlinear_arith)
            requires
                ri >= 2,
                p >= 1,
        ;
        if k <= 63 - fl {
            lemma_pow2_monotone(fl + 1 + k as nat, 64);
            vstd::bits::lemma_u64_shl_is_mul(ratio, k as u64);
        } else {
            lemma_pow2_monotone(64, fl + k as nat);
        }
    }
    if k <= ratio.leading_zeros() {
        ratio << k
    } else {
        u64::MAX
    }
}

/// `10^digits` in 128 bits, for up to five digits.
fn power_of_ten_wide(digits: u8) -> (r: u128)
    requires
        digits <= MAX_SIGNIFICANT_VALUE_DIGITS,
    ensures
        r == pow10(digits as nat),
        1 <= r <= 100_000,
{
    proof {
        reveal_with_fuel(pow10, 6);
    }
    let mut power: u128 = 1;
    let mut i: u8 = 0;
    while i < digits
        invariant
            i <= digits <= 5,
            power == pow10(i as nat),
            1 <= power <= 100_000,
            i < 5 ==> power <= 10_000,
        decreases digits - i,
    {
        proof {
            reveal_with_fuel(pow10, 6);
        }
        power = power * 10;
        i = i + 1;
    }
    power
}

} // verus!
