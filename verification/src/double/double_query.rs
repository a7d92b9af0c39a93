//! Queries on a histogram of floating-point values. Each answers with an
//! integer of the integer histogram and the power of two that one unit of it
//! stands for, so that nothing is rounded.

use vstd::prelude::*;
use vstd::arithmetic::power2::{pow2, lemma2_to64, lemma2_to64_rest, lemma_pow2_pos};
use crate::bits::lemma_pow2_monotone;
use crate::double::double_histogram::DoubleHistogramImpl;
use crate::double::double_view::DoubleHistogramView;
use crate::double::sample::{DoubleSample, Dyadic};
use crate::double_policy::OverflowPolicy;
use crate::histogram_settings::{lemma_div_below, lemma_div_brackets};

verus! {

impl DoubleHistogramView {
    /// The binary logarithm of what one unit of the integer histogram stands
    /// for.
    pub open spec fn conversion_exponent(self) -> int {
        self.lowest_exponent - self.m()
    }

    /// The integer that stands for `sample`, wherever it lies: the integer
    /// part of the value in units of the integer histogram, `u64::MAX` where
    /// that does not fit in 64 bits, and 0 for what is no value above zero.
    pub open spec fn clamped_integer_value_of(self, sample: DoubleSample) -> nat {
        match sample {
            DoubleSample::Positive(x) => {
                let t = x.exponent - self.conversion_exponent();
                if t < 0 {
                    x.mantissa as nat / pow2((-t) as nat)
                } else if x.mantissa * pow2(t as nat) > u64::MAX {
                    u64::MAX as nat
                } else {
                    x.mantissa as nat * pow2(t as nat)
                }
            },
            _ => 0,
        }
    }

    /// The slot that a query for `sample` reads: the slot of the integer that
    /// stands for it, or the last slot where that lies beyond the counts
    /// array.
    pub open spec fn slot_read_for(self, sample: DoubleSample) -> int {
        let value = self.clamped_integer_value_of(sample) as u64;
        if self.integer_histogram.in_range(value) {
            self.integer_histogram.index_of(value)
        } else {
            self.integer_histogram.counts.len() - 1
        }
    }
}

impl<P: OverflowPolicy> DoubleHistogramImpl<P> {
    /// The integer that stands for `sample`, wherever it lies.
    pub fn to_integer_value_clamped(&self, sample: DoubleSample) -> (r: u64)
        requires
            self.wf(),
            sample matches DoubleSample::Positive(x) ==> x.wf(),
        ensures
            r == self@.clamped_integer_value_of(sample),
    {
        let x = match sample {
            DoubleSample::Positive(x) => x,
            _ => {
                return 0;
            },
        };
        proof {
            self.lemma_view_wf();
            self@.integer_histogram.settings.lemma_layout();
            lemma2_to64();
            lemma2_to64_rest();
        }
        let t: i32 = x.exponent - self.get_integer_to_double_conversion_exponent();
        if t < 0 {
            if t <= -64 {
                proof {
                    lemma_pow2_monotone(64, (-t) as nat);
                    lemma_div_below(x.mantissa as nat, pow2((-t) as nat), 1);
                }
                0
            } else {
                proof {
                    vstd::bits::lemma_u64_shr_is_div(x.mantissa, (-t) as u64);
                }
                x.mantissa >> ((-t) as u32)
            }
        } else if t >= 64 {
            proof {
                lemma_pow2_monotone(64, t as nat);
                let p = pow2(t as nat) as int;
                let mantissa = x.mantissa as int;
                assert(mantissa * p >= p) by (nonlinear_arith)
                    requires
                        mantissa >= 1,
                        p >= 0,
                ;
            }
            u64::MAX
        } else {
            let limit: u64 = u64::MAX >> (t as u32);
            proof {
                vstd::bits::lemma_u64_shr_is_div(u64::MAX, t as u64);
                lemma_pow2_pos(t as nat);
                lemma_div_brackets(u64::MAX as nat, pow2(t as nat));
                let p = pow2(t as nat) as int;
                let mantissa = x.mantissa as int;
                let q = limit as int;
                if mantissa > q {
                    assert(mantissa * p >= (q + 1) * p) by (nonlinear_arith)
                        requires
                            mantissa >= q + 1,
                            p >= 0,
                    ;
                } else {
                    assert(mantissa * p <= q * p) by (nonlinear_arith)
                        requires
                            0 <= mantissa <= q,
                            p >= 0,
                    ;
                }
            }
            if x.mantissa > limit {
                u64::MAX
            } else {
                proof {
                    vstd::bits::lemma_u64_shl_is_mul(x.mantissa, t as u64);
                }
                x.mantissa << (t as u32)
            }
        }
    }

    /// The number of recorded values in the slot that a query for `sample`
    /// reads.
    pub fn get_count_at_value(&self, sample: DoubleSample) -> (r: u64)
        requires
            self.wf(),
            sample matches DoubleSample::Positive(x) ==> x.wf(),
        ensures
            r == self@.integer_histogram.counts[self@.slot_read_for(sample)],
    {
        let integer_value = self.to_integer_value_clamped(sample);
        let histogram = self.integer_histogram();
        let index = histogram.saturating_counts_array_index(integer_value);
        proof {
            self.lemma_view_wf();
            self@.integer_histogram.settings.lemma_layout();
        }
        histogram.raw_count(index)
    }

    /// How far the values reach that share a slot with `sample`: a number of
    /// units, and the binary logarithm of what one unit stands for.
    pub fn size_of_equivalent_value_range(&self, sample: DoubleSample) -> (r: Dyadic)
        requires
            self.wf(),
            sample matches DoubleSample::Positive(x) ==> x.wf(),
        ensures
            r.mantissa == self@.integer_histogram.settings.spec_size_of_equivalent_value_range(
                self@.clamped_integer_value_of(sample) as u64,
            ),
            r.exponent == self@.conversion_exponent(),
    {
        let integer_value = self.to_integer_value_clamped(sample);
        Dyadic {
            mantissa: self.integer_histogram().size_of_equivalent_value_range(integer_value),
            exponent: self.get_integer_to_double_conversion_exponent(),
        }
    }

    /// The lowest value that shares a slot with `sample`.
    pub fn lowest_equivalent_value(&self, sample: DoubleSample) -> (r: Dyadic)
        requires
            self.wf(),
            sample matches DoubleSample::Positive(x) ==> x.wf(),
        ensures
            r.mantissa == self@.integer_histogram.settings.spec_lowest_equivalent_value(
                self@.clamped_integer_value_of(sample) as u64,
            ),
            r.exponent == self@.conversion_exponent(),
    {
        let integer_value = self.to_integer_value_clamped(sample);
        Dyadic {
            mantissa: self.integer_histogram().lowest_equivalent_value(integer_value),
            exponent: self.get_integer_to_double_conversion_exponent(),
        }
    }

    /// The value in the middle of the slot of `sample`.
    pub fn median_equivalent_value(&self, sample: DoubleSample) -> (r: Dyadic)
        requires
            self.wf(),
            sample matches DoubleSample::Positive(x) ==> x.wf(),
        ensures
            r.mantissa == self@.integer_histogram.settings.spec_median_equivalent_value(
                self@.clamped_integer_value_of(sample) as u64,
            ),
            r.exponent == self@.conversion_exponent(),
    {
        let integer_value = self.to_integer_value_clamped(sample);
        Dyadic {
            mantissa: self.integer_histogram().median_equivalent_value(integer_value),
            exponent: self.get_integer_to_double_conversion_exponent(),
        }
    }

    /// The lowest value of the slot after that of `sample`. Every value that
    /// shares a slot with `sample` lies below it.
    pub fn next_non_equivalent_value(&self, sample: DoubleSample) -> (r: Dyadic)
        requires
            self.wf(),
            sample matches DoubleSample::Positive(x) ==> x.wf(),
        ensures
            r.mantissa == self@.integer_histogram.settings.spec_next_non_equivalent_value(
                self@.clamped_integer_value_of(sample) as u64,
            ),
            r.exponent == self@.conversion_exponent(),
    {
        let integer_value = self.to_integer_value_clamped(sample);
        Dyadic {
            mantissa: self.integer_histogram().next_non_equivalent_value(integer_value),
            exponent: self.get_integer_to_double_conversion_exponent(),
        }
    }

    /// Whether the two samples share a slot.
    pub fn values_are_equivalent(&self, sample1: DoubleSample, sample2: DoubleSample) -> (r: bool)
        requires
            self.wf(),
            sample1 matches DoubleSample::Positive(x) ==> x.wf(),
            sample2 matches DoubleSample::Positive(x) ==> x.wf(),
        ensures
            r == (self@.integer_histogram.settings.spec_lowest_equivalent_value(
                self@.clamped_integer_value_of(sample1) as u64,
            ) == self@.integer_histogram.settings.spec_lowest_equivalent_value(
                self@.clamped_integer_value_of(sample2) as u64,
            )),
    {
        let integer_value1 = self.to_integer_value_clamped(sample1);
        let integer_value2 = self.to_integer_value_clamped(sample2);
        self.integer_histogram().values_are_equivalent(integer_value1, integer_value2)
    }

    /// The lowest value that shares a slot with the lowest recorded value; 0
    /// where nothing was recorded or zero was.
    pub fn get_min_value(&self) -> (r: Dyadic)
        requires
            self.wf(),
        ensures
            r.mantissa == self@.integer_histogram.min_value(),
            r.exponent == self@.conversion_exponent(),
    {
        Dyadic {
            mantissa: self.integer_histogram().get_min_value(),
            exponent: self.get_integer_to_double_conversion_exponent(),
        }
    }

    /// The highest floating-point value that shares a slot with `sample`: the
    /// highest number with a full mantissa of 53 bits below the lowest value
    /// of the next slot.
    pub fn highest_equivalent_value(&self, sample: DoubleSample) -> (r: Dyadic)
        requires
            self.wf(),
            sample matches DoubleSample::Positive(x) ==> x.wf(),
        ensures
            r.is_just_below(
                Dyadic {
                    mantissa: self@.integer_histogram.settings.spec_next_non_equivalent_value(
                        self@.clamped_integer_value_of(sample) as u64,
                    ) as u64,
                    exponent: self@.conversion_exponent() as i32,
                },
            ),
    {
        let next = self.next_non_equivalent_value(sample);
        proof {
            self.lemma_view_wf();
            self@.integer_histogram.settings.lemma_layout();
            let settings = self@.integer_histogram.settings;
            let value = self@.clamped_integer_value_of(sample) as u64;
            lemma_pow2_pos(settings.spec_bucket_index(value) + settings.u());
        }
        next.just_below()
    }

    /// The highest floating-point value that shares a slot with the highest
    /// recorded value: the highest number with a full mantissa of 53 bits
    /// below the lowest value of the slot after it. Where nothing was
    /// recorded, that is the slot after the slot of zero.
    pub fn get_max_value(&self) -> (r: Dyadic)
        requires
            self.wf(),
        ensures
            r.is_just_below(
                Dyadic {
                    mantissa: self@.integer_histogram.settings.spec_next_non_equivalent_value(
                        self@.integer_histogram.max_value() as u64,
                    ) as u64,
                    exponent: self@.conversion_exponent() as i32,
                },
            ),
    {
        let histogram = self.integer_histogram();
        let max_value = histogram.get_max_value();
        proof {
            self.lemma_view_wf();
            self@.integer_histogram.settings.lemma_layout();
            let settings = self@.integer_histogram.settings;
            lemma_pow2_pos(settings.spec_bucket_index(max_value) + settings.u());
        }
        let next = Dyadic {
            mantissa: histogram.next_non_equivalent_value(max_value),
            exponent: self.get_integer_to_double_conversion_exponent(),
        };
        next.just_below()
    }
}

} // verus!
