//! Shifting the tracked range of a histogram by binary orders of magnitude.
//!
//! A shift turns the counts array: the rotation by which the array is read
//! changes, and the counts stay where they are. Only the counts of the lower
//! half of bucket 0 are moved one by one.

use vstd::prelude::*;
use vstd::arithmetic::power2::pow2;
use crate::counts::{sum_counts, prefix_sum, normalize_index, lemma_normalize_index, lemma_prefix_sum_step, lemma_prefix_sum_monotone};
use crate::errors::ShiftError;
use crate::st::histogram::Histogram;
use crate::st::histogram_view::HistogramView;

verus! {

impl Histogram {
    /// Multiplies every recorded value by `2^n`, where `n` is
    /// `number_of_binary_orders_of_magnitude`: each count moves to the slot of
    /// `2^n` times the lowest value of its slot. The count of the values below
    /// one unit stays. Nothing changes where only such values are recorded, or
    /// where the maximum would leave the counts array.
    pub fn shift_values_left(&mut self, number_of_binary_orders_of_magnitude: u32) -> (r: Result<
        (),
        ShiftError,
    >)
        requires
            old(self).wf(),
        ensures
            final(self).wf(),
            HistogramView::left_shift_outcome(
                old(self)@,
                final(self)@,
                r,
                number_of_binary_orders_of_magnitude as nat,
            ),
            final(self).spec_normalizing_index_offset() == (if old(self)@.shift_moves(
                r,
                number_of_binary_orders_of_magnitude as nat,
            ) {
                old(self)@.turned_offset(
                    old(self).spec_normalizing_index_offset(),
                    number_of_binary_orders_of_magnitude * old(
                        self,
                    )@.settings.sub_bucket_half_count,
                )
            } else {
                old(self).spec_normalizing_index_offset()
            }),
    {
        let n = number_of_binary_orders_of_magnitude;
        if n == 0 {
            return Ok(());
        }
        proof {
            self.lemma_view_wf();
            self.lemma_wf_parts();
            self@.lemma_highest_recordable();
        }
        let zero_count = self.raw_get(0);
        if self.get_total_count() == zero_count {
            return Ok(());
        }
        let ghost before = self@;
        let ghost s = before.settings;
        let ghost counts = before.counts;
        let h: u32 = self.settings().sub_bucket_half_count;
        let unit_magnitude: u32 = self.settings().unit_magnitude;
        let length: u32 = self.counts_array_length();
        proof {
            s.lemma_layout();
            let i0 = before.lemma_some_recorded();
            assert(n * h <= 0xffff_ffff * 0x20000) by (nonlinear_arith)
                requires
                    0 <= n <= 0xffff_ffff,
                    0 <= h <= 0x20000,
            ;
        }
        let shift: u64 = (n as u64) * (h as u64);
        let max_index = self.counts_array_index(self.get_max_value());
        if max_index as u64 + shift >= length as u64 {
            return Err(ShiftError::ShiftOverflow);
        }
        let a: u32 = shift as u32;
        let max_before = self.raw_max_value();
        let min_before = self.raw_min_non_zero_value();
        proof {
            before.lemma_shift_left_fits(n as nat);
            vstd::bits::lemma_u64_shl_is_mul(h as u64, unit_magnitude as u64);
            vstd::bits::lemma_u64_shl_is_mul(max_before, n as u64);
            vstd::bits::lemma_u64_shl_is_mul(min_before, n as u64);
            s.lemma_slots_in_reach(h as nat);
            crate::shift::lemma_index_form(s, h as nat);
        }
        let lower_half_limit: u64 = (h as u64) << unit_magnitude;
        let lowest_half_bucket_populated = min_before < lower_half_limit;
        proof {
            if !lowest_half_bucket_populated {
                // the slot of the minimum lies in the upper half or above
                s.lemma_index_class(h as nat);
                s.lemma_index_monotonic(lower_half_limit, min_before);
                assert forall|j: int| 1 <= j < h implies counts[j] == 0 by {
                    if counts[j] != 0 {
                        assert(before.index_of(min_before) <= j);
                    }
                }
            }
        }
        // the counts of the lower half of bucket 0 are taken out
        let mut saved: Vec<u64> = Vec::new();
        if lowest_half_bucket_populated {
            let mut from: u32 = 1;
            proof {
                lemma_prefix_sum_monotone(counts, 1, 1);
                assert(self@.counts =~= Seq::new(
                    counts.len(),
                    |j: int|
                        if 1 <= j < 1 {
                            0u64
                        } else {
                            counts[j]
                        },
                ));
            }
            while from < h
                invariant
                    self.layout_wf(),
                    self.spec_normalizing_index_offset() == old(
                        self,
                    ).spec_normalizing_index_offset(),
                    1 <= from <= h,
                    h <= length,
                    length == counts.len(),
                    before.wf(),
                    before.counts == counts,
                    self@ == (HistogramView {
                        counts: Seq::new(
                            counts.len(),
                            |j: int|
                                if 1 <= j < from {
                                    0u64
                                } else {
                                    counts[j]
                                },
                        ),
                        ..before
                    }),
                    saved@ == counts.subrange(1, from as int),
                    sum_counts(self@.counts) + prefix_sum(counts, from as int) - prefix_sum(
                        counts,
                        1,
                    ) == before.total_count,
                decreases h - from,
            {
                proof {
                    lemma_prefix_sum_step(counts, from as int);
                }
                let count = self.raw_get(from);
                saved.push(count);
                self.raw_set(from, 0);
                from = from + 1;
                proof {
                    assert(saved@ =~= counts.subrange(1, from as int));
                    assert(self@.counts =~= Seq::new(
                        counts.len(),
                        |j: int|
                            if 1 <= j < from {
                                0u64
                            } else {
                                counts[j]
                            },
                    ));
                }
            }
        }
        let ghost lifted = Seq::new(
            counts.len(),
            |j: int|
                if 1 <= j < h {
                    0u64
                } else {
                    counts[j]
                },
        );
        proof {
            assert(self@.counts =~= lifted);
            if !lowest_half_bucket_populated {
                lemma_prefix_sum_monotone(counts, 1, 1);
            }
        }
        let ghost moved: int = if lowest_half_bucket_populated {
            prefix_sum(counts, h as int) - prefix_sum(counts, 1)
        } else {
            0
        };
        assert(sum_counts(self@.counts) + moved == before.total_count);
        // the array is turned, with slot 0 kept out of the turn
        self.raw_set(0, 0);
        self.raw_rotate(a);
        proof {
            let turned = Seq::new(
                counts.len(),
                |j: int|
                    if j >= a + h {
                        counts[j - a]
                    } else {
                        0u64
                    },
            );
            assert forall|j: int| 0 <= j < length implies self@.counts[j] == turned[j] by {
                lemma_normalize_index(j, a as int, length as int);
                let from = normalize_index(j, a as int, length as int);
                if j < a && from >= h {
                    // beyond the slot of the maximum
                    if counts[from] != 0 {
                        assert(from <= before.index_of(before.raw_max_value));
                    }
                }
            }
            assert(self@.counts =~= turned);
        }
        self.raw_set(0, zero_count);
        proof {
            before.lemma_rotated_is_partial(n as nat);
            assert(self@.counts =~= before.partially_shifted_left_counts(n as nat, 1));
        }
        // the counts of the lower half of bucket 0 are put where they belong
        if lowest_half_bucket_populated {
            let mut from: u32 = 1;
            while from < h
                invariant
                    self.layout_wf(),
                    self.spec_normalizing_index_offset() == before.turned_offset(
                        old(self).spec_normalizing_index_offset(),
                        a as int,
                    ),
                    1 <= from <= h,
                    h == pow2(s.m()),
                    h <= length,
                    length == counts.len(),
                    n >= 1,
                    n <= 63,
                    before.wf(),
                    before.counts == counts,
                    before.settings == s,
                    !before.only_zero_recorded(),
                    !before.shift_left_overflows(n as nat),
                    self@ == (HistogramView {
                        counts: before.partially_shifted_left_counts(n as nat, from as int),
                        ..before
                    }),
                    saved@ == counts.subrange(1, h as int),
                    sum_counts(self@.counts) + prefix_sum(counts, h as int) - prefix_sum(
                        counts,
                        from as int,
                    ) == before.total_count,
                decreases h - from,
            {
                proof {
                    lemma_prefix_sum_step(counts, from as int);
                    s.lemma_slots_in_reach(from as nat);
                }
                let count = saved[(from - 1) as usize];
                if count != 0 {
                    proof {
                        before.lemma_partial_step(n as nat, from as int);
                    }
                    let value = self.settings().value_from_index(from);
                    proof {
                        vstd::bits::lemma_u64_shl_is_mul(value, n as u64);
                    }
                    let to = self.settings().counts_array_index(value << n);
                    self.raw_set(to, count);
                } else {
                    proof {
                        before.lemma_partial_skip(n as nat, from as int);
                    }
                }
                from = from + 1;
            }
        }
        proof {
            before.lemma_partial_done(n as nat);
            if !lowest_half_bucket_populated {
                assert(before.partially_shifted_left_counts(n as nat, 1)
                    =~= before.shifted_left(n as nat).counts);
            }
        }
        let new_max = self.settings().unit_ceiling(max_before << n);
        let new_min = min_before << n;
        self.raw_set_extremes(new_max, new_min);
        proof {
            assert(self@ == before.shifted_left(n as nat));
            before.lemma_shifted_left_wf(n as nat);
            self.lemma_wf_parts();
        }
        Ok(())
    }

    /// Divides every recorded value by `2^n`, where `n` is
    /// `number_of_binary_orders_of_magnitude`: each count moves `n`
    /// half-buckets down. The count of the values below one unit stays.
    /// Nothing changes where only such values are recorded, or where the
    /// minimum would reach the lower half of bucket 0, whose slots are as
    /// narrow as those of the upper half.
    pub fn shift_values_right(&mut self, number_of_binary_orders_of_magnitude: u32) -> (r: Result<
        (),
        ShiftError,
    >)
        requires
            old(self).wf(),
        ensures
            final(self).wf(),
            HistogramView::right_shift_outcome(
                old(self)@,
                final(self)@,
                r,
                number_of_binary_orders_of_magnitude as nat,
            ),
            final(self).spec_normalizing_index_offset() == (if old(self)@.shift_moves(
                r,
                number_of_binary_orders_of_magnitude as nat,
            ) {
                old(self)@.turned_offset(
                    old(self).spec_normalizing_index_offset(),
                    -(number_of_binary_orders_of_magnitude * old(
                        self,
                    )@.settings.sub_bucket_half_count),
                )
            } else {
                old(self).spec_normalizing_index_offset()
            }),
    {
        let n = number_of_binary_orders_of_magnitude;
        if n == 0 {
            return Ok(());
        }
        proof {
            self.lemma_view_wf();
            self.lemma_wf_parts();
            self@.lemma_highest_recordable();
        }
        let zero_count = self.raw_get(0);
        if self.get_total_count() == zero_count {
            return Ok(());
        }
        let ghost before = self@;
        let ghost s = before.settings;
        let ghost counts = before.counts;
        let h: u32 = self.settings().sub_bucket_half_count;
        let length: u32 = self.counts_array_length();
        proof {
            s.lemma_layout();
            let i0 = before.lemma_some_recorded();
            assert(n * h <= 0xffff_ffff * 0x20000) by (nonlinear_arith)
                requires
                    0 <= n <= 0xffff_ffff,
                    0 <= h <= 0x20000,
            ;
        }
        let shift: u64 = (n as u64) * (h as u64);
        let min_index = self.counts_array_index(self.get_min_non_zero_value());
        if (min_index as u64) < shift + h as u64 {
            return Err(ShiftError::ShiftUnderflow);
        }
        let a: u32 = shift as u32;
        let max_before = self.raw_max_value();
        let min_before = self.raw_min_non_zero_value();
        proof {
            before.lemma_shift_right_fits(n as nat);
            vstd::bits::lemma_u64_shr_is_div(max_before, n as u64);
            vstd::bits::lemma_u64_shr_is_div(min_before, n as u64);
        }
        // the array is turned back, with slot 0 kept out of the turn
        self.raw_set(0, 0);
        self.raw_rotate(length - a);
        proof {
            lemma_normalize_index(0, length - a, length as int);
            assert(self@.counts[0] == 0);
            vstd::arithmetic::div_mod::lemma_mod_add_multiples_vanish(
                old(self).spec_normalizing_index_offset() - a,
                length as int,
            );
        }
        self.raw_set(0, zero_count);
        proof {
            let turned = before.shifted_right(n as nat).counts;
            assert forall|j: int| 0 <= j < length implies self@.counts[j] == turned[j] by {
                lemma_normalize_index(j, length - a, length as int);
            }
            assert(self@.counts =~= turned);
        }
        let new_max = self.settings().unit_ceiling(max_before >> n);
        let new_min = self.settings().unit_floor(min_before >> n);
        self.raw_set_extremes(new_max, new_min);
        proof {
            assert(self@ == before.shifted_right(n as nat));
            before.lemma_shifted_right_wf(n as nat);
            self.lemma_wf_parts();
        }
        Ok(())
    }
}

} // verus!
