//! What a shift of the tracked range does to a histogram.

use vstd::prelude::*;
use vstd::arithmetic::power2::{pow2, lemma_pow2_pos, lemma_pow2_adds, lemma2_to64, lemma2_to64_rest};
use crate::bits::lemma_pow2_monotone;
use crate::counts::{sum_counts, lemma_sum_update, lemma_sum_all_zero};
use crate::errors::ShiftError;
use crate::histogram_settings::{ORIGINAL_MAX, ORIGINAL_MIN};
use crate::shift::{shift_amount, left_source, left_target, lemma_left_source, lemma_left_target_source, lemma_shift_upper, lemma_shift_lower, lemma_class_shift_left, lemma_class_shift_right};
use crate::st::histogram_view::HistogramView;

verus! {

/// Counts that are zero from slot 1 on sum to the count of slot 0.
pub proof fn lemma_sum_only_first(counts: Seq<u64>)
    requires
        counts.len() >= 1,
        forall|i: int| 1 <= i < counts.len() ==> counts[i] == 0,
    ensures
        sum_counts(counts) == counts[0],
{
    let rest = counts.update(0, 0);
    lemma_sum_update(counts, 0, 0);
    lemma_sum_all_zero(rest);
}

impl HistogramView {
    /// Whether no value of at least one unit is recorded.
    pub open spec fn only_zero_recorded(self) -> bool {
        self.total_count == self.counts[0]
    }

    /// Whether a shift to the left by `n` binary orders of magnitude would push
    /// the maximum off the top of the counts array.
    pub open spec fn shift_left_overflows(self, n: nat) -> bool {
        self.index_of(self.max_value() as u64) + shift_amount(self.settings, n)
            >= self.counts.len()
    }

    /// Whether a shift by `n` binary orders of magnitude that returned `r`
    /// has moved the counts: it was not refused, `n` is not 0, and a value of
    /// at least one unit was recorded.
    pub open spec fn shift_moves(self, r: Result<(), ShiftError>, n: nat) -> bool {
        r is Ok && n != 0 && !self.only_zero_recorded()
    }

    /// The rotation by which the counts array is read once it is turned by
    /// `slots` slots from the rotation `offset`; the turn goes down for a
    /// negative number.
    pub open spec fn turned_offset(self, offset: int, slots: int) -> int {
        (offset + slots) % (self.counts.len() as int)
    }

    /// What a shift to the left by `n` binary orders of magnitude comes to:
    /// nothing changes for `n == 0` and where only values below one unit are
    /// recorded; else every recorded value is multiplied by `2^n`, or the
    /// shift is refused where the maximum would leave the counts array.
    pub open spec fn left_shift_outcome(
        before: HistogramView,
        after: HistogramView,
        r: Result<(), ShiftError>,
        n: nat,
    ) -> bool {
        match r {
            Ok(()) => if n == 0 || before.only_zero_recorded() {
                after == before
            } else {
                !before.shift_left_overflows(n) && after == before.shifted_left(n)
            },
            Err(e) => {
                &&& e == ShiftError::ShiftOverflow
                &&& n != 0
                &&& !before.only_zero_recorded()
                &&& before.shift_left_overflows(n)
                &&& after == before
            },
        }
    }

    /// What a shift to the right by `n` binary orders of magnitude comes to:
    /// nothing changes for `n == 0` and where only values below one unit are
    /// recorded; else every recorded value is divided by `2^n`, or the shift
    /// is refused where the minimum would reach the lower half of bucket 0.
    pub open spec fn right_shift_outcome(
        before: HistogramView,
        after: HistogramView,
        r: Result<(), ShiftError>,
        n: nat,
    ) -> bool {
        match r {
            Ok(()) => if n == 0 || before.only_zero_recorded() {
                after == before
            } else {
                !before.shift_right_underflows(n) && after == before.shifted_right(n)
            },
            Err(e) => {
                &&& e == ShiftError::ShiftUnderflow
                &&& n != 0
                &&& !before.only_zero_recorded()
                &&& before.shift_right_underflows(n)
                &&& after == before
            },
        }
    }

    /// The histogram with every recorded value multiplied by `2^n`: the count
    /// of a slot stands in the slot of `2^n` times its lowest value. The count
    /// of slot 0, of the values below one unit, stays.
    pub open spec fn shifted_left(self, n: nat) -> HistogramView {
        HistogramView {
            counts: Seq::new(
                self.counts.len(),
                |j: int|
                    if j == 0 {
                        self.counts[0]
                    } else {
                        match left_source(self.settings, j, n) {
                            Some(i) => self.count_at(i),
                            None => 0u64,
                        }
                    },
            ),
            raw_max_value: self.settings.spec_unit_ceiling(
                (self.raw_max_value * pow2(n)) as u64,
            ) as u64,
            raw_min_non_zero_value: (self.raw_min_non_zero_value * pow2(n)) as u64,
            ..self
        }
    }

    /// Whether a shift to the right by `n` binary orders of magnitude would
    /// push the minimum into the lower half of bucket 0 or below it, where it
    /// could not be told from its neighbours any more.
    pub open spec fn shift_right_underflows(self, n: nat) -> bool {
        self.index_of(self.min_non_zero_value() as u64) < shift_amount(self.settings, n) + pow2(
            self.settings.m(),
        )
    }

    /// The histogram with every recorded value divided by `2^n`: from the upper
    /// half of bucket 0 on, a slot has the count of the slot `n` half-buckets
    /// further up. The count of slot 0 stays.
    pub open spec fn shifted_right(self, n: nat) -> HistogramView {
        HistogramView {
            counts: Seq::new(
                self.counts.len(),
                |j: int|
                    if j == 0 {
                        self.counts[0]
                    } else if j >= pow2(self.settings.m()) && j + shift_amount(self.settings, n)
                        < self.counts.len() {
                        self.counts[j + shift_amount(self.settings, n)]
                    } else {
                        0u64
                    },
            ),
            raw_max_value: self.settings.spec_unit_ceiling(
                (self.raw_max_value as nat / pow2(n)) as u64,
            ) as u64,
            raw_min_non_zero_value: self.settings.spec_unit_floor(
                (self.raw_min_non_zero_value as nat / pow2(n)) as u64,
            ) as u64,
            ..self
        }
    }

    /// Some slot above slot 0 holds a count, unless only values below one unit
    /// are recorded; the extremes then have slots within the counts array.
    pub proof fn lemma_some_recorded(self) -> (i: int)
        requires
            self.wf(),
            !self.only_zero_recorded(),
        ensures
            1 <= i < self.counts.len(),
            self.counts[i] != 0,
            self.index_of(self.raw_min_non_zero_value) <= i <= self.index_of(self.raw_max_value),
            self.index_of(self.max_value() as u64) == self.index_of(self.raw_max_value),
            self.index_of(self.min_non_zero_value() as u64) == self.index_of(
                self.raw_min_non_zero_value,
            ),
            self.raw_max_value != ORIGINAL_MAX,
    {
        self.lemma_highest_recordable();
        if forall|j: int| 1 <= j < self.counts.len() ==> self.counts[j] == 0 {
            lemma_sum_only_first(self.counts);
        }
        let i = choose|j: int| 1 <= j < self.counts.len() && self.counts[j] != 0;
        let s = self.settings;
        s.lemma_value_within_equivalent_range(self.raw_max_value);
        s.lemma_value_within_equivalent_range(self.raw_min_non_zero_value);
        s.lemma_same_slot(
            self.raw_max_value,
            s.spec_highest_equivalent_value(self.raw_max_value) as u64,
        );
        s.lemma_same_slot(
            self.raw_min_non_zero_value,
            s.spec_lowest_equivalent_value(self.raw_min_non_zero_value) as u64,
        );
        if self.raw_max_value == ORIGINAL_MAX {
            s.lemma_slots_in_reach(0);
            s.lemma_index_class(0);
        }
        i
    }

    /// A value whose slot lies below slot `index` is less than the lowest value
    /// of that slot.
    pub proof fn lemma_below_slot(self, value: u64, index: int)
        requires
            self.settings.wf(),
            0 <= index,
            self.settings.index_in_reach(index as nat),
            self.index_of(value) < index,
        ensures
            value < self.settings.spec_value_from_index(index as nat),
    {
        let s = self.settings;
        s.lemma_index_class(index as nat);
        let v = s.spec_value_from_index(index as nat) as u64;
        if value >= v {
            s.lemma_index_monotonic(v, value);
        }
    }

    /// What a shift to the left that does not overflow has room for.
    pub proof fn lemma_shift_left_fits(self, n: nat)
        requires
            self.wf(),
            n >= 1,
            !self.only_zero_recorded(),
            !self.shift_left_overflows(n),
        ensures
            n <= 63,
            self.settings.u() + self.settings.m() + n <= 64,
            shift_amount(self.settings, n) + pow2(self.settings.m()) <= self.counts.len(),
            shift_amount(self.settings, n) >= pow2(self.settings.m()),
            self.raw_max_value * pow2(n) <= u64::MAX,
            self.raw_min_non_zero_value * pow2(n) <= u64::MAX,
            self.raw_min_non_zero_value != ORIGINAL_MIN,
            self.raw_min_non_zero_value * pow2(n) >= pow2(self.settings.u()),
            (self.raw_min_non_zero_value * pow2(n)) % (pow2(self.settings.u()) as int) == 0,
    {
        let s = self.settings;
        let h = pow2(s.m());
        let a = shift_amount(s, n);
        let len = self.counts.len() as int;
        let i0 = self.lemma_some_recorded();
        s.lemma_layout();
        lemma_pow2_pos(n);
        lemma2_to64();
        lemma2_to64_rest();
        lemma_pow2_monotone(1, n);
        let max_index = self.index_of(self.raw_max_value);
        let min_index = self.index_of(self.raw_min_non_zero_value);
        let bc = s.bucket_count as int;
        let hi = h as int;
        let ni = n as int;
        assert(ni <= bc) by (nonlinear_arith)
            requires
                ni * hi + 1 < (bc + 1) * hi,
                hi >= 1,
        ;
        assert(ni * hi >= hi) by (nonlinear_arith)
            requires
                ni >= 1,
                hi >= 0,
        ;
        if s.m() == 0 {
            assert(hi == 1);
            assert(ni * 1 == ni && (bc + 1) * 1 == bc + 1);
        }
        assert(ni <= 63);
        assert(a + hi <= len) by (nonlinear_arith)
            requires
                a == ni * hi,
                len == (bc + 1) * hi,
                ni <= bc,
                hi >= 0,
        ;
        lemma_pow2_adds(s.m() + s.u(), n);
        lemma_pow2_monotone(s.m() + s.u() + n, 64);
        let top = pow2(s.m() + s.u());
        let pn = pow2(n);
        // the maximum
        let x = self.raw_max_value;
        if max_index >= h {
            s.lemma_slots_in_reach((max_index + a) as nat);
            lemma_class_shift_left(s, x, n);
        } else {
            s.lemma_slots_in_reach(h);
            self.lemma_below_slot(x, h as int);
            crate::shift::lemma_index_form(s, h);
            assert(x * pn < top * pn) by (nonlinear_arith)
                requires
                    x < top,
                    pn >= 1,
            ;
        }
        // the minimum
        let y = self.raw_min_non_zero_value;
        assert(min_index <= i0 <= max_index);
        assert(max_index + a < len);
        if min_index >= h {
            s.lemma_slots_in_reach((min_index + a) as nat);
            lemma_class_shift_left(s, y, n);
        } else {
            s.lemma_slots_in_reach(h);
            self.lemma_below_slot(y, h as int);
            crate::shift::lemma_index_form(s, h);
            assert(y * pn < top * pn) by (nonlinear_arith)
                requires
                    y < top,
                    pn >= 1,
            ;
        }
        assert(y < u64::MAX) by (nonlinear_arith)
            requires
                y * pn <= u64::MAX,
                pn >= 2,
                y >= 0,
        ;
        let pu = pow2(s.u());
        assert(y * pn >= pu) by (nonlinear_arith)
            requires
                y >= pu,
                pn >= 1,
                pu >= 0,
        ;
        let q = y as nat / pu;
        vstd::arithmetic::div_mod::lemma_fundamental_div_mod(y as int, pu as int);
        assert(y * pn == (q * pn) * pu) by (nonlinear_arith)
            requires
                y == pu * q,
        ;
        vstd::arithmetic::div_mod::lemma_mod_multiples_basic((q * pn) as int, pu as int);
    }

    /// A shift to the left that does not overflow keeps the histogram well
    /// formed, where it keeps the sum of the counts.
    pub proof fn lemma_shifted_left_wf(self, n: nat)
        requires
            self.wf(),
            n >= 1,
            !self.only_zero_recorded(),
            !self.shift_left_overflows(n),
            sum_counts(self.shifted_left(n).counts) == self.total_count,
        ensures
            self.shifted_left(n).wf(),
    {
        let s = self.settings;
        let h = pow2(s.m());
        let a = shift_amount(s, n);
        let after = self.shifted_left(n);
        let i0 = self.lemma_some_recorded();
        self.lemma_shift_left_fits(n);
        s.lemma_layout();
        let x = self.raw_max_value;
        let y = self.raw_min_non_zero_value;
        let xs = (x * pow2(n)) as u64;
        let ys = (y * pow2(n)) as u64;
        s.lemma_unit_masking(xs);
        s.lemma_unit_masking(ys);
        assert forall|j: int|
            0 <= j < after.counts.len() && #[trigger] after.counts[j] != 0 implies j
            <= after.index_of(after.raw_max_value) by {
            if j >= 1 {
                s.lemma_slots_in_reach(j as nat);
                lemma_left_source(s, j as nat, n);
                let i = left_source(s, j, n)->0;
                assert(self.counts[i] != 0);
                s.lemma_value_from_index_below(i as nat, x);
                let vi = s.spec_value_from_index(i as nat) as int;
                let pn = pow2(n) as int;
                assert(vi * pn <= x * pn) by (nonlinear_arith)
                    requires
                        vi <= x,
                        pn >= 0,
                ;
                s.lemma_index_class(j as nat);
                s.lemma_index_monotonic(
                    s.spec_value_from_index(j as nat) as u64,
                    after.raw_max_value,
                );
            }
        }
        assert forall|j: int|
            1 <= j < after.counts.len() && #[trigger] after.counts[j] != 0 implies after.index_of(
            after.raw_min_non_zero_value,
        ) <= j by {
            s.lemma_slots_in_reach(j as nat);
            lemma_left_source(s, j as nat, n);
            let i = left_source(s, j, n)->0;
            assert(self.counts[i] != 0);
            let min_index = self.index_of(y);
            let vi = s.spec_value_from_index(i as nat) as int;
            let pn = pow2(n) as int;
            s.lemma_index_class(j as nat);
            if min_index < i {
                self.lemma_below_slot(y, i);
                assert(y * pn <= vi * pn) by (nonlinear_arith)
                    requires
                        y <= vi,
                        pn >= 0,
                ;
                s.lemma_index_monotonic(ys, s.spec_value_from_index(j as nat) as u64);
            } else if i >= h {
                s.lemma_slots_in_reach((self.index_of(x) + a) as nat);
                s.lemma_slots_in_reach((i + a) as nat);
                lemma_class_shift_left(s, y, n);
                lemma_shift_upper(s, i as nat, n);
            } else {
                // a slot of the lower half of bucket 0 is one unit wide, and
                // the minimum is a number of whole units
                s.lemma_index_round_trip(y);
                s.lemma_value_within_equivalent_range(y);
                s.lemma_value_class(y);
                crate::shift::lemma_index_form(s, i as nat);
                let pu = pow2(s.u());
                vstd::arithmetic::div_mod::lemma_fundamental_div_mod(y as int, pu as int);
                assert(0 * h == 0);
                let low = s.spec_lowest_equivalent_value(y) as u64;
                assert(low == vi);
                s.lemma_same_slot(y, low);
                assert(s.spec_bucket_index(y) == 0);
                let q = y as nat / pu;
                assert(s.spec_sub_bucket_index(y, 0) == q);
                assert(q == i);
                assert(pu * q == q * pu) by (nonlinear_arith);
                assert(y == vi);
            }
        }
    }

    /// What a shift to the right that does not underflow keeps.
    pub proof fn lemma_shift_right_fits(self, n: nat)
        requires
            self.wf(),
            n >= 1,
            !self.only_zero_recorded(),
            !self.shift_right_underflows(n),
        ensures
            n <= 63,
            shift_amount(self.settings, n) + pow2(self.settings.m()) < self.counts.len(),
            shift_amount(self.settings, n) >= pow2(self.settings.m()),
            forall|j: int|
                1 <= j < shift_amount(self.settings, n) + pow2(self.settings.m())
                    ==> #[trigger] self.counts[j] == 0,
    {
        let s = self.settings;
        let h = pow2(s.m());
        let i0 = self.lemma_some_recorded();
        s.lemma_layout();
        let bc = s.bucket_count as int;
        let hi = h as int;
        let ni = n as int;
        assert(ni * hi >= hi) by (nonlinear_arith)
            requires
                ni >= 1,
                hi >= 0,
        ;
        assert(ni <= 63) by (nonlinear_arith)
            requires
                ni * hi + hi < (bc + 1) * hi,
                bc <= 64,
                hi >= 1,
        ;
    }

    /// A shift to the right that does not underflow keeps the histogram well
    /// formed, where it keeps the sum of the counts.
    pub proof fn lemma_shifted_right_wf(self, n: nat)
        requires
            self.wf(),
            n >= 1,
            !self.only_zero_recorded(),
            !self.shift_right_underflows(n),
            sum_counts(self.shifted_right(n).counts) == self.total_count,
        ensures
            self.shifted_right(n).wf(),
    {
        let s = self.settings;
        let h = pow2(s.m());
        let a = shift_amount(s, n);
        let after = self.shifted_right(n);
        let i0 = self.lemma_some_recorded();
        self.lemma_shift_right_fits(n);
        s.lemma_layout();
        let x = self.raw_max_value;
        let y = self.raw_min_non_zero_value;
        lemma_class_shift_right(s, x, n);
        lemma_class_shift_right(s, y, n);
        let xs = (x as nat / pow2(n)) as u64;
        let ys = (y as nat / pow2(n)) as u64;
        s.lemma_unit_masking(xs);
        s.lemma_unit_masking(ys);
        s.lemma_unit_equivalent(xs);
        s.lemma_unit_equivalent(ys);
        s.lemma_unit_floor_is_whole(ys);
        if ys < pow2(s.u()) {
            // a value below one unit lies in slot 0
            s.lemma_value_class(ys);
            lemma_pow2_monotone(s.u(), s.u() + s.m() + 1);
            vstd::arithmetic::div_mod::lemma_basic_div(ys as int, pow2(s.u()) as int);
            assert(0 * h == 0);
        }
        assert forall|j: int|
            0 <= j < after.counts.len() && #[trigger] after.counts[j] != 0 implies j
            <= after.index_of(after.raw_max_value) by {
            if j >= 1 {
                assert(self.counts[j + a] != 0);
            }
        }
        assert forall|j: int|
            1 <= j < after.counts.len() && #[trigger] after.counts[j] != 0 implies after.index_of(
            after.raw_min_non_zero_value,
        ) <= j by {
            assert(self.counts[j + a] != 0);
        }
    }

    /// A shift to the left and then back to the right leaves every count where
    /// it was, where neither shift fails.
    pub proof fn lemma_shift_left_right_identity(self, n: nat)
        requires
            self.wf(),
            n >= 1,
            !self.only_zero_recorded(),
            !self.shift_left_overflows(n),
            self.shifted_left(n).wf(),
            !self.shifted_left(n).shift_right_underflows(n),
        ensures
            self.shifted_left(n).shifted_right(n).counts == self.counts,
    {
        let s = self.settings;
        let h = pow2(s.m());
        let a = shift_amount(s, n);
        let left = self.shifted_left(n);
        let back = left.shifted_right(n);
        let i0 = self.lemma_some_recorded();
        self.lemma_shift_left_fits(n);
        s.lemma_layout();
        // the shifted histogram holds a count above slot 0 as well
        let t0 = if i0 >= h {
            i0 + a
        } else {
            left_target(s, i0, n)
        };
        s.lemma_slots_in_reach(i0 as nat);
        if i0 >= h {
            s.lemma_slots_in_reach((self.index_of(self.raw_max_value) + a) as nat);
            s.lemma_slots_in_reach((i0 + a) as nat);
            lemma_shift_upper(s, i0 as nat, n);
            s.lemma_index_class((i0 + a) as nat);
            lemma_left_target_source(s, i0 as nat, n);
        } else {
            lemma_shift_lower(s, i0 as nat, n);
            lemma_left_target_source(s, i0 as nat, n);
        }
        assert(left.counts[t0] == self.counts[i0]);
        if left.only_zero_recorded() {
            assert(left.total_count == left.counts[0]);
            lemma_sum_update(left.counts, 0, 0);
            crate::counts::lemma_sum_zero_all_zero(left.counts.update(0, 0));
            assert(left.counts.update(0, 0)[t0] == 0);
        }
        left.lemma_shift_right_fits(n);
        assert forall|j: int| 0 <= j < self.counts.len() implies back.counts[j] == self.counts[j] by {
            if j == 0 {
            } else if j < h {
                // a count here would have moved to a slot that the shift to
                // the right shows to be empty
                lemma_shift_lower(s, j as nat, n);
                s.lemma_slots_in_reach(j as nat);
                lemma_left_target_source(s, j as nat, n);
                let t = left_target(s, j, n);
                assert(left.counts[t] == self.counts[j]);
            } else if j + a < self.counts.len() {
                s.lemma_slots_in_reach((j + a) as nat);
                lemma_shift_upper(s, j as nat, n);
                s.lemma_index_class((j + a) as nat);
                lemma_left_target_source(s, j as nat, n);
                assert(left.counts[j + a] == self.counts[j]);
            } else {
                // beyond the slot of the maximum
                if self.counts[j] != 0 {
                    assert(j <= self.index_of(self.raw_max_value));
                }
            }
        }
        assert(back.counts =~= self.counts);
    }

    /// The counts of a shift to the left in the making: the counts from the
    /// upper half of bucket 0 on have moved, and so have those of the slots
    /// below `done` of the lower half.
    pub open spec fn partially_shifted_left_counts(self, n: nat, done: int) -> Seq<u64> {
        Seq::new(
            self.counts.len(),
            |j: int|
                if j == 0 {
                    self.counts[0]
                } else {
                    match left_source(self.settings, j, n) {
                        Some(i) => if i < done || i >= pow2(self.settings.m()) {
                            self.count_at(i)
                        } else {
                            0u64
                        },
                        None => 0u64,
                    }
                },
        )
    }

    /// The counts from the upper half of bucket 0 on move by `n`
    /// half-buckets.
    pub proof fn lemma_rotated_is_partial(self, n: nat)
        requires
            self.wf(),
            n >= 1,
            !self.only_zero_recorded(),
            !self.shift_left_overflows(n),
        ensures
            self.partially_shifted_left_counts(n, 1) == Seq::new(
                self.counts.len(),
                |j: int|
                    if j == 0 {
                        self.counts[0]
                    } else if j >= shift_amount(self.settings, n) + pow2(self.settings.m()) {
                        self.counts[j - shift_amount(self.settings, n)]
                    } else {
                        0u64
                    },
            ),
    {
        let s = self.settings;
        let h = pow2(s.m());
        let a = shift_amount(s, n);
        self.lemma_shift_left_fits(n);
        let partial = self.partially_shifted_left_counts(n, 1);
        let rotated = Seq::new(
            self.counts.len(),
            |j: int|
                if j == 0 {
                    self.counts[0]
                } else if j >= a + h {
                    self.counts[j - a]
                } else {
                    0u64
                },
        );
        assert forall|j: int| 0 <= j < self.counts.len() implies partial[j] == rotated[j] by {
            if j >= 1 {
                s.lemma_slots_in_reach(j as nat);
                if j >= a + h {
                    lemma_shift_upper(s, (j - a) as nat, n);
                    s.lemma_index_class(j as nat);
                    lemma_left_target_source(s, (j - a) as nat, n);
                } else if left_source(s, j, n) is Some {
                    lemma_left_source(s, j as nat, n);
                }
            }
        }
        assert(partial =~= rotated);
    }

    /// Moving the count of one more slot of the lower half of bucket 0 writes
    /// one slot, which held nothing.
    pub proof fn lemma_partial_step(self, n: nat, done: int)
        requires
            self.wf(),
            n >= 1,
            !self.only_zero_recorded(),
            !self.shift_left_overflows(n),
            1 <= done < pow2(self.settings.m()),
        ensures
            1 <= left_target(self.settings, done, n) < self.counts.len(),
            self.settings.spec_value_from_index(done as nat) * pow2(n) <= u64::MAX,
            self.partially_shifted_left_counts(n, done)[left_target(self.settings, done, n)] == 0,
            self.partially_shifted_left_counts(n, done + 1) == self.partially_shifted_left_counts(
                n,
                done,
            ).update(left_target(self.settings, done, n), self.counts[done]),
    {
        let s = self.settings;
        let h = pow2(s.m());
        let a = shift_amount(s, n);
        self.lemma_shift_left_fits(n);
        lemma_shift_lower(s, done as nat, n);
        s.lemma_slots_in_reach(done as nat);
        lemma_left_target_source(s, done as nat, n);
        let t = left_target(s, done, n);
        let before = self.partially_shifted_left_counts(n, done);
        let after = self.partially_shifted_left_counts(n, done + 1);
        assert forall|j: int| 0 <= j < self.counts.len() implies after[j] == before.update(
            t,
            self.counts[done],
        )[j] by {
            if j >= 1 && j != t && left_source(s, j, n) is Some {
                s.lemma_slots_in_reach(j as nat);
                lemma_left_source(s, j as nat, n);
            }
        }
        assert(after =~= before.update(t, self.counts[done]));
    }

    /// A slot of the lower half of bucket 0 that holds nothing has nothing to
    /// move.
    pub proof fn lemma_partial_skip(self, n: nat, done: int)
        requires
            1 <= done < pow2(self.settings.m()),
            done < self.counts.len(),
            self.counts[done] == 0,
        ensures
            self.partially_shifted_left_counts(n, done + 1) == self.partially_shifted_left_counts(
                n,
                done,
            ),
    {
        assert(self.partially_shifted_left_counts(n, done + 1)
            =~= self.partially_shifted_left_counts(n, done));
    }

    /// Once the counts of all slots of the lower half of bucket 0 have moved,
    /// the shift is made.
    pub proof fn lemma_partial_done(self, n: nat)
        ensures
            self.partially_shifted_left_counts(n, pow2(self.settings.m()) as int)
                == self.shifted_left(n).counts,
    {
        assert(self.partially_shifted_left_counts(n, pow2(self.settings.m()) as int)
            =~= self.shifted_left(n).counts);
    }
}

} // verus!
