//! The geometry of a histogram: how a value finds its slot in the counts
//! array, and which values share a slot.
//!
//! Values are grouped into buckets. Bucket 0 holds `sub_bucket_count`
//! sub-buckets, each one unit wide; every later bucket holds the upper half of
//! that many sub-buckets, each twice as wide as those of the bucket before.

use vstd::prelude::*;
use vstd::arithmetic::power2::{pow2, lemma_pow2_pos, lemma_pow2_adds, lemma_pow2_unfold, lemma2_to64, lemma2_to64_rest};

use crate::bits::{floor_log2, lemma_floor_log2_bounds, lemma_floor_log2_unique, lemma_pow2_monotone, lemma_leading_zeros_is_log, lemma_one_shl_is_pow2, lemma_or_mask_log};
use crate::errors::CreationError;

verus! {

/// The raw maximum of a histogram that holds nothing.
pub const ORIGINAL_MAX: u64 = 0;

/// The raw non-zero minimum of a histogram that holds nothing.
pub const ORIGINAL_MIN: u64 = 0xffff_ffff_ffff_ffff;

/// The highest number of significant decimal digits a histogram can keep.
pub const MAX_SIGNIFICANT_VALUE_DIGITS: u8 = 5;

/// `10^d`.
pub open spec fn pow10(d: nat) -> nat
    decreases d,
{
    if d == 0 {
        1
    } else {
        10 * pow10((d - 1) as nat)
    }
}

/// The smallest exponent `k` with `x <= 2^k`, for `x >= 2`.
pub open spec fn ceil_log2(x: nat) -> nat {
    floor_log2((x - 1) as nat) + 1
}

/// The binary magnitude of the number of sub-buckets that keeps `digits`
/// significant decimal digits: the smallest `k` with `2 * 10^digits <= 2^k`.
pub open spec fn sub_bucket_count_magnitude_for(digits: nat) -> nat {
    ceil_log2(2 * pow10(digits))
}

/// What stands in the way of a geometry for the three parameters, if anything.
pub open spec fn creation_error(low: u64, high: u64, digits: u8) -> Option<CreationError> {
    if low < 1 {
        Some(CreationError::LowIsZero)
    } else if low > u64::MAX / 2 {
        Some(CreationError::LowGtMax)
    } else if high < 2 * low {
        Some(CreationError::HighLt2Low)
    } else if digits > MAX_SIGNIFICANT_VALUE_DIGITS {
        Some(CreationError::SignificantValueDigitsExceedsMax)
    } else if floor_log2(low as nat) + sub_bucket_count_magnitude_for(digits as nat) > 63 {
        Some(CreationError::CantReprSigDigitsLtLowestDiscernible)
    } else if array_length_for(
        floor_log2(low as nat),
        (sub_bucket_count_magnitude_for(digits as nat) - 1) as nat,
        high,
    ) > i32::MAX {
        Some(CreationError::RequiresExcessiveArrayLen)
    } else {
        None
    }
}

/// The bucket of `value` in a geometry of unit magnitude `u` and sub-bucket
/// half-count magnitude `m`: bucket 0 reaches up to `2^(u+m+1)`, and each
/// later bucket covers the next power of two.
pub open spec fn bucket_index_for(u: nat, m: nat, value: u64) -> nat {
    if value < pow2(u + m + 1) {
        0
    } else {
        (floor_log2(value as nat) - (u + m)) as nat
    }
}

/// The number of buckets that cover `value`: the smallest `n >= 1` with
/// `value < 2^(u+m+n)`.
pub open spec fn buckets_needed_for(u: nat, m: nat, value: u64) -> nat {
    bucket_index_for(u, m, value) + 1
}

/// The length of the counts array that covers `value`: one half-bucket of
/// slots for each bucket, and one more for the lower half of bucket 0.
pub open spec fn array_length_for(u: nat, m: nat, value: u64) -> nat {
    (buckets_needed_for(u, m, value) + 1) * pow2(m)
}

/// `v / p` brackets `v` between two neighbouring multiples of `p`.
pub proof fn lemma_div_brackets(v: nat, p: nat)
    requires
        p >= 1,
    ensures
        (v / p) * p <= v < (v / p + 1) * p,
{
    vstd::arithmetic::div_mod::lemma_fundamental_div_mod(v as int, p as int);
    vstd::arithmetic::div_mod::lemma_mod_bound(v as int, p as int);
    let q = (v / p) as int;
    let pi = p as int;
    assert(pi * q == q * pi) by (nonlinear_arith);
    assert((q + 1) * pi == q * pi + pi) by (nonlinear_arith);
}

/// A value below `hi * p` has a quotient by `p` below `hi`.
pub proof fn lemma_div_below(v: nat, p: nat, hi: nat)
    requires
        p >= 1,
        v < hi * p,
    ensures
        v / p < hi,
{
    lemma_div_brackets(v, p);
    let q = (v / p) as int;
    let pi = p as int;
    let h = hi as int;
    assert(q < h) by (nonlinear_arith)
        requires
            q * pi < h * pi,
            pi >= 1,
    ;
}

/// A value of at least `lo * p` has a quotient by `p` of at least `lo`.
pub proof fn lemma_div_at_least(v: nat, p: nat, lo: nat)
    requires
        p >= 1,
        v >= lo * p,
    ensures
        v / p >= lo,
{
    lemma_div_brackets(v, p);
    let q = (v / p) as int;
    let pi = p as int;
    let l = lo as int;
    assert(q >= l) by (nonlinear_arith)
        requires
            (q + 1) * pi > l * pi,
            pi >= 1,
    ;
}

/// `10^d` is positive.
pub proof fn lemma_pow10_positive(d: nat)
    ensures
        pow10(d) >= 1,
    decreases d,
{
    if d > 0 {
        lemma_pow10_positive((d - 1) as nat);
    }
}

/// `10^digits`, for up to five digits.
fn power_of_ten(digits: u8) -> (r: u64)
    requires
        digits <= MAX_SIGNIFICANT_VALUE_DIGITS,
    ensures
        r == pow10(digits as nat),
        1 <= r <= 100_000,
{
    proof {
        reveal_with_fuel(pow10, 6);
    }
    let mut power: u64 = 1;
    let mut i: u8 = 0;
    while i < digits
        invariant
            i <= digits <= 5,
            power == pow10(i as nat),
            1 <= power <= 100_000,
            i < 5 ==> power <= 10_000,
        decreases digits - i,
    {
        proof {
            reveal_with_fuel(pow10, 6);
        }
        power = power * 10;
        i = i + 1;
    }
    power
}

/// The binary magnitude of the number of sub-buckets that keeps `digits`
/// significant decimal digits.
pub fn sub_bucket_count_magnitude(digits: u8) -> (r: u32)
    requires
        digits <= MAX_SIGNIFICANT_VALUE_DIGITS,
    ensures
        r == sub_bucket_count_magnitude_for(digits as nat),
        1 <= r <= 18,
{
    let largest_value_with_single_unit_resolution: u64 = 2 * power_of_ten(digits);
    proof {
        let largest = largest_value_with_single_unit_resolution as nat;
        lemma2_to64();
        lemma2_to64_rest();
        lemma_leading_zeros_is_log((largest_value_with_single_unit_resolution - 1) as u64);
        lemma_floor_log2_bounds((largest - 1) as nat);
        if floor_log2((largest - 1) as nat) > 17 {
            lemma_pow2_monotone(18, floor_log2((largest - 1) as nat));
        }
    }
    64 - (largest_value_with_single_unit_resolution - 1).leading_zeros()
}

/// The parameters of a histogram and the bucket layout derived from them.
#[derive(Clone, Copy, Debug, PartialEq, Eq, Structural)]
pub struct HistogramSettings {
    pub auto_resize: bool,
    pub bucket_count: u32,
    pub counts_array_length: u32,
    pub highest_trackable_value: u64,
    pub lowest_discernible_value: u64,
    pub number_of_significant_value_digits: u32,
    pub sub_bucket_count: u32,
    pub leading_zero_count_base: u32,
    pub sub_bucket_mask: u64,
    pub unit_magnitude: u32,
    pub sub_bucket_half_count_magnitude: u32,
    pub sub_bucket_half_count: u32,
    pub unit_magnitude_mask: u64,
}

impl HistogramSettings {
    /// The unit magnitude, as a natural number.
    pub open spec fn u(&self) -> nat {
        self.unit_magnitude as nat
    }

    /// The sub-bucket half-count magnitude, as a natural number.
    pub open spec fn m(&self) -> nat {
        self.sub_bucket_half_count_magnitude as nat
    }

    /// The fields that depend on the lowest discernible value and on the
    /// number of significant digits alone agree with them.
    pub open spec fn wf_layout(&self) -> bool {
        &&& self.lowest_discernible_value >= 1
        &&& self.number_of_significant_value_digits <= MAX_SIGNIFICANT_VALUE_DIGITS
        &&& self.u() == floor_log2(self.lowest_discernible_value as nat)
        &&& self.m() + 1 == sub_bucket_count_magnitude_for(
            self.number_of_significant_value_digits as nat,
        )
        &&& self.u() + self.m() + 1 <= 63
        &&& self.m() <= 17
        &&& self.sub_bucket_half_count == pow2(self.m())
        &&& self.sub_bucket_count == pow2(self.m() + 1)
        &&& self.sub_bucket_mask == (pow2(self.m() + 1) - 1) * pow2(self.u())
        &&& self.unit_magnitude_mask == pow2(self.u()) - 1
        &&& self.leading_zero_count_base == 63 - self.u() - self.m()
    }

    /// The derived fields agree with one another and with the parameters.
    pub open spec fn wf(&self) -> bool {
        &&& self.wf_layout()
        &&& self.bucket_count == buckets_needed_for(
            self.u(),
            self.m(),
            self.highest_trackable_value,
        )
        &&& self.counts_array_length == (self.bucket_count + 1) * pow2(self.m())
    }

    /// The bucket that `value` falls in.
    pub open spec fn spec_bucket_index(&self, value: u64) -> nat {
        bucket_index_for(self.u(), self.m(), value)
    }

    /// The sub-bucket of `value` within bucket `bucket_index`.
    pub open spec fn spec_sub_bucket_index(&self, value: u64, bucket_index: nat) -> nat {
        value as nat / pow2(bucket_index + self.u())
    }

    /// The slot of `value` in the counts array.
    pub open spec fn spec_counts_array_index(&self, value: u64) -> nat {
        let b = self.spec_bucket_index(value);
        b * pow2(self.m()) + self.spec_sub_bucket_index(value, b)
    }

    /// The lowest value of sub-bucket `sub_bucket_index` of bucket `bucket_index`.
    pub open spec fn spec_value_from_indexes(&self, bucket_index: nat, sub_bucket_index: nat) -> nat {
        sub_bucket_index * pow2(bucket_index + self.u())
    }

    /// The lowest value that is counted in slot `index`.
    pub open spec fn spec_value_from_index(&self, index: nat) -> nat {
        if index < pow2(self.m()) {
            self.spec_value_from_indexes(0, index)
        } else {
            self.spec_value_from_indexes(
                (index / pow2(self.m()) - 1) as nat,
                index % pow2(self.m()) + pow2(self.m()),
            )
        }
    }

    /// Whether the lowest value of slot `index` fits in 64 bits.
    pub open spec fn index_in_reach(&self, index: nat) -> bool {
        index / pow2(self.m()) + self.u() + self.m() <= 64
    }

    /// How many values share a slot with `value`.
    pub open spec fn spec_size_of_equivalent_value_range(&self, value: u64) -> nat {
        pow2(self.u() + self.spec_bucket_index(value))
    }

    /// The lowest value that shares a slot with `value`.
    pub open spec fn spec_lowest_equivalent_value(&self, value: u64) -> nat {
        let b = self.spec_bucket_index(value);
        self.spec_value_from_indexes(b, self.spec_sub_bucket_index(value, b))
    }

    /// The highest value that shares a slot with `value`.
    pub open spec fn spec_highest_equivalent_value(&self, value: u64) -> nat {
        (self.spec_lowest_equivalent_value(value) + self.spec_size_of_equivalent_value_range(value)
            - 1) as nat
    }

    /// The lowest value of the slot after that of `value`, or `u64::MAX` where
    /// the slot of `value` is the last one that 64 bits can hold.
    pub open spec fn spec_next_non_equivalent_value(&self, value: u64) -> nat {
        let next = self.spec_lowest_equivalent_value(value)
            + self.spec_size_of_equivalent_value_range(value);
        if next > u64::MAX {
            u64::MAX as nat
        } else {
            next
        }
    }

    /// The value in the middle of the slot of `value`.
    pub open spec fn spec_median_equivalent_value(&self, value: u64) -> nat {
        self.spec_lowest_equivalent_value(value) + self.spec_size_of_equivalent_value_range(value)
            / 2
    }

    /// `value` with the bits below the unit cleared: the lowest value that
    /// differs from it by less than a unit.
    pub open spec fn spec_unit_floor(&self, value: u64) -> nat {
        (value as nat / pow2(self.u())) * pow2(self.u())
    }

    /// `value` with the bits below the unit set: the highest value that differs
    /// from it by less than a unit.
    pub open spec fn spec_unit_ceiling(&self, value: u64) -> nat {
        (self.spec_unit_floor(value) + pow2(self.u()) - 1) as nat
    }

    /// The highest value that a counts array of `n` buckets covers.
    pub open spec fn highest_value_of_buckets(&self, n: nat) -> nat {
        (pow2(self.u() + self.m() + n) - 1) as nat
    }

    /// The highest value that has a slot of its own in the counts array.
    pub open spec fn highest_recordable_value(&self) -> nat {
        self.highest_value_of_buckets(self.bucket_count as nat)
    }

    /// The geometry grown to the number of buckets that cover `value`; its
    /// highest trackable value is the highest that those buckets cover.
    pub open spec fn resized(&self, value: u64) -> HistogramSettings {
        HistogramSettings {
            bucket_count: buckets_needed_for(self.u(), self.m(), value) as u32,
            counts_array_length: array_length_for(self.u(), self.m(), value) as u32,
            highest_trackable_value: self.highest_value_of_buckets(
                buckets_needed_for(self.u(), self.m(), value),
            ) as u64,
            ..*self
        }
    }

    /// The facts about the layout that follow from `wf_layout` by arithmetic
    /// alone.
    pub proof fn lemma_layout(&self)
        requires
            self.wf_layout(),
        ensures
            pow2(self.u()) >= 1,
            pow2(self.m()) >= 1,
            pow2(self.m() + 1) == 2 * pow2(self.m()),
            pow2(self.u() + self.m() + 1) == pow2(self.m() + 1) * pow2(self.u()),
            pow2(self.u() + self.m()) == pow2(self.m()) * pow2(self.u()),
            pow2(self.u() + self.m()) <= self.sub_bucket_mask < pow2(self.u() + self.m() + 1),
            pow2(self.u() + self.m() + 1) <= 0x8000_0000_0000_0000,
            pow2(self.u()) <= 0x4000_0000_0000_0000,
            pow2(self.m()) <= 0x20000,
            forall|value: u64|
                1 <= #[trigger] buckets_needed_for(self.u(), self.m(), value) <= 64 - self.u()
                    - self.m(),
    {
        let u = self.u();
        let m = self.m();
        lemma_pow2_pos(u);
        lemma_pow2_pos(m);
        lemma_pow2_unfold(m + 1);
        lemma_pow2_adds(m + 1, u);
        lemma_pow2_adds(m, u);
        lemma2_to64();
        lemma2_to64_rest();
        lemma_pow2_monotone(u + m + 1, 63);
        lemma_pow2_monotone(u, 62);
        lemma_pow2_monotone(m, 17);
        let a = pow2(m) as int;
        let b = pow2(u) as int;
        assert((2 * a - 1) * b == a * b + (a - 1) * b) by (nonlinear_arith);
        assert((2 * a - 1) * b == 2 * a * b - b) by (nonlinear_arith);
        assert((a - 1) * b >= 0) by (nonlinear_arith)
            requires
                a >= 1,
                b >= 1,
        ;
        assert(2 * a * b == (2 * a) * b) by (nonlinear_arith);
        assert forall|value: u64|
            1 <= #[trigger] buckets_needed_for(u, m, value) <= 64 - u - m by {
            if value >= pow2(u + m + 1) {
                lemma_leading_zeros_is_log(value);
                lemma_floor_log2_bounds(value as nat);
                if floor_log2(value as nat) < u + m + 1 {
                    lemma_pow2_monotone(floor_log2(value as nat) + 1, u + m + 1);
                }
            }
        }
    }

    /// The geometry for values from `lowest_discernible_value` to
    /// `highest_trackable_value`, kept to `significant_value_digits` decimal
    /// digits. It does not grow by itself.
    pub fn new(
        lowest_discernible_value: u64,
        highest_trackable_value: u64,
        significant_value_digits: u8,
    ) -> (r: Result<HistogramSettings, CreationError>)
        ensures
            match r {
                Ok(s) => {
                    &&& creation_error(
                        lowest_discernible_value,
                        highest_trackable_value,
                        significant_value_digits,
                    ) is None
                    &&& s.wf()
                    &&& s.lowest_discernible_value == lowest_discernible_value
                    &&& s.highest_trackable_value == highest_trackable_value
                    &&& s.number_of_significant_value_digits == significant_value_digits
                    &&& !s.auto_resize
                },
                Err(e) => creation_error(
                    lowest_discernible_value,
                    highest_trackable_value,
                    significant_value_digits,
                ) == Some(e),
            },
    {
        if lowest_discernible_value < 1 {
            return Err(CreationError::LowIsZero);
        }
        if lowest_discernible_value > u64::MAX / 2 {
            return Err(CreationError::LowGtMax);
        }
        if highest_trackable_value < 2 * lowest_discernible_value {
            return Err(CreationError::HighLt2Low);
        }
        if significant_value_digits > MAX_SIGNIFICANT_VALUE_DIGITS {
            return Err(CreationError::SignificantValueDigitsExceedsMax);
        }
        proof {
            lemma_leading_zeros_is_log(lowest_discernible_value);
        }
        let unit_magnitude: u32 = 63 - lowest_discernible_value.leading_zeros();
        let sub_bucket_count_magnitude: u32 = sub_bucket_count_magnitude(significant_value_digits);
        if unit_magnitude + sub_bucket_count_magnitude > 63 {
            return Err(CreationError::CantReprSigDigitsLtLowestDiscernible);
        }
        let ghost u = unit_magnitude as nat;
        let ghost mag = sub_bucket_count_magnitude as nat;
        proof {
            lemma2_to64();
            lemma2_to64_rest();
            lemma_one_shl_is_pow2(unit_magnitude as u64);
            lemma_pow2_pos(u);
            lemma_pow2_monotone(mag, 18);
            vstd::bits::lemma_u32_shl_is_mul(1, sub_bucket_count_magnitude);
            lemma_pow2_unfold(mag);
            lemma_pow2_pos((mag - 1) as nat);
            lemma_pow2_adds(mag, u);
            lemma_pow2_monotone(mag + u, 63);
            let a = pow2(mag) as int;
            let b = pow2(u) as int;
            assert((a - 1) * b == a * b - b) by (nonlinear_arith);
            vstd::bits::lemma_u64_shl_is_mul((pow2(mag) - 1) as u64, unit_magnitude as u64);
        }
        let unit_magnitude_mask: u64 = (1_u64 << unit_magnitude) - 1;
        let sub_bucket_half_count_magnitude: u32 = sub_bucket_count_magnitude - 1;
        let sub_bucket_count: u32 = 1_u32 << sub_bucket_count_magnitude;
        let sub_bucket_half_count: u32 = sub_bucket_count / 2;
        let sub_bucket_mask: u64 = ((sub_bucket_count as u64) - 1) << unit_magnitude;
        let mut s = HistogramSettings {
            auto_resize: false,
            bucket_count: 0,
            counts_array_length: 0,
            highest_trackable_value,
            lowest_discernible_value,
            leading_zero_count_base: 64 - unit_magnitude - sub_bucket_count_magnitude,
            number_of_significant_value_digits: significant_value_digits as u32,
            sub_bucket_count,
            sub_bucket_half_count,
            sub_bucket_half_count_magnitude,
            sub_bucket_mask,
            unit_magnitude,
            unit_magnitude_mask,
        };
        let length = s.determine_array_length_needed(highest_trackable_value);
        if length > 0x7fff_ffff {
            return Err(CreationError::RequiresExcessiveArrayLen);
        }
        s.bucket_count = s.get_buckets_needed_to_cover_value(highest_trackable_value);
        s.counts_array_length = length;
        Ok(s)
    }

    /// The bucket that `value` falls in.
    pub fn get_bucket_index(&self, value: u64) -> (r: u32)
        requires
            self.wf_layout(),
        ensures
            r == self.spec_bucket_index(value),
            r + self.u() + self.m() <= 63,
    {
        let masked = value | self.sub_bucket_mask;
        proof {
            self.lemma_layout();
            lemma_or_mask_log(value, self.sub_bucket_mask, self.u() + self.m());
            lemma_leading_zeros_is_log(masked);
            if value >= pow2(self.u() + self.m() + 1) {
                lemma_leading_zeros_is_log(value);
                lemma_floor_log2_bounds(value as nat);
                if floor_log2(value as nat) < self.u() + self.m() + 1 {
                    lemma_pow2_monotone(floor_log2(value as nat) + 1, self.u() + self.m() + 1);
                }
            }
        }
        self.leading_zero_count_base - masked.leading_zeros()
    }

    /// Where `value` sits within its slot: with `b` its bucket, `p = 2^(b+u)`
    /// the width of the slot and `k` its sub-bucket, the slot is
    /// `[k * p, (k + 1) * p)`, it ends within 64 bits, and `k` lies in the
    /// upper half of the sub-buckets unless `b` is 0.
    pub proof fn lemma_value_class(&self, value: u64)
        requires
            self.wf_layout(),
        ensures
            ({
                let b = self.spec_bucket_index(value);
                let p = pow2(b + self.u());
                let k = self.spec_sub_bucket_index(value, b);
                &&& b + self.u() + self.m() <= 63
                &&& p >= 1
                &&& k * p <= value < (k + 1) * p
                &&& (k + 1) * p <= 0x1_0000_0000_0000_0000
                &&& k < pow2(self.m() + 1)
                &&& b >= 1 ==> k >= pow2(self.m())
                &&& pow2(b + self.u() + self.m() + 1) == pow2(self.m() + 1) * p
                &&& pow2(b + self.u() + self.m()) == pow2(self.m()) * p
                &&& value < pow2(b + self.u() + self.m() + 1)
                &&& b >= 1 ==> value >= pow2(b + self.u() + self.m())
            }),
    {
        let u = self.u();
        let m = self.m();
        let b = self.spec_bucket_index(value);
        let p = pow2(b + u);
        let k = self.spec_sub_bucket_index(value, b);
        self.lemma_layout();
        lemma2_to64_rest();
        if value >= pow2(u + m + 1) {
            lemma_leading_zeros_is_log(value);
            lemma_floor_log2_bounds(value as nat);
            if floor_log2(value as nat) < u + m + 1 {
                lemma_pow2_monotone(floor_log2(value as nat) + 1, u + m + 1);
            }
            assert(b + u + m == floor_log2(value as nat));
        }
        lemma_pow2_pos(b + u);
        lemma_pow2_adds(m + 1, b + u);
        lemma_pow2_adds(m, b + u);
        lemma_pow2_monotone(b + u + m + 1, 64);
        lemma_div_brackets(value as nat, p);
        let hi = pow2(m + 1);
        let lo = pow2(m);
        assert(value < hi * p);
        lemma_div_below(value as nat, p, hi);
        if b >= 1 {
            assert(value >= lo * p);
            lemma_div_at_least(value as nat, p, lo);
        }
        assert((k + 1) * p <= hi * p) by (nonlinear_arith)
            requires
                k + 1 <= hi,
                p >= 1,
        ;
    }

    /// The sub-bucket of `value` within bucket `bucket_index`, cut to 32 bits.
    /// With the bucket of `value` itself nothing is cut.
    pub fn get_sub_bucket_index(&self, value: u64, bucket_index: u32) -> (r: u32)
        requires
            self.wf_layout(),
            bucket_index + self.u() <= 63,
        ensures
            r == self.spec_sub_bucket_index(value, bucket_index as nat) % 0x1_0000_0000,
            bucket_index == self.spec_bucket_index(value) ==> r == self.spec_sub_bucket_index(
                value,
                bucket_index as nat,
            ),
    {
        let shift: u32 = bucket_index + self.unit_magnitude;
        let wide: u64 = value >> shift;
        proof {
            vstd::bits::lemma_u64_shr_is_div(value, shift as u64);
            assert((wide as u32) == wide % 0x1_0000_0000) by (bit_vector);
            if bucket_index == self.spec_bucket_index(value) {
                self.lemma_value_class(value);
                self.lemma_layout();
            }
        }
        #[verifier::truncate]
        (wide as u32)
    }

    /// The lowest value of sub-bucket `sub_bucket_index` of bucket `bucket_index`.
    pub fn value_from_indexes(&self, bucket_index: u32, sub_bucket_index: u32) -> (r: u64)
        requires
            self.wf_layout(),
            bucket_index + self.u() <= 63,
            self.spec_value_from_indexes(bucket_index as nat, sub_bucket_index as nat) <= u64::MAX,
        ensures
            r == self.spec_value_from_indexes(bucket_index as nat, sub_bucket_index as nat),
    {
        let shift: u32 = bucket_index + self.unit_magnitude;
        proof {
            vstd::bits::lemma_u64_shl_is_mul(sub_bucket_index as u64, shift as u64);
        }
        (sub_bucket_index as u64) << shift
    }

    /// The slot of `value` in the counts array.
    pub fn counts_array_index(&self, value: u64) -> (r: u32)
        requires
            self.wf_layout(),
        ensures
            r == self.spec_counts_array_index(value),
            self.index_in_reach(r as nat),
    {
        let bucket_index = self.get_bucket_index(value);
        let sub_bucket_index = self.get_sub_bucket_index(value, bucket_index);
        proof {
            self.lemma_value_class(value);
            self.lemma_layout();
            self.lemma_index_decomposition(bucket_index as nat, sub_bucket_index as nat);
            let h = pow2(self.m()) as int;
            let b = bucket_index as int;
            assert((b + 1) * h == b * h + h) by (nonlinear_arith);
            assert((b + 1) * h <= 64 * h) by (nonlinear_arith)
                requires
                    b + 1 <= 64,
                    h >= 0,
            ;
            vstd::bits::lemma_u32_shl_is_mul(
                (bucket_index + 1) as u32,
                self.sub_bucket_half_count_magnitude,
            );
        }
        let bucket_base_index: u32 = (bucket_index + 1) << self.sub_bucket_half_count_magnitude;
        bucket_base_index + sub_bucket_index - self.sub_bucket_half_count
    }

    /// Slot `b * 2^m + k` lies in half-bucket `b` for `k` in the lower half of
    /// the sub-buckets, and in half-bucket `b + 1` for `k` in the upper half.
    pub proof fn lemma_index_decomposition(&self, b: nat, k: nat)
        requires
            self.wf_layout(),
            k < pow2(self.m() + 1),
        ensures
            ({
                let h = pow2(self.m());
                let i = b * h + k;
                &&& k < h ==> i / h == b && i % h == k
                &&& k >= h ==> i / h == b + 1 && i % h == k - h
            }),
    {
        self.lemma_layout();
        let h = pow2(self.m()) as int;
        let i = b * h + k;
        if k < h {
            vstd::arithmetic::div_mod::lemma_fundamental_div_mod_converse(i, h, b as int, k as int);
        } else {
            assert((b + 1) * h + (k - h) == i) by (nonlinear_arith)
                requires
                    i == b * h + k,
            ;
            vstd::arithmetic::div_mod::lemma_fundamental_div_mod_converse(
                i,
                h,
                (b + 1) as int,
                k - h,
            );
        }
    }

    /// How many values share a slot with `value`.
    pub fn size_of_equivalent_value_range(&self, value: u64) -> (r: u64)
        requires
            self.wf_layout(),
        ensures
            r == self.spec_size_of_equivalent_value_range(value),
            r >= 1,
    {
        let bucket_index = self.get_bucket_index(value);
        let shift: u32 = self.unit_magnitude + bucket_index;
        proof {
            lemma_one_shl_is_pow2(shift as u64);
            lemma_pow2_pos(shift as nat);
        }
        1_u64 << shift
    }

    /// The lowest value that shares a slot with `value`.
    pub fn lowest_equivalent_value(&self, value: u64) -> (r: u64)
        requires
            self.wf_layout(),
        ensures
            r == self.spec_lowest_equivalent_value(value),
            r <= value,
    {
        let bucket_index = self.get_bucket_index(value);
        let sub_bucket_index = self.get_sub_bucket_index(value, bucket_index);
        proof {
            self.lemma_value_class(value);
        }
        self.value_from_indexes(bucket_index, sub_bucket_index)
    }

    /// The lowest value of the slot after that of `value`; `u64::MAX` where
    /// that value does not fit in 64 bits.
    pub fn next_non_equivalent_value(&self, value: u64) -> (r: u64)
        requires
            self.wf_layout(),
        ensures
            r == self.spec_next_non_equivalent_value(value),
            r >= value,
    {
        let lowest = self.lowest_equivalent_value(value);
        let size = self.size_of_equivalent_value_range(value);
        proof {
            self.lemma_value_class(value);
            let p = pow2(self.spec_bucket_index(value) + self.u()) as int;
            let k = self.spec_sub_bucket_index(value, self.spec_bucket_index(value)) as int;
            assert((k + 1) * p == k * p + p) by (nonlinear_arith);
        }
        lowest.saturating_add(size)
    }

    /// The highest value that shares a slot with `value`.
    pub fn highest_equivalent_value(&self, value: u64) -> (r: u64)
        requires
            self.wf_layout(),
        ensures
            r == self.spec_highest_equivalent_value(value),
            r >= value,
    {
        let lowest = self.lowest_equivalent_value(value);
        let size = self.size_of_equivalent_value_range(value);
        proof {
            self.lemma_value_class(value);
            let p = pow2(self.spec_bucket_index(value) + self.u()) as int;
            let k = self.spec_sub_bucket_index(value, self.spec_bucket_index(value)) as int;
            assert((k + 1) * p == k * p + p) by (nonlinear_arith);
        }
        lowest + (size - 1)
    }

    /// The value in the middle of the slot of `value`.
    pub fn median_equivalent_value(&self, value: u64) -> (r: u64)
        requires
            self.wf_layout(),
        ensures
            r == self.spec_median_equivalent_value(value),
    {
        let lowest = self.lowest_equivalent_value(value);
        let size = self.size_of_equivalent_value_range(value);
        proof {
            self.lemma_value_class(value);
            let p = pow2(self.spec_bucket_index(value) + self.u()) as int;
            let k = self.spec_sub_bucket_index(value, self.spec_bucket_index(value)) as int;
            assert((k + 1) * p == k * p + p) by (nonlinear_arith);
            vstd::bits::lemma_u64_shr_is_div(size, 1);
            lemma2_to64();
        }
        lowest + (size >> 1)
    }

    /// Whether the two values share a slot.
    pub fn values_are_equivalent(&self, value1: u64, value2: u64) -> (r: bool)
        requires
            self.wf_layout(),
        ensures
            r == (self.spec_lowest_equivalent_value(value1) == self.spec_lowest_equivalent_value(
                value2,
            )),
    {
        self.lowest_equivalent_value(value1) == self.lowest_equivalent_value(value2)
    }

    /// Slot `index` is the slot of its own lowest value, which fits in 64 bits
    /// and is the lowest of the values that share the slot.
    pub proof fn lemma_index_class(&self, index: nat)
        requires
            self.wf_layout(),
            self.index_in_reach(index),
        ensures
            ({
                let v = self.spec_value_from_index(index);
                let h = pow2(self.m());
                &&& v <= u64::MAX
                &&& self.spec_counts_array_index(v as u64) == index
                &&& self.spec_lowest_equivalent_value(v as u64) == v
                &&& self.spec_bucket_index(v as u64) == (if index < 2 * h {
                    0
                } else {
                    index / h - 1
                })
                &&& index >= 1 ==> v >= pow2(self.u())
                &&& index == 0 ==> v == 0
            }),
    {
        let u = self.u();
        let m = self.m();
        let h = pow2(m);
        let v = self.spec_value_from_index(index);
        self.lemma_layout();
        lemma2_to64_rest();
        if index < h {
            let pu = pow2(u);
            assert(index * pu < h * pu) by (nonlinear_arith)
                requires
                    index < h,
                    pu >= 1,
            ;
            assert(index >= 1 ==> index * pu >= pu) by (nonlinear_arith)
                requires
                    pu >= 1,
            ;
            assert(0 * pu == 0);
            vstd::arithmetic::div_mod::lemma_div_by_multiple(index as int, pu as int);
            assert(v / pu == index);
            assert(self.spec_bucket_index(v as u64) == 0);
            assert(0 * h == 0);
            assert(self.spec_counts_array_index(v as u64) == index);
        } else {
            let q = index / h;
            let r = index % h;
            vstd::arithmetic::div_mod::lemma_fundamental_div_mod(index as int, h as int);
            vstd::arithmetic::div_mod::lemma_mod_bound(index as int, h as int);
            lemma_div_at_least(index, h, 1);
            let b = (q - 1) as nat;
            let k = r + h;
            let p = pow2(b + u);
            lemma_pow2_pos(b + u);
            lemma_pow2_adds(m, b + u);
            lemma_pow2_adds(m + 1, b + u);
            lemma_pow2_monotone(b + u + m + 1, 64);
            lemma_pow2_monotone(u, b + u);
            assert(h * p <= k * p < (2 * h) * p) by (nonlinear_arith)
                requires
                    h <= k < 2 * h,
                    p >= 1,
            ;
            assert(h * p >= p) by (nonlinear_arith)
                requires
                    h >= 1,
                    p >= 1,
            ;
            vstd::arithmetic::div_mod::lemma_div_by_multiple(k as int, p as int);
            assert(v == k * p);
            assert(v / p == k);
            if b >= 1 {
                lemma_pow2_monotone(u + m + 1, b + u + m);
                lemma_floor_log2_unique(v, b + u + m);
            }
            assert(self.spec_bucket_index(v as u64) == b);
            assert(b * h + k == index) by (nonlinear_arith)
                requires
                    index == h * q + r,
                    b == q - 1,
                    k == r + h,
            ;
            assert(self.spec_counts_array_index(v as u64) == index);
            if index < 2 * h {
                lemma_div_below(index, h, 2);
            } else {
                lemma_div_at_least(index, h, 2);
            }
        }
    }

    /// The lowest value that is counted in slot `index`.
    pub fn value_from_index(&self, index: u32) -> (r: u64)
        requires
            self.wf_layout(),
            self.index_in_reach(index as nat),
        ensures
            r == self.spec_value_from_index(index as nat),
    {
        let bucket_idx_succ: u32 = index >> self.sub_bucket_half_count_magnitude;
        proof {
            self.lemma_layout();
            self.lemma_index_class(index as nat);
            vstd::bits::lemma_u32_shr_is_div(index, self.sub_bucket_half_count_magnitude);
            vstd::bits::lemma_u32_low_bits_mask_is_mod(index, self.m());
            vstd::arithmetic::div_mod::lemma_mod_bound(index as int, pow2(self.m()) as int);
            if index < pow2(self.m()) {
                vstd::arithmetic::div_mod::lemma_small_mod(index as nat, pow2(self.m()));
                lemma_div_below(index as nat, pow2(self.m()), 1);
            } else {
                lemma_div_at_least(index as nat, pow2(self.m()), 1);
            }
        }
        let low: u32 = index & (self.sub_bucket_half_count - 1);
        if bucket_idx_succ == 0 {
            self.value_from_indexes(0, low)
        } else {
            self.value_from_indexes(bucket_idx_succ - 1, low + self.sub_bucket_half_count)
        }
    }

    /// The number of buckets that cover `value`.
    pub fn get_buckets_needed_to_cover_value(&self, value: u64) -> (r: u32)
        requires
            self.wf_layout(),
        ensures
            r == buckets_needed_for(self.u(), self.m(), value),
            1 <= r <= 64 - self.u() - self.m(),
    {
        proof {
            self.lemma_layout();
            lemma2_to64_rest();
            vstd::bits::lemma_u64_shl_is_mul(self.sub_bucket_count as u64, self.unit_magnitude as u64);
        }
        let mut smallest_untrackable_value: u64 = (self.sub_bucket_count as u64)
            << self.unit_magnitude;
        let mut buckets_needed: u32 = 1;
        while smallest_untrackable_value <= value
            invariant
                self.wf_layout(),
                1 <= buckets_needed,
                self.u() + self.m() + buckets_needed <= 63,
                smallest_untrackable_value == pow2(self.u() + self.m() + buckets_needed as nat),
                buckets_needed > 1 ==> value >= pow2(
                    (self.u() + self.m() + buckets_needed - 1) as nat,
                ),
            ensures
                value < pow2(self.u() + self.m() + buckets_needed as nat),
            decreases 64 - buckets_needed,
        {
            let ghost e: nat = self.u() + self.m() + buckets_needed as nat;
            if smallest_untrackable_value > u64::MAX / 2 {
                proof {
                    lemma2_to64_rest();
                    if e < 63 {
                        lemma_pow2_monotone(e + 1, 63);
                        lemma_pow2_unfold(e + 1);
                    }
                    lemma_pow2_monotone(self.u() + self.m() + 1, 63);
                    lemma_floor_log2_unique(value as nat, 63);
                }
                return buckets_needed + 1;
            }
            proof {
                lemma2_to64();
                lemma2_to64_rest();
                if e >= 63 {
                    lemma_pow2_monotone(63, e);
                }
                lemma_pow2_unfold(e + 1);
                vstd::bits::lemma_u64_shl_is_mul(smallest_untrackable_value, 1);
            }
            smallest_untrackable_value = smallest_untrackable_value << 1u32;
            buckets_needed = buckets_needed + 1;
        }
        proof {
            let e: nat = self.u() + self.m() + buckets_needed as nat;
            if buckets_needed > 1 {
                lemma_floor_log2_unique(value as nat, (e - 1) as nat);
                lemma_pow2_monotone(self.u() + self.m() + 1, (e - 1) as nat);
            } else {
            }
        }
        buckets_needed
    }

    /// The length of a counts array of `number_of_buckets` buckets.
    pub fn get_length_for_number_of_buckets(&self, number_of_buckets: u32) -> (r: u32)
        requires
            self.wf_layout(),
            (number_of_buckets + 1) * pow2(self.m()) <= u32::MAX,
        ensures
            r == (number_of_buckets + 1) * pow2(self.m()),
    {
        proof {
            self.lemma_layout();
            let h = pow2(self.m()) as int;
            let n = number_of_buckets as int;
            assert(n + 1 <= (n + 1) * h) by (nonlinear_arith)
                requires
                    n + 1 >= 0,
                    h >= 1,
            ;
        }
        (number_of_buckets + 1) * self.sub_bucket_half_count
    }

    /// The length of the counts array that covers `value`.
    pub fn determine_array_length_needed(&self, value: u64) -> (r: u32)
        requires
            self.wf_layout(),
        ensures
            r == array_length_for(self.u(), self.m(), value),
            r <= 65 * 0x20000,
    {
        let buckets_required = self.get_buckets_needed_to_cover_value(value);
        proof {
            self.lemma_layout();
            let h = pow2(self.m()) as int;
            let n = buckets_required as int;
            assert((n + 1) * h <= 65 * 0x20000) by (nonlinear_arith)
                requires
                    0 <= n + 1 <= 65,
                    0 <= h <= 0x20000,
            ;
        }
        self.get_length_for_number_of_buckets(buckets_required)
    }

    /// Whether the counts arrays of the two geometries have the same layout,
    /// slot for slot.
    pub fn is_add_compatible_with(&self, other: &HistogramSettings) -> (r: bool)
        ensures
            r == (self.bucket_count == other.bucket_count && self.sub_bucket_count
                == other.sub_bucket_count && self.unit_magnitude == other.unit_magnitude),
    {
        self.bucket_count == other.bucket_count && self.sub_bucket_count == other.sub_bucket_count
            && self.unit_magnitude == other.unit_magnitude
    }

    /// A counts array of `n` buckets is what its own highest value needs.
    pub proof fn lemma_highest_value_of_buckets(&self, n: nat)
        requires
            self.wf_layout(),
            1 <= n <= 64 - self.u() - self.m(),
        ensures
            self.highest_value_of_buckets(n) <= u64::MAX,
            buckets_needed_for(self.u(), self.m(), self.highest_value_of_buckets(n) as u64) == n,
            ({
                let last = ((n + 1) * pow2(self.m()) - 1) as nat;
                &&& self.index_in_reach(last)
                &&& self.spec_highest_equivalent_value(self.spec_value_from_index(last) as u64)
                    == self.highest_value_of_buckets(n)
            }),
    {
        let u = self.u();
        let m = self.m();
        let h = pow2(m);
        let top = self.highest_value_of_buckets(n);
        self.lemma_layout();
        lemma2_to64_rest();
        lemma_pow2_monotone(u + m + n, 64);
        lemma_pow2_pos(u + m + n);
        lemma_pow2_unfold(u + m + n);
        if n > 1 {
            lemma_pow2_monotone(u + m + 1, (u + m + n - 1) as nat);
            lemma_floor_log2_unique(top, (u + m + n - 1) as nat);
        }
        let last = ((n + 1) * h - 1) as nat;
        assert((n + 1) * h == n * h + h) by (nonlinear_arith);
        assert(last == n * h + (h - 1));
        vstd::arithmetic::div_mod::lemma_fundamental_div_mod_converse(
            last as int,
            h as int,
            n as int,
            (h - 1) as int,
        );
        self.lemma_index_class(last);
        let v = self.spec_value_from_index(last);
        let b = (n - 1) as nat;
        let p = pow2(b + u);
        lemma_pow2_adds(m + 1, b + u);
        assert(n * h >= h) by (nonlinear_arith)
            requires
                n >= 1,
                h >= 1,
        ;
        assert(v == (2 * h - 1) * p);
        assert((2 * h - 1) * p + p == (2 * h) * p) by (nonlinear_arith);
        if last < 2 * h {
            assert(n == 1) by (nonlinear_arith)
                requires
                    n * h + (h - 1) < 2 * h,
                    n >= 1,
                    h >= 1,
            ;
        } else {
            assert(last / h - 1 == b);
        }
    }

    /// Grows the geometry to cover `value`. This is meant for a `value` above
    /// the highest trackable one; the new highest trackable value is the
    /// highest that the new number of buckets covers.
    pub fn resize(&mut self, value: u64) -> (r: Result<u32, CreationError>)
        requires
            old(self).wf(),
        ensures
            match r {
                Ok(new_length) => {
                    &&& final(self).wf()
                    &&& new_length == final(self).counts_array_length
                    &&& new_length == array_length_for(old(self).u(), old(self).m(), value)
                    &&& new_length <= i32::MAX
                    &&& *final(self) == old(self).resized(value)
                },
                Err(e) => {
                    &&& e == CreationError::RequiresExcessiveArrayLen
                    &&& array_length_for(old(self).u(), old(self).m(), value) > i32::MAX
                    &&& *final(self) == *old(self)
                },
            },
    {
        let new_bucket_count = self.get_buckets_needed_to_cover_value(value);
        proof {
            self.lemma_layout();
            let h = pow2(self.m()) as int;
            let n = new_bucket_count as int;
            assert((n + 1) * h <= 65 * 0x20000) by (nonlinear_arith)
                requires
                    0 <= n + 1 <= 65,
                    0 <= h <= 0x20000,
            ;
            assert((n + 1) * h >= 1) by (nonlinear_arith)
                requires
                    1 <= n + 1,
                    1 <= h,
            ;
        }
        let new_length = self.get_length_for_number_of_buckets(new_bucket_count);
        if new_length > 0x7fff_ffff {
            Err(CreationError::RequiresExcessiveArrayLen)
        } else {
            proof {
                self.lemma_highest_value_of_buckets(new_bucket_count as nat);
            }
            self.bucket_count = new_bucket_count;
            let last_value = self.value_from_index(new_length - 1);
            let new_highest = self.highest_equivalent_value(last_value);
            self.highest_trackable_value = new_highest;
            self.counts_array_length = new_length;
            Ok(new_length)
        }
    }

    /// The highest value that shares a slot with the raw maximum `raw_max`; 0
    /// for the raw maximum of a histogram that holds nothing.
    pub fn get_max_value(&self, raw_max: u64) -> (r: u64)
        requires
            self.wf(),
        ensures
            r == (if raw_max == ORIGINAL_MAX {
                ORIGINAL_MAX as nat
            } else {
                self.spec_highest_equivalent_value(raw_max)
            }),
    {
        if raw_max == ORIGINAL_MAX {
            ORIGINAL_MAX
        } else {
            self.highest_equivalent_value(raw_max)
        }
    }

    /// The lowest value that shares a slot with the raw non-zero minimum
    /// `raw_min_non_zero`; `u64::MAX` for the raw minimum of a histogram that
    /// holds nothing above zero.
    pub fn get_min_non_zero_value(&self, raw_min_non_zero: u64) -> (r: u64)
        requires
            self.wf(),
        ensures
            r == (if raw_min_non_zero == ORIGINAL_MIN {
                ORIGINAL_MIN as nat
            } else {
                self.spec_lowest_equivalent_value(raw_min_non_zero)
            }),
    {
        if raw_min_non_zero == ORIGINAL_MIN {
            ORIGINAL_MIN
        } else {
            self.lowest_equivalent_value(raw_min_non_zero)
        }
    }

    /// Whether the two geometries count the same values in the same slots, as
    /// far as each array reaches: they have the same lowest discernible value
    /// and keep the same number of significant digits.
    pub fn equals(&self, other: &Self) -> (r: bool)
        ensures
            r == (self.lowest_discernible_value == other.lowest_discernible_value
                && self.number_of_significant_value_digits
                == other.number_of_significant_value_digits),
    {
        !(self.lowest_discernible_value != other.lowest_discernible_value
            || self.number_of_significant_value_digits != other.number_of_significant_value_digits)
    }

    /// Every value lies between the lowest and the highest value of its slot.
    pub proof fn lemma_value_within_equivalent_range(&self, value: u64)
        requires
            self.wf_layout(),
        ensures
            self.spec_lowest_equivalent_value(value) <= value <= self.spec_highest_equivalent_value(
                value,
            ),
            self.spec_highest_equivalent_value(value) <= u64::MAX,
    {
        self.lemma_value_class(value);
        let p = pow2(self.spec_bucket_index(value) + self.u()) as int;
        let k = self.spec_sub_bucket_index(value, self.spec_bucket_index(value)) as int;
        assert((k + 1) * p == k * p + p) by (nonlinear_arith);
    }

    /// The precision that the geometry keeps: the width of the slot of
    /// `value`, taken relative to the middle of the slot, is at most
    /// `2 / 10^digits`. This holds from half of `10^digits` units upwards;
    /// below that a slot is one unit wide, which is as fine as the geometry
    /// gets.
    pub proof fn lemma_relative_precision(&self, value: u64)
        requires
            self.wf_layout(),
            2 * value >= pow10(self.number_of_significant_value_digits as nat) * pow2(self.u()),
        ensures
            self.spec_size_of_equivalent_value_range(value) * pow10(
                self.number_of_significant_value_digits as nat,
            ) <= 2 * self.spec_median_equivalent_value(value),
    {
        let d = self.number_of_significant_value_digits as nat;
        let t = pow10(d) as int;
        let m = self.m();
        let b = self.spec_bucket_index(value);
        let p = pow2(b + self.u()) as int;
        let k = self.spec_sub_bucket_index(value, b) as int;
        let h = pow2(m) as int;
        self.lemma_value_class(value);
        self.lemma_layout();
        lemma_pow10_positive(d);
        // 2 * 10^d <= 2^(m+1), hence 10^d <= 2^m
        lemma_floor_log2_bounds((2 * pow10(d) - 1) as nat);
        assert(t <= h);
        if b >= 1 {
            assert(p * t <= k * p) by (nonlinear_arith)
                requires
                    t <= h <= k,
                    p >= 1,
            ;
        } else {
            if d == 0 {
                if self.u() == 0 {
                    lemma2_to64();
                    assert(k >= 1) by (nonlinear_arith)
                        requires
                            p == 1,
                            k * p <= value < (k + 1) * p,
                            2 * value >= 1,
                    ;
                    assert(p * t <= 2 * (k * p)) by (nonlinear_arith)
                        requires
                            p == 1,
                            t == 1,
                            k >= 1,
                    ;
                } else {
                    lemma_pow2_unfold(self.u());
                    assert(k * p >= 0) by (nonlinear_arith)
                        requires
                            k >= 0,
                            p >= 0,
                    ;
                    assert(p * 1 == p);
                }
            } else {
                let c = 5 * pow10((d - 1) as nat) as int;
                assert(t == 2 * c);
                assert(k >= c) by (nonlinear_arith)
                    requires
                        value < (k + 1) * p,
                        2 * value >= (2 * c) * p,
                        p >= 1,
                ;
                assert(p * t <= 2 * (k * p)) by (nonlinear_arith)
                    requires
                        t == 2 * c,
                        k >= c,
                        p >= 1,
                ;
            }
        }
    }

    /// The slot of a value leads back to the lowest value of that slot.
    pub proof fn lemma_index_round_trip(&self, value: u64)
        requires
            self.wf_layout(),
        ensures
            self.index_in_reach(self.spec_counts_array_index(value)),
            self.spec_value_from_index(self.spec_counts_array_index(value))
                == self.spec_lowest_equivalent_value(value),
    {
        let b = self.spec_bucket_index(value);
        let k = self.spec_sub_bucket_index(value, b);
        self.lemma_value_class(value);
        self.lemma_layout();
        self.lemma_index_decomposition(b, k);
        if k < pow2(self.m()) {
            assert(b == 0);
            assert(0 * pow2(self.m()) == 0);
        }
    }

    /// Slot 0 holds the values below one unit, and no others.
    pub proof fn lemma_slot_zero_is_below_one_unit(&self, value: u64)
        requires
            self.wf_layout(),
        ensures
            self.spec_counts_array_index(value) == 0 <==> value < pow2(self.u()),
    {
        self.lemma_layout();
        self.lemma_value_class(value);
        let b = self.spec_bucket_index(value);
        let p = pow2(b + self.u());
        let k = self.spec_sub_bucket_index(value, b);
        let h = pow2(self.m());
        assert(b * h >= 0) by (nonlinear_arith)
            requires
                b >= 0,
                h >= 0,
        ;
        if b >= 1 {
            assert(b * h >= h) by (nonlinear_arith)
                requires
                    b >= 1,
                    h >= 0,
            ;
            lemma_pow2_monotone(self.u(), b + self.u() + self.m());
        } else {
            assert(0 * h == 0);
            if k == 0 {
                assert(0 * p == 0);
                assert((0 + 1) * p == p) by (nonlinear_arith);
            } else {
                assert(k * p >= p) by (nonlinear_arith)
                    requires
                        k >= 1,
                        p >= 0,
                ;
            }
        }
    }

    /// The highest value of a slot is the highest value of its own slot.
    pub proof fn lemma_highest_equivalent_tops_its_slot(&self, value: u64)
        requires
            self.wf_layout(),
        ensures
            self.spec_highest_equivalent_value(value) <= u64::MAX,
            self.spec_highest_equivalent_value(self.spec_highest_equivalent_value(value) as u64)
                == self.spec_highest_equivalent_value(value),
    {
        self.lemma_value_within_equivalent_range(value);
        self.lemma_same_slot(value, self.spec_highest_equivalent_value(value) as u64);
    }

    /// The lowest value of a slot is the lowest value of its own slot.
    pub proof fn lemma_lowest_equivalent_opens_its_slot(&self, value: u64)
        requires
            self.wf_layout(),
        ensures
            self.spec_lowest_equivalent_value(self.spec_lowest_equivalent_value(value) as u64)
                == self.spec_lowest_equivalent_value(value),
    {
        self.lemma_value_within_equivalent_range(value);
        self.lemma_same_slot(value, self.spec_lowest_equivalent_value(value) as u64);
    }

    /// A higher value never has a lower slot.
    pub proof fn lemma_index_monotonic(&self, value1: u64, value2: u64)
        requires
            self.wf_layout(),
            value1 <= value2,
        ensures
            self.spec_bucket_index(value1) <= self.spec_bucket_index(value2),
            self.spec_counts_array_index(value1) <= self.spec_counts_array_index(value2),
    {
        let u = self.u();
        let m = self.m();
        let h = pow2(m) as int;
        let b1 = self.spec_bucket_index(value1);
        let b2 = self.spec_bucket_index(value2);
        let k1 = self.spec_sub_bucket_index(value1, b1) as int;
        let k2 = self.spec_sub_bucket_index(value2, b2) as int;
        self.lemma_value_class(value1);
        self.lemma_value_class(value2);
        self.lemma_layout();
        if b1 > b2 {
            // value1 >= 2^(b1+u+m) >= 2^(b2+u+m+1) > value2
            lemma_pow2_monotone(b2 + u + m + 1, b1 + u + m);
        }
        if b1 == b2 {
            vstd::arithmetic::div_mod::lemma_div_is_ordered(
                value1 as int,
                value2 as int,
                pow2(b1 + u) as int,
            );
        } else {
            let b1i = b1 as int;
            let b2i = b2 as int;
            assert(b1i * h + k1 <= b2i * h + k2) by (nonlinear_arith)
                requires
                    0 <= b1i < b2i,
                    k1 < 2 * h,
                    k2 >= h,
                    h >= 1,
            ;
        }
    }

    /// Two values share a slot exactly when the lowest values of their slots
    /// agree.
    pub proof fn lemma_equivalent_values_share_slot(&self, value1: u64, value2: u64)
        requires
            self.wf_layout(),
        ensures
            (self.spec_lowest_equivalent_value(value1) == self.spec_lowest_equivalent_value(value2))
                <==> (self.spec_counts_array_index(value1) == self.spec_counts_array_index(value2)),
    {
        self.lemma_index_round_trip(value1);
        self.lemma_index_round_trip(value2);
        self.lemma_value_class(value1);
        self.lemma_value_class(value2);
        let l1 = self.spec_lowest_equivalent_value(value1);
        let l2 = self.spec_lowest_equivalent_value(value2);
        self.lemma_index_class(self.spec_counts_array_index(value1));
        self.lemma_index_class(self.spec_counts_array_index(value2));
    }

    /// `value` with the bits below the unit cleared.
    pub fn unit_floor(&self, value: u64) -> (r: u64)
        requires
            self.wf_layout(),
        ensures
            r == self.spec_unit_floor(value),
            r <= value,
            value - r < pow2(self.u()),
    {
        proof {
            self.lemma_unit_masking(value);
        }
        value & !self.unit_magnitude_mask
    }

    /// `value` with the bits below the unit set.
    pub fn unit_ceiling(&self, value: u64) -> (r: u64)
        requires
            self.wf_layout(),
        ensures
            r == self.spec_unit_ceiling(value),
            r >= value,
            r - value < pow2(self.u()),
    {
        proof {
            self.lemma_unit_masking(value);
        }
        value | self.unit_magnitude_mask
    }

    /// Clearing and setting the bits below the unit, in arithmetic.
    pub proof fn lemma_unit_masking(&self, value: u64)
        requires
            self.wf_layout(),
        ensures
            (value & !self.unit_magnitude_mask) == self.spec_unit_floor(value),
            (value | self.unit_magnitude_mask) == self.spec_unit_ceiling(value),
            self.spec_unit_floor(value) <= value <= self.spec_unit_ceiling(value),
            value - self.spec_unit_floor(value) < pow2(self.u()),
            self.spec_unit_ceiling(value) - value < pow2(self.u()),
            self.spec_unit_ceiling(value) <= u64::MAX,
    {
        let mask = self.unit_magnitude_mask;
        let p = pow2(self.u());
        self.lemma_layout();
        vstd::bits::lemma_u64_low_bits_mask_is_mod(value, self.u());
        assert(vstd::bits::low_bits_mask(self.u()) as u64 == mask);
        assert(pow2(self.u()) as u64 == p);
        let low = value & mask;
        assert(low == value as nat % p);
        vstd::arithmetic::div_mod::lemma_fundamental_div_mod(value as int, p as int);
        vstd::arithmetic::div_mod::lemma_mod_bound(value as int, p as int);
        assert(p * (value as nat / p) == (value as nat / p) * p) by (nonlinear_arith);
        assert(self.spec_unit_floor(value) == value - low);
        assert((value & !mask) == value - (value & mask)) by (bit_vector);
        assert((value | mask) == value + (mask - (value & mask))) by (bit_vector);
    }

    /// A value with the bits below the unit cleared is a number of whole units;
    /// it is at least one unit where the value is.
    pub proof fn lemma_unit_floor_is_whole(&self, value: u64)
        requires
            self.wf_layout(),
        ensures
            self.spec_unit_floor(value) % pow2(self.u()) == 0,
            value >= pow2(self.u()) ==> self.spec_unit_floor(value) >= pow2(self.u()),
    {
        let p = pow2(self.u());
        self.lemma_layout();
        vstd::arithmetic::div_mod::lemma_mod_multiples_basic((value as nat / p) as int, p as int);
        if value >= p {
            lemma_div_at_least(value as nat, p, 1);
            let q = (value as nat / p) as int;
            let pi = p as int;
            assert(q * pi >= pi) by (nonlinear_arith)
                requires
                    q >= 1,
                    pi >= 0,
            ;
        }
    }

    /// A value and the values that differ from it by less than a unit share a
    /// slot.
    pub proof fn lemma_unit_equivalent(&self, value: u64)
        requires
            self.wf_layout(),
        ensures
            self.spec_counts_array_index(self.spec_unit_floor(value) as u64)
                == self.spec_counts_array_index(value),
            self.spec_counts_array_index(self.spec_unit_ceiling(value) as u64)
                == self.spec_counts_array_index(value),
    {
        self.lemma_unit_masking(value);
        self.lemma_value_class(value);
        self.lemma_layout();
        let u = self.u();
        let b = self.spec_bucket_index(value);
        let p = pow2(b + u);
        let k = self.spec_sub_bucket_index(value, b);
        let pu = pow2(u);
        let lo = self.spec_unit_floor(value);
        let hi = self.spec_unit_ceiling(value);
        // the slot [k * p, (k + 1) * p) is made of whole units
        lemma_pow2_adds(b, u);
        let pb = pow2(b);
        lemma_pow2_pos(b);
        let q = value as nat / pu;
        assert(k * p == (k * pb) * pu) by (nonlinear_arith)
            requires
                p == pb * pu,
        ;
        assert((k + 1) * p == ((k + 1) * pb) * pu) by (nonlinear_arith)
            requires
                p == pb * pu,
        ;
        lemma_div_at_least(value as nat, pu, k * pb);
        lemma_div_below(value as nat, pu, (k + 1) * pb);
        assert(lo >= (k * pb) * pu) by (nonlinear_arith)
            requires
                lo == q * pu,
                q >= k * pb,
                pu >= 1,
        ;
        assert(hi < ((k + 1) * pb) * pu) by (nonlinear_arith)
            requires
                hi == q * pu + pu - 1,
                q + 1 <= (k + 1) * pb,
                pu >= 1,
        ;
        assert(self.spec_lowest_equivalent_value(value) == k * p);
        assert((k + 1) * p == k * p + p) by (nonlinear_arith);
        assert(self.spec_highest_equivalent_value(value) == (k + 1) * p - 1);
        self.lemma_same_slot(value, lo as u64);
        self.lemma_same_slot(value, hi as u64);
    }

    /// A value within the bounds of the slot of another shares that slot.
    pub proof fn lemma_same_slot(&self, value: u64, other: u64)
        requires
            self.wf_layout(),
            self.spec_lowest_equivalent_value(value) <= other
                <= self.spec_highest_equivalent_value(value),
        ensures
            self.spec_bucket_index(other) == self.spec_bucket_index(value),
            self.spec_counts_array_index(other) == self.spec_counts_array_index(value),
            self.spec_lowest_equivalent_value(other) == self.spec_lowest_equivalent_value(value),
    {
        let u = self.u();
        let m = self.m();
        let b = self.spec_bucket_index(value);
        let p = pow2(b + u);
        let k = self.spec_sub_bucket_index(value, b);
        self.lemma_value_class(value);
        self.lemma_layout();
        assert((k + 1) * p == k * p + p) by (nonlinear_arith);
        assert(other < pow2(b + u + m + 1)) by (nonlinear_arith)
            requires
                other < (k + 1) * p,
                k + 1 <= pow2(m + 1),
                pow2(b + u + m + 1) == pow2(m + 1) * p,
                p >= 1,
        ;
        if b >= 1 {
            assert(other >= pow2(b + u + m)) by (nonlinear_arith)
                requires
                    other >= k * p,
                    k >= pow2(m),
                    pow2(b + u + m) == pow2(m) * p,
                    p >= 1,
            ;
            lemma_pow2_monotone(u + m + 1, b + u + m);
            lemma_floor_log2_unique(other as nat, b + u + m);
        } else {
            assert(b + u + m + 1 == u + m + 1);
        }
        assert(self.spec_bucket_index(other) == b);
        lemma_div_at_least(other as nat, p, k);
        lemma_div_below(other as nat, p, k + 1);
    }

    /// Every slot of a counts array has a lowest value that fits in 64 bits.
    pub proof fn lemma_slots_in_reach(&self, index: nat)
        requires
            self.wf(),
            index < self.counts_array_length,
        ensures
            self.index_in_reach(index),
    {
        self.lemma_layout();
        let h = pow2(self.m());
        lemma_div_below(index, h, (self.bucket_count + 1) as nat);
    }

    /// A higher slot has a higher lowest value.
    pub proof fn lemma_value_from_index_monotonic(&self, index1: nat, index2: nat)
        requires
            self.wf_layout(),
            index1 <= index2,
            self.index_in_reach(index2),
        ensures
            self.index_in_reach(index1),
            self.spec_value_from_index(index1) <= self.spec_value_from_index(index2),
            index1 < index2 ==> self.spec_value_from_index(index1) < self.spec_value_from_index(
                index2,
            ),
    {
        self.lemma_layout();
        let h = pow2(self.m());
        vstd::arithmetic::div_mod::lemma_div_is_ordered(index1 as int, index2 as int, h as int);
        self.lemma_index_class(index1);
        self.lemma_index_class(index2);
        let v1 = self.spec_value_from_index(index1) as u64;
        let v2 = self.spec_value_from_index(index2) as u64;
        if v1 >= v2 {
            self.lemma_index_monotonic(v2, v1);
        }
    }

    /// The lowest value of a slot does not exceed a value that lies in that
    /// slot or in a higher one.
    pub proof fn lemma_value_from_index_below(&self, index: nat, value: u64)
        requires
            self.wf_layout(),
            index <= self.spec_counts_array_index(value),
        ensures
            self.index_in_reach(index),
            self.spec_value_from_index(index) <= value,
    {
        self.lemma_index_round_trip(value);
        self.lemma_value_within_equivalent_range(value);
        self.lemma_value_from_index_monotonic(index, self.spec_counts_array_index(value));
    }

} // impl HistogramSettings

} // verus!
