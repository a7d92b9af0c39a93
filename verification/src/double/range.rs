//! The range of integer values that stands for a ratio of the highest to the
//! lowest floating-point value.

use vstd::prelude::*;
use vstd::arithmetic::power2::{pow2, lemma_pow2_pos, lemma_pow2_unfold, lemma2_to64, lemma2_to64_rest};
use vstd::std_specs::bits::u64_leading_zeros;
use crate::bits::{floor_log2, lemma_floor_log2_bounds, lemma_leading_zeros_is_log, lemma_one_shl_is_pow2, lemma_pow2_monotone};
use crate::double::sample::Dyadic;
use crate::histogram_settings::{sub_bucket_count_magnitude, sub_bucket_count_magnitude_for, MAX_SIGNIFICANT_VALUE_DIGITS, lemma_div_below, lemma_div_at_least};

verus! {

/// The number of binary digits of `long_number`: the smallest `k` with
/// `long_number < 2^k`.
pub open spec fn containing_binary_order_of_magnitude(long_number: u64) -> nat {
    if long_number == 0 {
        0
    } else {
        floor_log2(long_number as nat) + 1
    }
}

/// The number of binary digits of `long_number`.
pub fn find_containing_binary_order_of_magnitude_long(long_number: u64) -> (r: u32)
    ensures
        r == containing_binary_order_of_magnitude(long_number),
        r <= 64,
        long_number < pow2(r as nat),
        r >= 1 ==> long_number >= pow2((r - 1) as nat),
{
    proof {
        lemma2_to64();
        lemma2_to64_rest();
        if long_number >= 1 {
            lemma_leading_zeros_is_log(long_number);
            lemma_floor_log2_bounds(long_number as nat);
        } else {
            reveal(u64_leading_zeros);
        }
    }
    64 - long_number.leading_zeros()
}

/// The ratio that the integer histogram covers for a ratio of
/// `external_ratio` asked for: the smallest power of two above it.
pub open spec fn internal_ratio_for(external_ratio: u64) -> nat {
    pow2(containing_binary_order_of_magnitude(external_ratio))
}

/// The ratio that the integer histogram covers for a ratio of
/// `external_ratio` asked for.
pub fn derive_internal_highest_to_lowest_value_ratio(external_ratio: u64) -> (r: u64)
    requires
        external_ratio < 0x8000_0000_0000_0000,
    ensures
        r == internal_ratio_for(external_ratio),
        r > external_ratio,
{
    let order = find_containing_binary_order_of_magnitude_long(external_ratio);
    proof {
        lemma2_to64_rest();
        if order >= 64 {
            lemma_pow2_monotone(63, (order - 1) as nat);
        }
        lemma_one_shl_is_pow2(order as u64);
    }
    1_u64 << order
}

/// Half the number of sub-buckets that keeps `significant_value_digits`
/// digits: the integer that stands for the lowest value of the range.
pub fn sub_bucket_half_count_for_sig_digits(significant_value_digits: u8) -> (r: u64)
    requires
        significant_value_digits <= MAX_SIGNIFICANT_VALUE_DIGITS,
    ensures
        r == pow2((sub_bucket_count_magnitude_for(significant_value_digits as nat) - 1) as nat),
        1 <= r <= 0x20000,
{
    let magnitude = sub_bucket_count_magnitude(significant_value_digits);
    proof {
        lemma2_to64();
        lemma2_to64_rest();
        lemma_one_shl_is_pow2((magnitude - 1) as u64);
        lemma_pow2_monotone((magnitude - 1) as nat, 17);
        lemma_pow2_pos((magnitude - 1) as nat);
    }
    1_u64 << (magnitude - 1)
}

/// The number of integer values that stand for the range: the lowest value of
/// the range times the internal ratio; `None` where that does not fit in 64
/// bits.
pub fn derive_integer_value_range(external_ratio: u64, significant_value_digits: u8) -> (r: Option<
    u64,
>)
    requires
        external_ratio < 0x8000_0000_0000_0000,
        significant_value_digits <= MAX_SIGNIFICANT_VALUE_DIGITS,
    ensures
        r == (if pow2(
            (sub_bucket_count_magnitude_for(significant_value_digits as nat) - 1) as nat,
        ) * internal_ratio_for(external_ratio) <= u64::MAX {
            Some(
                (pow2((sub_bucket_count_magnitude_for(significant_value_digits as nat) - 1) as nat)
                    * internal_ratio_for(external_ratio)) as u64,
            )
        } else {
            None
        }),
{
    let internal_ratio = derive_internal_highest_to_lowest_value_ratio(external_ratio);
    let lowest_tracking_integer_value = sub_bucket_half_count_for_sig_digits(
        significant_value_digits,
    );
    lowest_tracking_integer_value.checked_mul(internal_ratio)
}

/// The number of binary digits of `n`.
pub open spec fn binary_digits(n: nat) -> nat {
    if n == 0 {
        0
    } else {
        floor_log2(n) + 1
    }
}

/// The number of binary orders of magnitude by which the range is moved in
/// one step to cover a value that lies `n` times a whole range away, rounded
/// up: the number of binary digits of `n`, but the binary logarithm of the
/// configured ratio where `n` exceeds that ratio, and 50 where it exceeds
/// `2^50`.
pub open spec fn capped_containing_binary_order_of_magnitude(n: nat, configured_ratio: u64) -> nat {
    if n > configured_ratio {
        floor_log2(configured_ratio as nat)
    } else if n > 0x4_0000_0000_0000 {
        50
    } else {
        binary_digits(n)
    }
}

/// How many times the value `x` goes into the lower end `2^lowest_exponent` of
/// the range, rounded up, less 1.
pub open spec fn times_below(x: Dyadic, lowest_exponent: int) -> nat {
    ((pow2((lowest_exponent - x.exponent) as nat) - 1) / x.mantissa as int) as nat
}

/// How many times the upper end `2^highest_exponent` of the range goes into
/// the value next above `x`, rounded up, less 1.
pub open spec fn times_above(x: Dyadic, highest_exponent: int) -> nat {
    if x.exponent >= highest_exponent {
        ((x.mantissa + 1) * pow2((x.exponent - highest_exponent) as nat) - 1) as nat
    } else {
        x.mantissa as nat / pow2((highest_exponent - x.exponent) as nat)
    }
}

/// `2^127`, written out.
proof fn lemma_pow2_127()
    ensures
        pow2(127) == 0x8000_0000_0000_0000_0000_0000_0000_0000,
{
    lemma2_to64_rest();
    vstd::arithmetic::power2::lemma_pow2_adds(64, 63);
}

/// `2^exponent`, in 128 bits.
fn power_of_two(exponent: u32) -> (r: u128)
    requires
        exponent <= 127,
    ensures
        r == pow2(exponent as nat),
        r <= 0x8000_0000_0000_0000_0000_0000_0000_0000,
{
    let mut power: u128 = 1;
    let mut i: u32 = 0;
    proof {
        lemma2_to64();
        lemma_pow2_127();
    }
    while i < exponent
        invariant
            i <= exponent <= 127,
            power == pow2(i as nat),
            power <= pow2(127),
            pow2(127) == 0x8000_0000_0000_0000_0000_0000_0000_0000,
        decreases exponent - i,
    {
        proof {
            lemma_pow2_unfold((i + 1) as nat);
            lemma_pow2_monotone((i + 1) as nat, 127);
        }
        power = power * 2;
        i = i + 1;
    }
    power
}

/// The capped number of binary digits of `n`, which fits in 64 bits.
fn capped_order_of(n: u64, configured_ratio: u64) -> (r: u32)
    requires
        configured_ratio >= 2,
        n >= 1,
    ensures
        r == capped_containing_binary_order_of_magnitude(n as nat, configured_ratio),
        1 <= r <= binary_digits(n as nat),
        r <= 63,
{
    proof {
        lemma2_to64();
        lemma2_to64_rest();
        lemma_floor_log2_bounds(n as nat);
        lemma_floor_log2_bounds(configured_ratio as nat);
        lemma_leading_zeros_is_log(n);
        lemma_leading_zeros_is_log(configured_ratio);
        let fr = floor_log2(configured_ratio as nat);
        let fln = floor_log2(n as nat);
        if fr == 0 {
        }
        if n > configured_ratio && fr > fln {
            lemma_pow2_monotone(fln + 1, fr);
        }
        if n > 0x4_0000_0000_0000 && fln < 50 {
            lemma_pow2_monotone(fln + 1, 50);
        }
    }
    if n > configured_ratio {
        find_containing_binary_order_of_magnitude_long(configured_ratio) - 1
    } else if n > 0x4_0000_0000_0000 {
        50
    } else {
        find_containing_binary_order_of_magnitude_long(n)
    }
}

/// The capped order for a number beyond 64 bits: the binary logarithm of the
/// configured ratio.
fn capped_order_of_huge(configured_ratio: u64) -> (r: u32)
    requires
        configured_ratio >= 2,
    ensures
        forall|n: nat|
            n > u64::MAX ==> r == #[trigger] capped_containing_binary_order_of_magnitude(
                n,
                configured_ratio,
            ),
        1 <= r <= 63,
{
    proof {
        lemma2_to64();
        lemma2_to64_rest();
        lemma_floor_log2_bounds(configured_ratio as nat);
        lemma_leading_zeros_is_log(configured_ratio);
    }
    find_containing_binary_order_of_magnitude_long(configured_ratio) - 1
}

/// The number of binary orders of magnitude by which the range is moved down
/// in one step towards the value `x` below it.
pub fn shift_to_cover_below(x: &Dyadic, lowest_exponent: i32, configured_ratio: u64) -> (r: u32)
    requires
        x.wf(),
        x.magnitude() < lowest_exponent,
        lowest_exponent <= 2000,
        configured_ratio >= 2,
    ensures
        r == capped_containing_binary_order_of_magnitude(
            times_below(*x, lowest_exponent as int),
            configured_ratio,
        ),
        1 <= r <= lowest_exponent - x.magnitude(),
        r <= 63,
{
    let distance: i32 = lowest_exponent - x.exponent;
    let ghost a = distance as nat;
    let ghost mant = x.mantissa as nat;
    let ghost fl = floor_log2(mant);
    let ghost n = times_below(*x, lowest_exponent as int);
    let ghost k = (lowest_exponent - x.magnitude()) as nat;
    proof {
        lemma2_to64();
        lemma2_to64_rest();
        lemma_floor_log2_bounds(mant);
        lemma_floor_log2_bounds(configured_ratio as nat);
        if fl >= 53 {
            lemma_pow2_monotone(53, fl);
        }
        assert(a == k + fl);
        vstd::arithmetic::power2::lemma_pow2_adds(k, fl);
        lemma_pow2_pos(k);
        lemma_pow2_pos(a);
        // mant <= 2^a - 1, and (2^a - 1) / mant < 2^k
        let pk = pow2(k) as int;
        let pf = pow2(fl) as int;
        let mi = mant as int;
        assert(pk * pf >= pk) by (nonlinear_arith)
            requires
                pf >= 1,
                pk >= 0,
        ;
        assert(pk * mi >= pk * pf) by (nonlinear_arith)
            requires
                mi >= pf,
                pk >= 0,
        ;
        lemma_pow2_monotone(fl + 1, a);
        lemma_div_below((pow2(a) - 1) as nat, mant, pow2(k));
        lemma_div_at_least((pow2(a) - 1) as nat, mant, 1);
        assert(1 <= n < pow2(k));
        lemma_floor_log2_bounds(n);
        if floor_log2(n) >= k {
            lemma_pow2_monotone(k, floor_log2(n));
        }
        assert(binary_digits(n) <= k);
        let fr = floor_log2(configured_ratio as nat);
        if n > configured_ratio && fr >= k {
            lemma_pow2_monotone(k, fr);
        }
        if n > 0x4_0000_0000_0000 && k <= 50 {
            lemma_pow2_monotone(k, 50);
        }
    }
    if distance >= 128 {
        proof {
            // n >= (2^128 - 1) / 2^53 > 2^64
            lemma_pow2_monotone(128, a);
            vstd::arithmetic::power2::lemma_pow2_adds(75, 53);
            vstd::arithmetic::power2::lemma_pow2_adds(64, 11);
            lemma_pow2_pos(75);
            let two75 = pow2(75) as int;
            let two53 = pow2(53) as int;
            let mi = mant as int;
            assert(two75 * mi <= two75 * two53 - 1) by (nonlinear_arith)
                requires
                    mi < two53,
                    two75 >= 1,
            ;
            lemma_div_at_least((pow2(a) - 1) as nat, mant, pow2(75));
            lemma_pow2_monotone(64, 75);
            vstd::arithmetic::power2::lemma_pow2_strictly_increases(64, 75);
        }
        let r = capped_order_of_huge(configured_ratio);
        r
    } else {
        let power: u128 = power_of_two(distance as u32);
        let times: u128 = (power - 1) / (x.mantissa as u128);
        if times > 0xffff_ffff_ffff_ffff {
            let r = capped_order_of_huge(configured_ratio);
            r
        } else {
            capped_order_of(times as u64, configured_ratio)
        }
    }
}

/// The number of binary orders of magnitude by which the range is moved up in
/// one step towards the value `x` at or above its upper end.
pub fn shift_to_cover_above(x: &Dyadic, highest_exponent: i32, configured_ratio: u64) -> (r: u32)
    requires
        x.wf(),
        x.magnitude() >= highest_exponent,
        highest_exponent >= -2000,
        configured_ratio >= 2,
    ensures
        r == capped_containing_binary_order_of_magnitude(
            times_above(*x, highest_exponent as int),
            configured_ratio,
        ),
        1 <= r <= x.magnitude() + 1 - highest_exponent,
        r <= 63,
{
    let ghost mant = x.mantissa as nat;
    let ghost fl = floor_log2(mant);
    let ghost n = times_above(*x, highest_exponent as int);
    let ghost k = (x.magnitude() + 1 - highest_exponent) as nat;
    proof {
        lemma2_to64();
        lemma2_to64_rest();
        lemma_floor_log2_bounds(mant);
        lemma_floor_log2_bounds(configured_ratio as nat);
        if fl >= 53 {
            lemma_pow2_monotone(53, fl);
        }
    }
    if x.exponent >= highest_exponent {
        let distance: i32 = x.exponent - highest_exponent;
        let ghost d = distance as nat;
        proof {
            // 1 <= n < 2^k with k = d + fl + 1
            assert(k == d + fl + 1);
            vstd::arithmetic::power2::lemma_pow2_adds(fl + 1, d);
            lemma_pow2_pos(d);
            let pd = pow2(d) as int;
            let top = pow2(fl + 1) as int;
            let mi = mant as int;
            assert((mi + 1) * pd <= top * pd) by (nonlinear_arith)
                requires
                    mi + 1 <= top,
                    pd >= 0,
            ;
            assert((mi + 1) * pd >= 2) by (nonlinear_arith)
                requires
                    mi >= 1,
                    pd >= 1,
            ;
            assert(1 <= n < pow2(k));
            lemma_floor_log2_bounds(n);
            if floor_log2(n) >= k {
                lemma_pow2_monotone(k, floor_log2(n));
            }
            let fr = floor_log2(configured_ratio as nat);
            if n > configured_ratio && fr >= k {
                lemma_pow2_monotone(k, fr);
            }
            if n > 0x4_0000_0000_0000 && k <= 50 {
                lemma_pow2_monotone(k, 50);
            }
        }
        if distance >= 64 {
            proof {
                lemma_pow2_monotone(64, d);
                let pd = pow2(d) as int;
                let mi = mant as int;
                assert((mi + 1) * pd >= 2 * pd) by (nonlinear_arith)
                    requires
                        mi >= 1,
                        pd >= 0,
                ;
            }
            let r = capped_order_of_huge(configured_ratio);
            r
        } else {
            let power: u128 = power_of_two(distance as u32);
            proof {
                lemma_pow2_monotone(fl + 1 + d, 117);
                vstd::arithmetic::power2::lemma_pow2_strictly_increases(117, 127);
                lemma_pow2_127();
            }
            let times: u128 = ((x.mantissa + 1) as u128) * power - 1;
            if times > 0xffff_ffff_ffff_ffff {
                let r = capped_order_of_huge(configured_ratio);
                r
            } else {
                capped_order_of(times as u64, configured_ratio)
            }
        }
    } else {
        let distance: i32 = highest_exponent - x.exponent;
        let ghost s = distance as nat;
        proof {
            // 1 <= n = mant / 2^s < 2^k with k = fl + 1 - s
            assert(s <= fl);
            assert(k == fl + 1 - s);
            vstd::arithmetic::power2::lemma_pow2_adds(k, s);
            vstd::arithmetic::power2::lemma_pow2_adds((fl - s) as nat, s);
            lemma_pow2_pos(s);
            lemma_pow2_pos((fl - s) as nat);
            lemma_div_below(mant, pow2(s), pow2(k));
            lemma_div_at_least(mant, pow2(s), 1);
            assert(1 <= n < pow2(k));
            lemma_floor_log2_bounds(n);
            if floor_log2(n) >= k {
                lemma_pow2_monotone(k, floor_log2(n));
            }
            let fr = floor_log2(configured_ratio as nat);
            if n > configured_ratio && fr >= k {
                lemma_pow2_monotone(k, fr);
            }
            if n > 0x4_0000_0000_0000 && k <= 50 {
                lemma_pow2_monotone(k, 50);
            }
            vstd::bits::lemma_u64_shr_is_div(x.mantissa, distance as u64);
        }
        let times: u64 = x.mantissa >> (distance as u32);
        capped_order_of(times, configured_ratio)
    }
}

/// A step of the range towards a value below it is at least one binary order
/// of magnitude wide, and does not overshoot the value.
pub proof fn lemma_step_below_bounds(x: Dyadic, lowest_exponent: int, configured_ratio: u64)
    requires
        x.wf(),
        x.magnitude() < lowest_exponent,
        configured_ratio >= 2,
    ensures
        1 <= capped_containing_binary_order_of_magnitude(
            times_below(x, lowest_exponent),
            configured_ratio,
        ) <= lowest_exponent - x.magnitude(),
{
    let a = (lowest_exponent - x.exponent) as nat;
    let mant = x.mantissa as nat;
    let fl = floor_log2(mant);
    let n = times_below(x, lowest_exponent);
    let k = (lowest_exponent - x.magnitude()) as nat;
    lemma2_to64();
    lemma2_to64_rest();
    lemma_floor_log2_bounds(mant);
    lemma_floor_log2_bounds(configured_ratio as nat);
    assert(a == k + fl);
    vstd::arithmetic::power2::lemma_pow2_adds(k, fl);
    lemma_pow2_pos(k);
    lemma_pow2_pos(a);
    lemma_pow2_pos(fl);
    let pk = pow2(k) as int;
    let pf = pow2(fl) as int;
    let mi = mant as int;
    assert(pk * pf >= pk) by (nonlinear_arith)
        requires
            pf >= 1,
            pk >= 0,
    ;
    assert(pk * mi >= pk * pf) by (nonlinear_arith)
        requires
            mi >= pf,
            pk >= 0,
    ;
    lemma_pow2_monotone(fl + 1, a);
    lemma_div_below((pow2(a) - 1) as nat, mant, pow2(k));
    lemma_div_at_least((pow2(a) - 1) as nat, mant, 1);
    assert(1 <= n < pow2(k));
    lemma_capped_bounds(n, k, configured_ratio);
}

/// A step of the range towards a value at or above its upper end is at least
/// one binary order of magnitude wide, and does not overshoot the value.
pub proof fn lemma_step_above_bounds(x: Dyadic, highest_exponent: int, configured_ratio: u64)
    requires
        x.wf(),
        x.magnitude() >= highest_exponent,
        configured_ratio >= 2,
    ensures
        1 <= capped_containing_binary_order_of_magnitude(
            times_above(x, highest_exponent),
            configured_ratio,
        ) <= x.magnitude() + 1 - highest_exponent,
{
    let mant = x.mantissa as nat;
    let fl = floor_log2(mant);
    let n = times_above(x, highest_exponent);
    let k = (x.magnitude() + 1 - highest_exponent) as nat;
    lemma2_to64();
    lemma2_to64_rest();
    lemma_floor_log2_bounds(mant);
    if x.exponent >= highest_exponent {
        let d = (x.exponent - highest_exponent) as nat;
        assert(k == d + fl + 1);
        vstd::arithmetic::power2::lemma_pow2_adds(fl + 1, d);
        lemma_pow2_pos(d);
        let pd = pow2(d) as int;
        let top = pow2(fl + 1) as int;
        let mi = mant as int;
        assert((mi + 1) * pd <= top * pd) by (nonlinear_arith)
            requires
                mi + 1 <= top,
                pd >= 0,
        ;
        assert((mi + 1) * pd >= 2) by (nonlinear_arith)
            requires
                mi >= 1,
                pd >= 1,
        ;
    } else {
        let s = (highest_exponent - x.exponent) as nat;
        assert(s <= fl);
        assert(k == fl + 1 - s);
        vstd::arithmetic::power2::lemma_pow2_adds(k, s);
        vstd::arithmetic::power2::lemma_pow2_adds((fl - s) as nat, s);
        lemma_pow2_pos(s);
        lemma_pow2_pos((fl - s) as nat);
        lemma_pow2_monotone(s, fl);
        assert(1 * pow2(s) == pow2(s));
        lemma_div_below(mant, pow2(s), pow2(k));
        lemma_div_at_least(mant, pow2(s), 1);
    }
    assert(1 <= n < pow2(k));
    lemma_capped_bounds(n, k, configured_ratio);
}

/// The capped number of binary digits of a number below `2^k` lies between 1
/// and `k`.
pub proof fn lemma_capped_bounds(n: nat, k: nat, configured_ratio: u64)
    requires
        1 <= n < pow2(k),
        configured_ratio >= 2,
    ensures
        1 <= capped_containing_binary_order_of_magnitude(n, configured_ratio) <= k,
{
    lemma2_to64();
    lemma2_to64_rest();
    lemma_floor_log2_bounds(n);
    lemma_floor_log2_bounds(configured_ratio as nat);
    if floor_log2(n) >= k {
        lemma_pow2_monotone(k, floor_log2(n));
    }
    let fr = floor_log2(configured_ratio as nat);
    if n > configured_ratio && fr >= k {
        lemma_pow2_monotone(k, fr);
    }
    if n > 0x4_0000_0000_0000 && k <= 50 {
        lemma_pow2_monotone(k, 50);
    }
    if fr == 0 {
    }
}

} // verus!
