//! What a shift of the tracked range does to the slots of a geometry.
//!
//! A shift to the left by `n` binary orders of magnitude multiplies every
//! recorded value by `2^n`; a shift to the right divides by `2^n`. From the
//! upper half of bucket 0 on, a slot then moves up or down by `n` half-buckets.
//! The slots of the lower half of bucket 0 are one unit wide, like those of the
//! upper half, so that each of them moves to a slot of its own further up.

use vstd::prelude::*;
use vstd::arithmetic::power2::{pow2, lemma_pow2_pos, lemma_pow2_adds, lemma_pow2_unfold, lemma2_to64_rest};
use vstd::arithmetic::div_mod::{lemma_div_by_multiple, lemma_mod_multiples_basic, lemma_fundamental_div_mod, lemma_div_denominator};
use crate::bits::{floor_log2, lemma_floor_log2_bounds, lemma_floor_log2_unique, lemma_pow2_monotone};
use crate::histogram_settings::{HistogramSettings, lemma_div_below, lemma_div_at_least, lemma_div_brackets};

verus! {

/// The number of slots by which a shift by `n` binary orders of magnitude
/// moves the upper slots: `n` half-buckets.
pub open spec fn shift_amount(s: HistogramSettings, n: nat) -> int {
    (n * pow2(s.m())) as int
}

/// The slot that the count of slot `index` moves to when every value is
/// multiplied by `2^n`. Slot 0, the slot of the values below one unit, stays.
pub open spec fn left_target(s: HistogramSettings, index: int, n: nat) -> int {
    if index == 0 {
        0
    } else {
        s.spec_counts_array_index((s.spec_value_from_index(index as nat) * pow2(n)) as u64) as int
    }
}

/// The slot whose count moves to slot `index` when every value is multiplied
/// by `2^n`, if there is one: the lowest value of slot `index` has to be
/// `2^n` times a number of whole units.
pub open spec fn left_source(s: HistogramSettings, index: int, n: nat) -> Option<int> {
    let w = s.spec_value_from_index(index as nat);
    if index >= 1 && w % pow2(s.u() + n) == 0 {
        Some(s.spec_counts_array_index((w / pow2(n)) as u64) as int)
    } else {
        None
    }
}

/// The bucket of the values of slot `index`.
pub open spec fn index_bucket(s: HistogramSettings, index: nat) -> nat {
    if index < 2 * pow2(s.m()) {
        0
    } else {
        (index / pow2(s.m()) - 1) as nat
    }
}

/// The sub-bucket of the values of slot `index`.
pub open spec fn index_sub_bucket(s: HistogramSettings, index: nat) -> nat {
    (index - index_bucket(s, index) * pow2(s.m())) as nat
}

/// The lowest value of a slot is its sub-bucket times the width of the slots
/// of its bucket.
pub proof fn lemma_index_form(s: HistogramSettings, index: nat)
    requires
        s.wf_layout(),
        s.index_in_reach(index),
    ensures
        ({
            let b = index_bucket(s, index);
            let k = index_sub_bucket(s, index);
            let h = pow2(s.m());
            &&& index == b * h + k
            &&& k < 2 * h
            &&& index >= h ==> k >= h
            &&& index < h ==> b == 0
            &&& b + s.u() + s.m() <= 63
            &&& s.spec_value_from_index(index) == k * pow2(b + s.u())
            &&& s.spec_value_from_index(index) <= u64::MAX
            &&& s.spec_bucket_index(s.spec_value_from_index(index) as u64) == b
            &&& s.spec_counts_array_index(s.spec_value_from_index(index) as u64) == index
        }),
{
    let h = pow2(s.m());
    s.lemma_layout();
    s.lemma_index_class(index);
    let b = index_bucket(s, index);
    if index < 2 * h {
        assert(0 * h == 0);
        if index >= h {
            lemma_div_at_least(index, h, 1);
            lemma_div_below(index, h, 2);
            lemma_fundamental_div_mod(index as int, h as int);
            assert(h * 1 == h);
        }
    } else {
        lemma_div_at_least(index, h, 2);
        lemma_fundamental_div_mod(index as int, h as int);
        vstd::arithmetic::div_mod::lemma_mod_bound(index as int, h as int);
        let q = (index / h) as int;
        let hi = h as int;
        assert((q - 1) * hi == hi * q - hi) by (nonlinear_arith);
    }
}

/// The binary logarithm of `2^n` times a number.
pub proof fn lemma_floor_log2_shift(x: nat, n: nat)
    requires
        x >= 1,
    ensures
        floor_log2(x * pow2(n)) == floor_log2(x) + n,
{
    lemma_floor_log2_bounds(x);
    let j = floor_log2(x);
    lemma_pow2_adds(j, n);
    lemma_pow2_adds(j + 1, n);
    lemma_pow2_pos(n);
    let p = pow2(n) as int;
    let lo = pow2(j) as int;
    let hi = pow2(j + 1) as int;
    let xi = x as int;
    assert(lo * p <= xi * p < hi * p) by (nonlinear_arith)
        requires
            lo <= xi < hi,
            p >= 1,
    ;
    lemma_floor_log2_unique(x * pow2(n), j + n);
}

/// From the upper half of bucket 0 on, `2^n` times the lowest value of a slot
/// is the lowest value of the slot `n` half-buckets further up.
pub proof fn lemma_shift_upper(s: HistogramSettings, index: nat, n: nat)
    requires
        s.wf_layout(),
        index >= pow2(s.m()),
        s.index_in_reach((index + shift_amount(s, n)) as nat),
    ensures
        s.index_in_reach(index),
        s.spec_value_from_index(index) * pow2(n) == s.spec_value_from_index(
            (index + shift_amount(s, n)) as nat,
        ),
        s.spec_value_from_index(index) * pow2(n) <= u64::MAX,
        n >= 1 ==> left_target(s, index as int, n) == index + shift_amount(s, n),
{
    let h = pow2(s.m());
    let a = shift_amount(s, n) as nat;
    let upper = index + a;
    s.lemma_layout();
    assert(n * h >= 0) by (nonlinear_arith)
        requires
            n >= 0,
            h >= 0,
    ;
    vstd::arithmetic::div_mod::lemma_div_is_ordered(index as int, upper as int, h as int);
    lemma_index_form(s, index);
    lemma_index_form(s, upper);
    if n == 0 {
        assert(0 * h == 0);
        vstd::arithmetic::power2::lemma2_to64();
        assert(s.spec_value_from_index(index) * 1 == s.spec_value_from_index(index));
    } else {
        let b = index_bucket(s, index);
        let k = index_sub_bucket(s, index);
        assert(upper == (b + n) * h + k) by (nonlinear_arith)
            requires
                upper == index + n * h,
                index == b * h + k,
        ;
        assert((b + n) * h + k >= 2 * h) by (nonlinear_arith)
            requires
                n >= 1,
                b >= 0,
                k >= h,
                h >= 1,
        ;
        assert((b + n + 1) * h + (k - h) == upper) by (nonlinear_arith)
            requires
                upper == (b + n) * h + k,
        ;
        vstd::arithmetic::div_mod::lemma_fundamental_div_mod_converse(
            upper as int,
            h as int,
            (b + n + 1) as int,
            (k - h) as int,
        );
        assert(index_bucket(s, upper) == b + n);
        assert(index_sub_bucket(s, upper) == k);
        lemma_pow2_adds(b + s.u(), n);
        let p = pow2(b + s.u()) as int;
        let pn = pow2(n) as int;
        let ki = k as int;
        assert((ki * p) * pn == ki * (p * pn)) by (nonlinear_arith);
    }
}

/// From the upper half of bucket 0 on, `2^n` times a value lies `n`
/// half-buckets above the slot of the value.
pub proof fn lemma_class_shift_left(s: HistogramSettings, value: u64, n: nat)
    requires
        s.wf_layout(),
        s.spec_counts_array_index(value) >= pow2(s.m()),
        s.index_in_reach((s.spec_counts_array_index(value) + shift_amount(s, n)) as nat),
    ensures
        value * pow2(n) <= u64::MAX,
        s.spec_counts_array_index((value * pow2(n)) as u64) == s.spec_counts_array_index(value)
            + shift_amount(s, n),
{
    let h = pow2(s.m());
    let u = s.u();
    let m = s.m();
    let b = s.spec_bucket_index(value);
    let k = s.spec_sub_bucket_index(value, b);
    let p = pow2(b + u);
    let pn = pow2(n);
    let index = s.spec_counts_array_index(value);
    s.lemma_layout();
    s.lemma_value_class(value);
    lemma_pow2_pos(n);
    if n == 0 {
        assert(0 * h == 0);
        vstd::arithmetic::power2::lemma2_to64();
        assert(value * 1 == value);
    } else {
        if b == 0 {
            assert(0 * h == 0);
        }
        assert(k >= h);
        let upper = (index + n * h) as nat;
        assert(upper == (b + n + 1) * h + (k - h)) by (nonlinear_arith)
            requires
                upper == index + n * h,
                index == b * h + k,
        ;
        vstd::arithmetic::div_mod::lemma_fundamental_div_mod_converse(
            upper as int,
            h as int,
            (b + n + 1) as int,
            (k - h) as int,
        );
        assert(b + n + 1 + u + m <= 64);
        let pp = pow2(b + n + u);
        lemma_pow2_adds(b + u, n);
        lemma_pow2_pos(b + n + u);
        lemma_pow2_adds(m, b + n + u);
        lemma_pow2_adds(m + 1, b + n + u);
        lemma_pow2_monotone(m + 1 + b + n + u, 64);
        lemma_pow2_monotone(u + m + 1, m + b + n + u);
        lemma2_to64_rest();
        let x: nat = (value * pn) as nat;
        let vi = value as int;
        let ki = k as int;
        let pi = p as int;
        let pni = pn as int;
        assert(ki * (pi * pni) <= vi * pni < (ki + 1) * (pi * pni)) by (nonlinear_arith)
            requires
                ki * pi <= vi < (ki + 1) * pi,
                pni >= 1,
        ;
        let hi = h as int;
        let ppi = pp as int;
        assert(hi * ppi <= ki * ppi && (ki + 1) * ppi <= (2 * hi) * ppi) by (nonlinear_arith)
            requires
                hi <= ki < 2 * hi,
                ppi >= 1,
        ;
        lemma_floor_log2_unique(x, m + b + n + u);
        assert(s.spec_bucket_index(x as u64) == b + n);
        lemma_div_at_least(x, pp, k);
        lemma_div_below(x, pp, k + 1);
        assert((b + n) * h + k == b * h + k + n * h) by (nonlinear_arith);
    }
}

/// `2^n` times the lowest value of a slot of the lower half of bucket 0 is the
/// lowest value of a slot of its own, which lies less than `n + 1`
/// half-buckets up.
pub proof fn lemma_shift_lower(s: HistogramSettings, index: nat, n: nat)
    requires
        s.wf_layout(),
        1 <= index < pow2(s.m()),
        n >= 1,
        s.u() + s.m() + n <= 64,
    ensures
        s.spec_value_from_index(index) * pow2(n) <= u64::MAX,
        s.spec_lowest_equivalent_value((s.spec_value_from_index(index) * pow2(n)) as u64)
            == s.spec_value_from_index(index) * pow2(n),
        1 <= left_target(s, index as int, n) < shift_amount(s, n) + pow2(s.m()),
        s.index_in_reach(left_target(s, index as int, n) as nat),
        s.spec_value_from_index(left_target(s, index as int, n) as nat) == s.spec_value_from_index(
            index,
        ) * pow2(n),
{
    let u = s.u();
    let m = s.m();
    let h = pow2(m);
    let pu = pow2(u);
    let pn = pow2(n);
    s.lemma_layout();
    lemma_pow2_pos(n);
    lemma2_to64_rest();
    assert(s.index_in_reach(index)) by {
        lemma_div_below(index, h, 1);
    }
    lemma_index_form(s, index);
    assert(0 * h == 0);
    let v = s.spec_value_from_index(index);
    assert(v == index * pu);
    let x = v * pn;
    let j = floor_log2(index);
    lemma_floor_log2_bounds(index);
    if j >= m {
        lemma_pow2_monotone(m, j);
    }
    assert(j < m);
    // x = index * 2^(u+n), and its logarithm is j + u + n
    lemma_pow2_adds(u, n);
    let pun = pow2(u + n);
    let ii = index as int;
    assert((ii * (pu as int)) * (pn as int) == ii * ((pu as int) * (pn as int)))
        by (nonlinear_arith);
    assert(x == index * pun);
    lemma_floor_log2_shift(index, u + n);
    assert(x >= 1) by {
        lemma_pow2_pos(u + n);
        assert(ii * (pun as int) >= 1) by (nonlinear_arith)
            requires
                ii >= 1,
                pun >= 1,
        ;
    }
    lemma_floor_log2_bounds(x);
    lemma_pow2_monotone(j + u + n + 1, 64);
    assert(x < 0x1_0000_0000_0000_0000);
    let b = s.spec_bucket_index(x as u64);
    s.lemma_value_class(x as u64);
    if x < pow2(u + m + 1) {
        // bucket 0: the sub-bucket is index * 2^n
        assert(b == 0);
        assert(x == (index * pn) * pu) by (nonlinear_arith)
            requires
                x == (index * pu) * pn,
        ;
        lemma_div_by_multiple((index * pn) as int, pu as int);
        assert(x / pu == index * pn);
        assert(0 * h == 0);
        assert(index * pn >= 1) by (nonlinear_arith)
            requires
                index >= 1,
                pn >= 1,
        ;
        assert(n * h >= h) by (nonlinear_arith)
            requires
                n >= 1,
                h >= 0,
        ;
    } else {
        // bucket b = j + n - m, which is less than n
        assert(floor_log2(x) == j + u + n);
        assert((x as u64) as nat == x);
        if j + u + n < u + m + 1 {
            lemma_pow2_monotone(j + u + n + 1, u + m + 1);
        }
        assert(b == j + n - m);
        assert(b >= 1);
        let r = (m - j) as nat;
        assert(b + r == n);
        lemma_pow2_adds(r, b + u);
        let pr = pow2(r);
        let pb = pow2(b + u);
        assert(pun == pr * pb);
        assert(x == (index * pr) * pb) by (nonlinear_arith)
            requires
                x == index * pun,
                pun == pr * pb,
        ;
        lemma_pow2_pos(b + u);
        lemma_div_by_multiple((index * pr) as int, pb as int);
        let k = s.spec_sub_bucket_index(x as u64, b);
        assert(k == index * pr);
        assert(b * h + k < (b + 2) * h) by (nonlinear_arith)
            requires
                k < 2 * h,
        ;
        assert((b + 2) * h <= n * h + h) by (nonlinear_arith)
            requires
                b + 1 <= n,
                h >= 0,
        ;
        assert(b * h + k >= 1) by (nonlinear_arith)
            requires
                b >= 1,
                h >= 1,
                k >= 0,
        ;
    }
    s.lemma_index_round_trip(x as u64);
}

/// The slot whose count moves to a slot is the slot that the move starts from.
pub proof fn lemma_left_source(s: HistogramSettings, index: nat, n: nat)
    requires
        s.wf_layout(),
        n >= 1,
        index >= 1,
        s.index_in_reach(index),
        left_source(s, index as int, n) is Some,
    ensures
        ({
            let source = left_source(s, index as int, n)->0;
            let a = shift_amount(s, n);
            let h = pow2(s.m());
            &&& 1 <= source < index
            &&& s.index_in_reach(source as nat)
            &&& s.spec_value_from_index(source as nat) * pow2(n) == s.spec_value_from_index(index)
            &&& left_target(s, source, n) == index
            &&& index >= a + h ==> source == index - a
            &&& index < a + h ==> source < h
        }),
{
    let u = s.u();
    let m = s.m();
    let h = pow2(m);
    let pn = pow2(n);
    let pu = pow2(u);
    let a = shift_amount(s, n);
    s.lemma_layout();
    lemma_pow2_pos(n);
    lemma_index_form(s, index);
    let b = index_bucket(s, index);
    let k = index_sub_bucket(s, index);
    let w = s.spec_value_from_index(index);
    let pun = pow2(u + n);
    lemma_pow2_adds(u, n);
    lemma_pow2_pos(u + n);
    // w = y * 2^n, where y is a number of whole units
    lemma_fundamental_div_mod(w as int, pun as int);
    let c = w / pun;
    assert(w == pun * c);
    let y = c * pu;
    assert(w == y * pn) by (nonlinear_arith)
        requires
            w == pun * c,
            pun == pu * pn,
            y == c * pu,
    ;
    lemma_div_by_multiple(y as int, pn as int);
    assert(w / pn == y);
    s.lemma_index_class(index);
    assert(w >= pu);
    assert(c >= 1) by (nonlinear_arith)
        requires
            w == pun * c,
            w >= 1,
            pun >= 1,
            c >= 0,
    ;
    assert(y >= pu) by (nonlinear_arith)
        requires
            y == c * pu,
            c >= 1,
            pu >= 1,
    ;
    assert(y <= w) by (nonlinear_arith)
        requires
            w == y * pn,
            pn >= 1,
            y >= 0,
    ;
    lemma_pow2_monotone(1, n);
    vstd::arithmetic::power2::lemma2_to64();
    assert(y < w) by (nonlinear_arith)
        requires
            w == y * pn,
            pn >= 2,
            y >= 1,
    ;
    let source = s.spec_counts_array_index(y as u64);
    s.lemma_index_monotonic(y as u64, w as u64);
    s.lemma_index_round_trip(y as u64);
    s.lemma_value_class(y as u64);
    let bucket_y = s.spec_bucket_index(y as u64);
    let ky = s.spec_sub_bucket_index(y as u64, bucket_y);
    // the lowest value of the slot of y is y itself
    if index < h {
        // w = index * 2^u lies in the lower half of bucket 0, and so does y
        assert(0 * h == 0);
        assert(w < h * pu) by (nonlinear_arith)
            requires
                w == k * pu,
                k < h,
                pu >= 1,
        ;
        crate::bits::lemma_pow2_monotone(u + m, u + m + 1);
        assert(bucket_y == 0);
        lemma_div_by_multiple(c as int, pu as int);
        assert(ky == c);
        assert(c < h) by (nonlinear_arith)
            requires
                c * pu == y,
                y < h * pu,
                pu >= 1,
        ;
        assert(n * h >= 0) by (nonlinear_arith)
            requires
                n >= 0,
                h >= 0,
        ;
    } else if b >= n {
        // w = k * 2^(b+u) with k in the upper half: y = k * 2^(b-n+u)
        let d = (b - n) as nat;
        lemma_pow2_adds(d + u, n);
        let pd = pow2(d + u);
        lemma_pow2_pos(d + u);
        assert(y == k * pd) by (nonlinear_arith)
            requires
                w == y * pn,
                w == k * (pd * pn),
                pn >= 1,
        ;
        lemma_pow2_adds(m, d + u);
        lemma_pow2_adds(m + 1, d + u);
        assert(h * pd <= y < (2 * h) * pd) by (nonlinear_arith)
            requires
                y == k * pd,
                h <= k < 2 * h,
                pd >= 1,
        ;
        lemma_pow2_unfold(m + 1);
        if d >= 1 {
            lemma_pow2_monotone(u + m + 1, m + d + u);
            lemma_floor_log2_unique(y, m + d + u);
        }
        assert(bucket_y == d);
        lemma_div_by_multiple(k as int, pd as int);
        assert(ky == k);
        assert(d * h + k == b * h + k - n * h) by (nonlinear_arith)
            requires
                d == b - n,
        ;
        assert(b * h + k >= n * h + h) by (nonlinear_arith)
            requires
                b >= n,
                k >= h,
                h >= 0,
        ;
    } else {
        // b < n: y lies in the lower half of bucket 0
        let r = (n - b) as nat;
        assert(b * h + k < n * h + h) by (nonlinear_arith)
            requires
                b + 1 <= n,
                k < 2 * h,
                h >= 0,
        ;
        lemma_pow2_adds(b + u, r);
        lemma_pow2_adds(u, b);
        lemma_pow2_adds(u, n);
        let pb = pow2(b + u);
        let pr = pow2(r);
        lemma_pow2_pos(b + u);
        lemma_pow2_pos(r);
        // y * 2^r * 2^(b+u) == w * 2^u ... so y == (k / 2^r) * 2^u
        assert(k * pb == c * (pu * pn)) by (nonlinear_arith)
            requires
                w == k * pb,
                w == pun * c,
                pun == pu * pn,
        ;
        assert(pu * pn == pb * pr) by {
            lemma_pow2_adds(b + u, r);
            assert(b + u + r == u + n);
        }
        assert(k == c * pr) by (nonlinear_arith)
            requires
                k * pb == c * (pb * pr),
                pb >= 1,
        ;
        lemma_pow2_monotone(1, r);
        vstd::arithmetic::power2::lemma2_to64();
        assert(c < h) by (nonlinear_arith)
            requires
                k == c * pr,
                k < 2 * h,
                pr >= 2,
                c >= 0,
        ;
        assert(y < h * pu) by (nonlinear_arith)
            requires
                y == c * pu,
                c < h,
                pu >= 1,
        ;
        crate::bits::lemma_pow2_monotone(u + m, u + m + 1);
        assert(bucket_y == 0);
        lemma_div_by_multiple(c as int, pu as int);
        assert(ky == c);
        assert(0 * h == 0);
    }
    assert(s.spec_lowest_equivalent_value(y as u64) == y);
    assert(s.spec_value_from_index(source) == y);
    assert(source >= 1) by {
        if source == 0 {
            s.lemma_index_class(0);
        }
    }
    if source >= index {
        s.lemma_value_from_index_monotonic(index, source);
    }
}

/// A move that ends in a slot starts from the slot whose count moves there.
pub proof fn lemma_left_target_source(s: HistogramSettings, index: nat, n: nat)
    requires
        s.wf_layout(),
        n >= 1,
        index >= 1,
        s.index_in_reach(index),
        s.spec_value_from_index(index) * pow2(n) <= u64::MAX,
        s.spec_lowest_equivalent_value((s.spec_value_from_index(index) * pow2(n)) as u64)
            == s.spec_value_from_index(index) * pow2(n),
    ensures
        left_source(s, left_target(s, index as int, n), n) == Some(index as int),
        left_target(s, index as int, n) >= 1,
{
    let u = s.u();
    let pn = pow2(n);
    let pu = pow2(u);
    let v = s.spec_value_from_index(index);
    let x = v * pn;
    let target = left_target(s, index as int, n);
    s.lemma_layout();
    lemma_pow2_pos(n);
    lemma_index_form(s, index);
    s.lemma_index_class(index);
    s.lemma_index_round_trip(x as u64);
    assert(s.spec_value_from_index(target as nat) == x);
    // x is a multiple of 2^(u+n), since v is a multiple of 2^u
    let b = index_bucket(s, index);
    let k = index_sub_bucket(s, index);
    lemma_pow2_adds(u, b);
    lemma_pow2_adds(u, n);
    let pb = pow2(b);
    let pun = pow2(u + n);
    assert(x == (k * pb) * pun) by (nonlinear_arith)
        requires
            x == (k * (pu * pb)) * pn,
            pun == pu * pn,
    ;
    lemma_pow2_pos(u + n);
    lemma_mod_multiples_basic((k * pb) as int, pun as int);
    lemma_div_by_multiple(v as int, pn as int);
    assert(x / pn == v);
    assert(x >= pu) by (nonlinear_arith)
        requires
            x == v * pn,
            v >= pu,
            pn >= 1,
    ;
    if target == 0 {
        s.lemma_index_class(0);
    }
}

/// From `n + 1` half-buckets up, `1 / 2^n` of a value lies `n` half-buckets
/// below the slot of the value.
pub proof fn lemma_class_shift_right(s: HistogramSettings, value: u64, n: nat)
    requires
        s.wf_layout(),
        s.spec_counts_array_index(value) >= shift_amount(s, n) + pow2(s.m()),
    ensures
        s.spec_counts_array_index((value as nat / pow2(n)) as u64) == s.spec_counts_array_index(
            value,
        ) - shift_amount(s, n),
        value as nat / pow2(n) <= value,
{
    let h = pow2(s.m());
    let u = s.u();
    let m = s.m();
    let b = s.spec_bucket_index(value);
    let k = s.spec_sub_bucket_index(value, b);
    let p = pow2(b + u);
    let pn = pow2(n);
    s.lemma_layout();
    s.lemma_value_class(value);
    lemma_pow2_pos(n);
    lemma_div_brackets(value as nat, pn);
    let y = value as nat / pn;
    assert(y <= value) by (nonlinear_arith)
        requires
            y * pn <= value,
            pn >= 1,
            y >= 0,
    ;
    if n == 0 {
        assert(0 * h == 0);
        vstd::arithmetic::power2::lemma2_to64();
        assert(value as nat / 1 == value);
    } else {
        // the slot lies in bucket n or above, in the upper half of the sub-buckets
        assert(b >= n) by (nonlinear_arith)
            requires
                b * h + k >= n * h + h,
                k < 2 * h,
                h >= 1,
                b >= 0,
                n >= 0,
        ;
        assert(k >= h);
        let d = (b - n) as nat;
        let pd = pow2(d + u);
        lemma_pow2_adds(d + u, n);
        lemma_pow2_pos(d + u);
        // y / 2^(d+u) == value / 2^(b+u)
        lemma_div_denominator(value as int, pn as int, pd as int);
        assert(pn * pd == pd * pn) by (nonlinear_arith);
        assert(y / pd == k);
        lemma_div_brackets(y, pd);
        lemma_pow2_adds(m, d + u);
        lemma_pow2_adds(m + 1, d + u);
        lemma_pow2_unfold(m + 1);
        assert(h * pd <= y < (2 * h) * pd) by (nonlinear_arith)
            requires
                k * pd <= y < (k + 1) * pd,
                h <= k < 2 * h,
                pd >= 1,
        ;
        if d >= 1 {
            lemma_pow2_monotone(u + m + 1, m + d + u);
            lemma_floor_log2_unique(y, m + d + u);
        }
        assert(s.spec_bucket_index(y as u64) == d);
        assert(d * h + k == b * h + k - n * h) by (nonlinear_arith)
            requires
                d == b - n,
        ;
    }
}

} // verus!
