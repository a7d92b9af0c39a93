//! Facts about powers of two, binary logarithms and shifts on `u64`.

use vstd::prelude::*;
use vstd::arithmetic::logarithm::{log, lemma_log0, lemma_log_s, lemma_log_nonnegative};
use vstd::arithmetic::power2::{pow2, lemma_pow2_pos, lemma_pow2_unfold, lemma_pow2_strictly_increases, lemma2_to64, lemma2_to64_rest};
use vstd::std_specs::bits::u64_leading_zeros;

verus! {

/// The position of the highest set bit of `x`, for `x >= 1`.
pub open spec fn floor_log2(x: nat) -> nat {
    log(2, x as int) as nat
}

/// `floor_log2(x)` is the one exponent `k` with `2^k <= x < 2^(k+1)`.
pub proof fn lemma_floor_log2_bounds(x: nat)
    requires
        x >= 1,
    ensures
        pow2(floor_log2(x)) <= x < pow2(floor_log2(x) + 1),
    decreases x,
{
    lemma2_to64();
    if x < 2 {
        lemma_log0(2, x as int);
    } else {
        lemma_log_s(2, x as int);
        lemma_floor_log2_bounds(x / 2);
        let k = floor_log2(x / 2);
        lemma_log_nonnegative(2, (x / 2) as int);
        assert(floor_log2(x) == k + 1);
        lemma_pow2_unfold(k + 1);
        lemma_pow2_unfold(k + 2);
    }
}

/// An exponent that brackets `x` is its binary logarithm.
pub proof fn lemma_floor_log2_unique(x: nat, k: nat)
    requires
        pow2(k) <= x < pow2(k + 1),
    ensures
        floor_log2(x) == k,
{
    lemma_pow2_pos(k);
    lemma_floor_log2_bounds(x);
    let j = floor_log2(x);
    if j < k {
        lemma_pow2_monotone(j + 1, k);
    } else if k < j {
        lemma_pow2_monotone(k + 1, j);
    }
}

/// `pow2` is monotone.
pub proof fn lemma_pow2_monotone(a: nat, b: nat)
    requires
        a <= b,
    ensures
        pow2(a) <= pow2(b),
{
    if a < b {
        lemma_pow2_strictly_increases(a, b);
    }
}

/// The count of leading zero bits of a non-zero `u64`, by its binary logarithm.
pub proof fn lemma_leading_zeros_is_log(x: u64)
    requires
        x >= 1,
    ensures
        u64_leading_zeros(x) == 63 - floor_log2(x as nat),
        floor_log2(x as nat) <= 63,
    decreases x,
{
    reveal(u64_leading_zeros);
    lemma_log_nonnegative(2, x as int);
    if x < 2 {
        lemma_log0(2, x as int);
        assert(u64_leading_zeros(0) == 64);
        assert(x / 2 == 0);
    } else {
        lemma_log_s(2, x as int);
        lemma_log_nonnegative(2, (x / 2) as int);
        lemma_leading_zeros_is_log(x / 2);
    }
    lemma_floor_log2_bounds(x as nat);
    if floor_log2(x as nat) >= 64 {
        lemma_pow2_monotone(64, floor_log2(x as nat));
        lemma2_to64_rest();
    }
}

/// `1 << k` is `2^k` on `u64`.
pub proof fn lemma_one_shl_is_pow2(k: u64)
    requires
        k < 64,
    ensures
        (1u64 << k) == pow2(k as nat),
{
    vstd::bits::lemma_u64_pow2_no_overflow(k as nat);
    vstd::bits::lemma_u64_shl_is_mul(1, k);
}

/// Or-ing a mask whose highest set bit is bit `k` into `v` leaves the
/// highest set bit of the result at bit `k` or at that of `v`, whichever is
/// higher.
pub proof fn lemma_or_mask_log(v: u64, mask: u64, k: nat)
    requires
        pow2(k) <= mask < pow2(k + 1),
    ensures
        (v | mask) >= 1,
        v < pow2(k + 1) ==> floor_log2((v | mask) as nat) == k,
        v >= pow2(k + 1) ==> floor_log2((v | mask) as nat) == floor_log2(v as nat),
{
    let x = v | mask;
    lemma_pow2_pos(k);
    assert((v | mask) >= v && (v | mask) >= mask) by (bit_vector);
    lemma2_to64_rest();
    if k >= 64 {
        lemma_pow2_monotone(64, k);
    }
    let j: nat = if v < pow2(k + 1) { k } else { floor_log2(v as nat) };
    if v >= pow2(k + 1) {
        lemma_pow2_pos(k + 1);
        lemma_floor_log2_bounds(v as nat);
        lemma_leading_zeros_is_log(v);
        if j < k {
            lemma_pow2_monotone(j + 1, k);
        }
        if j == k {
        }
        if j < k + 1 {
            lemma_pow2_monotone(j + 1, k + 1);
        }
        lemma_pow2_monotone(k, j);
        lemma_pow2_monotone(k + 1, j + 1);
    }
    assert(pow2(j) <= x);
    assert(v < pow2(j + 1) && mask < pow2(j + 1));
    if j + 1 < 64 {
        let s: u64 = (j + 1) as u64;
        lemma_one_shl_is_pow2(s);
        let t: u64 = 1u64 << s;
        assert(v < t && mask < t);
        assert((v | mask) < (1u64 << s)) by (bit_vector)
            requires
                s < 64,
                v < (1u64 << s),
                mask < (1u64 << s),
        ;
    } else {
        assert(j + 1 == 64);
    }
    assert(x < pow2(j + 1));
    lemma_floor_log2_unique(x as nat, j);
}

} // verus!
