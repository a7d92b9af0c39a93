//! Sequences of counts: their sums, and the rotation by which a counts array
//! is read.

use vstd::prelude::*;

verus! {

/// The sum of all counts of `s`.
pub open spec fn sum_counts(s: Seq<u64>) -> nat
    decreases s.len(),
{
    if s.len() == 0 {
        0
    } else {
        sum_counts(s.drop_last()) + s.last() as nat
    }
}

/// The sum of the first `n` counts of `s`.
pub open spec fn prefix_sum(s: Seq<u64>, n: int) -> nat {
    sum_counts(s.subrange(0, n))
}

/// `n` counts, all zero.
pub open spec fn zeros(n: nat) -> Seq<u64> {
    Seq::new(n, |i: int| 0u64)
}

/// Counts that are all zero sum to zero.
pub proof fn lemma_sum_all_zero(s: Seq<u64>)
    requires
        forall|i: int| 0 <= i < s.len() ==> s[i] == 0,
    ensures
        sum_counts(s) == 0,
    decreases s.len(),
{
    if s.len() > 0 {
        lemma_sum_all_zero(s.drop_last());
    }
}

/// Counts that sum to zero are all zero.
pub proof fn lemma_sum_zero_all_zero(s: Seq<u64>)
    requires
        sum_counts(s) == 0,
    ensures
        forall|i: int| 0 <= i < s.len() ==> s[i] == 0,
    decreases s.len(),
{
    if s.len() > 0 {
        lemma_sum_zero_all_zero(s.drop_last());
        assert forall|i: int| 0 <= i < s.len() implies s[i] == 0 by {
            if i < s.len() - 1 {
                assert(s.drop_last()[i] == s[i]);
            }
        }
    }
}

/// The sum of two runs of counts, one after the other.
pub proof fn lemma_sum_concat(a: Seq<u64>, b: Seq<u64>)
    ensures
        sum_counts(a + b) == sum_counts(a) + sum_counts(b),
    decreases b.len(),
{
    if b.len() == 0 {
        assert(a + b =~= a);
    } else {
        lemma_sum_concat(a, b.drop_last());
        assert((a + b).drop_last() =~= a + b.drop_last());
    }
}

/// What a change of one count does to the sum.
pub proof fn lemma_sum_update(s: Seq<u64>, i: int, count: u64)
    requires
        0 <= i < s.len(),
    ensures
        sum_counts(s.update(i, count)) == sum_counts(s) - s[i] + count,
        s[i] <= sum_counts(s),
    decreases s.len(),
{
    if i == s.len() - 1 {
        assert(s.update(i, count).drop_last() =~= s.drop_last());
    } else {
        lemma_sum_update(s.drop_last(), i, count);
        assert(s.update(i, count).drop_last() =~= s.drop_last().update(i, count));
    }
}

/// A longer prefix never sums to less, and the whole is the longest prefix.
pub proof fn lemma_prefix_sum_monotone(s: Seq<u64>, a: int, b: int)
    requires
        0 <= a <= b <= s.len(),
    ensures
        prefix_sum(s, a) <= prefix_sum(s, b),
        prefix_sum(s, s.len() as int) == sum_counts(s),
        prefix_sum(s, 0) == 0,
{
    lemma_sum_concat(s.subrange(0, a), s.subrange(a, b));
    assert(s.subrange(0, a) + s.subrange(a, b) =~= s.subrange(0, b));
    assert(s.subrange(0, s.len() as int) =~= s);
}

/// A prefix that is one count longer sums to that count more.
pub proof fn lemma_prefix_sum_step(s: Seq<u64>, n: int)
    requires
        0 <= n < s.len(),
    ensures
        prefix_sum(s, n + 1) == prefix_sum(s, n) + s[n],
{
    assert(s.subrange(0, n + 1).drop_last() =~= s.subrange(0, n));
}

/// The slot of the array in which the count for `index` is kept, where the
/// array of `length` slots is read rotated by `offset`.
pub open spec fn normalize_index(index: int, offset: int, length: int) -> int {
    (index - offset) % length
}

/// The rotation wraps around once at most.
pub proof fn lemma_normalize_index(index: int, offset: int, length: int)
    requires
        0 <= index < length,
        0 <= offset < length,
    ensures
        normalize_index(index, offset, length) == (if index >= offset {
            index - offset
        } else {
            index - offset + length
        }),
{
    if index >= offset {
        vstd::arithmetic::div_mod::lemma_small_mod((index - offset) as nat, length as nat);
    } else {
        vstd::arithmetic::div_mod::lemma_fundamental_div_mod_converse(
            index - offset,
            length,
            -1,
            index - offset + length,
        );
    }
}

/// The counts of `physical` in the order of their indexes, where the array is
/// read rotated by `offset`.
pub open spec fn logical_counts(physical: Seq<u64>, offset: int) -> Seq<u64> {
    Seq::new(
        physical.len(),
        |i: int| physical[normalize_index(i, offset, physical.len() as int)],
    )
}

/// Reading the array rotated does not change the sum of its counts.
pub proof fn lemma_logical_sum(physical: Seq<u64>, offset: int)
    requires
        0 <= offset < physical.len(),
    ensures
        sum_counts(logical_counts(physical, offset)) == sum_counts(physical),
{
    let n = physical.len() as int;
    let low = physical.subrange(0, n - offset);
    let high = physical.subrange(n - offset, n);
    let logical = logical_counts(physical, offset);
    assert(low + high =~= physical);
    assert forall|i: int| 0 <= i < n implies logical[i] == (high + low)[i] by {
        lemma_normalize_index(i, offset, n);
    }
    assert(logical =~= high + low);
    lemma_sum_concat(low, high);
    lemma_sum_concat(high, low);
}

/// The highest slot below `n` that holds a count, if there is one.
pub open spec fn last_recorded_index(counts: Seq<u64>, n: int) -> Option<int>
    decreases n,
{
    if n <= 0 {
        None
    } else if counts[n - 1] != 0 {
        Some(n - 1)
    } else {
        last_recorded_index(counts, n - 1)
    }
}

/// The lowest slot from slot 1 on and below `n` that holds a count, if there
/// is one.
pub open spec fn first_recorded_index_above_zero(counts: Seq<u64>, n: int) -> Option<int>
    decreases n,
{
    if n <= 1 {
        None
    } else {
        match first_recorded_index_above_zero(counts, n - 1) {
            Some(i) => Some(i),
            None => if counts[n - 1] != 0 {
                Some(n - 1)
            } else {
                None
            },
        }
    }
}

/// What the highest slot with a count is.
pub proof fn lemma_last_recorded_index(counts: Seq<u64>, n: int)
    requires
        0 <= n <= counts.len(),
    ensures
        match last_recorded_index(counts, n) {
            Some(i) => 0 <= i < n && counts[i] != 0 && forall|j: int| i < j < n ==> counts[j] == 0,
            None => forall|j: int| 0 <= j < n ==> counts[j] == 0,
        },
    decreases n,
{
    if n > 0 {
        lemma_last_recorded_index(counts, n - 1);
    }
}

/// What the lowest slot above slot 0 with a count is.
pub proof fn lemma_first_recorded_index_above_zero(counts: Seq<u64>, n: int)
    requires
        0 <= n <= counts.len(),
    ensures
        match first_recorded_index_above_zero(counts, n) {
            Some(i) => 1 <= i < n && counts[i] != 0 && forall|j: int| 1 <= j < i ==> counts[j] == 0,
            None => forall|j: int| 1 <= j < n ==> counts[j] == 0,
        },
    decreases n,
{
    if n > 1 {
        lemma_first_recorded_index_above_zero(counts, n - 1);
    }
}

/// The lowest slot below `n` up to which the counts sum to at least `target`,
/// if there is one.
pub open spec fn first_index_reaching(counts: Seq<u64>, target: nat, n: int) -> Option<int>
    decreases n,
{
    if n <= 0 {
        None
    } else {
        match first_index_reaching(counts, target, n - 1) {
            Some(i) => Some(i),
            None => if prefix_sum(counts, n) >= target {
                Some(n - 1)
            } else {
                None
            },
        }
    }
}

/// What the lowest slot is up to which the counts sum to at least `target`.
pub proof fn lemma_first_index_reaching(counts: Seq<u64>, target: nat, n: int)
    requires
        0 <= n <= counts.len(),
    ensures
        match first_index_reaching(counts, target, n) {
            Some(i) => {
                &&& 0 <= i < n
                &&& prefix_sum(counts, i + 1) >= target
                &&& forall|k: int| 1 <= k <= i ==> #[trigger] prefix_sum(counts, k) < target
            },
            None => forall|k: int| 1 <= k <= n ==> #[trigger] prefix_sum(counts, k) < target,
        },
    decreases n,
{
    if n > 0 {
        lemma_first_index_reaching(counts, target, n - 1);
    }
}

/// The counts sum to at least 1 first at the lowest slot that holds a count.
pub proof fn lemma_first_index_reaching_one(counts: Seq<u64>)
    ensures
        match first_index_reaching(counts, 1, counts.len() as int) {
            Some(i) => 0 <= i < counts.len() && counts[i] != 0 && forall|j: int|
                0 <= j < i ==> counts[j] == 0,
            None => forall|j: int| 0 <= j < counts.len() ==> counts[j] == 0,
        },
{
    let n = counts.len() as int;
    lemma_first_index_reaching(counts, 1, n);
    match first_index_reaching(counts, 1, n) {
        Some(i) => {
            lemma_prefix_sum_step(counts, i);
            assert forall|j: int| 0 <= j < i implies counts[j] == 0 by {
                lemma_prefix_sum_step(counts, j);
                assert(prefix_sum(counts, j + 1) < 1);
            }
            if i > 0 {
                assert(prefix_sum(counts, i) < 1);
            } else {
                lemma_prefix_sum_monotone(counts, 0, 0);
            }
        },
        None => {
            assert forall|j: int| 0 <= j < n implies counts[j] == 0 by {
                lemma_prefix_sum_step(counts, j);
                assert(prefix_sum(counts, j + 1) < 1);
            }
        },
    }
}

/// The counts sum to their total first at the highest slot that holds a count.
pub proof fn lemma_first_index_reaching_total(counts: Seq<u64>)
    requires
        sum_counts(counts) >= 1,
    ensures
        first_index_reaching(counts, sum_counts(counts), counts.len() as int)
            == last_recorded_index(counts, counts.len() as int),
        last_recorded_index(counts, counts.len() as int) is Some,
{
    let n = counts.len() as int;
    let total = sum_counts(counts);
    lemma_first_index_reaching(counts, total, n);
    lemma_last_recorded_index(counts, n);
    lemma_prefix_sum_monotone(counts, 0, n);
    match last_recorded_index(counts, n) {
        Some(last) => {
            // beyond `last` nothing is added, so the prefix up to `last` is the total
            lemma_prefix_zero_tail(counts, last + 1, n);
            lemma_prefix_sum_step(counts, last);
            match first_index_reaching(counts, total, n) {
                Some(i) => {
                    if i < last {
                        lemma_prefix_sum_monotone(counts, i + 1, last);
                    }
                },
                None => {
                    assert(prefix_sum(counts, last + 1) < total);
                },
            }
        },
        None => {
            lemma_sum_all_zero(counts);
        },
    }
}

/// Slots that hold nothing add nothing to a prefix.
pub proof fn lemma_prefix_zero_tail(counts: Seq<u64>, a: int, b: int)
    requires
        0 <= a <= b <= counts.len(),
        forall|j: int| a <= j < b ==> counts[j] == 0,
    ensures
        prefix_sum(counts, a) == prefix_sum(counts, b),
    decreases b - a,
{
    if a < b {
        lemma_prefix_zero_tail(counts, a, b - 1);
        lemma_prefix_sum_step(counts, b - 1);
    }
}

} // verus!
