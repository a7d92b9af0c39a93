//! Small helpers: an allocation bound and the hash mixing steps.

use vstd::prelude::*;
use crate::counts::{prefix_sum, last_recorded_index, first_recorded_index_above_zero, lemma_prefix_sum_step, lemma_prefix_sum_monotone};

verus! {

/// Whether an allocation of `alloc_size` bytes can be asked for: where `usize`
/// is narrower than 64 bits, the size has to fit in `isize`.
pub open spec fn alloc_size_in_bounds(alloc_size: usize) -> bool {
    usize::BITS < 64 ==> alloc_size <= isize::MAX
}

/// Guards an allocation of `alloc_size` bytes: it may only be reached with a
/// size that `alloc_size_in_bounds` admits.
pub fn alloc_guard(alloc_size: usize)
    requires
        alloc_size_in_bounds(alloc_size),
    ensures
        alloc_size_in_bounds(alloc_size),
{
}

/// One round of the hash mix: `h` plus `h` shifted left by 10, wrapping, and
/// the sum xor-ed with itself shifted right by 6.
pub open spec fn spec_hash_mix(h: i64) -> i64 {
    let sum = vstd::wrapping::i64_specs::wrapping_add(h, h << 10u32);
    sum ^ (sum >> 6u32)
}

/// Mixes `h` one round further.
pub fn hash_mix(h: &mut i64)
    ensures
        *final(h) == spec_hash_mix(*old(h)),
{
    let shifted: i64 = *h << 10u32;
    let sum: i64 = h.wrapping_add(shifted);
    *h = sum ^ (sum >> 6u32);
}

/// Adds the 32-bit word `t` to `h`, wrapping, and mixes one round.
pub fn add_mix32(h: &mut i64, t: u32)
    ensures
        *final(h) == spec_hash_mix(
            vstd::wrapping::i64_specs::wrapping_add(*old(h), t as i64),
        ),
{
    *h = h.wrapping_add(t as i64);
    hash_mix(h);
}

/// Adds the 64-bit word `v`, read as a signed number, to `h`, wrapping, and
/// mixes one round.
pub fn add_mix64(h: &mut i64, v: u64)
    ensures
        *final(h) == spec_hash_mix(
            vstd::wrapping::i64_specs::wrapping_add(*old(h), v as i64),
        ),
{
    let signed: i64 = #[verifier::truncate]
    (v as i64);
    *h = h.wrapping_add(signed);
    hash_mix(h);
}

/// A slot number, if there is one, as a mathematical integer.
pub open spec fn as_index(slot: Option<u32>) -> Option<int> {
    match slot {
        Some(i) => Some(i as int),
        None => None,
    }
}

/// Works out, from the first `length_to_cover` counts, the highest slot that
/// holds a count, the lowest such slot above slot 0, and the sum of the counts.
pub fn recalculate_internal_tracking_values(counts: &Vec<u64>, length_to_cover: u32) -> (r: (
    Option<u32>,
    Option<u32>,
    u64,
))
    requires
        length_to_cover <= counts@.len(),
        prefix_sum(counts@, length_to_cover as int) <= u64::MAX,
    ensures
        as_index(r.0) == last_recorded_index(
            counts@,
            length_to_cover as int,
        ),
        as_index(r.1) == first_recorded_index_above_zero(
            counts@,
            length_to_cover as int,
        ),
        r.2 == prefix_sum(counts@, length_to_cover as int),
{
    let mut new_max: Option<u32> = None;
    let mut new_min: Option<u32> = None;
    let mut new_total: u64 = 0;
    let mut i: u32 = 0;
    proof {
        lemma_prefix_sum_monotone(counts@, 0, 0);
    }
    while i < length_to_cover
        invariant
            i <= length_to_cover <= counts@.len(),
            prefix_sum(counts@, length_to_cover as int) <= u64::MAX,
            as_index(new_max) == last_recorded_index(counts@, i as int),
            as_index(new_min) == first_recorded_index_above_zero(counts@, i as int),
            new_total == prefix_sum(counts@, i as int),
        decreases length_to_cover - i,
    {
        let count = counts[i as usize];
        proof {
            lemma_prefix_sum_step(counts@, i as int);
            lemma_prefix_sum_monotone(counts@, i + 1, length_to_cover as int);
        }
        if count > 0 {
            new_total = new_total + count;
            new_max = Some(i);
            if new_min.is_none() && i != 0 {
                new_min = Some(i);
            }
        }
        i = i + 1;
    }
    (new_max, new_min, new_total)
}

/// The position in memory of slot `index`.
pub fn slot_position(index: u32) -> (r: usize)
    ensures
        r == index,
{
    index as usize
}

/// The value that was missed next below `value`, if a value was expected
/// every `interval`: `value - interval`, where that is not less than the
/// interval. An interval of 0 expects nothing.
pub open spec fn spec_missed_value_below(value: u64, interval: u64) -> Option<u64> {
    if interval != 0 && value >= 2 * interval {
        Some((value - interval) as u64)
    } else {
        None
    }
}

/// The value that was missed next below `value`, if a value was expected
/// every `interval`.
pub fn missed_value_below(value: u64, interval: u64) -> (r: Option<u64>)
    ensures
        r == spec_missed_value_below(value, interval),
        r matches Some(missed) ==> interval <= missed < value,
{
    if interval != 0 && value >= interval && value - interval >= interval {
        Some(value - interval)
    } else {
        None
    }
}

} // verus!
