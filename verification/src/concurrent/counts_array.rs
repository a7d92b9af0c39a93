//! A counts array that is read rotated by a normalizing index offset, as the
//! histograms for many threads keep two of.

use vstd::prelude::*;
use crate::counts::{logical_counts, normalize_index, lemma_normalize_index, zeros};

verus! {

/// The slot of the array of `length` slots that slot 0 is kept in, where the
/// array is read rotated by `offset`; `length` where the array is not
/// rotated, so that no slot lies at or above it.
pub open spec fn zero_index(offset: int, length: int) -> int {
    if offset == 0 {
        length
    } else {
        length - offset
    }
}

/// The slots of `physical` laid out for `new_length` slots: the slots below
/// the zero index stay, those from the zero index on move up by the number of
/// new slots, and the slots in between hold nothing.
pub open spec fn grown(physical: Seq<u64>, offset: int, new_length: int) -> Seq<u64> {
    let zero = zero_index(offset, physical.len() as int);
    let delta = new_length - physical.len();
    Seq::new(
        new_length as nat,
        |j: int|
            if j < zero {
                physical[j]
            } else if j < zero + delta {
                0u64
            } else {
                physical[j - delta]
            },
    )
}

/// Growing keeps the count of every slot, and the new slots hold nothing.
pub proof fn lemma_grown_logical(physical: Seq<u64>, offset: int, new_length: int)
    requires
        0 <= offset < physical.len(),
        physical.len() <= new_length,
    ensures
        logical_counts(grown(physical, offset, new_length), offset) == logical_counts(
            physical,
            offset,
        ) + zeros((new_length - physical.len()) as nat),
{
    let n = physical.len() as int;
    let left = logical_counts(grown(physical, offset, new_length), offset);
    let right = logical_counts(physical, offset) + zeros((new_length - n) as nat);
    assert forall|i: int| 0 <= i < new_length implies left[i] == right[i] by {
        lemma_normalize_index(i, offset, new_length);
        if i < n {
            lemma_normalize_index(i, offset, n);
        }
    }
    assert(left =~= right);
}

/// A counts array and the rotation by which it is read.
pub struct CountsArray {
    counts: Vec<u64>,
    normalizing_index_offset: u32,
}

impl View for CountsArray {
    type V = Seq<u64>;

    /// The counts in the order of their slots.
    closed spec fn view(&self) -> Seq<u64> {
        logical_counts(self.counts@, self.normalizing_index_offset as int)
    }
}

impl CountsArray {
    /// Whether the rotation lies within the array, whose length fits in 32
    /// bits.
    pub closed spec fn wf(&self) -> bool {
        &&& 0 < self.counts@.len() <= u32::MAX
        &&& self.normalizing_index_offset < self.counts@.len()
    }

    /// The rotation by which the array is read.
    pub closed spec fn spec_offset(&self) -> int {
        self.normalizing_index_offset as int
    }

    /// The counts as they lie in memory.
    pub closed spec fn physical(&self) -> Seq<u64> {
        self.counts@
    }

    /// The counts in the order of their slots are the counts in memory, read
    /// rotated.
    pub proof fn lemma_view(&self)
        ensures
            self@ == logical_counts(self.physical(), self.spec_offset()),
            self@.len() == self.physical().len(),
            self.wf() ==> 0 <= self.spec_offset() < self@.len() && self@.len() <= u32::MAX,
    {
    }

    /// An array of `length` counts, all zero, read unrotated.
    pub fn new(length: u32) -> (r: CountsArray)
        requires
            length > 0,
        ensures
            r.wf(),
            r@ == zeros(length as nat),
            r.spec_offset() == 0,
    {
        let mut counts: Vec<u64> = Vec::new();
        let mut i: u32 = 0;
        while i < length
            invariant
                i <= length,
                counts@ == zeros(i as nat),
            decreases length - i,
        {
            counts.push(0);
            i = i + 1;
            assert(counts@ =~= zeros(i as nat));
        }
        let r = CountsArray { counts, normalizing_index_offset: 0 };
        proof {
            assert forall|j: int| 0 <= j < length implies r@[j] == 0 by {
                lemma_normalize_index(j, 0, length as int);
            }
            assert(r@ =~= zeros(length as nat));
        }
        r
    }

    /// The array that holds `counts`, read unrotated.
    pub fn from_counts(counts: Vec<u64>) -> (r: CountsArray)
        requires
            0 < counts@.len() <= u32::MAX,
        ensures
            r.wf(),
            r@ == counts@,
            r.spec_offset() == 0,
    {
        let ghost logical = counts@;
        let r = CountsArray { counts, normalizing_index_offset: 0 };
        proof {
            assert forall|j: int| 0 <= j < logical.len() implies r@[j] == logical[j] by {
                lemma_normalize_index(j, 0, logical.len() as int);
            }
            assert(r@ =~= logical);
        }
        r
    }

    /// The number of slots.
    pub fn length(&self) -> (r: u32)
        requires
            self.wf(),
        ensures
            r == self@.len(),
    {
        self.counts.len() as u32
    }

    /// The slot of the array in which the count for `index` is kept.
    fn normalized(&self, index: u32) -> (r: usize)
        requires
            self.wf(),
            index < self@.len(),
        ensures
            r == normalize_index(
                index as int,
                self.normalizing_index_offset as int,
                self.counts@.len() as int,
            ),
            r < self.counts@.len(),
    {
        proof {
            lemma_normalize_index(
                index as int,
                self.normalizing_index_offset as int,
                self.counts@.len() as int,
            );
        }
        if index >= self.normalizing_index_offset {
            (index - self.normalizing_index_offset) as usize
        } else {
            index as usize + (self.counts.len() - self.normalizing_index_offset as usize)
        }
    }

    /// The count of slot `index`.
    pub fn get(&self, index: u32) -> (r: u64)
        requires
            self.wf(),
            index < self@.len(),
        ensures
            r == self@[index as int],
    {
        let slot = self.normalized(index);
        self.counts[slot]
    }

    /// Writes `count` to slot `index`.
    pub fn set(&mut self, index: u32, count: u64)
        requires
            old(self).wf(),
            index < old(self)@.len(),
        ensures
            final(self).wf(),
            final(self)@ == old(self)@.update(index as int, count),
            final(self).spec_offset() == old(self).spec_offset(),
    {
        let slot = self.normalized(index);
        let ghost before = self.counts@;
        let ghost offset = self.normalizing_index_offset as int;
        self.counts.set(slot, count);
        proof {
            let n = before.len() as int;
            assert forall|j: int| 0 <= j < n implies self@[j] == logical_counts(
                before,
                offset,
            ).update(index as int, count)[j] by {
                lemma_normalize_index(j, offset, n);
                lemma_normalize_index(index as int, offset, n);
            }
            assert(self@ =~= logical_counts(before, offset).update(index as int, count));
        }
    }

    /// The array laid out for `new_length` slots: the slots in memory from
    /// the one of slot 0 on move up to make room, so that the array is read
    /// with the same rotation as before, every slot keeps its count, and the
    /// new slots hold nothing.
    pub fn grown_to(&self, new_length: u32) -> (r: CountsArray)
        requires
            self.wf(),
            self@.len() <= new_length,
        ensures
            r.wf(),
            r.spec_offset() == self.spec_offset(),
            r.physical() == grown(self.physical(), self.spec_offset(), new_length as int),
            r@ == self@ + zeros((new_length - self@.len()) as nat),
    {
        let old_length = self.counts.len();
        let delta: usize = new_length as usize - old_length;
        let zero: usize = if self.normalizing_index_offset == 0 {
            old_length
        } else {
            old_length - self.normalizing_index_offset as usize
        };
        let ghost target = grown(self.counts@, self.normalizing_index_offset as int, new_length as int);
        let mut counts: Vec<u64> = Vec::new();
        let mut j: usize = 0;
        while j < new_length as usize
            invariant
                j <= new_length,
                old_length == self.counts@.len(),
                delta == new_length - old_length,
                zero == zero_index(self.normalizing_index_offset as int, old_length as int),
                0 <= zero <= old_length,
                target == grown(
                    self.counts@,
                    self.normalizing_index_offset as int,
                    new_length as int,
                ),
                counts@ == target.subrange(0, j as int),
            decreases new_length - j,
        {
            let count = if j < zero {
                self.counts[j]
            } else if j < zero + delta {
                0
            } else {
                self.counts[j - delta]
            };
            counts.push(count);
            j = j + 1;
            assert(counts@ =~= target.subrange(0, j as int));
        }
        assert(counts@ =~= target);
        proof {
            lemma_grown_logical(
                self.counts@,
                self.normalizing_index_offset as int,
                new_length as int,
            );
        }
        CountsArray { counts, normalizing_index_offset: self.normalizing_index_offset }
    }

    /// Sets every count to zero and reads the array unrotated.
    pub fn clear(&mut self)
        requires
            old(self).wf(),
        ensures
            final(self).wf(),
            final(self)@ == zeros(old(self)@.len()),
            final(self).spec_offset() == 0,
    {
        let length = self.length();
        *self = CountsArray::new(length);
    }
}

} // verus!
