//! The array of counts behind a histogram for one thread.

use vstd::prelude::*;

verus! {

/// An array of counts whose length fits in 32 bits.
pub struct BackingArray {
    counts: Vec<u64>,
    length: u32,
}

impl View for BackingArray {
    type V = Seq<u64>;

    closed spec fn view(&self) -> Seq<u64> {
        self.counts@
    }
}

impl BackingArray {
    #[verifier::type_invariant]
    spec fn length_is_kept(&self) -> bool {
        self.length as nat == self.counts@.len()
    }

    /// An array of `length` counts, all zero.
    pub fn new(length: u32) -> (r: BackingArray)
        ensures
            r@ == Seq::new(length as nat, |i: int| 0u64),
    {
        let mut counts: Vec<u64> = Vec::new();
        let mut i: u32 = 0;
        while i < length
            invariant
                i <= length,
                counts@ == Seq::new(i as nat, |j: int| 0u64),
            decreases length - i,
        {
            counts.push(0);
            i = i + 1;
            assert(counts@ =~= Seq::new(i as nat, |j: int| 0u64));
        }
        BackingArray { counts, length }
    }

    /// The array that holds `counts`.
    pub fn from_counts(counts: Vec<u64>) -> (r: BackingArray)
        requires
            counts@.len() <= u32::MAX,
        ensures
            r@ == counts@,
    {
        let length = counts.len() as u32;
        BackingArray { counts, length }
    }

    /// An array without counts.
    pub fn empty() -> (r: BackingArray)
        ensures
            r@.len() == 0,
    {
        BackingArray { counts: Vec::new(), length: 0 }
    }

    /// Lengthens the array to `new_length` counts; the new ones are zero.
    pub fn grow(&mut self, new_length: u32)
        requires
            old(self)@.len() <= new_length,
        ensures
            final(self)@ == old(self)@ + Seq::new(
                (new_length - old(self)@.len()) as nat,
                |i: int| 0u64,
            ),
    {
        proof {
            use_type_invariant(&*self);
        }
        let mut counts: Vec<u64> = Vec::new();
        let mut i: u32 = 0;
        let old_length = self.length;
        while i < old_length
            invariant
                i <= old_length,
                old_length as nat == self.counts@.len(),
                counts@ == self.counts@.subrange(0, i as int),
            decreases old_length - i,
        {
            counts.push(self.counts[i as usize]);
            i = i + 1;
            assert(counts@ =~= self.counts@.subrange(0, i as int));
        }
        assert(counts@ =~= self.counts@);
        while i < new_length
            invariant
                old_length <= i <= new_length,
                old_length as nat == self.counts@.len(),
                counts@ == self.counts@ + Seq::new((i - old_length) as nat, |j: int| 0u64),
            decreases new_length - i,
        {
            counts.push(0);
            i = i + 1;
            assert(counts@ =~= self.counts@ + Seq::new((i - old_length) as nat, |j: int| 0u64));
        }
        *self = BackingArray { counts, length: new_length };
    }

    /// The count at `index`, where the array reaches that far.
    pub fn get(&self, index: u32) -> (r: Option<&u64>)
        ensures
            match r {
                Some(count) => index < self@.len() && *count == self@[index as int],
                None => index >= self@.len(),
            },
    {
        proof {
            use_type_invariant(self);
        }
        if index < self.length {
            return Some(self.get_unchecked(index));
        }
        None
    }

    /// The count at `index`, which lies within the array.
    pub fn get_unchecked(&self, index: u32) -> (r: &u64)
        requires
            index < self@.len(),
        ensures
            *r == self@[index as int],
    {
        &self.counts[index as usize]
    }

    /// The count at `index`, for writing, where the array reaches that far.
    pub fn get_mut(&mut self, index: u32) -> (r: Option<&mut u64>)
        ensures
            match r {
                Some(count) => {
                    &&& index < old(self)@.len()
                    &&& *count == old(self)@[index as int]
                    &&& final(self)@ == old(self)@.update(index as int, *final(count))
                },
                None => index >= old(self)@.len() && final(self)@ == old(self)@,
            },
    {
        proof {
            use_type_invariant(&*self);
        }
        if index < self.length {
            return Some(&mut self.counts[index as usize]);
        }
        None
    }

    /// Writes `count` at `index`, which lies within the array.
    pub fn set(&mut self, index: u32, count: u64)
        requires
            index < old(self)@.len(),
        ensures
            final(self)@ == old(self)@.update(index as int, count),
    {
        proof {
            use_type_invariant(&*self);
        }
        self.counts[index as usize] = count;
    }

    /// The number of counts.
    pub fn length(&self) -> (r: u32)
        ensures
            r == self@.len(),
    {
        proof {
            use_type_invariant(self);
        }
        self.length
    }

    /// Sets every count to zero.
    pub fn clear(&mut self)
        ensures
            final(self)@ == Seq::new(old(self)@.len(), |i: int| 0u64),
    {
        proof {
            use_type_invariant(&*self);
        }
        let length = self.length;
        *self = BackingArray::new(length);
    }

    /// The first `length` counts, where the array holds that many.
    pub fn get_slice(&self, length: u32) -> (r: Option<&[u64]>)
        ensures
            match r {
                Some(counts) => length <= self@.len() && counts@ == self@.subrange(
                    0,
                    length as int,
                ),
                None => length > self@.len(),
            },
    {
        proof {
            use_type_invariant(self);
        }
        if length <= self.length {
            let all: &[u64] = self.counts.as_slice();
            return Some(vstd::slice::slice_subrange(all, 0, length as usize));
        }
        None
    }
}

} // verus!
