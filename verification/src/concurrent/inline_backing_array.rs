//! The array of counts behind a histogram that many threads record into: its
//! length, and one atomic count for each slot.

use vstd::prelude::*;
use std::sync::atomic::AtomicU64;
use crate::util::slot_position;

verus! {

/// An array of atomic counts that carries its own length. What the counts
/// hold is known to the threads alone.
pub struct InlineBackingArray {
    length: u32,
    array: Vec<AtomicU64>,
}

impl InlineBackingArray {
    #[verifier::type_invariant]
    spec fn length_is_kept(&self) -> bool {
        self.length == self.array@.len()
    }

    /// The number of counts.
    pub closed spec fn spec_length(&self) -> nat {
        self.length as nat
    }

    /// The counts, one atomic cell for each slot, in the order of the slots.
    pub closed spec fn cells(&self) -> Seq<AtomicU64> {
        self.array@
    }

    /// An array of `length` counts, all zero.
    pub fn new_in(length: u32) -> (r: InlineBackingArray)
        ensures
            r.spec_length() == length,
            r.cells().len() == length,
    {
        let mut array: Vec<AtomicU64> = Vec::new();
        let mut i: u32 = 0;
        while i < length
            invariant
                i <= length,
                array@.len() == i,
            decreases length - i,
        {
            array.push(AtomicU64::new(0));
            i = i + 1;
        }
        InlineBackingArray { length, array }
    }

    /// The number of counts.
    pub fn length(&self) -> (r: u32)
        ensures
            r == self.spec_length(),
    {
        self.length
    }

    /// The count at `index`, where the array reaches that far.
    pub fn get(&self, index: u32) -> (r: Option<&AtomicU64>)
        ensures
            r is Some <==> index < self.spec_length(),
            r matches Some(cell) ==> *cell == self.cells()[index as int],
    {
        if index < self.length {
            return Some(self.get_unchecked(index));
        }
        None
    }

    /// The count at `index`, which lies within the array: the atomic cell of
    /// that slot.
    pub fn get_unchecked(&self, index: u32) -> (r: &AtomicU64)
        requires
            index < self.spec_length(),
        ensures
            *r == self.cells()[index as int],
    {
        proof {
            use_type_invariant(self);
        }
        &self.array[slot_position(index)]
    }
}

} // verus!
