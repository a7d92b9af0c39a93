//! Signed numbers as bytes: the sign is folded into the lowest bit, and the
//! folded number is written seven bits to the byte, lowest bits first, each
//! byte but the last marked with its highest bit.
//!
//! A number of 64 bits takes nine bytes at most: after eight bytes of seven
//! bits the ninth holds the eight bits that are left. A number of 32 bits
//! takes five bytes at most.

use vstd::prelude::*;
use crate::errors::SerializationError;

verus! {

/// The number of bytes of seven bits that a number of 64 bits can take before
/// its last byte.
pub const GROUPS_OF_64_BITS: u32 = 8;

/// The number of bytes of seven bits that a number of 32 bits can take before
/// its last byte.
pub const GROUPS_OF_32_BITS: u32 = 4;

/// `value` with its sign folded into the lowest bit: 0, -1, 1, -2, 2 and so
/// on become 0, 1, 2, 3, 4.
pub open spec fn zigzag(value: int) -> int {
    if value >= 0 {
        2 * value
    } else {
        -2 * value - 1
    }
}

/// The number that folds to `folded`.
pub open spec fn unzigzag(folded: int) -> int {
    if folded % 2 == 0 {
        folded / 2
    } else {
        -(folded / 2) - 1
    }
}

/// Folding and unfolding give the number back.
pub proof fn lemma_zigzag_round_trip(value: int)
    ensures
        unzigzag(zigzag(value)) == value,
        zigzag(value) >= 0,
{
}

/// The bytes of `value`, seven bits to the byte, where `groups` bytes of
/// seven bits may still be written before the last byte.
pub open spec fn varint(value: nat, groups: nat) -> Seq<u8>
    decreases groups,
{
    if groups == 0 || value < 128 {
        seq![value as u8]
    } else {
        seq![(value % 128 + 128) as u8] + varint(value / 128, (groups - 1) as nat)
    }
}

/// The number that the bytes of `bytes` from `position` on spell, and the
/// position behind it; `None` where the bytes end before the number does.
pub open spec fn read_varint(bytes: Seq<u8>, position: int, groups: nat) -> Option<(nat, int)>
    decreases groups,
{
    if position < 0 || position >= bytes.len() {
        None
    } else if groups == 0 || bytes[position] < 128 {
        Some((bytes[position] as nat, position + 1))
    } else {
        match read_varint(bytes, position + 1, (groups - 1) as nat) {
            Some((rest, next)) => Some((((bytes[position] - 128) + 128 * rest) as nat, next)),
            None => None,
        }
    }
}

/// The highest number that fits in the bytes that `groups` leaves room for.
pub open spec fn varint_limit(groups: nat) -> nat
    decreases groups,
{
    if groups == 0 {
        256
    } else {
        128 * varint_limit((groups - 1) as nat)
    }
}

/// What is written can be read back: the bytes of a number, wherever they
/// stand among other bytes, spell that number.
pub proof fn lemma_varint_round_trip(
    before: Seq<u8>,
    value: nat,
    groups: nat,
    after: Seq<u8>,
)
    requires
        value < varint_limit(groups),
    ensures
        read_varint(before + varint(value, groups) + after, before.len() as int, groups) == Some(
            (value, (before.len() + varint(value, groups).len()) as int),
        ),
        1 <= varint(value, groups).len() <= groups + 1,
    decreases groups,
{
    let written = varint(value, groups);
    let all = before + written + after;
    assert(all[before.len() as int] == written[0]);
    if groups == 0 || value < 128 {
    } else {
        let first = seq![(value % 128 + 128) as u8];
        let rest = varint(value / 128, (groups - 1) as nat);
        lemma_varint_round_trip(before + first, value / 128, (groups - 1) as nat, after);
        assert(before + first + rest + after =~= all);
    }
}

/// A number that is read fits in the bytes that it was read from.
pub proof fn lemma_read_varint_bound(bytes: Seq<u8>, position: int, groups: nat)
    ensures
        match read_varint(bytes, position, groups) {
            Some((value, next)) => value < varint_limit(groups) && position < next
                <= bytes.len() && next <= position + groups + 1,
            None => true,
        },
    decreases groups,
{
    lemma_varint_limit_is_wide(groups);
    if 0 <= position < bytes.len() && groups != 0 && bytes[position] >= 128 {
        lemma_read_varint_bound(bytes, position + 1, (groups - 1) as nat);
        lemma_varint_limit_is_wide((groups - 1) as nat);
    }
}

/// A last byte fits whatever room is left.
pub proof fn lemma_varint_limit_is_wide(groups: nat)
    ensures
        varint_limit(groups) >= 256,
    decreases groups,
{
    if groups > 0 {
        lemma_varint_limit_is_wide((groups - 1) as nat);
    }
}

/// A number takes at least one byte and at most one more than `groups`.
pub proof fn lemma_varint_length(value: nat, groups: nat)
    ensures
        1 <= varint(value, groups).len() <= groups + 1,
    decreases groups,
{
    if !(groups == 0 || value < 128) {
        lemma_varint_length(value / 128, (groups - 1) as nat);
    }
}

/// Writes the bytes of `value` behind those of `buffer`.
pub fn put_varint(buffer: &mut Vec<u8>, value: u64, groups: u32)
    requires
        value < varint_limit(groups as nat),
    ensures
        final(buffer)@ == old(buffer)@ + varint(value as nat, groups as nat),
    decreases groups,
{
    if groups == 0 || value < 128 {
        proof {
            if groups == 0 {
                assert(value < 256);
            }
        }
        buffer.push(value as u8);
        assert(buffer@ =~= old(buffer)@ + varint(value as nat, groups as nat));
    } else {
        buffer.push((value % 128 + 128) as u8);
        let ghost pushed = buffer@;
        put_varint(buffer, value / 128, groups - 1);
        assert(buffer@ =~= old(buffer)@ + varint(value as nat, groups as nat));
    }
}

/// Reads the number that the bytes of `bytes` from `position` on spell.
pub fn get_varint(bytes: &[u8], position: usize, groups: u32) -> (r: Option<(u64, usize)>)
    requires
        groups <= 8,
    ensures
        match r {
            Some((value, next)) => read_varint(bytes@, position as int, groups as nat) == Some(
                (value as nat, next as int),
            ),
            None => read_varint(bytes@, position as int, groups as nat) is None,
        },
    decreases groups,
{
    if position >= bytes.len() {
        return None;
    }
    let byte = bytes[position];
    if groups == 0 || byte < 128 {
        return Some((byte as u64, position + 1));
    }
    proof {
        lemma_read_varint_bound(bytes@, position + 1, (groups - 1) as nat);
        lemma_varint_limits();
    }
    match get_varint(bytes, position + 1, groups - 1) {
        Some((rest, next)) => {
            proof {
                reveal_with_fuel(varint_limit, 9);
            }
            Some(((byte - 128) as u64 + 128 * rest, next))
        },
        None => None,
    }
}

/// What fits in the bytes of a number of 64 and of 32 bits.
pub proof fn lemma_varint_limits()
    ensures
        varint_limit(8) == 0x1_0000_0000_0000_0000,
        varint_limit(4) == 0x10_0000_0000,
        forall|groups: nat| groups <= 7 ==> 128 * #[trigger] varint_limit(groups) <= varint_limit(8),
{
    reveal_with_fuel(varint_limit, 10);
    assert forall|groups: nat| groups <= 7 implies 128 * #[trigger] varint_limit(groups)
        <= varint_limit(8) by {
        if groups == 0 {
        } else if groups == 1 {
        } else if groups == 2 {
        } else if groups == 3 {
        } else if groups == 4 {
        } else if groups == 5 {
        } else if groups == 6 {
        } else {
        }
    }
}

/// `value` with its sign folded into the lowest bit.
pub fn fold_sign(value: i64) -> (r: u64)
    ensures
        r == zigzag(value as int),
{
    if value >= 0 {
        (value as u64) * 2
    } else {
        ((-(value + 1)) as u64) * 2 + 1
    }
}

/// The number that folds to `folded`.
pub fn unfold_sign(folded: u64) -> (r: i64)
    ensures
        r == unzigzag(folded as int),
{
    if folded % 2 == 0 {
        (folded / 2) as i64
    } else {
        -((folded / 2) as i64) - 1
    }
}

/// Writes the signed number `value` behind the bytes of `buffer`.
pub fn put_i64(buffer: &mut Vec<u8>, value: i64)
    ensures
        final(buffer)@ == old(buffer)@ + varint(zigzag(value as int) as nat, 8),
{
    proof {
        lemma_varint_limits();
    }
    put_varint(buffer, fold_sign(value), GROUPS_OF_64_BITS);
}

/// Writes `value` as a signed number behind the bytes of `buffer`, unless its
/// highest bit is set.
pub fn put_u64(buffer: &mut Vec<u8>, value: u64) -> (r: Result<(), SerializationError>)
    ensures
        match r {
            Ok(()) => value < 0x8000_0000_0000_0000 && final(buffer)@ == old(buffer)@ + varint(
                zigzag(value as int) as nat,
                8,
            ),
            Err(e) => e == SerializationError::ValueNotLEBEncodable && value
                >= 0x8000_0000_0000_0000 && final(buffer)@ == old(buffer)@,
        },
{
    if value >= 0x8000_0000_0000_0000 {
        Err(SerializationError::ValueNotLEBEncodable)
    } else {
        put_i64(buffer, value as i64);
        Ok(())
    }
}

/// Writes the signed number `value` of 32 bits behind the bytes of `buffer`.
pub fn put_i32(buffer: &mut Vec<u8>, value: i32)
    ensures
        final(buffer)@ == old(buffer)@ + varint(zigzag(value as int) as nat, 4),
{
    proof {
        lemma_varint_limits();
    }
    put_varint(buffer, fold_sign(value as i64), GROUPS_OF_32_BITS);
}

/// Writes `value` as a signed number of 32 bits behind the bytes of
/// `buffer`, unless its highest bit is set.
pub fn put_u32(buffer: &mut Vec<u8>, value: u32) -> (r: Result<(), SerializationError>)
    ensures
        match r {
            Ok(()) => value < 0x8000_0000 && final(buffer)@ == old(buffer)@ + varint(
                zigzag(value as int) as nat,
                4,
            ),
            Err(e) => e == SerializationError::ValueNotLEBEncodable && value >= 0x8000_0000
                && final(buffer)@ == old(buffer)@,
        },
{
    if value >= 0x8000_0000 {
        Err(SerializationError::ValueNotLEBEncodable)
    } else {
        put_i32(buffer, value as i32);
        Ok(())
    }
}

/// Reads the signed number that the bytes of `bytes` from `position` on
/// spell, and the position behind it; `None` where the bytes end before the
/// number does.
pub fn get_i64(bytes: &[u8], position: usize) -> (r: Option<(i64, usize)>)
    ensures
        match r {
            Some((value, next)) => {
                &&& read_varint(bytes@, position as int, 8) matches Some((folded, behind))
                &&& value == unzigzag(folded as int)
                &&& next == behind
                &&& position < next <= bytes@.len()
            },
            None => read_varint(bytes@, position as int, 8) is None,
        },
{
    proof {
        lemma_read_varint_bound(bytes@, position as int, 8);
    }
    match get_varint(bytes, position, GROUPS_OF_64_BITS) {
        Some((folded, next)) => Some((unfold_sign(folded), next)),
        None => None,
    }
}

/// Reads the signed number of 32 bits that the bytes of `bytes` from
/// `position` on spell; what does not fit in 32 bits is cut off.
pub fn get_i32(bytes: &[u8], position: usize) -> (r: Option<(i32, usize)>)
    ensures
        r is Some <==> read_varint(bytes@, position as int, 4) is Some,
        r matches Some((value, next)) ==> position < next <= bytes@.len(),
{
    proof {
        lemma_read_varint_bound(bytes@, position as int, 4);
    }
    match get_varint(bytes, position, GROUPS_OF_32_BITS) {
        Some((folded, next)) => {
            let value: i64 = unfold_sign(folded);
            Some((#[verifier::truncate] (value as i32), next))
        },
        None => None,
    }
}

/// A signed number that is written and read back is the same number.
pub proof fn lemma_i64_round_trip(before: Seq<u8>, value: i64, after: Seq<u8>)
    ensures
        ({
            let written = varint(zigzag(value as int) as nat, 8);
            &&& read_varint(before + written + after, before.len() as int, 8) matches Some(
                (folded, next),
            )
            &&& unzigzag(folded as int) == value
            &&& next == before.len() + written.len()
        }),
{
    lemma_varint_limits();
    lemma_varint_round_trip(before, zigzag(value as int) as nat, 8, after);
}

} // verus!
