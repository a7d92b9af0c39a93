//! Numbers as bytes, highest byte first.

use vstd::prelude::*;

verus! {

/// The four bytes of `value`, highest first.
pub open spec fn be_u32(value: u32) -> Seq<u8> {
    seq![
        (value / 0x100_0000) as u8,
        (value / 0x1_0000 % 0x100) as u8,
        (value / 0x100 % 0x100) as u8,
        (value % 0x100) as u8,
    ]
}

/// The number that four bytes of `bytes` from `position` on spell, highest
/// byte first.
pub open spec fn read_be_u32(bytes: Seq<u8>, position: int) -> u32 {
    (bytes[position] * 0x100_0000 + bytes[position + 1] * 0x1_0000 + bytes[position + 2] * 0x100
        + bytes[position + 3]) as u32
}

/// The eight bytes of `value`, highest first.
pub open spec fn be_u64(value: u64) -> Seq<u8> {
    be_u32((value / 0x1_0000_0000) as u32) + be_u32((value % 0x1_0000_0000) as u32)
}

/// The number that eight bytes of `bytes` from `position` on spell, highest
/// byte first.
pub open spec fn read_be_u64(bytes: Seq<u8>, position: int) -> u64 {
    (read_be_u32(bytes, position) * 0x1_0000_0000 + read_be_u32(bytes, position + 4)) as u64
}

/// Writes the four bytes of `value` behind those of `buffer`.
pub fn put_be_u32(buffer: &mut Vec<u8>, value: u32)
    ensures
        final(buffer)@ == old(buffer)@ + be_u32(value),
{
    buffer.push((value / 0x100_0000) as u8);
    buffer.push((value / 0x1_0000 % 0x100) as u8);
    buffer.push((value / 0x100 % 0x100) as u8);
    buffer.push((value % 0x100) as u8);
    assert(buffer@ =~= old(buffer)@ + be_u32(value));
}

/// Writes the eight bytes of `value` behind those of `buffer`.
pub fn put_be_u64(buffer: &mut Vec<u8>, value: u64)
    ensures
        final(buffer)@ == old(buffer)@ + be_u64(value),
{
    put_be_u32(buffer, (value / 0x1_0000_0000) as u32);
    put_be_u32(buffer, (value % 0x1_0000_0000) as u32);
    assert(buffer@ =~= old(buffer)@ + be_u64(value));
}

/// Reads the number that four bytes of `bytes` from `position` on spell.
pub fn get_be_u32(bytes: &[u8], position: usize) -> (r: u32)
    requires
        position + 4 <= bytes@.len(),
    ensures
        r == read_be_u32(bytes@, position as int),
{
    (bytes[position] as u32) * 0x100_0000 + (bytes[position + 1] as u32) * 0x1_0000 + (
    bytes[position + 2] as u32) * 0x100 + (bytes[position + 3] as u32)
}

/// Reads the number that eight bytes of `bytes` from `position` on spell.
pub fn get_be_u64(bytes: &[u8], position: usize) -> (r: u64)
    requires
        position + 8 <= bytes@.len(),
    ensures
        r == read_be_u64(bytes@, position as int),
{
    let length: usize = bytes.len();
    assert(position + 8 <= length);
    let high: u32 = get_be_u32(bytes, position);
    let low: u32 = get_be_u32(bytes, position + 4);
    (high as u64) * 0x1_0000_0000 + (low as u64)
}

/// The bytes of a number spell that number, wherever they stand.
pub proof fn lemma_be_u32_round_trip(before: Seq<u8>, value: u32, after: Seq<u8>)
    ensures
        read_be_u32(before + be_u32(value) + after, before.len() as int) == value,
        be_u32(value).len() == 4,
{
    let all = before + be_u32(value) + after;
    let p = before.len() as int;
    assert(all[p] == be_u32(value)[0]);
    assert(all[p + 1] == be_u32(value)[1]);
    assert(all[p + 2] == be_u32(value)[2]);
    assert(all[p + 3] == be_u32(value)[3]);
}

/// The bytes of a number of 64 bits spell that number, wherever they stand.
pub proof fn lemma_be_u64_round_trip(before: Seq<u8>, value: u64, after: Seq<u8>)
    ensures
        read_be_u64(before + be_u64(value) + after, before.len() as int) == value,
        be_u64(value).len() == 8,
{
    let high = (value / 0x1_0000_0000) as u32;
    let low = (value % 0x1_0000_0000) as u32;
    let all = before + be_u64(value) + after;
    lemma_be_u32_round_trip(before, high, be_u32(low) + after);
    lemma_be_u32_round_trip(before + be_u32(high), low, after);
    assert(before + be_u32(high) + (be_u32(low) + after) =~= all);
    assert((before + be_u32(high)) + be_u32(low) + after =~= all);
}

} // verus!
