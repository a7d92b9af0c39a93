//! What is written can be read back: the encoding of a histogram holds its
//! geometry and every one of its counts.

use vstd::prelude::*;
use crate::bits::floor_log2;
use crate::counts::zeros;
use crate::errors::DeserializationError;
use crate::histogram_settings::{array_length_for, creation_error, sub_bucket_count_magnitude_for};
use crate::serialization::big_endian::{
    be_u32, be_u64, lemma_be_u32_round_trip, lemma_be_u64_round_trip,
};
use crate::serialization::constants::CONVERSION_RATIO_ONE;
use crate::serialization::deserializable_histogram::{
    as_count, decoded_counts, filled, header_digits, header_highest, header_lowest, number_read,
    position_behind,
};
use crate::serialization::serializable_histogram::{
    emitted, encodable, encoding_of, header_of, payload_of, pending_zeros, relevant_counts_of,
    relevant_length,
};
use crate::serialization::zigzag::{
    lemma_varint_limits, lemma_varint_round_trip, lemma_zigzag_round_trip, read_varint, varint,
    zigzag,
};
use crate::st::histogram_view::HistogramView;

verus! {

/// The bytes that slot `slot` adds to the bytes of the slots before it.
pub open spec fn emitted_for(counts: Seq<u64>, slot: int) -> Seq<u8> {
    emitted(counts, slot + 1).subrange(
        emitted(counts, slot).len() as int,
        emitted(counts, slot + 1).len() as int,
    )
}

/// The bytes of the first slots open the bytes of more slots.
pub proof fn lemma_emitted_opens(counts: Seq<u64>, fewer: int, more: int)
    requires
        0 <= fewer <= more,
    ensures
        emitted(counts, fewer).len() <= emitted(counts, more).len(),
        emitted(counts, more).subrange(0, emitted(counts, fewer).len() as int) == emitted(
            counts,
            fewer,
        ),
    decreases more - fewer,
{
    if fewer < more {
        lemma_emitted_opens(counts, fewer, more - 1);
        let shorter = emitted(counts, more - 1);
        let longer = emitted(counts, more);
        assert(longer.subrange(0, shorter.len() as int) =~= shorter);
        assert(longer.subrange(0, emitted(counts, fewer).len() as int) =~= shorter.subrange(
            0,
            emitted(counts, fewer).len() as int,
        ));
    } else {
        assert(emitted(counts, more).subrange(0, emitted(counts, fewer).len() as int)
            =~= emitted(counts, fewer));
    }
}

/// Empty slots add no bytes, and count as pending.
pub proof fn lemma_empty_slots_emit_nothing(counts: Seq<u64>, from: int, upto: int)
    requires
        0 <= from <= upto,
        forall|i: int| from <= i < upto ==> counts[i] == 0,
    ensures
        emitted(counts, upto) == emitted(counts, from),
        pending_zeros(counts, upto) == pending_zeros(counts, from) + (upto - from),
    decreases upto - from,
{
    if from < upto {
        lemma_empty_slots_emit_nothing(counts, from, upto - 1);
    }
}

/// The counts that are in place once the bytes of the first `upto` slots are
/// read: those of the first `upto` slots, and nothing behind them.
pub open spec fn read_so_far(counts: Seq<u64>, upto: int, length: nat) -> Seq<u64> {
    Seq::new(
        length,
        |i: int|
            if i < upto {
                counts[i]
            } else {
                0u64
            },
    )
}

/// The first slot from `from` on and below `upto` that holds a count; `upto`
/// where there is none.
pub open spec fn next_recorded(counts: Seq<u64>, from: int, upto: int) -> int
    decreases upto - from,
{
    if from >= upto || counts[from] != 0 {
        from
    } else {
        next_recorded(counts, from + 1, upto)
    }
}

/// What the first slot with a count is.
pub proof fn lemma_next_recorded(counts: Seq<u64>, from: int, upto: int)
    requires
        from <= upto,
    ensures
        from <= next_recorded(counts, from, upto) <= upto,
        forall|i: int| from <= i < next_recorded(counts, from, upto) ==> counts[i] == 0,
        next_recorded(counts, from, upto) < upto ==> counts[next_recorded(counts, from, upto)]
            != 0,
    decreases upto - from,
{
    if from < upto && counts[from] == 0 {
        lemma_next_recorded(counts, from + 1, upto);
    }
}

/// The bytes of a number of empty slots that are passed over; none for no
/// slot.
pub open spec fn skip_bytes(skipped: nat) -> Seq<u8> {
    if skipped > 0 {
        varint(zigzag(-(skipped as int)) as nat, 8)
    } else {
        Seq::empty()
    }
}

/// The bytes of a count.
pub open spec fn count_bytes(count: u64) -> Seq<u8> {
    varint(zigzag(count as int) as nat, 8)
}

/// A slot with a count adds the bytes of the empty slots before it and those
/// of its count.
pub proof fn lemma_emitted_at_count(counts: Seq<u64>, from: int, slot: int)
    requires
        0 <= from <= slot < counts.len(),
        from == 0 || counts[from - 1] != 0,
        forall|i: int| from <= i < slot ==> counts[i] == 0,
        counts[slot] != 0,
    ensures
        emitted(counts, slot + 1) == emitted(counts, from) + skip_bytes((slot - from) as nat)
            + count_bytes(counts[slot]),
{
    lemma_empty_slots_emit_nothing(counts, from, slot);
    assert(pending_zeros(counts, from) == 0);
    assert(emitted(counts, slot + 1) =~= emitted(counts, from) + skip_bytes(
        (slot - from) as nat,
    ) + count_bytes(counts[slot]));
}

/// Reading the bytes of a number of empty slots, if there are any, and of a
/// count puts the count in its slot.
pub proof fn lemma_filled_step(
    before: Seq<u8>,
    rest: Seq<u8>,
    so_far: Seq<u64>,
    from: nat,
    skipped: nat,
    count: u64,
)
    requires
        from + skipped < so_far.len(),
        1 <= count < 0x8000_0000_0000_0000,
        skipped < 0x8000_0000,
    ensures
        filled(
            before + skip_bytes(skipped) + count_bytes(count) + rest,
            before.len() as int,
            so_far,
            from,
        ) == filled(
            before + skip_bytes(skipped) + count_bytes(count) + rest,
            (before.len() + skip_bytes(skipped).len() + count_bytes(count).len()) as int,
            so_far.update((from + skipped) as int, count),
            from + skipped + 1,
        ),
{
    let bytes = before + skip_bytes(skipped) + count_bytes(count) + rest;
    let position = before.len() as int;
    let behind_skip = (position + skip_bytes(skipped).len()) as int;
    let behind_count = (behind_skip + count_bytes(count).len()) as int;
    lemma_varint_limits();
    lemma_zigzag_round_trip(count as int);
    lemma_zigzag_round_trip(-(skipped as int));
    if skipped > 0 {
        lemma_varint_round_trip(
            before,
            zigzag(-(skipped as int)) as nat,
            8,
            count_bytes(count) + rest,
        );
        assert(before + skip_bytes(skipped) + (count_bytes(count) + rest) =~= bytes);
        let number = read_varint(bytes, position, 8);
        assert(number == Some((zigzag(-(skipped as int)) as nat, behind_skip)));
        assert(number_read(number) == -(skipped as int));
        assert(position_behind(number) == behind_skip);
        assert(filled(bytes, position, so_far, from) == filled(
            bytes,
            behind_skip,
            so_far,
            from + skipped,
        ));
    }
    lemma_varint_round_trip(
        before + skip_bytes(skipped),
        zigzag(count as int) as nat,
        8,
        rest,
    );
    let number = read_varint(bytes, behind_skip, 8);
    assert(number == Some((zigzag(count as int) as nat, behind_count)));
    assert(number_read(number) == count as int);
    assert(position_behind(number) == behind_count);
    assert(as_count(count as int) == count);
    assert(behind_count <= bytes.len());
}

/// Reading goes on from a slot behind which no empty slot is pending, and
/// ends with every count in place.
pub proof fn lemma_filled_from(
    prefix: Seq<u8>,
    counts: Seq<u64>,
    written: int,
    length: nat,
    from: int,
)
    requires
        0 <= from <= written <= counts.len(),
        written <= length < 0x8000_0000,
        encodable(counts, written),
        from == 0 || counts[from - 1] != 0,
    ensures
        filled(
            prefix + emitted(counts, written),
            (prefix.len() + emitted(counts, from).len()) as int,
            read_so_far(counts, from, length),
            from as nat,
        ) == Ok::<Seq<u64>, DeserializationError>(read_so_far(counts, written, length)),
    decreases written - from,
{
    let bytes = prefix + emitted(counts, written);
    let position = (prefix.len() + emitted(counts, from).len()) as int;
    let so_far = read_so_far(counts, from, length);
    let next = next_recorded(counts, from, written);
    lemma_next_recorded(counts, from, written);
    lemma_emitted_opens(counts, from, written);
    if next == written {
        lemma_empty_slots_emit_nothing(counts, from, written);
        assert(so_far =~= read_so_far(counts, written, length));
    } else {
        let count = counts[next];
        let skipped = (next - from) as nat;
        lemma_emitted_at_count(counts, from, next);
        lemma_emitted_opens(counts, next + 1, written);
        let before = prefix + emitted(counts, from);
        let rest = emitted(counts, written).subrange(
            emitted(counts, next + 1).len() as int,
            emitted(counts, written).len() as int,
        );
        assert(emitted(counts, written) =~= emitted(counts, next + 1) + rest);
        assert(bytes =~= before + skip_bytes(skipped) + count_bytes(count) + rest);
        lemma_filled_step(before, rest, so_far, from as nat, skipped, count);
        assert(so_far.update(next, count) =~= read_so_far(counts, next + 1, length));
        lemma_filled_from(prefix, counts, written, length, next + 1);
    }
}

/// The header can be read back.
pub proof fn lemma_header_round_trip(view: HistogramView, payload_length: u32, payload: Seq<u8>)
    requires
        view.settings.number_of_significant_value_digits <= 255,
    ensures
        header_of(view, payload_length).len() == 40,
        header_lowest(header_of(view, payload_length) + payload)
            == view.settings.lowest_discernible_value,
        header_highest(header_of(view, payload_length) + payload, 0)
            == view.settings.highest_trackable_value,
        header_digits(header_of(view, payload_length) + payload)
            == view.settings.number_of_significant_value_digits,
{
    let digits = view.settings.number_of_significant_value_digits;
    let lowest = view.settings.lowest_discernible_value;
    let highest = view.settings.highest_trackable_value;
    let bytes = header_of(view, payload_length) + payload;
    let opening = be_u32(0x1c84_9313) + be_u32(payload_length) + be_u32(0);
    assert(opening.len() == 12);
    lemma_be_u32_round_trip(
        opening,
        digits,
        be_u64(lowest) + be_u64(highest) + be_u64(CONVERSION_RATIO_ONE) + payload,
    );
    assert(opening + be_u32(digits) + (be_u64(lowest) + be_u64(highest) + be_u64(
        CONVERSION_RATIO_ONE,
    ) + payload) =~= bytes);
    lemma_be_u64_round_trip(
        opening + be_u32(digits),
        lowest,
        be_u64(highest) + be_u64(CONVERSION_RATIO_ONE) + payload,
    );
    assert(opening + be_u32(digits) + be_u64(lowest) + (be_u64(highest) + be_u64(
        CONVERSION_RATIO_ONE,
    ) + payload) =~= bytes);
    lemma_be_u64_round_trip(
        opening + be_u32(digits) + be_u64(lowest),
        highest,
        be_u64(CONVERSION_RATIO_ONE) + payload,
    );
    assert(opening + be_u32(digits) + be_u64(lowest) + be_u64(highest) + (be_u64(
        CONVERSION_RATIO_ONE,
    ) + payload) =~= bytes);
    lemma_be_u64_round_trip(
        opening + be_u32(digits) + be_u64(lowest) + be_u64(highest),
        CONVERSION_RATIO_ONE,
        payload,
    );
}

/// What is written can be read back: the encoding of a histogram holds its
/// counts, slot by slot. This holds of a histogram with a geometry that can
/// be built from its three parameters, which a histogram that has grown need
/// not have.
pub proof fn lemma_encoding_round_trip(view: HistogramView)
    requires
        view.wf(),
        encoding_of(view) is Some,
        creation_error(
            view.settings.lowest_discernible_value,
            view.settings.highest_trackable_value,
            view.settings.number_of_significant_value_digits as u8,
        ) is None,
    ensures
        decoded_counts(encoding_of(view)->0, 0) == Ok::<Seq<u64>, DeserializationError>(
            view.counts,
        ),
{
    let settings = view.settings;
    let written = relevant_length(view) as int;
    let length = view.counts.len();
    let counts = relevant_counts_of(view);
    let payload = payload_of(view);
    let header = header_of(view, payload.len() as u32);
    let bytes = encoding_of(view)->0;
    settings.lemma_layout();
    lemma_header_round_trip(view, payload.len() as u32, payload);
    // no count stands behind the slots that are written
    lemma_counts_behind_the_maximum(view);
    lemma_filled_from(header, counts, written, length, 0);
    assert(read_so_far(counts, 0, length) =~= zeros(length));
    assert(read_so_far(counts, written, length) =~= view.counts);
    assert(emitted(counts, 0).len() == 0);
    assert(array_length_for(
        floor_log2(settings.lowest_discernible_value as nat),
        (sub_bucket_count_magnitude_for(settings.number_of_significant_value_digits as nat) - 1) as nat,
        settings.highest_trackable_value,
    ) == length);
}

/// No count stands behind the slot of the maximum.
pub proof fn lemma_counts_behind_the_maximum(view: HistogramView)
    requires
        view.wf(),
    ensures
        forall|i: int| relevant_length(view) <= i < view.counts.len() ==> view.counts[i] == 0,
{
    let settings = view.settings;
    settings.lemma_layout();
    if view.raw_max_value != 0 {
        settings.lemma_value_within_equivalent_range(view.raw_max_value);
        settings.lemma_same_slot(
            view.raw_max_value,
            settings.spec_highest_equivalent_value(view.raw_max_value) as u64,
        );
    }
}

} // verus!
