//! Reading a histogram from its encoded form.

use vstd::prelude::*;
use crate::constructable_histogram::ConstructableHistogram;
use crate::counts::{
    lemma_prefix_sum_monotone, lemma_prefix_sum_step, prefix_sum, sum_counts, zeros,
};
use crate::bits::floor_log2;
use crate::errors::DeserializationError;
use crate::histogram_settings::{array_length_for, creation_error, sub_bucket_count_magnitude_for};
use crate::sliceable_histogram::MutSliceableHistogram;
use crate::serialization::big_endian::{get_be_u32, get_be_u64, read_be_u32, read_be_u64};
use crate::serialization::compression::{check_cookie, zlib_decompress, zlib_decompressed};
use crate::serialization::constants::ENCODING_HEADER_SIZE;
use crate::serialization::cookie::{
    spec_cookie_base, V2_COMPRESSED_ENCODING_COOKIE_BASE, V2_ENCODING_COOKIE_BASE,
};
use crate::serialization::zigzag::{get_i64, read_varint, unzigzag};
use crate::st::histogram_view::HistogramView;

verus! {

/// The counts once the numbers of `bytes` from `position` on are read into
/// `counts` from slot `index` on: a number that is not negative is the count
/// of the next slot, a negative number passes over as many slots as it says.
/// The bytes must not end within a number, nor go on behind the last slot.
pub open spec fn filled(bytes: Seq<u8>, position: int, counts: Seq<u64>, index: nat) -> Result<
    Seq<u64>,
    DeserializationError,
>
    decreases bytes.len() - position,
{
    if position >= bytes.len() {
        Ok(counts)
    } else if index >= counts.len() {
        Err(DeserializationError::PayloadExceededCountsArrayLength)
    } else {
        let number = read_varint(bytes, position, 8);
        let value = number_read(number);
        let next = position_behind(number);
        if number is None || next <= position || next > bytes.len() {
            Err(DeserializationError::InputTruncated)
        } else if value < 0 {
            filled(bytes, next, counts, (index - value) as nat)
        } else {
            filled(bytes, next, counts.update(index as int, as_count(value)), index + 1)
        }
    }
}

/// The signed number that was read.
pub open spec fn number_read(number: Option<(nat, int)>) -> int {
    match number {
        Some((folded, _)) => unzigzag(folded as int),
        None => 0,
    }
}

/// The position behind the number that was read.
pub open spec fn position_behind(number: Option<(nat, int)>) -> int {
    match number {
        Some((_, next)) => next,
        None => 0,
    }
}

/// A number that is not negative, as a count.
pub open spec fn as_count(value: int) -> u64 {
    (value % 0x1_0000_0000_0000_0000) as u64
}

/// Reads the numbers of `bytes` from `position` on into `counts`, from slot 0
/// on.
pub fn fill_counts_slice_from_buffer(counts: &mut Vec<u64>, bytes: &[u8], position: usize) -> (r:
    Result<(), DeserializationError>)
    ensures
        final(counts)@.len() == old(counts)@.len(),
        match r {
            Ok(()) => filled(bytes@, position as int, old(counts)@, 0) == Ok::<
                Seq<u64>,
                DeserializationError,
            >(final(counts)@),
            Err(e) => filled(bytes@, position as int, old(counts)@, 0) == Err::<
                Seq<u64>,
                DeserializationError,
            >(e),
        },
{
    let length: usize = counts.len();
    let total: usize = bytes.len();
    let mut at: usize = position;
    let mut idx: usize = 0;
    while at < total && idx < length
        invariant
            length == counts@.len(),
            length == old(counts)@.len(),
            total == bytes@.len(),
            idx <= length,
            position <= at,
            filled(bytes@, at as int, counts@, idx as nat) == filled(
                bytes@,
                position as int,
                old(counts)@,
                0,
            ),
        decreases total - at,
    {
        match get_i64(bytes, at) {
            None => {
                return Err(DeserializationError::InputTruncated);
            },
            Some((count, next)) => {
                let ghost number = read_varint(bytes@, at as int, 8);
                let ghost before = counts@;
                let ghost slot = idx as nat;
                assert(number_read(number) == count);
                assert(position_behind(number) == next);
                if count < 0 {
                    let room: usize = length - idx;
                    let skip: u64 = if count == i64::MIN {
                        0x8000_0000_0000_0000
                    } else {
                        (-count) as u64
                    };
                    if skip >= room as u64 {
                        idx = length;
                        assert(filled(bytes@, next as int, before, (slot - count) as nat)
                            == filled(bytes@, next as int, before, idx as nat));
                    } else {
                        idx = idx + skip as usize;
                    }
                    assert(filled(bytes@, at as int, before, slot) == filled(
                        bytes@,
                        next as int,
                        before,
                        idx as nat,
                    ));
                } else {
                    counts.set(idx, count as u64);
                    idx = idx + 1;
                    assert(as_count(count as int) == count as u64);
                    assert(filled(bytes@, at as int, before, slot) == filled(
                        bytes@,
                        next as int,
                        counts@,
                        idx as nat,
                    ));
                }
                at = next;
            },
        }
    }
    if at < total {
        Err(DeserializationError::PayloadExceededCountsArrayLength)
    } else {
        Ok(())
    }
}

/// Whether the counts sum up to a number of 64 bits.
pub fn counts_fit(counts: &Vec<u64>) -> (r: bool)
    ensures
        r == (sum_counts(counts@) <= u64::MAX),
{
    let length: usize = counts.len();
    let mut total: u64 = 0;
    let mut i: usize = 0;
    proof {
        lemma_prefix_sum_monotone(counts@, 0, 0);
    }
    while i < length
        invariant
            length == counts@.len(),
            i <= length,
            total == prefix_sum(counts@, i as int),
        decreases length - i,
    {
        proof {
            lemma_prefix_sum_step(counts@, i as int);
            lemma_prefix_sum_monotone(counts@, i + 1, length as int);
        }
        let count: u64 = counts[i];
        if count > u64::MAX - total {
            return false;
        }
        total = total + count;
        i = i + 1;
    }
    proof {
        lemma_prefix_sum_monotone(counts@, 0, length as int);
    }
    true
}

/// The lowest discernible value that the header of `bytes` names.
pub open spec fn header_lowest(bytes: Seq<u8>) -> u64 {
    read_be_u64(bytes, 16)
}

/// The highest trackable value of the histogram that is read from `bytes`:
/// the one that the header names, or `min_highest_trackable_value` where that
/// is higher.
pub open spec fn header_highest(bytes: Seq<u8>, min_highest_trackable_value: u64) -> u64 {
    if read_be_u64(bytes, 24) < min_highest_trackable_value {
        min_highest_trackable_value
    } else {
        read_be_u64(bytes, 24)
    }
}

/// The number of significant digits that the header of `bytes` names: the
/// lowest byte of the field.
pub open spec fn header_digits(bytes: Seq<u8>) -> u8 {
    (read_be_u32(bytes, 12) % 0x100) as u8
}

/// The counts that `bytes` hold, one for each slot of the geometry that the
/// header names; or why the bytes are refused: they end within the header or
/// within a number, the geometry cannot be built, the numbers go on behind
/// the last slot, or the counts do not sum up to a number of 64 bits.
pub open spec fn decoded_counts(bytes: Seq<u8>, min_highest_trackable_value: u64) -> Result<
    Seq<u64>,
    DeserializationError,
> {
    let lowest = header_lowest(bytes);
    let highest = header_highest(bytes, min_highest_trackable_value);
    let digits = header_digits(bytes);
    if bytes.len() < 40 {
        Err(DeserializationError::InputTruncated)
    } else {
        match creation_error(lowest, highest, digits) {
            Some(e) => Err(DeserializationError::HistogramCreationFailed(e)),
            None => match filled(
                bytes,
                40,
                zeros(
                    array_length_for(
                        floor_log2(lowest as nat),
                        (sub_bucket_count_magnitude_for(digits as nat) - 1) as nat,
                        highest,
                    ),
                ),
                0,
            ) {
                Ok(counts) => if sum_counts(counts) <= u64::MAX {
                    Ok(counts)
                } else {
                    Err(DeserializationError::CountExceedsTypeMax)
                },
                Err(e) => Err(e),
            },
        }
    }
}

/// Whether `view` is the histogram that `bytes` hold: the histogram of the
/// geometry that the header names, with the counts that the bytes hold and
/// the total and the extremes worked out from them. It grows by itself or
/// does not as `auto_resize` says.
pub open spec fn holds_histogram(
    bytes: Seq<u8>,
    min_highest_trackable_value: u64,
    view: HistogramView,
    auto_resize: bool,
) -> bool {
    &&& decoded_counts(bytes, min_highest_trackable_value) matches Ok(counts)
    &&& view.settings.wf()
    &&& view.settings.lowest_discernible_value == header_lowest(bytes)
    &&& view.settings.highest_trackable_value == header_highest(
        bytes,
        min_highest_trackable_value,
    )
    &&& view.settings.number_of_significant_value_digits == header_digits(bytes)
    &&& view.settings.auto_resize == auto_resize
    &&& view == HistogramView::empty(view.settings).established(counts)
}

/// Whether the first four bytes are the cookie of a plain encoding.
pub open spec fn opens_plain(bytes: Seq<u8>) -> bool {
    spec_cookie_base(read_be_u32(bytes, 0)) == V2_ENCODING_COOKIE_BASE
}

/// Whether the first four bytes are the cookie of a compressed encoding.
pub open spec fn opens_compressed(bytes: Seq<u8>) -> bool {
    spec_cookie_base(read_be_u32(bytes, 0)) == V2_COMPRESSED_ENCODING_COOKIE_BASE
}

/// The plain encoding inside bytes that may be compressed, or why there is
/// none: the bytes end before the eighth, the cookie is unknown, or the zlib
/// stream behind the first eight bytes is refused.
pub open spec fn plain_encoding_in(bytes: Seq<u8>) -> Result<Seq<u8>, DeserializationError> {
    if bytes.len() < 8 {
        Err(DeserializationError::InputTruncated)
    } else if opens_plain(bytes) {
        Ok(bytes)
    } else if opens_compressed(bytes) {
        match zlib_decompressed(bytes.subrange(8, bytes.len() as int)) {
            Some(plain) => Ok(plain),
            None => Err(DeserializationError::DecompressionFailed),
        }
    } else {
        Err(DeserializationError::CompressionFormatNotRecognized)
    }
}

/// A histogram that can be built empty and whose counts can be put in.
pub trait DeserializableBounds: MutSliceableHistogram + ConstructableHistogram {

}

impl<H: MutSliceableHistogram + ConstructableHistogram> DeserializableBounds for H {

}

/// `length` counts, all zero.
pub fn zero_counts(length: u32) -> (r: Vec<u64>)
    ensures
        r@ == zeros(length as nat),
{
    let mut counts: Vec<u64> = Vec::new();
    let mut i: u32 = 0;
    while i < length
        invariant
            i <= length,
            counts@ == zeros(i as nat),
        decreases length - i,
    {
        counts.push(0);
        i = i + 1;
        assert(counts@ =~= zeros(i as nat));
    }
    counts
}

/// A histogram that can be read from its encoded form.
pub trait DeserializableHistogram: DeserializableBounds {
    /// Reads a histogram from its encoding. Bytes that end within the header
    /// or within a number are refused, as are numbers behind the last slot, a
    /// geometry that cannot be built and counts whose sum does not fit in 64
    /// bits.
    fn deserialize_from(bytes: &[u8], min_highest_trackable_value: u64) -> (r: Result<
        Self,
        DeserializationError,
    >)
        ensures
            match r {
                Ok(histogram) => histogram.readable_wf() && holds_histogram(
                    bytes@,
                    min_highest_trackable_value,
                    histogram.readable_view(),
                    Self::grows_by_itself(),
                ),
                Err(e) => decoded_counts(bytes@, min_highest_trackable_value) == Err::<
                    Seq<u64>,
                    DeserializationError,
                >(e),
            },
    ;

    /// Reads a histogram from its encoding, compressed or not.
    fn deserialize_from_compressed(bytes: &[u8], min_highest_trackable_value: u64) -> (r: Result<
        Self,
        DeserializationError,
    >)
        ensures
            match (r, plain_encoding_in(bytes@)) {
                (Ok(histogram), Ok(plain)) => histogram.readable_wf() && holds_histogram(
                    plain,
                    min_highest_trackable_value,
                    histogram.readable_view(),
                    Self::grows_by_itself(),
                ),
                (Err(e), Ok(plain)) => decoded_counts(plain, min_highest_trackable_value) == Err::<
                    Seq<u64>,
                    DeserializationError,
                >(e),
                (Err(e), Err(refused)) => e == refused,
                (Ok(_), Err(_)) => false,
            },
    ;
}

impl<H: DeserializableBounds> DeserializableHistogram for H {
    fn deserialize_from(bytes: &[u8], min_highest_trackable_value: u64) -> (r: Result<
        Self,
        DeserializationError,
    >) {
        if bytes.len() < ENCODING_HEADER_SIZE as usize {
            return Err(DeserializationError::InputTruncated);
        }
        let number_of_significant_value_digits: u32 = get_be_u32(bytes, 12);
        let lowest_trackable_unit_value: u64 = get_be_u64(bytes, 16);
        let highest_trackable_value: u64 = get_be_u64(bytes, 24);
        let highest_trackable: u64 = if highest_trackable_value < min_highest_trackable_value {
            min_highest_trackable_value
        } else {
            highest_trackable_value
        };
        let mut histogram = match <Self as ConstructableHistogram>::new(
            lowest_trackable_unit_value,
            highest_trackable,
            (number_of_significant_value_digits % 0x100) as u8,
        ) {
            Ok(histogram) => histogram,
            Err(e) => {
                return Err(DeserializationError::HistogramCreationFailed(e));
            },
        };
        let counts_array_length = histogram.array_length();
        let mut counts: Vec<u64> = zero_counts(counts_array_length);
        match fill_counts_slice_from_buffer(&mut counts, bytes, ENCODING_HEADER_SIZE as usize) {
            Ok(()) => {},
            Err(e) => {
                return Err(e);
            },
        }
        if !counts_fit(&counts) {
            return Err(DeserializationError::CountExceedsTypeMax);
        }
        histogram.put_counts_slice(counts);
        Ok(histogram)
    }

    fn deserialize_from_compressed(bytes: &[u8], min_highest_trackable_value: u64) -> (r: Result<
        Self,
        DeserializationError,
    >) {
        if bytes.len() < 8 {
            return Err(DeserializationError::InputTruncated);
        }
        let cookie: u32 = get_be_u32(bytes, 0);
        let should_decompress = match check_cookie(cookie) {
            Ok(should_decompress) => should_decompress,
            Err(e) => {
                return Err(e);
            },
        };
        if should_decompress {
            let compressed = vstd::slice::slice_subrange(bytes, 8, bytes.len());
            match zlib_decompress(compressed) {
                Ok(plain) => Self::deserialize_from(plain.as_slice(), min_highest_trackable_value),
                Err(_) => Err(DeserializationError::DecompressionFailed),
            }
        } else {
            Self::deserialize_from(bytes, min_highest_trackable_value)
        }
    }
}

} // verus!
