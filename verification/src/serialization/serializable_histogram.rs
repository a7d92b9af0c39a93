//! Writing a histogram as bytes: a header of forty bytes, then the counts up to
//! the slot of the maximum, each as a folded number of variable length, with
//! every run of empty slots written as one negative number.

use vstd::prelude::*;
use vstd::arithmetic::power2::pow2;
use crate::errors::SerializationError;
use crate::readable_histogram::ReadableHistogram;
use crate::serialization::big_endian::{be_u32, be_u64, put_be_u32, put_be_u64};
use crate::serialization::constants::{
    CONVERSION_RATIO_ONE, ENCODING_HEADER_SIZE, MAX_BYTES_OF_A_COUNT,
};
use crate::serialization::compression::{
    frame_compressed, framed, zlib_compress, zlib_compressed, DEFAULT_COMPRESSION_LEVEL,
};
use crate::serialization::cookie::{get_compressed_encoding_cookie, get_encoding_cookie};
use crate::sliceable_histogram::SliceableHistogram;
use crate::serialization::zigzag::{
    lemma_varint_length, put_i64, put_u64, varint, zigzag,
};
use crate::st::histogram_view::HistogramView;

verus! {

/// The number of empty slots at the end of the first `upto` of `counts`.
pub open spec fn pending_zeros(counts: Seq<u64>, upto: int) -> nat
    decreases upto,
{
    if upto <= 0 || counts[upto - 1] != 0 {
        0
    } else {
        pending_zeros(counts, upto - 1) + 1
    }
}

/// The bytes of the first `upto` of `counts`: each count that is not 0 as a
/// folded number, and before it the number of empty slots that precede it, if
/// there are any, as a negative number. Empty slots at the end are left out.
pub open spec fn emitted(counts: Seq<u64>, upto: int) -> Seq<u8>
    decreases upto,
{
    if upto <= 0 {
        Seq::empty()
    } else if counts[upto - 1] == 0 {
        emitted(counts, upto - 1)
    } else if pending_zeros(counts, upto - 1) == 0 {
        emitted(counts, upto - 1) + varint(zigzag(counts[upto - 1] as int) as nat, 8)
    } else {
        emitted(counts, upto - 1) + varint(
            zigzag(-(pending_zeros(counts, upto - 1) as int)) as nat,
            8,
        ) + varint(zigzag(counts[upto - 1] as int) as nat, 8)
    }
}

/// Whether each of the first `upto` of `counts` can be written as a signed
/// number of 64 bits.
pub open spec fn encodable(counts: Seq<u64>, upto: int) -> bool {
    forall|i: int| 0 <= i < upto ==> #[trigger] counts[i] < 0x8000_0000_0000_0000
}

/// The bytes of `upto` slots are at most nine for each slot.
pub proof fn lemma_emitted_length(counts: Seq<u64>, upto: int)
    requires
        0 <= upto <= counts.len(),
        encodable(counts, upto),
    ensures
        pending_zeros(counts, upto) <= upto,
        emitted(counts, upto).len() + 9 * pending_zeros(counts, upto) <= 9 * upto,
    decreases upto,
{
    if upto > 0 {
        lemma_emitted_length(counts, upto - 1);
        let count = counts[upto - 1];
        let zeros = pending_zeros(counts, upto - 1);
        assert(count < 0x8000_0000_0000_0000);
        lemma_varint_length(zigzag(count as int) as nat, 8);
        lemma_varint_length(zigzag(-(zeros as int)) as nat, 8);
    }
}

/// The number of bytes that hold the encoding of `length` slots whatever
/// their counts are.
pub fn get_required_byte_buffer_capacity(length: u32) -> (r: u32)
    requires
        length * 9 + 40 <= u32::MAX,
    ensures
        r == length * 9 + 40,
{
    length * MAX_BYTES_OF_A_COUNT + ENCODING_HEADER_SIZE
}

/// Writes the counts behind the bytes of `buffer`: each count that is not 0,
/// and before it the number of empty slots that precede it. Fails on the
/// first count that has its highest bit set.
pub fn fill_buffer_from_counts_slice(buffer: &mut Vec<u8>, counts_slice: &[u64]) -> (r: Result<
    (),
    SerializationError,
>)
    requires
        counts_slice@.len() <= i64::MAX,
    ensures
        match r {
            Ok(()) => encodable(counts_slice@, counts_slice@.len() as int) && final(buffer)@
                == old(buffer)@ + emitted(counts_slice@, counts_slice@.len() as int),
            Err(e) => e == SerializationError::ValueNotLEBEncodable && !encodable(
                counts_slice@,
                counts_slice@.len() as int,
            ),
        },
{
    let length: usize = counts_slice.len();
    let mut zeroes_count: i64 = 0;
    let mut i: usize = 0;
    while i < length
        invariant
            length == counts_slice@.len(),
            length <= i64::MAX,
            i <= length,
            zeroes_count == pending_zeros(counts_slice@, i as int),
            zeroes_count <= i,
            encodable(counts_slice@, i as int),
            buffer@ == old(buffer)@ + emitted(counts_slice@, i as int),
        decreases length - i,
    {
        let count: u64 = counts_slice[i];
        let ghost before = buffer@;
        if count == 0 {
            zeroes_count = zeroes_count + 1;
        } else {
            if zeroes_count != 0 {
                put_i64(buffer, -zeroes_count);
                zeroes_count = 0;
            }
            match put_u64(buffer, count) {
                Ok(()) => {},
                Err(e) => {
                    return Err(e);
                },
            }
        }
        i = i + 1;
        assert(buffer@ =~= old(buffer)@ + emitted(counts_slice@, i as int));
    }
    Ok(())
}

/// The number of slots that are written: those up to the slot of the maximum.
pub open spec fn relevant_length(view: HistogramView) -> nat {
    let behind = view.index_of(view.max_value() as u64) + 1;
    if behind < view.counts.len() {
        behind as nat
    } else {
        view.counts.len()
    }
}

/// The forty bytes before the counts: the cookie, the number of bytes of the
/// counts, a normalizing index offset of 0, the number of significant digits,
/// the lowest discernible and the highest trackable value, and a conversion
/// ratio of 1.
pub open spec fn header_of(view: HistogramView, payload_length: u32) -> Seq<u8> {
    be_u32(0x1c84_9313) + be_u32(payload_length) + be_u32(0) + be_u32(
        view.settings.number_of_significant_value_digits as u32,
    ) + be_u64(view.settings.lowest_discernible_value) + be_u64(
        view.settings.highest_trackable_value,
    ) + be_u64(CONVERSION_RATIO_ONE)
}

/// The counts that are written.
pub open spec fn relevant_counts_of(view: HistogramView) -> Seq<u64> {
    view.counts.subrange(0, relevant_length(view) as int)
}

/// The bytes of the counts of a histogram.
pub open spec fn payload_of(view: HistogramView) -> Seq<u8> {
    emitted(relevant_counts_of(view), relevant_length(view) as int)
}

/// The encoded form of a histogram; none where a count has its highest bit
/// set.
pub open spec fn encoding_of(view: HistogramView) -> Option<Seq<u8>> {
    if encodable(relevant_counts_of(view), relevant_length(view) as int) {
        Some(header_of(view, payload_of(view).len() as u32) + payload_of(view))
    } else {
        None
    }
}

/// The number of bytes that the encoding of a histogram may take.
pub open spec fn required_capacity(view: HistogramView) -> nat {
    relevant_length(view) * 9 + 40
}

/// What writing a histogram into a buffer with room for `capacity` more bytes
/// comes to: the encoding behind the bytes that were there, and its length;
/// or a failure that leaves the buffer as it was, for want of room or for a
/// count that cannot be written.
pub open spec fn serialized_into(
    view: HistogramView,
    before: Seq<u8>,
    capacity: usize,
    after: Seq<u8>,
    r: Result<usize, SerializationError>,
) -> bool {
    if capacity < required_capacity(view) {
        r == Err::<usize, SerializationError>(SerializationError::BufferCapacityInsufficient)
            && after == before
    } else {
        match encoding_of(view) {
            Some(bytes) => r == Ok::<usize, SerializationError>(bytes.len() as usize) && after
                == before + bytes,
            None => r == Err::<usize, SerializationError>(
                SerializationError::ValueNotLEBEncodable,
            ) && after == before,
        }
    }
}

/// The compressed form of the encoding of a histogram.
pub open spec fn compressed_encoding_of(view: HistogramView) -> Option<Seq<u8>> {
    match encoding_of(view) {
        Some(bytes) => Some(
            framed(0x1c84_9314, zlib_compressed(bytes, DEFAULT_COMPRESSION_LEVEL)),
        ),
        None => None,
    }
}

/// What writing the compressed form of a histogram into a buffer with room
/// for `capacity` more bytes comes to. The room has to hold the plain encoding
/// of all slots, whatever the compressed form takes.
pub open spec fn serialized_into_compressed(
    view: HistogramView,
    before: Seq<u8>,
    capacity: usize,
    after: Seq<u8>,
    r: Result<usize, SerializationError>,
) -> bool {
    if capacity < view.counts.len() * 9 + 40 {
        r == Err::<usize, SerializationError>(SerializationError::BufferCapacityInsufficient)
            && after == before
    } else {
        match compressed_encoding_of(view) {
            None => r == Err::<usize, SerializationError>(
                SerializationError::ValueNotLEBEncodable,
            ) && after == before,
            Some(bytes) => if bytes.len() <= capacity && bytes.len() - 8 <= u32::MAX {
                r == Ok::<usize, SerializationError>(bytes.len() as usize) && after == before
                    + bytes
            } else {
                r == Err::<usize, SerializationError>(
                    SerializationError::CompressedBufferCapacityInsufficient,
                ) && after == before
            },
        }
    }
}

/// What the compressed form of a histogram in a buffer of its own comes to:
/// the compressed form and its length; or a failure, for a count that cannot
/// be written or for a compressed form that is longer than the plain
/// encoding may get.
pub open spec fn compressed_and_returned(
    view: HistogramView,
    r: Result<(Vec<u8>, usize), SerializationError>,
) -> bool {
    match r {
        Ok((bytes, written)) => compressed_encoding_of(view) == Some(bytes@) && written
            == bytes@.len() && written <= view.counts.len() * 9 + 40,
        Err(e) => match compressed_encoding_of(view) {
            None => e == SerializationError::ValueNotLEBEncodable,
            Some(bytes) => e == SerializationError::CompressedBufferCapacityInsufficient
                && bytes.len() > view.counts.len() * 9 + 40,
        },
    }
}

/// The encoded form is the header and at most nine bytes for each slot that
/// is written.
pub proof fn lemma_encoding_length(view: HistogramView)
    requires
        view.wf(),
    ensures
        relevant_length(view) <= view.counts.len(),
        view.counts.len() <= 65 * 0x20000,
        encoding_of(view) matches Some(bytes) ==> bytes.len() == 40 + payload_of(view).len()
            && bytes.len() <= required_capacity(view),
{
    view.settings.lemma_layout();
    let buckets = view.settings.bucket_count as int + 1;
    let half = pow2(view.settings.m()) as int;
    assert(buckets * half <= 65 * 0x20000) by (nonlinear_arith)
        requires
            0 <= buckets <= 65,
            0 <= half <= 0x20000,
    ;
    if encodable(relevant_counts_of(view), relevant_length(view) as int) {
        lemma_emitted_length(relevant_counts_of(view), relevant_length(view) as int);
    }
}

/// A histogram whose counts can be taken out and read slot by slot.
pub trait SerializableBounds: SliceableHistogram {

}

impl<H: SliceableHistogram> SerializableBounds for H {

}

/// A histogram that can be written as bytes.
pub trait SerializableHistogram: ReadableHistogram {
    /// Writes the encoding of the histogram behind the bytes of `buffer`,
    /// which has room for `capacity` more bytes, and gives the number of bytes
    /// written.
    fn serialize_into(&mut self, buffer: &mut Vec<u8>, capacity: usize) -> (r: Result<
        usize,
        SerializationError,
    >)
        requires
            old(self).readable_wf(),
        ensures
            final(self).readable_wf(),
            final(self).readable_view() == old(self).readable_view(),
            serialized_into(
                old(self).readable_view(),
                old(buffer)@,
                capacity,
                final(buffer)@,
                r,
            ),
    ;

    /// Writes the compressed form of the encoding of the histogram behind the
    /// bytes of `buffer`, which has room for `capacity` more bytes, and gives
    /// the number of bytes written.
    fn serialize_into_compressed(&mut self, buffer: &mut Vec<u8>, capacity: usize) -> (r:
        Result<usize, SerializationError>)
        requires
            old(self).readable_wf(),
        ensures
            final(self).readable_wf(),
            final(self).readable_view() == old(self).readable_view(),
            serialized_into_compressed(
                old(self).readable_view(),
                old(buffer)@,
                capacity,
                final(buffer)@,
                r,
            ),
    ;

    /// The number of bytes that hold the encoding of the histogram whatever
    /// its counts are.
    fn required_buffer_capacity(&self) -> (r: usize)
        requires
            self.readable_wf(),
        ensures
            r == self.readable_view().counts.len() * 9 + 40,
    ;

    /// The encoding of the histogram, and its length.
    fn serialize(&mut self) -> (r: Result<(Vec<u8>, usize), SerializationError>)
        requires
            old(self).readable_wf(),
        ensures
            final(self).readable_wf(),
            final(self).readable_view() == old(self).readable_view(),
            match r {
                Ok((bytes, written)) => encoding_of(old(self).readable_view()) == Some(bytes@)
                    && written == bytes@.len(),
                Err(e) => e == SerializationError::ValueNotLEBEncodable && encoding_of(
                    old(self).readable_view(),
                ) is None,
            },
    ;

    /// The compressed form of the encoding of the histogram, and its length.
    fn serialize_compressed(&mut self) -> (r: Result<(Vec<u8>, usize), SerializationError>)
        requires
            old(self).readable_wf(),
        ensures
            final(self).readable_wf(),
            final(self).readable_view() == old(self).readable_view(),
            compressed_and_returned(old(self).readable_view(), r),
    ;
}

impl<H: SerializableBounds> SerializableHistogram for H {
    fn serialize_into(&mut self, buffer: &mut Vec<u8>, capacity: usize) -> (r: Result<
        usize,
        SerializationError,
    >) {
        let ghost view = self.readable_view();
        proof {
            self.lemma_readable();
            lemma_encoding_length(self.readable_view());
            self.readable_view().settings.lemma_layout();
        }
        let max_value = self.get_max_value();
        let array_length = self.array_length();
        let slot = self.settings().counts_array_index(max_value);
        let relevant_length: u32 = if slot < array_length {
            slot + 1
        } else {
            array_length
        };
        if capacity < get_required_byte_buffer_capacity(relevant_length) as usize {
            return Err(SerializationError::BufferCapacityInsufficient);
        }
        let counts = match self.get_counts_slice(relevant_length) {
            Some(counts) => counts,
            None => {
                return Err(SerializationError::BufferCapacityInsufficient);
            },
        };
        let settings = self.settings();
        let mut payload: Vec<u8> = Vec::new();
        match fill_buffer_from_counts_slice(&mut payload, counts.as_slice()) {
            Ok(()) => {},
            Err(e) => {
                return Err(e);
            },
        }
        proof {
            lemma_emitted_length(counts@, relevant_length as int);
            assert(payload@ =~= payload_of(view));
        }
        let payload_length: usize = payload.len();
        put_be_u32(buffer, get_encoding_cookie());
        put_be_u32(buffer, payload_length as u32);
        put_be_u32(buffer, 0);
        put_be_u32(buffer, settings.number_of_significant_value_digits as u32);
        put_be_u64(buffer, settings.lowest_discernible_value);
        put_be_u64(buffer, settings.highest_trackable_value);
        put_be_u64(buffer, CONVERSION_RATIO_ONE);
        assert(buffer@ =~= old(buffer)@ + header_of(view, payload_length as u32));
        let mut i: usize = 0;
        while i < payload_length
            invariant
                payload_length == payload@.len(),
                i <= payload_length,
                buffer@ == old(buffer)@ + header_of(view, payload_length as u32)
                    + payload@.subrange(0, i as int),
            decreases payload_length - i,
        {
            buffer.push(payload[i]);
            i = i + 1;
            assert(buffer@ =~= old(buffer)@ + header_of(view, payload_length as u32)
                + payload@.subrange(0, i as int));
        }
        assert(payload@.subrange(0, payload_length as int) =~= payload@);
        assert(buffer@ =~= old(buffer)@ + (header_of(view, payload_length as u32) + payload@));
        Ok(payload_length + ENCODING_HEADER_SIZE as usize)
    }

    fn serialize_into_compressed(&mut self, buffer: &mut Vec<u8>, capacity: usize) -> (r:
        Result<usize, SerializationError>) {
        let ghost view = self.readable_view();
        proof {
            self.lemma_readable();
            lemma_encoding_length(self.readable_view());
            self.readable_view().settings.lemma_layout();
        }
        let required_capacity = self.required_buffer_capacity();
        if capacity < required_capacity {
            return Err(SerializationError::BufferCapacityInsufficient);
        }
        let mut intermediate_uncompressed: Vec<u8> = Vec::new();
        match self.serialize_into(&mut intermediate_uncompressed, required_capacity) {
            Ok(_) => {},
            Err(e) => {
                return Err(e);
            },
        }
        assert(intermediate_uncompressed@ =~= encoding_of(view)->0);
        let compressed = zlib_compress(
            intermediate_uncompressed.as_slice(),
            DEFAULT_COMPRESSION_LEVEL,
        );
        frame_compressed(buffer, capacity, get_compressed_encoding_cookie(), &compressed)
    }

    fn required_buffer_capacity(&self) -> (r: usize) {
        proof {
            self.lemma_readable();
            lemma_encoding_length(self.readable_view());
        }
        get_required_byte_buffer_capacity(self.array_length()) as usize
    }

    fn serialize(&mut self) -> (r: Result<(Vec<u8>, usize), SerializationError>) {
        let ghost view = self.readable_view();
        proof {
            self.lemma_readable();
            lemma_encoding_length(self.readable_view());
        }
        let mut buffer: Vec<u8> = Vec::new();
        let capacity = self.required_buffer_capacity();
        match self.serialize_into(&mut buffer, capacity) {
            Ok(bytes_written) => {
                assert(buffer@ =~= encoding_of(view)->0);
                Ok((buffer, bytes_written))
            },
            Err(e) => Err(e),
        }
    }

    fn serialize_compressed(&mut self) -> (r: Result<(Vec<u8>, usize), SerializationError>) {
        let ghost view = self.readable_view();
        proof {
            self.lemma_readable();
            lemma_encoding_length(self.readable_view());
        }
        let mut buffer: Vec<u8> = Vec::new();
        let capacity = self.required_buffer_capacity();
        match self.serialize_into_compressed(&mut buffer, capacity) {
            Ok(bytes_written) => {
                assert(buffer@ =~= compressed_encoding_of(view)->0);
                Ok((buffer, bytes_written))
            },
            Err(e) => Err(e),
        }
    }
}

} // verus!
