use hdrhistogram::errors::{CreationError, DeserializationError, SerializationError};
use hdrhistogram::serialization::big_endian::{get_be_u32, get_be_u64, put_be_u32, put_be_u64};
use hdrhistogram::serialization::compression::{check_cookie, frame_compressed};
use hdrhistogram::serialization::cookie::{
    get_compressed_encoding_cookie, get_cookie_base, get_encoding_cookie,
    V2_COMPRESSED_ENCODING_COOKIE_BASE, V2_ENCODING_COOKIE_BASE,
};
use hdrhistogram::serialization::deserializable_histogram::{
    counts_fit, fill_counts_slice_from_buffer, DeserializableHistogram,
};
use hdrhistogram::serialization::serializable_histogram::{
    fill_buffer_from_counts_slice, get_required_byte_buffer_capacity, SerializableHistogram,
};
use hdrhistogram::serialization::zigzag;
use hdrhistogram::concurrent::resizable_histogram::ResizableHistogram;
use hdrhistogram::concurrent::static_histogram::StaticHistogram;
use hdrhistogram::sliceable_histogram::{MutSliceableHistogram, ReadSliceableHistogram};
use hdrhistogram::st::histogram::Histogram;

fn sample_histogram() -> Histogram {
    let mut histogram = Histogram::with_high_sigvdig(274877906943, 3).unwrap();
    assert!(histogram.record_value(6147).is_ok());
    assert!(histogram.record_value(1024).is_ok());
    assert!(histogram.record_value(0).is_ok());
    histogram
}

#[test]
fn test_zig_zag() {
    let mut buf: Vec<u8> = Vec::with_capacity(30);
    let to_write_u: u64 = 102398084419879874;
    let to_write_neg: i64 = -100203;
    zigzag::put_u64(&mut buf, to_write_u).ok().unwrap();
    zigzag::put_i64(&mut buf, 0);
    zigzag::put_u64(&mut buf, 0).ok().unwrap();
    zigzag::put_i64(&mut buf, to_write_neg);

    let (read_u, at) = zigzag::get_i64(&buf, 0).unwrap();
    let (read_0i, at) = zigzag::get_i64(&buf, at).unwrap();
    let (read_0u, at) = zigzag::get_i64(&buf, at).unwrap();
    let (read_neg, at) = zigzag::get_i64(&buf, at).unwrap();

    assert_eq!(read_u as u64, to_write_u);
    assert_eq!(read_0i as u64, 0);
    assert_eq!(read_0u as u64, 0);
    assert_eq!(
        read_neg, to_write_neg,
        "negative values should be read correctly"
    );
    assert_eq!(at, buf.len());
}

#[test]
fn zig_zag_bytes_are_exact() {
    let mut buf: Vec<u8> = Vec::new();
    zigzag::put_i64(&mut buf, 0);
    zigzag::put_i64(&mut buf, -1);
    zigzag::put_i64(&mut buf, 1);
    zigzag::put_i64(&mut buf, 63);
    zigzag::put_i64(&mut buf, 64);
    zigzag::put_i64(&mut buf, -64);
    zigzag::put_i64(&mut buf, -65);
    assert_eq!(buf, vec![0, 1, 2, 126, 0x80, 0x01, 127, 0x81, 0x01]);
}

#[test]
fn zig_zag_extremes_take_nine_bytes() {
    let mut buf: Vec<u8> = Vec::new();
    zigzag::put_i64(&mut buf, i64::MAX);
    assert_eq!(buf.len(), 9);
    zigzag::put_i64(&mut buf, i64::MIN);
    assert_eq!(buf.len(), 18);
    let (first, at) = zigzag::get_i64(&buf, 0).unwrap();
    let (second, at) = zigzag::get_i64(&buf, at).unwrap();
    assert_eq!(first, i64::MAX);
    assert_eq!(second, i64::MIN);
    assert_eq!(at, 18);
}

#[test]
fn zig_zag_refuses_what_has_the_highest_bit_set() {
    let mut buf: Vec<u8> = Vec::new();
    assert_eq!(
        zigzag::put_u64(&mut buf, 1 << 63),
        Err(SerializationError::ValueNotLEBEncodable)
    );
    assert_eq!(
        zigzag::put_u32(&mut buf, 1 << 31),
        Err(SerializationError::ValueNotLEBEncodable)
    );
    assert!(buf.is_empty());
    assert_eq!(zigzag::put_u32(&mut buf, 300), Ok(()));
    zigzag::put_i32(&mut buf, -300);
    let (first, at) = zigzag::get_i32(&buf, 0).unwrap();
    let (second, at) = zigzag::get_i32(&buf, at).unwrap();
    assert_eq!(first, 300);
    assert_eq!(second, -300);
    assert_eq!(at, buf.len());
}

#[test]
fn zig_zag_reads_nothing_from_cut_bytes() {
    let mut buf: Vec<u8> = Vec::new();
    zigzag::put_i64(&mut buf, 100_000);
    assert_eq!(buf.len(), 3);
    assert_eq!(zigzag::get_i64(&buf[..2], 0), None);
    assert_eq!(zigzag::get_i64(&buf, 3), None);
    assert_eq!(zigzag::get_i64(&buf, 0), Some((100_000, 3)));
}

#[test]
fn big_endian_numbers() {
    let mut buf: Vec<u8> = Vec::new();
    put_be_u32(&mut buf, 0x0102_0304);
    put_be_u64(&mut buf, 0x1122_3344_5566_7788);
    assert_eq!(
        buf,
        vec![1, 2, 3, 4, 0x11, 0x22, 0x33, 0x44, 0x55, 0x66, 0x77, 0x88]
    );
    assert_eq!(get_be_u32(&buf, 0), 0x0102_0304);
    assert_eq!(get_be_u64(&buf, 4), 0x1122_3344_5566_7788);
    assert_eq!(get_be_u32(&buf, 8), 0x5566_7788);
}

#[test]
fn cookies() {
    assert_eq!(get_encoding_cookie(), 0x1c84_9313);
    assert_eq!(get_compressed_encoding_cookie(), 0x1c84_9314);
    assert_eq!(get_cookie_base(0x1c84_9313), V2_ENCODING_COOKIE_BASE);
    assert_eq!(get_cookie_base(0x1c84_93f4), V2_COMPRESSED_ENCODING_COOKIE_BASE);
    assert_eq!(check_cookie(0x1c84_9313), Ok(false));
    assert_eq!(check_cookie(0x1c84_9314), Ok(true));
    assert_eq!(
        check_cookie(0x1c84_9315),
        Err(DeserializationError::CompressionFormatNotRecognized)
    );
}

#[test]
fn required_capacity_is_nine_bytes_a_slot_and_the_header() {
    assert_eq!(get_required_byte_buffer_capacity(0), 40);
    assert_eq!(get_required_byte_buffer_capacity(1), 49);
    assert_eq!(get_required_byte_buffer_capacity(2048), 18472);
}

#[test]
fn counts_are_written_with_runs_of_zeros() {
    let mut buf: Vec<u8> = Vec::new();
    let counts: Vec<u64> = vec![0, 0, 0, 5, 1, 0, 64, 0, 0];
    assert_eq!(fill_buffer_from_counts_slice(&mut buf, &counts), Ok(()));
    assert_eq!(buf, vec![5, 10, 2, 1, 0x80, 0x01]);

    let mut read: Vec<u64> = vec![0; 9];
    assert_eq!(fill_counts_slice_from_buffer(&mut read, &buf, 0), Ok(()));
    assert_eq!(read, counts);
}

#[test]
fn counts_with_the_highest_bit_set_are_refused() {
    let mut buf: Vec<u8> = Vec::new();
    let counts: Vec<u64> = vec![1, 1 << 63];
    assert_eq!(
        fill_buffer_from_counts_slice(&mut buf, &counts),
        Err(SerializationError::ValueNotLEBEncodable)
    );
}

#[test]
fn counts_beyond_the_last_slot_are_refused() {
    let bytes: Vec<u8> = vec![2, 4, 6];
    let mut two: Vec<u64> = vec![0; 2];
    assert_eq!(
        fill_counts_slice_from_buffer(&mut two, &bytes, 0),
        Err(DeserializationError::PayloadExceededCountsArrayLength)
    );
    let mut three: Vec<u64> = vec![0; 3];
    assert_eq!(fill_counts_slice_from_buffer(&mut three, &bytes, 0), Ok(()));
    assert_eq!(three, vec![1, 2, 3]);
    let mut from_second: Vec<u64> = vec![0; 2];
    assert_eq!(
        fill_counts_slice_from_buffer(&mut from_second, &bytes, 1),
        Ok(())
    );
    assert_eq!(from_second, vec![2, 3]);
}

#[test]
fn counts_that_end_within_a_number_are_refused() {
    let bytes: Vec<u8> = vec![2, 0x80];
    let mut counts: Vec<u64> = vec![0; 4];
    assert_eq!(
        fill_counts_slice_from_buffer(&mut counts, &bytes, 0),
        Err(DeserializationError::InputTruncated)
    );
}

#[test]
fn counts_fit_where_their_sum_does() {
    assert!(counts_fit(&vec![]));
    assert!(counts_fit(&vec![u64::MAX, 0]));
    assert!(counts_fit(&vec![u64::MAX - 1, 1]));
    assert!(!counts_fit(&vec![u64::MAX, 1]));
    assert!(!counts_fit(&vec![1 << 63, 1 << 62, 1 << 62]));
}

#[test]
fn encoding_has_the_header_and_the_counts() {
    let mut histogram = Histogram::with_low_high_sigvdig(1, 2047, 3).unwrap();
    assert!(histogram.record_value(3).is_ok());
    assert!(histogram.record_value_with_count(5, 2).is_ok());
    let (bytes, written) = histogram.serialize().unwrap();
    assert_eq!(written, bytes.len());
    let mut expected: Vec<u8> = Vec::new();
    expected.extend_from_slice(&[0x1c, 0x84, 0x93, 0x13]);
    expected.extend_from_slice(&[0, 0, 0, 4]);
    expected.extend_from_slice(&[0, 0, 0, 0]);
    expected.extend_from_slice(&[0, 0, 0, 3]);
    expected.extend_from_slice(&[0, 0, 0, 0, 0, 0, 0, 1]);
    expected.extend_from_slice(&[0, 0, 0, 0, 0, 0, 0x07, 0xff]);
    expected.extend_from_slice(&[0x3f, 0xf0, 0, 0, 0, 0, 0, 0]);
    expected.extend_from_slice(&[5, 2, 1, 4]);
    assert_eq!(bytes, expected);
}

#[test]
fn encoding_of_an_empty_histogram_is_its_header() {
    let mut histogram = Histogram::with_low_high_sigvdig(1, 2047, 3).unwrap();
    let (bytes, written) = histogram.serialize().unwrap();
    assert_eq!(written, 40);
    assert_eq!(bytes.len(), 40);
    let read = Histogram::deserialize_from(&bytes, 0).unwrap();
    assert!(read.equals(&histogram));
    assert_eq!(read.get_total_count(), 0);
}

#[test]
fn test_simple_integer_histogram_encoding() {
    let mut histogram = sample_histogram();

    let result = histogram.serialize();

    assert!(result.is_ok());

    let (serialized, _) = result.unwrap();
    let deserialized = Histogram::deserialize_from(&serialized, 0).unwrap();

    assert!(histogram.equals(&deserialized));

    assert!(histogram.record_value_with_count(100, 1 << 16).is_ok());

    let (serialized, _) = histogram.serialize().unwrap();
    let deserialized = Histogram::deserialize_from(&serialized, 0).unwrap();

    assert!(histogram.equals(&deserialized));
    assert_eq!(deserialized.get_total_count(), 3 + (1 << 16));
    assert_eq!(deserialized.get_count_at_value(100), Some(1 << 16));
    assert_eq!(deserialized.get_max_value(), histogram.get_max_value());
    assert_eq!(
        deserialized.get_min_non_zero_value(),
        histogram.get_min_non_zero_value()
    );
}

#[test]
fn test_compressed_encoding() {
    let mut histogram = sample_histogram();
    assert!(histogram.record_value_with_count(100, 1 << 16).is_ok());

    let (serialized, _) = histogram.serialize_compressed().unwrap();
    let deserialized = Histogram::deserialize_from_compressed(&serialized, 0).unwrap();

    assert!(histogram.equals(&deserialized));
}

#[test]
fn test_ref_encoding() {
    let mut histogram = sample_histogram();
    assert!(histogram.record_value_with_count(100, 1 << 16).is_ok());

    let (serialized, _) = (&mut histogram).serialize_compressed().unwrap();
    let deserialized = Histogram::deserialize_from_compressed(&serialized, 0).unwrap();

    assert!(histogram.equals(&deserialized));
}

#[test]
fn compressed_encoding_is_framed() {
    let mut histogram = sample_histogram();
    assert!(histogram.record_value_with_count(100, 1 << 16).is_ok());
    let (plain, _) = histogram.serialize().unwrap();
    let (compressed, written) = histogram.serialize_compressed().unwrap();
    assert_eq!(written, compressed.len());
    assert_eq!(get_be_u32(&compressed, 0), 0x1c84_9314);
    assert_eq!(get_be_u32(&compressed, 4) as usize, compressed.len() - 8);
    assert_ne!(&compressed[8..], &plain[..]);
    // A zlib stream opens with the byte 0x78.
    assert_eq!(compressed[8], 0x78);
}

#[test]
fn compressed_reader_takes_a_plain_encoding() {
    let mut histogram = sample_histogram();
    let (plain, _) = histogram.serialize().unwrap();
    let read = Histogram::deserialize_from_compressed(&plain, 0).unwrap();
    assert!(histogram.equals(&read));
}

#[test]
fn compressed_reader_refuses_damaged_bytes() {
    let mut histogram = sample_histogram();
    let (mut compressed, _) = histogram.serialize_compressed().unwrap();
    let last = compressed.len() - 1;
    compressed[last] ^= 0xff;
    compressed[10] ^= 0xff;
    assert_eq!(
        Histogram::deserialize_from_compressed(&compressed, 0).err(),
        Some(DeserializationError::DecompressionFailed)
    );
    let mut unknown = compressed.clone();
    unknown[3] = 0x15;
    assert_eq!(
        Histogram::deserialize_from_compressed(&unknown, 0).err(),
        Some(DeserializationError::CompressionFormatNotRecognized)
    );
    assert_eq!(
        Histogram::deserialize_from_compressed(&compressed[..7], 0).err(),
        Some(DeserializationError::InputTruncated)
    );
}

#[test]
fn serialize_into_needs_room() {
    let mut histogram = sample_histogram();
    let mut buf: Vec<u8> = vec![7, 7];
    let slots = histogram.settings().counts_array_index(histogram.get_max_value()) + 1;
    let needed = get_required_byte_buffer_capacity(slots) as usize;
    assert_eq!(
        histogram.serialize_into(&mut buf, needed - 1),
        Err(SerializationError::BufferCapacityInsufficient)
    );
    assert_eq!(buf, vec![7, 7]);
    let written = histogram.serialize_into(&mut buf, needed).unwrap();
    assert_eq!(buf.len(), 2 + written);
    assert_eq!(&buf[..2], &[7, 7]);
    let read = Histogram::deserialize_from(&buf[2..], 0).unwrap();
    assert!(histogram.equals(&read));
}

#[test]
fn serialize_into_compressed_needs_room_for_every_slot() {
    let mut histogram = sample_histogram();
    let mut buf: Vec<u8> = Vec::new();
    let needed = histogram.required_buffer_capacity();
    assert_eq!(
        needed,
        histogram.counts_array_length() as usize * 9 + 40
    );
    assert_eq!(
        histogram.serialize_into_compressed(&mut buf, needed - 1),
        Err(SerializationError::BufferCapacityInsufficient)
    );
    assert!(buf.is_empty());
    let written = histogram.serialize_into_compressed(&mut buf, needed).unwrap();
    assert_eq!(written, buf.len());
}

#[test]
fn frame_needs_room_for_the_compressed_bytes() {
    let compressed: Vec<u8> = vec![9, 8, 7];
    let mut buf: Vec<u8> = vec![1];
    assert_eq!(
        frame_compressed(&mut buf, 10, 0x1c84_9314, &compressed),
        Err(SerializationError::CompressedBufferCapacityInsufficient)
    );
    assert_eq!(buf, vec![1]);
    assert_eq!(frame_compressed(&mut buf, 11, 0x1c84_9314, &compressed), Ok(11));
    assert_eq!(buf, vec![1, 0x1c, 0x84, 0x93, 0x14, 0, 0, 0, 3, 9, 8, 7]);
}

#[test]
fn encoding_refuses_a_count_with_the_highest_bit_set() {
    let mut histogram = Histogram::with_low_high_sigvdig(1, 2047, 3).unwrap();
    assert!(histogram.record_value_with_count(10, 1 << 63).is_ok());
    assert_eq!(
        histogram.serialize().err(),
        Some(SerializationError::ValueNotLEBEncodable)
    );
    assert_eq!(
        histogram.serialize_compressed().err(),
        Some(SerializationError::ValueNotLEBEncodable)
    );
}

#[test]
fn reader_refuses_a_short_header_and_a_bad_geometry() {
    let mut histogram = sample_histogram();
    let (bytes, _) = histogram.serialize().unwrap();
    assert_eq!(
        Histogram::deserialize_from(&bytes[..39], 0).err(),
        Some(DeserializationError::InputTruncated)
    );
    let mut zero_low = bytes.clone();
    zero_low[23] = 0;
    assert_eq!(
        Histogram::deserialize_from(&zero_low, 0).err(),
        Some(DeserializationError::HistogramCreationFailed(
            CreationError::LowIsZero
        ))
    );
    let mut many_digits = bytes.clone();
    many_digits[15] = 6;
    assert_eq!(
        Histogram::deserialize_from(&many_digits, 0).err(),
        Some(DeserializationError::HistogramCreationFailed(
            CreationError::SignificantValueDigitsExceedsMax
        ))
    );
}

#[test]
fn reader_refuses_counts_that_sum_too_high() {
    let mut histogram = Histogram::with_low_high_sigvdig(1, 2047, 3).unwrap();
    let (mut bytes, _) = histogram.serialize().unwrap();
    zigzag::put_i64(&mut bytes, i64::MAX);
    zigzag::put_i64(&mut bytes, i64::MAX);
    let two = Histogram::deserialize_from(&bytes, 0).unwrap();
    assert_eq!(two.get_total_count(), u64::MAX - 1);
    zigzag::put_i64(&mut bytes, 2);
    assert_eq!(
        Histogram::deserialize_from(&bytes, 0).err(),
        Some(DeserializationError::CountExceedsTypeMax)
    );
}

#[test]
fn reader_widens_to_the_least_highest_value() {
    let mut histogram = sample_histogram();
    let (bytes, _) = histogram.serialize().unwrap();
    let same = Histogram::deserialize_from(&bytes, 1000).unwrap();
    assert_eq!(same.get_highest_trackable_value(), 274877906943);
    let wider = Histogram::deserialize_from(&bytes, 1 << 40).unwrap();
    assert_eq!(wider.get_highest_trackable_value(), 1 << 40);
    assert!(wider.counts_array_length() > same.counts_array_length());
    assert!(wider.equals(&histogram));
}

#[test]
fn test_atomic_histogram_encoding() {
    let histogram = StaticHistogram::with_low_high_sigvdig(1, 274877906943, 3).unwrap();
    assert!(histogram.record_value(10000000).is_ok());
    assert!(histogram.record_value(1024).is_ok());
    assert!(histogram.record_value(0).is_ok());
    assert!(histogram.record_value_with_count(500, 1 << 42).is_ok());

    let mut snapshot = histogram.as_snapshot().unwrap();
    let (serialized, _) = snapshot.serialize().unwrap();
    let read = Histogram::deserialize_from(&serialized, 0).unwrap();
    let deserialized = StaticHistogram::from_histogram(&read);

    assert!(snapshot.equals(&deserialized.as_snapshot().unwrap()));
    assert_eq!(deserialized.get_total_count(), (1 << 42) + 3);
    assert_eq!(deserialized.get_count_at_index(500), Some(1 << 42));
    assert_eq!(deserialized.get_max_value(), histogram.get_max_value());
    assert_eq!(
        deserialized.get_min_non_zero_value(),
        histogram.get_min_non_zero_value()
    );
}

#[test]
fn test_resizable_histogram_encoding() {
    let mut histogram = ResizableHistogram::new(3).unwrap();
    assert!(histogram.record_value(10000000).is_ok());
    assert!(histogram.record_value(1024).is_ok());
    assert!(histogram.record_value(0).is_ok());
    assert!(histogram.record_value_with_count(500, 1 << 42).is_ok());

    let (serialized, _) = histogram.serialize().unwrap();
    let deserialized = ResizableHistogram::deserialize_from(&serialized, 0).unwrap();

    assert!(histogram.equals(&deserialized));
    assert!(deserialized.is_auto_resize());
    assert_eq!(deserialized.get_total_count(), (1 << 42) + 3);

    let (compressed, _) = histogram.serialize_compressed().unwrap();
    let inflated = ResizableHistogram::deserialize_from_compressed(&compressed, 0).unwrap();
    assert!(histogram.equals(&inflated));
}

#[test]
fn counts_are_taken_out_and_put_in_slot_by_slot() {
    let mut histogram = Histogram::with_low_high_sigvdig(1, 2047, 3).unwrap();
    assert!(histogram.record_value(3).is_ok());
    assert!(histogram.record_value_with_count(5, 2).is_ok());
    let length = histogram.counts_array_length();
    assert_eq!(histogram.get_counts_slice(6), Some(vec![0, 0, 0, 1, 0, 2]));
    assert_eq!(histogram.get_counts_slice(length + 1), None);
    let all = histogram.get_counts_slice(length).unwrap();
    assert_eq!(all.len(), length as usize);

    let mut counts: Vec<u64> = vec![0; length as usize];
    counts[7] = 4;
    counts[100] = 1;
    histogram.put_counts_slice(counts);
    assert_eq!(histogram.get_total_count(), 5);
    assert_eq!(histogram.get_count_at_value(7), Some(4));
    assert_eq!(histogram.get_count_at_value(3), Some(0));
    assert_eq!(histogram.get_max_value(), 100);
    assert_eq!(histogram.get_min_non_zero_value(), 7);

    let mut growing = ResizableHistogram::with_low_high_sigvdig(1, 2047, 3).unwrap();
    assert!(growing.record_value(9).is_ok());
    assert_eq!(
        growing.get_counts_slice(10),
        Some(vec![0, 0, 0, 0, 0, 0, 0, 0, 0, 1])
    );
}
