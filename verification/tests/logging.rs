use hdrhistogram::errors::{DeserializationError, LogReadError, SerializationError};
use hdrhistogram::logging::histogram_log_reader::{histogram_from_bytes, LogEntry};
use hdrhistogram::logging::histogram_log_writer::{
    encode_interval_histogram, has_delimiters, tag_to_log,
};
use hdrhistogram::meta_data::HistogramMetaData;
use hdrhistogram::serialization::compression::get_decompression_buf_capacity;
use hdrhistogram::serialization::serializable_histogram::SerializableHistogram;
use hdrhistogram::st::histogram::Histogram;
use std::time::{Duration, SystemTime, UNIX_EPOCH};

fn sample_histogram() -> Histogram {
    let mut histogram = Histogram::with_high_sigvdig(274877906943, 3).unwrap();
    assert!(histogram.record_value(6147).is_ok());
    assert!(histogram.record_value(1024).is_ok());
    assert!(histogram.record_value(0).is_ok());
    histogram
}

#[test]
fn delimiters_are_comma_space_and_line_breaks() {
    assert!(!has_delimiters(""));
    assert!(!has_delimiters("interval-7"));
    assert!(has_delimiters("a,b"));
    assert!(has_delimiters("a b"));
    assert!(has_delimiters("line\n"));
    assert!(has_delimiters("\rline"));
    assert!(!has_delimiters("tab\there"));
    assert!(!has_delimiters("größe"));
}

#[test]
fn tag_with_a_delimiter_is_not_logged() {
    let mut meta_data = HistogramMetaData::new();
    assert_eq!(tag_to_log(&meta_data), None);
    meta_data.set_tag_string(String::from("writer-1"));
    assert_eq!(tag_to_log(&meta_data), Some(&String::from("writer-1")));
    meta_data.set_tag_string(String::from("writer 1"));
    assert_eq!(tag_to_log(&meta_data), None);
}

#[test]
fn log_field_is_base64_of_the_compressed_encoding() {
    let mut histogram = sample_histogram();
    let text = encode_interval_histogram(&mut histogram).unwrap();
    // The cookie of the compressed encoding and three zero bytes of the
    // length make the same eight letters in every log.
    assert!(text.starts_with("HISTFAAA"), "{}", text);
    assert_eq!(text.len() % 4, 0);
    let (compressed, _) = histogram.serialize_compressed().unwrap();
    assert_eq!(text.len(), (compressed.len() + 2) / 3 * 4);

    let read = LogEntry::deserialize_histogram(text.as_bytes()).unwrap();
    assert!(read.equals(&histogram));
    assert_eq!(read.get_total_count(), 3);
}

#[test]
fn base64_of_known_bytes() {
    // An empty histogram of the least geometry has a plain encoding of 40
    // bytes; the text of its first three bytes is known.
    let mut histogram = Histogram::with_low_high_sigvdig(1, 2, 0).unwrap();
    let (plain, _) = histogram.serialize().unwrap();
    assert_eq!(&plain[..3], &[0x1c, 0x84, 0x93]);
    let text = encode_interval_histogram(&mut histogram).unwrap();
    assert_eq!(&text[..4], "HIST");
}

#[test]
fn log_entry_reads_its_histogram_once_asked() {
    let mut histogram = sample_histogram();
    let text = encode_interval_histogram(&mut histogram).unwrap();
    let start = UNIX_EPOCH + Duration::from_secs(5);
    let end = UNIX_EPOCH + Duration::from_secs(6);
    let mut entry = LogEntry::new(start, end, 6147, text.into_bytes());
    assert_eq!(entry.start_time(), start);
    assert_eq!(entry.end_time(), end);
    assert_eq!(entry.max_value(), 6147);
    match entry.histogram() {
        Ok(read) => assert!(read.equals(&histogram)),
        Err(_) => panic!("the entry holds a histogram"),
    }
    match entry.histogram() {
        Ok(read) => assert_eq!(read.get_total_count(), 3),
        Err(_) => panic!("the entry holds a histogram"),
    }
}

#[test]
fn log_entry_refuses_what_is_no_base64() {
    let now = SystemTime::now();
    let mut entry = LogEntry::new(now, now, 0, b"not base64!".to_vec());
    assert!(matches!(
        entry.histogram(),
        Err(LogReadError::Base64DecodingError)
    ));
    assert_eq!(
        LogEntry::deserialize_histogram(b"HIST").err(),
        Some(LogReadError::DeserializationError(
            DeserializationError::InputTruncated
        ))
    );
    // "AAAAAAAAAAAA" stands for nine zero bytes: no cookie.
    assert_eq!(
        LogEntry::deserialize_histogram(b"AAAAAAAAAAAA").err(),
        Some(LogReadError::DeserializationError(
            DeserializationError::CompressionFormatNotRecognized
        ))
    );
}

#[test]
fn histogram_from_plain_and_compressed_bytes() {
    let mut histogram = sample_histogram();
    let (plain, _) = histogram.serialize().unwrap();
    let (compressed, _) = histogram.serialize_compressed().unwrap();
    assert!(histogram_from_bytes(&plain).unwrap().equals(&histogram));
    assert!(histogram_from_bytes(&compressed).unwrap().equals(&histogram));
}

#[test]
fn log_field_of_a_count_that_cannot_be_written() {
    let mut histogram = Histogram::with_low_high_sigvdig(1, 2047, 3).unwrap();
    assert!(histogram.record_value_with_count(10, 1 << 63).is_ok());
    assert_eq!(
        encode_interval_histogram(&mut histogram).err(),
        Some(SerializationError::ValueNotLEBEncodable)
    );
}

#[test]
fn decompression_buffer_begins_at_a_power_of_two() {
    assert_eq!(get_decompression_buf_capacity(0), 1);
    assert_eq!(get_decompression_buf_capacity(1), 2);
    assert_eq!(get_decompression_buf_capacity(2), 4);
    assert_eq!(get_decompression_buf_capacity(3), 8);
    assert_eq!(get_decompression_buf_capacity(4), 8);
    assert_eq!(get_decompression_buf_capacity(1000), 2048);
    assert_eq!(get_decompression_buf_capacity(1024), 2048);
    assert_eq!(get_decompression_buf_capacity(1025), 4096);
    assert_eq!(get_decompression_buf_capacity(0x4000_0000), 0x8000_0000);
}
