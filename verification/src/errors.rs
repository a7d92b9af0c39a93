//! Error values of the histogram operations.

use vstd::prelude::*;

verus! {

/// Why a histogram geometry could not be built.
#[derive(Clone, Copy, Debug, PartialEq, Eq, Structural)]
pub enum CreationError {
    /// The lowest discernible value is zero.
    LowIsZero,
    /// The lowest discernible value is above `u64::MAX / 2`.
    LowGtMax,
    /// The highest trackable value is below twice the lowest discernible one.
    HighLt2Low,
    /// More than five significant decimal digits were asked for.
    SignificantValueDigitsExceedsMax,
    /// Unit magnitude and sub-bucket magnitude together need more than 63 bits.
    CantReprSigDigitsLtLowestDiscernible,
    /// The counts array would be longer than `i32::MAX` slots.
    RequiresExcessiveArrayLen,
}

/// Why one histogram could not be subtracted from another.
#[derive(Clone, Copy, Debug, PartialEq, Eq, Structural)]
pub enum SubtractionError {
    /// The subtrahend holds a value beyond the range of the minuend.
    ValueOutOfRange,
    /// Some slot of the subtrahend holds more than the minuend does there.
    CountExceededAtValue,
}

/// Why a value could not be recorded.
#[derive(Clone, Copy, Debug, PartialEq, Eq, Structural)]
pub enum RecordError {
    /// The value lies beyond the counts array and the histogram does not grow.
    ValueOutOfRangeResizeDisabled,
    /// The histogram tried to grow and the new geometry was refused.
    ResizeFailed(CreationError),
}

/// Why the tracked range could not be shifted.
#[derive(Clone, Copy, Debug, PartialEq, Eq, Structural)]
pub enum ShiftError {
    /// A right shift would push recorded values below the lowest bucket.
    ShiftUnderflow,
    /// A left shift would push recorded values off the top of the array.
    ShiftOverflow,
}

/// Why a histogram could not be encoded.
#[derive(Clone, Copy, Debug, PartialEq, Eq, Structural)]
pub enum SerializationError {
    /// A count has its highest bit set and cannot be written as a signed
    /// variable-length number.
    ValueNotLEBEncodable,
    /// The target buffer is too small for the encoding.
    BufferCapacityInsufficient,
    /// The target buffer is too small for the compressed encoding.
    CompressedBufferCapacityInsufficient,
}

/// Why an encoded histogram could not be read.
#[derive(Clone, Copy, Debug, PartialEq, Eq, Structural)]
pub enum DeserializationError {
    /// The header names a geometry that cannot be built.
    HistogramCreationFailed(CreationError),
    /// A count is beyond what a slot can hold.
    CountExceedsTypeMax,
    /// The payload holds more counts than the counts array has slots.
    PayloadExceededCountsArrayLength,
    /// The cookie is neither that of a plain nor that of a compressed encoding.
    CompressionFormatNotRecognized,
    /// The target buffer is too small for the decompressed bytes; the numbers
    /// are the bytes read and the bytes written so far.
    DecompressionBufferCapacityInsufficient(usize, usize),
    /// The compressed bytes are damaged.
    DecompressionFailed,
    /// The bytes end within the header or within a count.
    InputTruncated,
}

/// Why the histogram of a log entry could not be read.
#[derive(Clone, Copy, Debug, PartialEq, Eq, Structural)]
pub enum LogReadError {
    /// The bytes behind the text do not hold a histogram.
    DeserializationError(DeserializationError),
    /// The text is not base64.
    Base64DecodingError,
}

/// Why a floating-point histogram could not be built.
#[derive(Clone, Copy, Debug, PartialEq, Eq, Structural)]
pub enum DoubleCreationError {
    /// The ratio of the highest to the lowest value is below 2.
    HighestToLowestValueRatioTooSmall,
    /// The ratio, times ten to the number of significant digits, does not fit
    /// in 61 bits.
    HighestToLowestValueRatioTooLarge,
    /// More than five significant decimal digits were asked for.
    SignificantValueDigitsExceedsMax,
    /// The geometry of the integer histogram inside was refused.
    Internal(CreationError),
}

} // verus!
