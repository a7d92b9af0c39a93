//! An entry of a log of interval histograms, and the histogram that its last
//! field holds.

use vstd::prelude::*;
use lazycell::LazyCell;
use std::time::SystemTime;
use crate::errors::{DeserializationError, LogReadError};
use crate::serialization::deserializable_histogram::{
    decoded_counts, holds_histogram, plain_encoding_in, DeserializableHistogram,
};
use crate::st::histogram::Histogram;

verus! {

/// Why `base64::decode` refused a text.
#[verifier::external_type_specification]
#[verifier::external_body]
pub struct ExDecodeError(base64::DecodeError);

/// The bytes that `base64::decode` reads out of `input`; none where it
/// refuses the text.
pub uninterp spec fn base64_decoded(input: Seq<u8>) -> Option<Seq<u8>>;

/// Calls `base64::decode`. The contract only gives the result its name: the
/// bytes where the call succeeds, none where it fails. Inputs within seven
/// bytes of the longest that the machine's word can count are left out: the
/// call does not return for them.
#[verifier::external_body]
pub(crate) fn base64_decode(input: &[u8]) -> (r: Result<Vec<u8>, base64::DecodeError>)
    requires
        input@.len() + 8 <= usize::MAX,
    ensures
        match r {
            Ok(bytes) => base64_decoded(input@) == Some(bytes@),
            Err(_) => base64_decoded(input@) is None,
        },
{
    base64::decode(input)
}

/// What reading the encoded bytes `decoded` of a log entry comes to.
pub open spec fn read_from_bytes(decoded: Seq<u8>, r: Result<Histogram, LogReadError>) -> bool {
    match (r, plain_encoding_in(decoded)) {
        (Ok(histogram), Ok(plain)) => histogram.wf() && holds_histogram(
            plain,
            0,
            histogram@,
            false,
        ),
        (Err(LogReadError::DeserializationError(e)), Ok(plain)) => decoded_counts(plain, 0)
            == Err::<Seq<u64>, DeserializationError>(e),
        (Err(LogReadError::DeserializationError(e)), Err(refused)) => e == refused,
        _ => false,
    }
}

/// What reading the last field `raw_histogram` of a log entry comes to: the
/// histogram that the bytes behind the base64 text hold, or why there is
/// none.
pub open spec fn read_from_field(raw_histogram: Seq<u8>, r: Result<Histogram, LogReadError>) -> bool {
    if raw_histogram.len() + 8 > usize::MAX {
        r matches Err(LogReadError::Base64DecodingError)
    } else {
        match base64_decoded(raw_histogram) {
            Some(decoded) => read_from_bytes(decoded, r),
            None => r matches Err(LogReadError::Base64DecodingError),
        }
    }
}

/// Reads the histogram out of the decoded last field of a log entry.
pub fn histogram_from_bytes(decoded: &[u8]) -> (r: Result<Histogram, LogReadError>)
    ensures
        read_from_bytes(decoded@, r),
{
    match Histogram::deserialize_from_compressed(decoded, 0) {
        Ok(histogram) => Ok(histogram),
        Err(e) => Err(LogReadError::DeserializationError(e)),
    }
}

/// A cell of the crate `lazycell`, which is empty until it is filled once.
#[verifier::external_type_specification]
#[verifier::external_body]
#[verifier::reject_recursive_types(T)]
pub struct ExLazyCell<T>(LazyCell<T>);

/// What the cell of a log entry holds: nothing until it is filled.
pub uninterp spec fn cell_holds(cell: LazyCell<Result<Histogram, LogReadError>>) -> Option<
    Result<Histogram, LogReadError>,
>;

/// Calls `LazyCell::new`, which makes a cell that holds nothing.
#[verifier::external_body]
fn empty_cell() -> (r: LazyCell<Result<Histogram, LogReadError>>)
    ensures
        cell_holds(r) is None,
{
    LazyCell::new()
}

/// Calls `LazyCell::borrow_with` with the reading of `raw_histogram` as the
/// function that fills the cell. The contract claims what the cell's
/// documentation says: a filled cell hands out what it holds and stays as it
/// is; an empty one is filled with what the function returns, here a reading
/// of the field, and hands that out. The function does not touch the cell,
/// so the call does not panic.
#[verifier::external_body]
fn borrow_or_read<'a>(
    cell: &'a mut LazyCell<Result<Histogram, LogReadError>>,
    raw_histogram: &[u8],
) -> (r: &'a Result<Histogram, LogReadError>)
    ensures
        cell_holds(*final(cell)) == Some(*r),
        cell_holds(*old(cell)) matches Some(held) ==> *r == held,
        cell_holds(*old(cell)) is None ==> read_from_field(raw_histogram@, *r),
{
    cell.borrow_with(|| LogEntry::deserialize_histogram(raw_histogram))
}

/// An entry of a log: the interval and the highest value that its first
/// fields give, the text of its last field, and the histogram that the text
/// holds once it was asked for.
pub struct LogEntry {
    start_time: SystemTime,
    end_time: SystemTime,
    max_value: u64,
    raw_histogram: Vec<u8>,
    histogram: LazyCell<Result<Histogram, LogReadError>>,
}

impl LogEntry {
    /// Whether the histogram, if it was read already, is the one that the
    /// last field holds.
    pub closed spec fn wf(&self) -> bool {
        cell_holds(self.histogram) matches Some(r) ==> read_from_field(self.raw_histogram@, r)
    }

    /// The text of the last field.
    pub closed spec fn spec_raw_histogram(&self) -> Seq<u8> {
        self.raw_histogram@
    }

    /// The start of the interval.
    pub closed spec fn spec_start_time(&self) -> SystemTime {
        self.start_time
    }

    /// The end of the interval.
    pub closed spec fn spec_end_time(&self) -> SystemTime {
        self.end_time
    }

    /// The highest value of the interval.
    pub closed spec fn spec_max_value(&self) -> u64 {
        self.max_value
    }

    /// An entry for an interval, with the highest value of the interval and
    /// the text of the last field.
    pub fn new(
        start_time: SystemTime,
        end_time: SystemTime,
        max_value: u64,
        raw_histogram: Vec<u8>,
    ) -> (r: LogEntry)
        ensures
            r.wf(),
            r.spec_raw_histogram() == raw_histogram@,
            r.spec_start_time() == start_time,
            r.spec_end_time() == end_time,
            r.spec_max_value() == max_value,
    {
        LogEntry { start_time, end_time, max_value, raw_histogram, histogram: empty_cell() }
    }

    /// The start of the interval.
    pub fn start_time(&self) -> (r: SystemTime)
        ensures
            r == self.spec_start_time(),
    {
        self.start_time
    }

    /// The end of the interval.
    pub fn end_time(&self) -> (r: SystemTime)
        ensures
            r == self.spec_end_time(),
    {
        self.end_time
    }

    /// The highest value of the interval.
    pub fn max_value(&self) -> (r: u64)
        ensures
            r == self.spec_max_value(),
    {
        self.max_value
    }

    /// Reads the histogram out of the last field `raw_histogram` of a log
    /// entry: base64 text of an encoding, compressed or not.
    pub fn deserialize_histogram(raw_histogram: &[u8]) -> (r: Result<Histogram, LogReadError>)
        ensures
            read_from_field(raw_histogram@, r),
    {
        if raw_histogram.len() > usize::MAX - 8 {
            return Err(LogReadError::Base64DecodingError);
        }
        match base64_decode(raw_histogram) {
            Ok(decoded) => histogram_from_bytes(decoded.as_slice()),
            Err(_) => Err(LogReadError::Base64DecodingError),
        }
    }

    /// The histogram of the entry. It is read when it is first asked for.
    pub fn histogram(&mut self) -> (r: &Result<Histogram, LogReadError>)
        requires
            old(self).wf(),
        ensures
            final(self).wf(),
            final(self).spec_raw_histogram() == old(self).spec_raw_histogram(),
            final(self).spec_start_time() == old(self).spec_start_time(),
            final(self).spec_end_time() == old(self).spec_end_time(),
            final(self).spec_max_value() == old(self).spec_max_value(),
            read_from_field(old(self).spec_raw_histogram(), *r),
    {
        borrow_or_read(&mut self.histogram, self.raw_histogram.as_slice())
    }
}

} // verus!
