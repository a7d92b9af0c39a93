//! What a histogram carries besides its counts: the interval it covers and a
//! tag.

use vstd::prelude::*;
use std::time::SystemTime;

verus! {

/// A point in time of the system clock. Nothing is known of what it holds.
#[verifier::external_type_specification]
#[verifier::external_body]
pub struct ExSystemTime(SystemTime);

/// Reads the system clock with `SystemTime::now`. The result depends on the
/// moment of the call, so nothing is claimed of it.
#[verifier::external_body]
fn system_time_now() -> SystemTime {
    SystemTime::now()
}

/// The start and end of the interval that a histogram covers, and its tag.
pub struct HistogramMetaData {
    pub start_timestamp: Option<SystemTime>,
    pub end_timestamp: Option<SystemTime>,
    pub tag: Option<String>,
}

impl HistogramMetaData {
    /// Whether neither a timestamp nor a tag is set.
    pub open spec fn is_clear(&self) -> bool {
        &&& self.start_timestamp is None
        &&& self.end_timestamp is None
        &&& self.tag is None
    }

    /// Meta data with nothing set.
    pub fn new() -> (r: HistogramMetaData)
        ensures
            r.is_clear(),
    {
        HistogramMetaData { start_timestamp: None, end_timestamp: None, tag: None }
    }

    /// Unsets both timestamps and the tag.
    pub fn clear(&mut self)
        ensures
            final(self).is_clear(),
    {
        self.start_timestamp = None;
        self.end_timestamp = None;
        self.tag = None;
    }

    /// Sets the start of the interval.
    pub fn set_start_timestamp(&mut self, time: SystemTime)
        ensures
            final(self).start_timestamp == Some(time),
            final(self).end_timestamp == old(self).end_timestamp,
            final(self).tag == old(self).tag,
    {
        self.start_timestamp = Some(time);
    }

    /// Sets the end of the interval.
    pub fn set_end_timestamp(&mut self, time: SystemTime)
        ensures
            final(self).end_timestamp == Some(time),
            final(self).start_timestamp == old(self).start_timestamp,
            final(self).tag == old(self).tag,
    {
        self.end_timestamp = Some(time);
    }

    /// Sets the tag.
    pub fn set_tag_string(&mut self, tag_string: String)
        ensures
            final(self).tag == Some(tag_string),
            final(self).start_timestamp == old(self).start_timestamp,
            final(self).end_timestamp == old(self).end_timestamp,
    {
        self.tag = Some(tag_string);
    }

    /// Sets the start of the interval to the present moment.
    pub fn set_start_now(&mut self)
        ensures
            final(self).start_timestamp is Some,
            final(self).end_timestamp == old(self).end_timestamp,
            final(self).tag == old(self).tag,
    {
        self.start_timestamp = Some(system_time_now());
    }

    /// Sets the end of the interval to the present moment.
    pub fn set_end_now(&mut self)
        ensures
            final(self).end_timestamp is Some,
            final(self).start_timestamp == old(self).start_timestamp,
            final(self).tag == old(self).tag,
    {
        self.end_timestamp = Some(system_time_now());
    }
}

} // verus!
