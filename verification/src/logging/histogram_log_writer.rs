//! The parts of a log entry that are worked out from the histogram.

use vstd::prelude::*;
use vstd::string::*;
use crate::errors::SerializationError;
use crate::meta_data::HistogramMetaData;
use crate::st::histogram_view::HistogramView;
use crate::serialization::serializable_histogram::{
    compressed_encoding_of, lemma_encoding_length, SerializableHistogram,
};

verus! {

/// Whether `c` parts the fields of a log entry or ends it.
pub open spec fn is_delimiter(c: char) -> bool {
    c == ',' || c == ' ' || c == '\r' || c == '\n'
}

/// Whether `text` holds a comma, a space or a line break.
pub open spec fn spec_has_delimiters(text: Seq<char>) -> bool {
    exists|i: int| 0 <= i < text.len() && is_delimiter(#[trigger] text[i])
}

/// Whether `text` holds a comma, a space or a line break.
pub fn has_delimiters(text: &str) -> (r: bool)
    ensures
        r == spec_has_delimiters(text@),
{
    let length = text.unicode_len();
    let mut i: usize = 0;
    while i < length
        invariant
            length == text@.len(),
            i <= length,
            forall|j: int| 0 <= j < i ==> !is_delimiter(#[trigger] text@[j]),
        decreases length - i,
    {
        let c = text.get_char(i);
        if c == ',' || c == ' ' || c == '\r' || c == '\n' {
            return true;
        }
        i = i + 1;
    }
    false
}

/// The tag that a log entry of a histogram opens with: the tag of the
/// histogram, unless it holds a delimiter.
pub fn tag_to_log(meta_data: &HistogramMetaData) -> (r: Option<&String>)
    ensures
        match r {
            Some(tag) => meta_data.tag == Some(*tag) && !spec_has_delimiters(tag@),
            None => meta_data.tag matches Some(tag) ==> spec_has_delimiters(tag@),
        },
{
    match &meta_data.tag {
        Some(tag) => {
            if has_delimiters(tag.as_str()) {
                None
            } else {
                Some(tag)
            }
        },
        None => None,
    }
}

/// The text that `base64::encode_config` makes of `input` with the standard
/// alphabet and padding.
pub uninterp spec fn base64_standard(input: Seq<u8>) -> Seq<char>;

/// Calls `base64::encode_config` with the standard configuration. The
/// contract only gives the result its name. Inputs so long that four bytes
/// for every three do not fit in the machine's word are left out: the call
/// does not return for them.
#[verifier::external_body]
pub(crate) fn base64_encode(input: &[u8]) -> (r: String)
    requires
        input@.len() <= usize::MAX / 2,
    ensures
        r@ == base64_standard(input@),
{
    base64::encode_config(input, base64::STANDARD)
}

/// What the last field of the log entry of a histogram comes to: the
/// compressed encoding of the histogram in base64, or why there is none.
pub open spec fn is_log_field(view: HistogramView, r: Result<String, SerializationError>) -> bool {
    match r {
        Ok(text) => compressed_encoding_of(view) matches Some(bytes) && text@ == base64_standard(
            bytes,
        ),
        Err(e) => match compressed_encoding_of(view) {
            None => e == SerializationError::ValueNotLEBEncodable,
            Some(bytes) => e == SerializationError::CompressedBufferCapacityInsufficient
                && bytes.len() > view.counts.len() * 9 + 40,
        },
    }
}

/// The last field of the log entry of a histogram: its compressed encoding
/// in base64.
pub fn encode_interval_histogram<H: SerializableHistogram>(histogram: &mut H) -> (r: Result<
    String,
    SerializationError,
>)
    requires
        old(histogram).readable_wf(),
    ensures
        final(histogram).readable_wf(),
        final(histogram).readable_view() == old(histogram).readable_view(),
        is_log_field(old(histogram).readable_view(), r),
{
    proof {
        histogram.lemma_readable();
        lemma_encoding_length(histogram.readable_view());
    }
    match histogram.serialize_compressed() {
        Ok((bytes, _)) => Ok(base64_encode(bytes.as_slice())),
        Err(e) => Err(e),
    }
}

} // verus!
