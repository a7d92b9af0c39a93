//! The measures of the encoded form.

use vstd::prelude::*;

verus! {

/// The number of bytes before the counts: the cookie, the length of the
/// payload, the normalizing index offset and the number of significant digits
/// with four bytes each, and the lowest discernible value, the highest
/// trackable value and the conversion ratio with eight bytes each.
pub const ENCODING_HEADER_SIZE: u32 = 40;

/// The number of bytes that a count takes at most.
pub const MAX_BYTES_OF_A_COUNT: u32 = 9;

/// The conversion ratio 1 of an integer histogram, as the bits of a
/// floating-point number of 64 bits.
pub const CONVERSION_RATIO_ONE: u64 = 0x3ff0_0000_0000_0000;

} // verus!
