//! The cookies that open an encoded histogram.

use vstd::prelude::*;

verus! {

/// The cookie base of the plain encoding.
pub const V2_ENCODING_COOKIE_BASE: u32 = 0x1c84_9303;

/// The cookie base of the compressed encoding.
pub const V2_COMPRESSED_ENCODING_COOKIE_BASE: u32 = 0x1c84_9304;

/// The bits of a cookie that tell the word size of the counts.
pub const COOKIE_WORD_SIZE_BITS: u32 = 0xf0;

/// The cookie of a plain encoding.
pub fn get_encoding_cookie() -> (r: u32)
    ensures
        r == 0x1c84_9313u32,
        spec_cookie_base(r) == V2_ENCODING_COOKIE_BASE,
{
    assert(0x1c84_9303u32 | 0x10u32 == 0x1c84_9313u32) by (bit_vector);
    assert(0x1c84_9313u32 & !0xf0u32 == 0x1c84_9303u32) by (bit_vector);
    V2_ENCODING_COOKIE_BASE | 0x10
}

/// The cookie of a compressed encoding.
pub fn get_compressed_encoding_cookie() -> (r: u32)
    ensures
        r == 0x1c84_9314u32,
        spec_cookie_base(r) == V2_COMPRESSED_ENCODING_COOKIE_BASE,
{
    assert(0x1c84_9304u32 | 0x10u32 == 0x1c84_9314u32) by (bit_vector);
    assert(0x1c84_9314u32 & !0xf0u32 == 0x1c84_9304u32) by (bit_vector);
    V2_COMPRESSED_ENCODING_COOKIE_BASE | 0x10
}

/// A cookie without its word size bits.
pub open spec fn spec_cookie_base(cookie: u32) -> u32 {
    cookie & !0xf0u32
}

/// A cookie without its word size bits.
pub fn get_cookie_base(cookie: u32) -> (r: u32)
    ensures
        r == spec_cookie_base(cookie),
{
    cookie & !COOKIE_WORD_SIZE_BITS
}

} // verus!
