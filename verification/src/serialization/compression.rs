//! The compressed form of an encoded histogram: the cookie of the compressed
//! encoding, the number of compressed bytes, and the bytes of the plain
//! encoding as a zlib stream.

use vstd::prelude::*;
use vstd::arithmetic::power2::{lemma2_to64, lemma_pow2_unfold, pow2};
use crate::errors::{DeserializationError, SerializationError};
use crate::serialization::big_endian::{be_u32, put_be_u32};
use crate::serialization::cookie::{get_cookie_base, spec_cookie_base, V2_COMPRESSED_ENCODING_COOKIE_BASE, V2_ENCODING_COOKIE_BASE};

verus! {

/// The level at which the encoding is compressed.
pub const DEFAULT_COMPRESSION_LEVEL: u8 = 6;

/// The number of bytes before the compressed bytes: the cookie and the number
/// of compressed bytes.
pub const COMPRESSED_HEADER_SIZE: usize = 8;

/// What went wrong in `miniz_oxide::inflate::decompress_to_vec_zlib`.
#[verifier::external_type_specification]
#[verifier::external_body]
pub struct ExDecompressError(miniz_oxide::inflate::DecompressError);

/// The zlib stream that `miniz_oxide::deflate::compress_to_vec_zlib` makes of
/// `input` at compression level `level`.
pub uninterp spec fn zlib_compressed(input: Seq<u8>, level: u8) -> Seq<u8>;

/// The bytes that `miniz_oxide::inflate::decompress_to_vec_zlib` reads out of
/// the zlib stream `input`; none where it refuses the stream.
pub uninterp spec fn zlib_decompressed(input: Seq<u8>) -> Option<Seq<u8>>;

/// Calls `miniz_oxide::deflate::compress_to_vec_zlib`. The contract only gives
/// the result its name: nothing is claimed of the bytes but that they depend
/// on the input and the level alone.
#[verifier::external_body]
pub(crate) fn zlib_compress(input: &[u8], level: u8) -> (r: Vec<u8>)
    ensures
        r@ == zlib_compressed(input@, level),
{
    miniz_oxide::deflate::compress_to_vec_zlib(input, level)
}

/// Calls `miniz_oxide::inflate::decompress_to_vec_zlib`. The contract only
/// gives the result its name: the bytes where the call succeeds, none where it
/// fails.
#[verifier::external_body]
pub(crate) fn zlib_decompress(input: &[u8]) -> (r: Result<
    Vec<u8>,
    miniz_oxide::inflate::DecompressError,
>)
    ensures
        match r {
            Ok(bytes) => zlib_decompressed(input@) == Some(bytes@),
            Err(_) => zlib_decompressed(input@) is None,
        },
{
    miniz_oxide::inflate::decompress_to_vec_zlib(input)
}

/// The compressed form around the compressed bytes `compressed`.
pub open spec fn framed(cookie: u32, compressed: Seq<u8>) -> Seq<u8> {
    be_u32(cookie) + be_u32(compressed.len() as u32) + compressed
}

/// Writes the compressed form around `compressed` behind the bytes of
/// `buffer`, which has room for `capacity` more bytes, and gives the number of
/// bytes written. Fails, and writes nothing, where the room is too small or
/// the number of compressed bytes does not fit in 32 bits.
pub fn frame_compressed(
    buffer: &mut Vec<u8>,
    capacity: usize,
    cookie: u32,
    compressed: &Vec<u8>,
) -> (r: Result<usize, SerializationError>)
    ensures
        match r {
            Ok(written) => {
                &&& compressed@.len() + 8 <= capacity
                &&& compressed@.len() <= u32::MAX
                &&& written == compressed@.len() + 8
                &&& final(buffer)@ == old(buffer)@ + framed(cookie, compressed@)
            },
            Err(e) => {
                &&& e == SerializationError::CompressedBufferCapacityInsufficient
                &&& compressed@.len() + 8 > capacity || compressed@.len() > u32::MAX
                &&& final(buffer)@ == old(buffer)@
            },
        },
{
    let length: usize = compressed.len();
    if capacity < COMPRESSED_HEADER_SIZE || length > capacity - COMPRESSED_HEADER_SIZE || length
        > 0xffff_ffff {
        return Err(SerializationError::CompressedBufferCapacityInsufficient);
    }
    put_be_u32(buffer, cookie);
    put_be_u32(buffer, length as u32);
    let mut i: usize = 0;
    while i < length
        invariant
            length == compressed@.len(),
            i <= length,
            buffer@ == old(buffer)@ + be_u32(cookie) + be_u32(length as u32)
                + compressed@.subrange(0, i as int),
        decreases length - i,
    {
        buffer.push(compressed[i]);
        i = i + 1;
        assert(buffer@ =~= old(buffer)@ + be_u32(cookie) + be_u32(length as u32)
            + compressed@.subrange(0, i as int));
    }
    assert(compressed@.subrange(0, length as int) =~= compressed@);
    assert(buffer@ =~= old(buffer)@ + framed(cookie, compressed@));
    Ok(length + COMPRESSED_HEADER_SIZE)
}

/// Whether `capacity` is the lowest power of two that is at least twice
/// `length`.
pub open spec fn is_decompression_buf_capacity(length: u32, capacity: nat) -> bool {
    exists|k: nat|
        capacity == #[trigger] pow2(k) && capacity >= 2 * length && (k == 0 || pow2(
            (k - 1) as nat,
        ) < 2 * length)
}

/// The room to begin with for the bytes behind `length_of_compressed`
/// compressed bytes: the lowest power of two that is at least twice as much.
pub fn get_decompression_buf_capacity(length_of_compressed: u32) -> (r: usize)
    requires
        length_of_compressed <= 0x4000_0000,
    ensures
        is_decompression_buf_capacity(length_of_compressed, r as nat),
{
    let target: u64 = 2 * (length_of_compressed as u64);
    let mut cap: u64 = 1;
    let ghost mut k: nat = 0;
    proof {
        lemma2_to64();
    }
    while cap < target
        invariant
            target == 2 * length_of_compressed,
            target <= 0x8000_0000,
            cap == pow2(k),
            1 <= cap <= 0x8000_0000,
            k == 0 || pow2((k - 1) as nat) < target,
            k <= 31,
        decreases 31 - k,
    {
        proof {
            lemma_pow2_unfold(k + 1);
            lemma2_to64();
            if k >= 31 {
                crate::bits::lemma_pow2_monotone(31, k);
            }
            crate::bits::lemma_pow2_monotone(k + 1, 31);
        }
        cap = cap * 2;
        proof {
            k = k + 1;
        }
    }
    cap as usize
}

/// Whether the bytes behind `cookie` are compressed: they are for the cookie
/// of the compressed encoding, they are not for the cookie of the plain
/// encoding, and any other cookie is refused.
pub fn check_cookie(cookie: u32) -> (r: Result<bool, DeserializationError>)
    ensures
        r == (if spec_cookie_base(cookie) == V2_ENCODING_COOKIE_BASE {
            Ok::<bool, DeserializationError>(false)
        } else if spec_cookie_base(cookie) == V2_COMPRESSED_ENCODING_COOKIE_BASE {
            Ok::<bool, DeserializationError>(true)
        } else {
            Err::<bool, DeserializationError>(DeserializationError::CompressionFormatNotRecognized)
        }),
{
    let cookie_base = get_cookie_base(cookie);
    if cookie_base == V2_ENCODING_COOKIE_BASE {
        Ok(false)
    } else if cookie_base == V2_COMPRESSED_ENCODING_COOKIE_BASE {
        Ok(true)
    } else {
        Err(DeserializationError::CompressionFormatNotRecognized)
    }
}

} // verus!
