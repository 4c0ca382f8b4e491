//! Trusted boundary to the LZ4 implementation. A block frame is the LZ4
//! compression of the serialized block with the uncompressed size prepended
//! as a little-endian 32-bit integer.

use vstd::prelude::*;

verus! {

/// The frame that LZ4 compression produces for a given byte string. The
/// result depends on the input bytes alone.
pub uninterp spec fn lz4_of(bytes: Seq<u8>) -> Seq<u8>;

/// The error LZ4 decompression reports for undecodable input.
#[verifier::external_type_specification]
#[verifier::external_body]
pub struct ExDecompressError(lz4_flex::block::DecompressError);

/// Relies on lz4_flex::compress_prepend_size: compresses the input and
/// prepends the uncompressed size as a little-endian u32. The result is a
/// function of the input bytes alone, and its length is bounded by the four
/// prefix bytes plus lz4_flex's get_maximum_output_size bound of
/// 20 + n + n/10 for n input bytes.
#[verifier::external_body]
pub fn lz4_compress(input: &Vec<u8>) -> (r: Vec<u8>)
    requires
        input@.len() <= 0xFFFF_FFFF,
    ensures
        r@ == lz4_of(input@),
        r@.len() <= 24 + input@.len() + input@.len() / 10,
{
    lz4_flex::compress_prepend_size(input.as_slice())
}

/// Relies on lz4_flex::decompress_size_prepended: the inverse of
/// compress_prepend_size, so a frame that compress_prepend_size produced
/// decompresses to exactly the bytes that were compressed.
#[verifier::external_body]
pub fn lz4_decompress(input: &Vec<u8>) -> (r: Result<
    Vec<u8>,
    lz4_flex::block::DecompressError,
>)
    ensures
        forall|x: Seq<u8>|
            x.len() <= 0xFFFF_FFFF && input@ == lz4_of(x) ==> r is Ok && r->Ok_0@ == x,
{
    lz4_flex::decompress_size_prepended(input.as_slice())
}

} // verus!
