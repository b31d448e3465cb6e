//! The compression layer: brotli, applied to the bytes of strings.
use vstd::prelude::*;

verus! {

/// What `brotli::BrotliCompress` writes for `data` at the quality `quality` with all other
/// parameters at their defaults, or `None` where it reports an error.
pub uninterp spec fn brotli_compressed(data: Seq<u8>, quality: int) -> Option<Seq<u8>>;

/// What `brotli::BrotliDecompress` writes for `data`, or `None` where it reports an error,
/// as it does for bytes that are no brotli stream.
pub uninterp spec fn brotli_decompressed(data: Seq<u8>) -> Option<Seq<u8>>;

/// Calls `brotli::BrotliCompress` on a whole buffer.
///
/// Trusted: the result is the compressor's output, which [`brotli_compressed`] names. The
/// compressor is built so that it computes the same bytes on every machine.
#[verifier::external_body]
pub(crate) fn compress(data: &[u8], quality: i32) -> (r: Option<Vec<u8>>)
    ensures
        r matches Some(out) ==> brotli_compressed(data@, quality as int) == Some(out@),
        r is None ==> brotli_compressed(data@, quality as int) is None,
{
    let mut out = Vec::new();
    let params = brotli::enc::BrotliEncoderParams { quality, ..Default::default() };
    match brotli::BrotliCompress(&mut &data[..], &mut out, &params) {
        Ok(_) => Some(out),
        Err(_) => None,
    }
}

/// Calls `brotli::BrotliDecompress` on a whole buffer.
///
/// Trusted: the result is the decompressor's output, which [`brotli_decompressed`] names.
#[verifier::external_body]
pub(crate) fn decompress(data: &[u8]) -> (r: Option<Vec<u8>>)
    ensures
        r matches Some(out) ==> brotli_decompressed(data@) == Some(out@),
        r is None ==> brotli_decompressed(data@) is None,
{
    let mut out = Vec::new();
    match brotli::BrotliDecompress(&mut &data[..], &mut out) {
        Ok(_) => Some(out),
        Err(_) => None,
    }
}

} // verus!
