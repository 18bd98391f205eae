//! The standard compressor, as an alternative to the one of this crate.

use vstd::prelude::*;

verus! {

/// The error of a writer of `std::io`. Nothing is known of its contents.
#[verifier::external_type_specification]
#[verifier::external_body]
pub struct ExIoError(std::io::Error);

/// The zlib stream that `flate2` writes for `data` at its default level.
pub uninterp spec fn zlib_stream(data: Seq<u8>) -> Seq<u8>;

/// Compresses `data` into a zlib stream in memory.
///
/// Writes all of `data` to a `flate2::write::ZlibEncoder` over an empty
/// `Vec<u8>`, made with `flate2::Compression::default()`, and finishes it.
/// Trusted: where the encoder reports no error, the bytes it leaves in the
/// vector depend on nothing but `data`. Whether it reports one is left open.
#[verifier::external_body]
pub(crate) fn zlib_compress(data: &[u8]) -> (stream: Result<Vec<u8>, std::io::Error>)
    ensures
        stream matches Ok(bytes) ==> bytes@ == zlib_stream(data@),
{
    let mut encoder = flate2::write::ZlibEncoder::new(Vec::new(), flate2::Compression::default());
    std::io::Write::write_all(&mut encoder, data)?;
    encoder.finish()
}

} // verus!
