//! GZip compression and decompression, supplied by the `flate2` crate
//! behind trusted wrappers.

use vstd::prelude::*;

verus! {

/// First magic byte of a GZip stream.
pub const GZIP_MAGIC_0: u8 = 0x1f;

/// Second magic byte of a GZip stream.
pub const GZIP_MAGIC_1: u8 = 0x8b;

/// What decompressing a byte sequence as a GZip stream yields: the
/// decompressed bytes, or nothing when the bytes are not a well-formed
/// stream. Decompression is a pure function of the input bytes.
pub uninterp spec fn gunzip_of(compressed: Seq<u8>) -> Option<Seq<u8>>;

/// Relies on flate2's `write::GzEncoder` with `Compression::best` and the
/// default header (zero mtime, fixed operating-system byte): the output
/// starts with the two GZip magic bytes and a 10-byte header, and feeding
/// it back through flate2's decoder yields the input again. Writing into
/// a growable buffer cannot hit an I/O error and the encoder itself has
/// no failing path there, so compression always succeeds.
#[verifier::external_body]
pub fn gzip_compress(bytes: &[u8]) -> (r: Option<Vec<u8>>)
    ensures
        r is Some,
        match r {
            Some(z) => {
                &&& z@.len() >= 10
                &&& z@[0] == GZIP_MAGIC_0
                &&& z@[1] == GZIP_MAGIC_1
                &&& gunzip_of(z@) == Some(bytes@)
            },
            None => true,
        },
{
    let mut encoder = flate2::write::GzEncoder::new(Vec::new(), flate2::Compression::best());
    match std::io::Write::write_all(&mut encoder, bytes) {
        Ok(()) => encoder.finish().ok(),
        Err(_) => None,
    }
}

/// Relies on flate2's `bufread::GzDecoder`: reading it to the end yields
/// the decompressed stream, or an error when the input is not well-formed
/// GZip; either way the result is a function of the input bytes alone.
#[verifier::external_body]
pub fn gzip_decompress(compressed_bytes: &[u8]) -> (r: Option<Vec<u8>>)
    ensures
        match r {
            Some(b) => gunzip_of(compressed_bytes@) == Some(b@),
            None => gunzip_of(compressed_bytes@) is None,
        },
{
    let mut decoder = flate2::bufread::GzDecoder::new(compressed_bytes);
    let mut buf = Vec::new();
    match std::io::Read::read_to_end(&mut decoder, &mut buf) {
        Ok(_) => Some(buf),
        Err(_) => None,
    }
}

} // verus!
