//! Decompression of downloaded bodies and gzip compression of uploaded
//! batches, through flate2, bzip2, xz2 and zstd.
use vstd::prelude::*;
use std::io::Read;
use std::io::Write;
use crate::format::CompressionType;

verus! {

/// What `flate2::read::GzDecoder` reads out of `data`: the decompressed
/// bytes, or the text of the I/O error that stopped it.
pub uninterp spec fn gzip_decoded(data: Seq<u8>) -> Result<Seq<u8>, Seq<char>>;

/// What `bzip2::read::BzDecoder` reads out of `data`, or its error text.
pub uninterp spec fn bzip2_decoded(data: Seq<u8>) -> Result<Seq<u8>, Seq<char>>;

/// What `xz2::read::XzDecoder` reads out of `data`, or its error text.
pub uninterp spec fn xz_decoded(data: Seq<u8>) -> Result<Seq<u8>, Seq<char>>;

/// What `zstd::stream::Decoder` reads out of `data`, or its error text.
pub uninterp spec fn zstd_decoded(data: Seq<u8>) -> Result<Seq<u8>, Seq<char>>;

/// What `flate2::write::GzEncoder` at the default level writes for `data`,
/// or its error text.
pub uninterp spec fn gzip_encoded(data: Seq<u8>) -> Result<Seq<u8>, Seq<char>>;

/// A byte buffer or an error message, as plain values.
pub open spec fn bytes_result(r: Result<Vec<u8>, String>) -> Result<Seq<u8>, Seq<char>> {
    match r {
        Ok(v) => Ok(v@),
        Err(m) => Err(m@),
    }
}

/// Reads `data` to its end through `flate2::read::GzDecoder`.
/// Claimed of flate2: the outcome depends on `data` alone.
#[verifier::external_body]
fn gzip_decode(data: &[u8]) -> (res: Result<Vec<u8>, String>)
    ensures
        bytes_result(res) == gzip_decoded(data@),
{
    let mut out = Vec::new();
    match flate2::read::GzDecoder::new(data).read_to_end(&mut out) {
        Ok(_) => Ok(out),
        Err(e) => Err(e.to_string()),
    }
}

/// Reads `data` to its end through `bzip2::read::BzDecoder`.
/// Claimed of bzip2: the outcome depends on `data` alone.
#[verifier::external_body]
fn bzip2_decode(data: &[u8]) -> (res: Result<Vec<u8>, String>)
    ensures
        bytes_result(res) == bzip2_decoded(data@),
{
    let mut out = Vec::new();
    match bzip2::read::BzDecoder::new(data).read_to_end(&mut out) {
        Ok(_) => Ok(out),
        Err(e) => Err(e.to_string()),
    }
}

/// Reads `data` to its end through `xz2::read::XzDecoder`.
/// Claimed of xz2: the outcome depends on `data` alone.
#[verifier::external_body]
fn xz_decode(data: &[u8]) -> (res: Result<Vec<u8>, String>)
    ensures
        bytes_result(res) == xz_decoded(data@),
{
    let mut out = Vec::new();
    match xz2::read::XzDecoder::new(data).read_to_end(&mut out) {
        Ok(_) => Ok(out),
        Err(e) => Err(e.to_string()),
    }
}

/// Reads `data` to its end through `zstd::stream::Decoder`; its creation
/// may fail too. Claimed of zstd: the outcome depends on `data` alone.
#[verifier::external_body]
fn zstd_decode(data: &[u8]) -> (res: Result<Vec<u8>, String>)
    ensures
        bytes_result(res) == zstd_decoded(data@),
{
    let mut decoder = match zstd::stream::Decoder::new(data) {
        Ok(d) => d,
        Err(e) => return Err(e.to_string()),
    };
    let mut out = Vec::new();
    match decoder.read_to_end(&mut out) {
        Ok(_) => Ok(out),
        Err(e) => Err(e.to_string()),
    }
}

/// Compresses `data` with `flate2::write::GzEncoder` at
/// `Compression::default()` into a fresh vector. Claimed of flate2: the
/// outcome depends on `data` alone, and a finished stream starts with its
/// ten-byte gzip header, whose first two bytes are 0x1f 0x8b.
#[verifier::external_body]
pub(crate) fn gzip_encode(data: &[u8]) -> (res: Result<Vec<u8>, String>)
    ensures
        bytes_result(res) == gzip_encoded(data@),
        res matches Ok(v) ==> v@.len() >= 10 && v@[0] == 0x1f && v@[1] == 0x8b,
{
    let mut gz = flate2::write::GzEncoder::new(Vec::new(), flate2::Compression::default());
    if let Err(e) = gz.write_all(data) {
        return Err(e.to_string());
    }
    match gz.finish() {
        Ok(v) => Ok(v),
        Err(e) => Err(e.to_string()),
    }
}

/// What decompressing `data` under `compression` gives: the data itself
/// when uncompressed, else the decoder's outcome.
pub open spec fn decompressed(compression: CompressionType, data: Seq<u8>) -> Result<Seq<u8>, Seq<char>> {
    match compression {
        CompressionType::Uncompressed => Ok(data),
        CompressionType::Gzip => gzip_decoded(data),
        CompressionType::Bzip2 => bzip2_decoded(data),
        CompressionType::Xz => xz_decoded(data),
        CompressionType::Zstd => zstd_decoded(data),
    }
}

/// Decompresses a whole downloaded body.
pub fn decompress_data(compression: CompressionType, data: Vec<u8>) -> (res: Result<Vec<u8>, String>)
    ensures
        bytes_result(res) == decompressed(compression, data@),
{
    match compression {
        CompressionType::Uncompressed => Ok(data),
        CompressionType::Gzip => gzip_decode(data.as_slice()),
        CompressionType::Bzip2 => bzip2_decode(data.as_slice()),
        CompressionType::Xz => xz_decode(data.as_slice()),
        CompressionType::Zstd => zstd_decode(data.as_slice()),
    }
}

} // verus!
