//! Document formats and compressions, and how a download's URL, its
//! content type and its first bytes decide them.
use vstd::prelude::*;
use crate::text::{chars_of, contains_chars, ends_with_chars, has_infix, has_suffix};

verus! {

/// The document formats that can be imported.
#[derive(Debug, Clone, Copy, PartialEq, Eq, Structural)]
pub enum Mime {
    Json,
    NdJson,
    Csv,
}

impl Mime {
    /// The content type under which documents of this format are sent.
    pub open spec fn content_type(self) -> Seq<char> {
        match self {
            Mime::Json => "application/json"@,
            Mime::NdJson => "application/x-ndjson"@,
            Mime::Csv => "text/csv"@,
        }
    }

    /// The content type under which documents of this format are sent.
    pub fn as_str(&self) -> (s: &'static str)
        ensures
            s@ == self.content_type(),
    {
        match self {
            Mime::Json => "application/json",
            Mime::NdJson => "application/x-ndjson",
            Mime::Csv => "text/csv",
        }
    }
}

/// The compressions that a download may carry.
#[derive(Debug, Clone, Copy, PartialEq, Eq, Structural)]
pub enum CompressionType {
    Uncompressed,
    Gzip,
    Bzip2,
    Xz,
    Zstd,
}

/// The format of a download: the content type decides first (JSON, then
/// CSV, then NDJSON); otherwise the URL's extension; JSON when neither tells.
pub open spec fn format_of(url: Seq<char>, content_type: Seq<char>) -> Mime {
    if has_infix(content_type, "application/json"@) {
        Mime::Json
    } else if has_infix(content_type, "text/csv"@) {
        Mime::Csv
    } else if has_infix(content_type, "application/x-ndjson"@) {
        Mime::NdJson
    } else if has_suffix(url, ".json"@) {
        Mime::Json
    } else if has_suffix(url, ".ndjson"@) || has_suffix(url, ".jsonl"@) {
        Mime::NdJson
    } else if has_suffix(url, ".csv"@) {
        Mime::Csv
    } else {
        Mime::Json
    }
}

/// `first` begins with the bytes of `magic`.
pub open spec fn starts_with_bytes(first: Seq<u8>, magic: Seq<u8>) -> bool {
    magic.len() <= first.len() && first.subrange(0, magic.len() as int) == magic
}

/// The compression named by the content type, else by the URL's
/// extension, else recognised by the magic bytes at the start of the data.
pub open spec fn compression_of(url: Seq<char>, content_type: Seq<char>, first: Seq<u8>) -> CompressionType {
    if has_infix(content_type, "gzip"@) || has_infix(content_type, "x-gzip"@) {
        CompressionType::Gzip
    } else if has_infix(content_type, "bzip2"@) || has_infix(content_type, "x-bzip2"@) {
        CompressionType::Bzip2
    } else if has_infix(content_type, "xz"@) || has_infix(content_type, "x-xz"@) {
        CompressionType::Xz
    } else if has_infix(content_type, "zstd"@) || has_infix(content_type, "x-zstd"@) {
        CompressionType::Zstd
    } else if has_suffix(url, ".gz"@) || has_suffix(url, ".gzip"@) {
        CompressionType::Gzip
    } else if has_suffix(url, ".bz2"@) || has_suffix(url, ".bzip2"@) {
        CompressionType::Bzip2
    } else if has_suffix(url, ".xz"@) || has_suffix(url, ".lzma"@) {
        CompressionType::Xz
    } else if has_suffix(url, ".zst"@) || has_suffix(url, ".zstd"@) {
        CompressionType::Zstd
    } else if starts_with_bytes(first, seq![0x1fu8, 0x8bu8]) {
        CompressionType::Gzip
    } else if starts_with_bytes(first, seq![0x42u8, 0x5au8, 0x68u8]) {
        CompressionType::Bzip2
    } else if starts_with_bytes(first, seq![0xfdu8, 0x37u8, 0x7au8, 0x58u8, 0x5au8, 0x00u8]) {
        CompressionType::Xz
    } else if starts_with_bytes(first, seq![0x28u8, 0xb5u8, 0x2fu8, 0xfdu8]) {
        CompressionType::Zstd
    } else {
        CompressionType::Uncompressed
    }
}

fn has_text(s: &Vec<char>, lit: &str) -> (b: bool)
    ensures
        b == has_infix(s@, lit@),
{
    let pat = chars_of(lit);
    contains_chars(s, &pat)
}

fn ends_with_text(s: &Vec<char>, lit: &str) -> (b: bool)
    ensures
        b == has_suffix(s@, lit@),
{
    let pat = chars_of(lit);
    ends_with_chars(s, &pat)
}

/// Detects the document format of a download from its URL and its
/// `content-type` header.
pub fn detect_format(url: &str, content_type: &str) -> (m: Mime)
    ensures
        m == format_of(url@, content_type@),
{
    let ct = chars_of(content_type);
    if has_text(&ct, "application/json") {
        return Mime::Json;
    }
    if has_text(&ct, "text/csv") {
        return Mime::Csv;
    }
    if has_text(&ct, "application/x-ndjson") {
        return Mime::NdJson;
    }
    let u = chars_of(url);
    if ends_with_text(&u, ".json") {
        Mime::Json
    } else if ends_with_text(&u, ".ndjson") || ends_with_text(&u, ".jsonl") {
        Mime::NdJson
    } else if ends_with_text(&u, ".csv") {
        Mime::Csv
    } else {
        Mime::Json
    }
}

/// Detects the compression of a download from its `content-type` header,
/// its URL and the first bytes of its body.
pub fn detect_compression(url: &str, content_type: &str, first_bytes: &[u8]) -> (c: CompressionType)
    ensures
        c == compression_of(url@, content_type@, first_bytes@),
{
    let ct = chars_of(content_type);
    if has_text(&ct, "gzip") || has_text(&ct, "x-gzip") {
        return CompressionType::Gzip;
    }
    if has_text(&ct, "bzip2") || has_text(&ct, "x-bzip2") {
        return CompressionType::Bzip2;
    }
    if has_text(&ct, "xz") || has_text(&ct, "x-xz") {
        return CompressionType::Xz;
    }
    if has_text(&ct, "zstd") || has_text(&ct, "x-zstd") {
        return CompressionType::Zstd;
    }
    let u = chars_of(url);
    if ends_with_text(&u, ".gz") || ends_with_text(&u, ".gzip") {
        return CompressionType::Gzip;
    }
    if ends_with_text(&u, ".bz2") || ends_with_text(&u, ".bzip2") {
        return CompressionType::Bzip2;
    }
    if ends_with_text(&u, ".xz") || ends_with_text(&u, ".lzma") {
        return CompressionType::Xz;
    }
    if ends_with_text(&u, ".zst") || ends_with_text(&u, ".zstd") {
        return CompressionType::Zstd;
    }
    let f = first_bytes;
    let ghost fb = first_bytes@;
    if f.len() >= 2 {
        if f[0] == 0x1f && f[1] == 0x8b {
            assert(fb.subrange(0, 2) =~= seq![0x1fu8, 0x8bu8]);
            return CompressionType::Gzip;
        }
        assert(!starts_with_bytes(fb, seq![0x1fu8, 0x8bu8])) by {
            if starts_with_bytes(fb, seq![0x1fu8, 0x8bu8]) {
                assert(fb.subrange(0, 2)[0] == fb[0]);
                assert(fb.subrange(0, 2)[1] == fb[1]);
            }
        }
        if f.len() >= 3 && f[0] == 0x42 && f[1] == 0x5a && f[2] == 0x68 {
            assert(fb.subrange(0, 3) =~= seq![0x42u8, 0x5au8, 0x68u8]);
            return CompressionType::Bzip2;
        }
        assert(!starts_with_bytes(fb, seq![0x42u8, 0x5au8, 0x68u8])) by {
            if starts_with_bytes(fb, seq![0x42u8, 0x5au8, 0x68u8]) {
                assert(fb.subrange(0, 3)[0] == fb[0]);
                assert(fb.subrange(0, 3)[1] == fb[1]);
                assert(fb.subrange(0, 3)[2] == fb[2]);
            }
        }
        if f.len() >= 6 && f[0] == 0xfd && f[1] == 0x37 && f[2] == 0x7a && f[3] == 0x58 && f[4]
            == 0x5a && f[5] == 0x00 {
            assert(fb.subrange(0, 6) =~= seq![0xfdu8, 0x37u8, 0x7au8, 0x58u8, 0x5au8, 0x00u8]);
            return CompressionType::Xz;
        }
        assert(!starts_with_bytes(fb, seq![0xfdu8, 0x37u8, 0x7au8, 0x58u8, 0x5au8, 0x00u8])) by {
            if starts_with_bytes(fb, seq![0xfdu8, 0x37u8, 0x7au8, 0x58u8, 0x5au8, 0x00u8]) {
                assert(fb.subrange(0, 6)[0] == fb[0]);
                assert(fb.subrange(0, 6)[1] == fb[1]);
                assert(fb.subrange(0, 6)[2] == fb[2]);
                assert(fb.subrange(0, 6)[3] == fb[3]);
                assert(fb.subrange(0, 6)[4] == fb[4]);
                assert(fb.subrange(0, 6)[5] == fb[5]);
            }
        }
        if f.len() >= 4 && f[0] == 0x28 && f[1] == 0xb5 && f[2] == 0x2f && f[3] == 0xfd {
            assert(fb.subrange(0, 4) =~= seq![0x28u8, 0xb5u8, 0x2fu8, 0xfdu8]);
            return CompressionType::Zstd;
        }
        assert(!starts_with_bytes(fb, seq![0x28u8, 0xb5u8, 0x2fu8, 0xfdu8])) by {
            if starts_with_bytes(fb, seq![0x28u8, 0xb5u8, 0x2fu8, 0xfdu8]) {
                assert(fb.subrange(0, 4)[0] == fb[0]);
                assert(fb.subrange(0, 4)[1] == fb[1]);
                assert(fb.subrange(0, 4)[2] == fb[2]);
                assert(fb.subrange(0, 4)[3] == fb[3]);
            }
        }
    }
    CompressionType::Uncompressed
}

} // verus!
