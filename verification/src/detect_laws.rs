//! What decides the format and the compression of a download.
use vstd::prelude::*;
use crate::format::{compression_of, format_of, CompressionType, Mime};
use crate::text::{has_infix, has_suffix};

verus! {

proof fn lemma_suffix_char(s: Seq<char>, pat: Seq<char>, k: int)
    requires
        has_suffix(s, pat),
        0 <= k < pat.len(),
    ensures
        s[s.len() - pat.len() + k] == pat[k],
{
    assert(s.subrange(s.len() - pat.len(), s.len() as int)[k] == pat[k]);
}

proof fn lemma_no_infix_in_empty(pat: Seq<char>)
    requires
        pat.len() > 0,
    ensures
        !has_infix(Seq::<char>::empty(), pat),
{
}

/// A piece of a piece of `s` is a piece of `s`.
proof fn lemma_infix_of_infix(s: Seq<char>, big: Seq<char>, small: Seq<char>, off: int)
    requires
        has_infix(s, big),
        0 <= off,
        off + small.len() <= big.len(),
        big.subrange(off, off + small.len()) == small,
    ensures
        has_infix(s, small),
{
    let i = choose|i: int| 0 <= i <= s.len() - big.len() && #[trigger] s.subrange(i, i + big.len()) == big;
    assert(s.subrange(i + off, i + off + small.len()) =~= big.subrange(off, off + small.len()));
}

/// When the content type names none of the formats, the URL alone decides:
/// a `.csv` URL is CSV, a `.ndjson` or `.jsonl` URL is NDJSON, and any other
/// URL is JSON, whatever else the content type says.
pub proof fn law_format_from_extension(url: Seq<char>, content_type: Seq<char>)
    requires
        !has_infix(content_type, "application/json"@),
        !has_infix(content_type, "text/csv"@),
        !has_infix(content_type, "application/x-ndjson"@),
    ensures
        format_of(url, content_type) == format_of(url, Seq::<char>::empty()),
        has_suffix(url, ".csv"@) ==> format_of(url, content_type) == Mime::Csv,
        has_suffix(url, ".ndjson"@) ==> format_of(url, content_type) == Mime::NdJson,
        has_suffix(url, ".jsonl"@) ==> format_of(url, content_type) == Mime::NdJson,
        !has_suffix(url, ".csv"@) && !has_suffix(url, ".ndjson"@) && !has_suffix(url, ".jsonl"@)
            ==> format_of(url, content_type) == Mime::Json,
{
    reveal_strlit("application/json");
    reveal_strlit("text/csv");
    reveal_strlit("application/x-ndjson");
    reveal_strlit(".json");
    reveal_strlit(".ndjson");
    reveal_strlit(".jsonl");
    reveal_strlit(".csv");
    lemma_no_infix_in_empty("application/json"@);
    lemma_no_infix_in_empty("text/csv"@);
    lemma_no_infix_in_empty("application/x-ndjson"@);
    if has_suffix(url, ".json"@) {
        lemma_suffix_char(url, ".json"@, 4);
        lemma_suffix_char(url, ".json"@, 0);
        if has_suffix(url, ".csv"@) {
            lemma_suffix_char(url, ".csv"@, 3);
        }
        if has_suffix(url, ".jsonl"@) {
            lemma_suffix_char(url, ".jsonl"@, 5);
        }
        if has_suffix(url, ".ndjson"@) {
            lemma_suffix_char(url, ".ndjson"@, 2);
        }
    }
    if has_suffix(url, ".csv"@) {
        lemma_suffix_char(url, ".csv"@, 3);
        if has_suffix(url, ".jsonl"@) {
            lemma_suffix_char(url, ".jsonl"@, 5);
        }
        if has_suffix(url, ".ndjson"@) {
            lemma_suffix_char(url, ".ndjson"@, 6);
        }
    }
}

/// A content type that holds `application/json` makes JSON; one that holds
/// `text/csv` and not that makes CSV; one that holds `application/x-ndjson`
/// and neither makes NDJSON, whatever the URL.
pub proof fn law_format_from_content_type(url: Seq<char>, content_type: Seq<char>)
    ensures
        has_infix(content_type, "application/json"@) ==> format_of(url, content_type) == Mime::Json,
        !has_infix(content_type, "application/json"@) && has_infix(content_type, "text/csv"@)
            ==> format_of(url, content_type) == Mime::Csv,
        !has_infix(content_type, "application/json"@) && !has_infix(content_type, "text/csv"@)
            && has_infix(content_type, "application/x-ndjson"@) ==> format_of(url, content_type)
            == Mime::NdJson,
{
}

/// The compression that the first bytes of a body announce: the magic
/// numbers of gzip (1f 8b), bzip2 (42 5a 68), xz (fd 37 7a 58 5a 00) and
/// zstd (28 b5 2f fd).
pub open spec fn magic_compression(first: Seq<u8>) -> CompressionType {
    if first.len() >= 2 && first[0] == 0x1f && first[1] == 0x8b {
        CompressionType::Gzip
    } else if first.len() >= 3 && first[0] == 0x42 && first[1] == 0x5a && first[2] == 0x68 {
        CompressionType::Bzip2
    } else if first.len() >= 6 && first[0] == 0xfd && first[1] == 0x37 && first[2] == 0x7a
        && first[3] == 0x58 && first[4] == 0x5a && first[5] == 0x00 {
        CompressionType::Xz
    } else if first.len() >= 4 && first[0] == 0x28 && first[1] == 0xb5 && first[2] == 0x2f
        && first[3] == 0xfd {
        CompressionType::Zstd
    } else {
        CompressionType::Uncompressed
    }
}

/// The first bytes matter exactly when neither the content type nor the URL
/// names a compression: then their magic number decides, whatever format the
/// content type names.
pub proof fn law_magic_bytes_decide(url: Seq<char>, content_type: Seq<char>, first: Seq<u8>)
    ensures
        compression_of(url, content_type, first) == if compression_of(url, content_type, Seq::<u8>::empty())
            == CompressionType::Uncompressed {
            magic_compression(first)
        } else {
            compression_of(url, content_type, Seq::<u8>::empty())
        },
{
    let g = seq![0x1fu8, 0x8bu8];
    let b = seq![0x42u8, 0x5au8, 0x68u8];
    let x = seq![0xfdu8, 0x37u8, 0x7au8, 0x58u8, 0x5au8, 0x00u8];
    let z = seq![0x28u8, 0xb5u8, 0x2fu8, 0xfdu8];
    if first.len() >= 2 {
        assert((first.subrange(0, 2) == g) <==> (first[0] == 0x1f && first[1] == 0x8b)) by {
            if first[0] == 0x1f && first[1] == 0x8b {
                assert(first.subrange(0, 2) =~= g);
            }
            if first.subrange(0, 2) == g {
                assert(first.subrange(0, 2)[0] == first[0]);
                assert(first.subrange(0, 2)[1] == first[1]);
            }
        }
    }
    if first.len() >= 3 {
        assert((first.subrange(0, 3) == b) <==> (first[0] == 0x42 && first[1] == 0x5a && first[2] == 0x68)) by {
            if first[0] == 0x42 && first[1] == 0x5a && first[2] == 0x68 {
                assert(first.subrange(0, 3) =~= b);
            }
            if first.subrange(0, 3) == b {
                assert(first.subrange(0, 3)[0] == first[0]);
                assert(first.subrange(0, 3)[1] == first[1]);
                assert(first.subrange(0, 3)[2] == first[2]);
            }
        }
    }
    if first.len() >= 6 {
        assert((first.subrange(0, 6) == x) <==> (first[0] == 0xfd && first[1] == 0x37 && first[2] == 0x7a
            && first[3] == 0x58 && first[4] == 0x5a && first[5] == 0x00)) by {
            if first[0] == 0xfd && first[1] == 0x37 && first[2] == 0x7a && first[3] == 0x58 && first[4]
                == 0x5a && first[5] == 0x00 {
                assert(first.subrange(0, 6) =~= x);
            }
            if first.subrange(0, 6) == x {
                assert(first.subrange(0, 6)[0] == first[0]);
                assert(first.subrange(0, 6)[1] == first[1]);
                assert(first.subrange(0, 6)[2] == first[2]);
                assert(first.subrange(0, 6)[3] == first[3]);
                assert(first.subrange(0, 6)[4] == first[4]);
                assert(first.subrange(0, 6)[5] == first[5]);
            }
        }
    }
    if first.len() >= 4 {
        assert((first.subrange(0, 4) == z) <==> (first[0] == 0x28 && first[1] == 0xb5 && first[2] == 0x2f
            && first[3] == 0xfd)) by {
            if first[0] == 0x28 && first[1] == 0xb5 && first[2] == 0x2f && first[3] == 0xfd {
                assert(first.subrange(0, 4) =~= z);
            }
            if first.subrange(0, 4) == z {
                assert(first.subrange(0, 4)[0] == first[0]);
                assert(first.subrange(0, 4)[1] == first[1]);
                assert(first.subrange(0, 4)[2] == first[2]);
                assert(first.subrange(0, 4)[3] == first[3]);
            }
        }
    }
}

proof fn lemma_suffixes_exclusive(s: Seq<char>, p: Seq<char>, q: Seq<char>, k: int)
    requires
        1 <= k <= p.len(),
        k <= q.len(),
        p[p.len() - k] != q[q.len() - k],
    ensures
        !(has_suffix(s, p) && has_suffix(s, q)),
{
    if has_suffix(s, p) && has_suffix(s, q) {
        lemma_suffix_char(s, p, p.len() - k);
        lemma_suffix_char(s, q, q.len() - k);
    }
}

/// When the content type names no compression, the URL's extension decides:
/// `.gz` and `.gzip` are gzip, `.bz2` and `.bzip2` bzip2, `.xz` and `.lzma`
/// xz, `.zst` and `.zstd` zstd; a URL with none of them leaves it to the
/// magic number of the first bytes.
pub proof fn law_compression_from_extension(url: Seq<char>, content_type: Seq<char>, first: Seq<u8>)
    requires
        !has_infix(content_type, "gzip"@),
        !has_infix(content_type, "bzip2"@),
        !has_infix(content_type, "xz"@),
        !has_infix(content_type, "zstd"@),
    ensures
        has_suffix(url, ".gz"@) || has_suffix(url, ".gzip"@) ==> compression_of(url, content_type, first)
            == CompressionType::Gzip,
        has_suffix(url, ".bz2"@) || has_suffix(url, ".bzip2"@) ==> compression_of(url, content_type, first)
            == CompressionType::Bzip2,
        has_suffix(url, ".xz"@) || has_suffix(url, ".lzma"@) ==> compression_of(url, content_type, first)
            == CompressionType::Xz,
        has_suffix(url, ".zst"@) || has_suffix(url, ".zstd"@) ==> compression_of(url, content_type, first)
            == CompressionType::Zstd,
        !has_suffix(url, ".gz"@) && !has_suffix(url, ".gzip"@) && !has_suffix(url, ".bz2"@) && !has_suffix(
            url,
            ".bzip2"@,
        ) && !has_suffix(url, ".xz"@) && !has_suffix(url, ".lzma"@) && !has_suffix(url, ".zst"@)
            && !has_suffix(url, ".zstd"@) ==> compression_of(url, content_type, first) == magic_compression(
            first,
        ),
{
    law_compression_ignores_other_content_types(url, content_type, first);
    law_magic_bytes_decide(url, Seq::<char>::empty(), first);
    reveal_strlit(".gz");
    reveal_strlit(".gzip");
    reveal_strlit(".bz2");
    reveal_strlit(".bzip2");
    reveal_strlit(".xz");
    reveal_strlit(".lzma");
    reveal_strlit(".zst");
    reveal_strlit(".zstd");
    reveal_strlit("gzip");
    reveal_strlit("x-gzip");
    reveal_strlit("bzip2");
    reveal_strlit("x-bzip2");
    reveal_strlit("xz");
    reveal_strlit("x-xz");
    reveal_strlit("zstd");
    reveal_strlit("x-zstd");
    lemma_no_infix_in_empty("gzip"@);
    lemma_no_infix_in_empty("x-gzip"@);
    lemma_no_infix_in_empty("bzip2"@);
    lemma_no_infix_in_empty("x-bzip2"@);
    lemma_no_infix_in_empty("xz"@);
    lemma_no_infix_in_empty("x-xz"@);
    lemma_no_infix_in_empty("zstd"@);
    lemma_no_infix_in_empty("x-zstd"@);
    lemma_suffixes_exclusive(url, ".bz2"@, ".gz"@, 1);
    lemma_suffixes_exclusive(url, ".bz2"@, ".gzip"@, 1);
    lemma_suffixes_exclusive(url, ".bzip2"@, ".gz"@, 1);
    lemma_suffixes_exclusive(url, ".bzip2"@, ".gzip"@, 1);
    lemma_suffixes_exclusive(url, ".xz"@, ".gz"@, 2);
    lemma_suffixes_exclusive(url, ".xz"@, ".gzip"@, 1);
    lemma_suffixes_exclusive(url, ".xz"@, ".bz2"@, 1);
    lemma_suffixes_exclusive(url, ".xz"@, ".bzip2"@, 1);
    lemma_suffixes_exclusive(url, ".lzma"@, ".gz"@, 1);
    lemma_suffixes_exclusive(url, ".lzma"@, ".gzip"@, 1);
    lemma_suffixes_exclusive(url, ".lzma"@, ".bz2"@, 1);
    lemma_suffixes_exclusive(url, ".lzma"@, ".bzip2"@, 1);
    lemma_suffixes_exclusive(url, ".zst"@, ".gz"@, 1);
    lemma_suffixes_exclusive(url, ".zst"@, ".gzip"@, 1);
    lemma_suffixes_exclusive(url, ".zst"@, ".bz2"@, 1);
    lemma_suffixes_exclusive(url, ".zst"@, ".bzip2"@, 1);
    lemma_suffixes_exclusive(url, ".zst"@, ".xz"@, 1);
    lemma_suffixes_exclusive(url, ".zst"@, ".lzma"@, 1);
    lemma_suffixes_exclusive(url, ".zstd"@, ".gz"@, 1);
    lemma_suffixes_exclusive(url, ".zstd"@, ".gzip"@, 1);
    lemma_suffixes_exclusive(url, ".zstd"@, ".bz2"@, 1);
    lemma_suffixes_exclusive(url, ".zstd"@, ".bzip2"@, 1);
    lemma_suffixes_exclusive(url, ".zstd"@, ".xz"@, 1);
    lemma_suffixes_exclusive(url, ".zstd"@, ".lzma"@, 1);
}

/// A content type that names a compression decides it, whatever the URL
/// and the first bytes: gzip, then bzip2, then xz, then zstd.
pub proof fn law_compression_from_content_type(url: Seq<char>, content_type: Seq<char>, first: Seq<u8>)
    ensures
        has_infix(content_type, "gzip"@) ==> compression_of(url, content_type, first) == CompressionType::Gzip,
        !has_infix(content_type, "gzip"@) && has_infix(content_type, "bzip2"@) ==> compression_of(
            url,
            content_type,
            first,
        ) == CompressionType::Bzip2,
        !has_infix(content_type, "gzip"@) && !has_infix(content_type, "bzip2"@) && has_infix(
            content_type,
            "xz"@,
        ) ==> compression_of(url, content_type, first) == CompressionType::Xz,
        !has_infix(content_type, "gzip"@) && !has_infix(content_type, "bzip2"@) && !has_infix(
            content_type,
            "xz"@,
        ) && has_infix(content_type, "zstd"@) ==> compression_of(url, content_type, first)
            == CompressionType::Zstd,
{
    reveal_strlit("gzip");
    reveal_strlit("x-gzip");
    reveal_strlit("bzip2");
    reveal_strlit("x-bzip2");
    reveal_strlit("xz");
    reveal_strlit("x-xz");
    if has_infix(content_type, "x-gzip"@) {
        assert("x-gzip"@.subrange(2, 6) =~= "gzip"@);
        lemma_infix_of_infix(content_type, "x-gzip"@, "gzip"@, 2);
    }
    if has_infix(content_type, "x-bzip2"@) {
        assert("x-bzip2"@.subrange(2, 7) =~= "bzip2"@);
        lemma_infix_of_infix(content_type, "x-bzip2"@, "bzip2"@, 2);
    }
    if has_infix(content_type, "x-xz"@) {
        assert("x-xz"@.subrange(2, 4) =~= "xz"@);
        lemma_infix_of_infix(content_type, "x-xz"@, "xz"@, 2);
    }
}

/// A content type that names no compression (none of gzip, bzip2, xz,
/// zstd) plays no part: the URL and the first bytes decide alone, whatever
/// format the content type names.
pub proof fn law_compression_ignores_other_content_types(url: Seq<char>, content_type: Seq<char>, first: Seq<u8>)
    requires
        !has_infix(content_type, "gzip"@),
        !has_infix(content_type, "bzip2"@),
        !has_infix(content_type, "xz"@),
        !has_infix(content_type, "zstd"@),
    ensures
        compression_of(url, content_type, first) == compression_of(url, Seq::<char>::empty(), first),
{
    reveal_strlit("gzip");
    reveal_strlit("x-gzip");
    reveal_strlit("bzip2");
    reveal_strlit("x-bzip2");
    reveal_strlit("xz");
    reveal_strlit("x-xz");
    reveal_strlit("zstd");
    reveal_strlit("x-zstd");
    let e = Seq::<char>::empty();
    lemma_no_infix_in_empty("gzip"@);
    lemma_no_infix_in_empty("x-gzip"@);
    lemma_no_infix_in_empty("bzip2"@);
    lemma_no_infix_in_empty("x-bzip2"@);
    lemma_no_infix_in_empty("xz"@);
    lemma_no_infix_in_empty("x-xz"@);
    lemma_no_infix_in_empty("zstd"@);
    lemma_no_infix_in_empty("x-zstd"@);
    if has_infix(content_type, "x-gzip"@) {
        assert("x-gzip"@.subrange(2, 6) =~= "gzip"@);
        lemma_infix_of_infix(content_type, "x-gzip"@, "gzip"@, 2);
    }
    if has_infix(content_type, "x-bzip2"@) {
        assert("x-bzip2"@.subrange(2, 7) =~= "bzip2"@);
        lemma_infix_of_infix(content_type, "x-bzip2"@, "bzip2"@, 2);
    }
    if has_infix(content_type, "x-xz"@) {
        assert("x-xz"@.subrange(2, 4) =~= "xz"@);
        lemma_infix_of_infix(content_type, "x-xz"@, "xz"@, 2);
    }
    if has_infix(content_type, "x-zstd"@) {
        assert("x-zstd"@.subrange(2, 6) =~= "zstd"@);
        lemma_infix_of_infix(content_type, "x-zstd"@, "zstd"@, 2);
    }
}

} // verus!
