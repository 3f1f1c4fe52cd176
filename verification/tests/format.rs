use meilisearch_importer::format::{detect_compression, detect_format, CompressionType, Mime};

#[test]
fn json_content_type_wins_over_extension() {
    assert_eq!(detect_format("https://x.org/data.csv", "application/json; charset=utf-8"), Mime::Json);
}

#[test]
fn csv_content_type() {
    assert_eq!(detect_format("https://x.org/data.json", "text/csv"), Mime::Csv);
}

#[test]
fn json_before_csv_in_content_type() {
    assert_eq!(detect_format("u", "application/json, text/csv"), Mime::Json);
}

#[test]
fn ndjson_content_type() {
    assert_eq!(detect_format("https://example.com/export", "application/x-ndjson"), Mime::NdJson);
    assert_eq!(detect_format("https://example.com/a.csv", "application/x-ndjson; charset=utf-8"), Mime::NdJson);
}

#[test]
fn csv_content_type_before_ndjson() {
    assert_eq!(detect_format("https://example.com/a.ndjson", "text/csv, application/x-ndjson"), Mime::Csv);
    assert_eq!(detect_format("u", "application/x-ndjson, text/csv"), Mime::Csv);
    assert_eq!(detect_format("u", "application/x-ndjson, application/json"), Mime::Json);
}

#[test]
fn format_from_extensions() {
    assert_eq!(detect_format("https://x.org/a.json", ""), Mime::Json);
    assert_eq!(detect_format("https://x.org/a.ndjson", "application/octet-stream"), Mime::NdJson);
    assert_eq!(detect_format("https://x.org/a.jsonl", ""), Mime::NdJson);
    assert_eq!(detect_format("https://x.org/a.csv", ""), Mime::Csv);
}

#[test]
fn format_defaults_to_json() {
    assert_eq!(detect_format("https://x.org/a.txt", "text/plain"), Mime::Json);
    assert_eq!(detect_format("", ""), Mime::Json);
    assert_eq!(detect_format("https://x.org/a.csv.gz", ""), Mime::Json);
}

#[test]
fn mime_content_types() {
    assert_eq!(Mime::Json.as_str(), "application/json");
    assert_eq!(Mime::NdJson.as_str(), "application/x-ndjson");
    assert_eq!(Mime::Csv.as_str(), "text/csv");
}

#[test]
fn compression_from_content_type() {
    assert_eq!(detect_compression("a.json", "application/gzip", b""), CompressionType::Gzip);
    assert_eq!(detect_compression("a.json", "application/x-bzip2", b""), CompressionType::Bzip2);
    assert_eq!(detect_compression("a.json", "application/x-xz", b""), CompressionType::Xz);
    assert_eq!(detect_compression("a.json", "application/zstd", b""), CompressionType::Zstd);
}

#[test]
fn content_type_wins_over_extension_for_compression() {
    assert_eq!(detect_compression("a.json.zst", "application/x-gzip", b""), CompressionType::Gzip);
}

#[test]
fn compression_from_extension() {
    assert_eq!(detect_compression("a.json.gz", "", b""), CompressionType::Gzip);
    assert_eq!(detect_compression("a.gzip", "", b""), CompressionType::Gzip);
    assert_eq!(detect_compression("a.ndjson.bz2", "", b""), CompressionType::Bzip2);
    assert_eq!(detect_compression("a.bzip2", "", b""), CompressionType::Bzip2);
    assert_eq!(detect_compression("a.csv.xz", "", b""), CompressionType::Xz);
    assert_eq!(detect_compression("a.lzma", "", b""), CompressionType::Xz);
    assert_eq!(detect_compression("a.zst", "", b""), CompressionType::Zstd);
    assert_eq!(detect_compression("a.zstd", "", b""), CompressionType::Zstd);
}

#[test]
fn compression_from_magic_bytes() {
    assert_eq!(detect_compression("a", "", &[0x1f, 0x8b, 0x08]), CompressionType::Gzip);
    assert_eq!(detect_compression("a", "", &[0x42, 0x5a, 0x68, 0x39]), CompressionType::Bzip2);
    assert_eq!(detect_compression("a", "", &[0xfd, 0x37, 0x7a, 0x58, 0x5a, 0x00, 0x00]), CompressionType::Xz);
    assert_eq!(detect_compression("a", "", &[0x28, 0xb5, 0x2f, 0xfd]), CompressionType::Zstd);
}

#[test]
fn short_or_plain_bytes_are_uncompressed() {
    assert_eq!(detect_compression("a.json", "application/json", b"[{\"id\":1}]"), CompressionType::Uncompressed);
    assert_eq!(detect_compression("a", "", &[0x1f]), CompressionType::Uncompressed);
    assert_eq!(detect_compression("a", "", &[0x42, 0x5a]), CompressionType::Uncompressed);
    assert_eq!(detect_compression("a", "", &[0xfd, 0x37, 0x7a, 0x58, 0x5a]), CompressionType::Uncompressed);
    assert_eq!(detect_compression("a", "", &[]), CompressionType::Uncompressed);
}
