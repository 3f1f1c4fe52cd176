use std::io::Write;

use meilisearch_importer::codec::decompress_data;
use meilisearch_importer::format::{CompressionType, Mime};
use meilisearch_importer::request::{ImportError, ImportRequest, DocumentOperation};
use meilisearch_importer::session::ImportSession;

fn request(url: &str, batch_size: &str) -> ImportRequest {
    ImportRequest {
        url: url.to_string(),
        meilisearch_url: "http://localhost:7700".to_string(),
        index: "docs".to_string(),
        primary_key: None,
        api_key: None,
        csv_delimiter: b',',
        ignore_embeddings: false,
        batch_size: batch_size.to_string(),
        jobs: 2,
        upload_operation: DocumentOperation::AddOrReplace,
    }
}

fn gzip(data: &[u8]) -> Vec<u8> {
    let mut e = flate2::write::GzEncoder::new(Vec::new(), flate2::Compression::default());
    e.write_all(data).unwrap();
    e.finish().unwrap()
}

#[test]
fn gzip_roundtrip_through_decompress() {
    let body = b"{\"a\":1}\n{\"b\":2}\n".to_vec();
    assert_eq!(decompress_data(CompressionType::Gzip, gzip(&body)).unwrap(), body);
}

#[test]
fn bzip2_roundtrip_through_decompress() {
    let body = b"id,name\n1,Alice\n".to_vec();
    let mut e = bzip2::write::BzEncoder::new(Vec::new(), bzip2::Compression::default());
    e.write_all(&body).unwrap();
    assert_eq!(decompress_data(CompressionType::Bzip2, e.finish().unwrap()).unwrap(), body);
}

#[test]
fn xz_roundtrip_through_decompress() {
    let body = b"[\n{\"id\":1}\n]\n".to_vec();
    let mut e = xz2::write::XzEncoder::new(Vec::new(), 6);
    e.write_all(&body).unwrap();
    assert_eq!(decompress_data(CompressionType::Xz, e.finish().unwrap()).unwrap(), body);
}

#[test]
fn zstd_roundtrip_through_decompress() {
    let body = b"{\"x\":true}\n".to_vec();
    let packed = zstd::stream::encode_all(&body[..], 3).unwrap();
    assert_eq!(decompress_data(CompressionType::Zstd, packed).unwrap(), body);
}

#[test]
fn uncompressed_data_is_kept() {
    assert_eq!(decompress_data(CompressionType::Uncompressed, vec![1, 2, 3]).unwrap(), vec![1, 2, 3]);
}

#[test]
fn corrupt_data_fails_to_decompress() {
    for c in [CompressionType::Gzip, CompressionType::Bzip2, CompressionType::Xz, CompressionType::Zstd] {
        assert!(decompress_data(c, b"definitely not compressed".to_vec()).is_err());
    }
}

fn text(batches: &Vec<Vec<Vec<u8>>>) -> Vec<Vec<String>> {
    batches
        .iter()
        .map(|b| b.iter().map(|d| String::from_utf8(d.clone()).unwrap()).collect())
        .collect()
}

fn strs(batches: &[&[&str]]) -> Vec<Vec<String>> {
    batches.iter().map(|b| b.iter().map(|s| s.to_string()).collect()).collect()
}

fn begin(config: &ImportRequest, content_type: &str, first: &[u8]) -> (ImportSession, Vec<Vec<Vec<u8>>>) {
    let mut s = ImportSession::begin(config, content_type, first).unwrap();
    let released = s.receive_chunk(first);
    (s, released)
}

#[test]
fn streamed_session_releases_batches_as_lines_complete() {
    let config = request("https://x.org/data.ndjson", "10");
    let (mut s, first) = begin(&config, "", b"{\"a\":1}\n{\"b\"");
    assert!(first.is_empty());
    let second = s.receive_chunk(b":2}\n{\"c\":3}\n");
    assert_eq!(text(&second), strs(&[&["{\"a\":1}"], &["{\"b\":2}"]]));
    let (rest, header) = s.finish().unwrap();
    assert_eq!(text(&rest), strs(&[&["{\"c\":3}"]]));
    assert!(header.is_empty());
}

#[test]
fn streamed_session_keeps_the_last_line() {
    let config = request("https://example.com/data.ndjson", "1 MiB");
    let (mut s, first) = begin(&config, "", br#"{"id": 1, "name": "Alice"}"#);
    assert!(first.is_empty());
    assert!(s.receive_chunk(b"\n").is_empty());
    assert!(s.receive_chunk(br#"{"id": 2, "name": "Bob"}"#).is_empty());
    let (rest, _) = s.finish().unwrap();
    assert_eq!(text(&rest), strs(&[&[r#"{"id": 1, "name": "Alice"}"#, r#"{"id": 2, "name": "Bob"}"#]]));
}

#[test]
fn streamed_session_reads_a_single_chunk_body() {
    let config = request("https://example.com/data.ndjson", "1 MiB");
    let (s, first) = begin(&config, "", b"{\"id\": 1}\n{\"id\": 2}\n");
    assert!(first.is_empty());
    let (rest, _) = s.finish().unwrap();
    assert_eq!(text(&rest), strs(&[&["{\"id\": 1}", "{\"id\": 2}"]]));
}

#[test]
fn streamed_session_sends_the_last_partial_batch() {
    let config = request("https://x.org/data.json", "1 MiB");
    let (mut s, _) = begin(&config, "application/json", b"[\n{\"id\":1},\n");
    assert!(s.receive_chunk(b"{\"id\":2}\n]\n").is_empty());
    let (rest, _) = s.finish().unwrap();
    assert_eq!(text(&rest), strs(&[&["{\"id\":1}", "{\"id\":2}"]]));
}

#[test]
fn ndjson_content_type_is_recognised() {
    let config = request("https://x.org/export", "1 MiB");
    let (s, _) = begin(&config, "application/x-ndjson", b"{\"a\":1}\n{\"b\":2}");
    assert_eq!(s.document_format(), Mime::NdJson);
    let (rest, _) = s.finish().unwrap();
    assert_eq!(text(&rest), strs(&[&["{\"a\":1}", "{\"b\":2}"]]));
}

#[test]
fn compressed_session_batches_after_the_end() {
    let config = request("https://x.org/data.ndjson.gz", "17");
    let packed = gzip(b"{\"a\":1}\n{\"b\":2}\n{\"c\":3}");
    let (head, tail) = packed.split_at(5);
    let (mut s, first) = begin(&config, "", head);
    assert!(first.is_empty());
    assert_eq!(s.compression_type(), CompressionType::Gzip);
    assert!(s.receive_chunk(tail).is_empty());
    let (batches, _) = s.finish().unwrap();
    assert_eq!(text(&batches), strs(&[&["{\"a\":1}", "{\"b\":2}"], &["{\"c\":3}"]]));
}

#[test]
fn compressed_session_detected_by_magic_bytes() {
    let config = request("https://x.org/download", "1 MiB");
    let packed = gzip(b"id,name\n1,Alice\n");
    let (s, _) = begin(&config, "text/csv", &packed);
    let (batches, header) = s.finish().unwrap();
    assert_eq!(header, b"id,name".to_vec());
    assert_eq!(text(&batches), strs(&[&["1,Alice"]]));
}

#[test]
fn corrupt_compressed_session_fails() {
    let config = request("https://x.org/data.json.gz", "1 MiB");
    let (s, _) = begin(&config, "", b"not gzip");
    assert!(matches!(s.finish(), Err(ImportError::Decompression(_))));
}

#[test]
fn session_rejects_bad_batch_size() {
    let config = request("https://x.org/data.json", "big");
    assert!(matches!(ImportSession::begin(&config, "", b"[]"), Err(ImportError::BatchSize(_))));
}

#[test]
fn session_csv_header_and_rows() {
    let config = request("https://x.org/data.csv", "1 MiB");
    let (mut s, _) = begin(&config, "", b"a,b\n");
    assert_eq!(s.header(), b"a,b".to_vec());
    assert!(s.receive_chunk(b"1,2\n").is_empty());
    let (rest, header) = s.finish().unwrap();
    assert_eq!(header, b"a,b".to_vec());
    assert_eq!(text(&rest), strs(&[&["1,2"]]));
    assert_eq!(s_format(&config), Mime::Csv);
}

fn s_format(config: &ImportRequest) -> Mime {
    ImportSession::begin(config, "", b"").unwrap().document_format()
}

#[test]
fn session_strips_embeddings_when_asked() {
    let mut config = request("https://x.org/data.ndjson", "1 MiB");
    config.ignore_embeddings = true;
    let (s, _) = begin(&config, "", br#"{"id":1,"_vectors":{"default":[1,2]}}"#);
    let (rest, _) = s.finish().unwrap();
    assert_eq!(text(&rest), strs(&[&[r#"{"id":1}"#]]));
}
