use std::io::Read;

use meilisearch_importer::batch::batch_body;
use meilisearch_importer::format::Mime;
use meilisearch_importer::request::{
    batch_size_bytes, csv_delimiter_from_text, default_batch_size, default_csv_delimiter,
    default_jobs, default_upload_operation, prepare_batch_request, upload_concurrency,
    BatchRequest, DocumentOperation, ImportError, ImportRequest, ImportResponse, ImportStatus,
    ImportTally,
};
use meilisearch_importer::retry::{RetryAction, SendRetry, MAX_SEND_ATTEMPTS};

fn request(batch_size: &str, api_key: Option<&str>) -> ImportRequest {
    ImportRequest {
        url: "https://example.com/data.json".to_string(),
        meilisearch_url: "http://localhost:7700".to_string(),
        index: "documents".to_string(),
        primary_key: Some("id".to_string()),
        api_key: api_key.map(|k| k.to_string()),
        csv_delimiter: default_csv_delimiter(),
        ignore_embeddings: false,
        batch_size: batch_size.to_string(),
        jobs: default_jobs(),
        upload_operation: default_upload_operation(),
    }
}

#[test]
fn request_defaults() {
    assert_eq!(default_csv_delimiter(), b',');
    assert_eq!(default_batch_size(), "1 MiB");
    assert_eq!(default_jobs(), 2);
    assert_eq!(default_upload_operation(), DocumentOperation::AddOrReplace);
}

#[test]
fn csv_delimiter_text() {
    assert_eq!(csv_delimiter_from_text(","), Some(b','));
    assert_eq!(csv_delimiter_from_text(";"), Some(b';'));
    assert_eq!(csv_delimiter_from_text(""), None);
    assert_eq!(csv_delimiter_from_text(",,"), None);
    assert_eq!(csv_delimiter_from_text("é"), None);
}

#[test]
fn batch_size_parses_units() {
    assert_eq!(batch_size_bytes(&request("1 MiB", None)).unwrap(), 1048576);
    assert_eq!(batch_size_bytes(&request("2 MiB", None)).unwrap(), 2097152);
    assert_eq!(batch_size_bytes(&request("5 MiB", None)).unwrap(), 5242880);
    assert_eq!(batch_size_bytes(&request("1 MB", None)).unwrap(), 1000000);
    assert_eq!(batch_size_bytes(&request("10", None)).unwrap(), 10);
}

#[test]
fn batch_size_error_is_reported() {
    match batch_size_bytes(&request("lots", None)) {
        Err(ImportError::BatchSize(m)) => assert!(!m.is_empty()),
        other => panic!("unexpected {:?}", other),
    }
}

#[test]
fn error_messages() {
    assert_eq!(ImportError::Download("404".to_string()).message(), "Failed to download file: HTTP 404");
    assert_eq!(ImportError::SendFailed.message(), "Failed to send batch after all retries");
    assert_eq!(ImportError::Transport("boom".to_string()).message(), "boom");
    assert_eq!(ImportError::Decompression("bad".to_string()).message(), "bad");
    assert_eq!(ImportError::Compression("bad".to_string()).message(), "bad");
}

#[test]
fn responses() {
    let ok = ImportResponse::success(5, 1250);
    assert_eq!(ok.status, ImportStatus::Success);
    assert_eq!(ok.message, "Import completed successfully");
    assert_eq!(ok.batches_processed, Some(5));
    assert_eq!(ok.total_documents, Some(1250));
    let failed = ImportResponse::failure(&ImportError::Download("404".to_string()));
    assert_eq!(failed.status, ImportStatus::Error);
    assert_eq!(failed.message, "Import failed: Failed to download file: HTTP 404");
    assert_eq!(failed.batches_processed, None);
    assert_eq!(failed.total_documents, None);
}

fn docs(items: &[&str]) -> Vec<Vec<u8>> {
    items.iter().map(|d| d.as_bytes().to_vec()).collect()
}

#[test]
fn json_batch_body_is_an_array() {
    let b = batch_body(Mime::Json, b"", &docs(&["{\"id\":1}", "{\"id\":2}"]));
    assert_eq!(b, b"[{\"id\":1},{\"id\":2}]".to_vec());
    let v: serde_json::Value = serde_json::from_slice(&b).unwrap();
    assert_eq!(v.as_array().unwrap().len(), 2);
    assert_eq!(batch_body(Mime::Json, b"", &docs(&["1"])), b"[1]".to_vec());
}

#[test]
fn ndjson_batch_body_is_one_document_per_line() {
    assert_eq!(batch_body(Mime::NdJson, b"", &docs(&["{\"a\":1}", "{\"b\":2}", "c"])), b"{\"a\":1}\n{\"b\":2}\nc".to_vec());
    assert_eq!(batch_body(Mime::NdJson, b"", &docs(&["a"])), b"a".to_vec());
}

#[test]
fn csv_batch_body_starts_with_the_header() {
    assert_eq!(batch_body(Mime::Csv, b"id,name", &docs(&["1,Alice", "2,Bob"])), b"id,name\n1,Alice\n2,Bob".to_vec());
    assert_eq!(batch_body(Mime::Csv, b"id,name", &docs(&["3,Carol"])), b"id,name\n3,Carol".to_vec());
}

fn plain_request() -> ImportRequest {
    let mut r = request("1 MiB", Some("key"));
    r.primary_key = None;
    r
}

#[test]
fn batch_request_headers() {
    let r = BatchRequest::new(&plain_request(), Mime::NdJson, vec![1, 2, 3]);
    assert_eq!(r.method, "POST");
    assert_eq!(r.url, "http://localhost:7700/indexes/documents/documents");
    assert_eq!(r.content_type, "application/x-ndjson");
    assert_eq!(r.content_encoding, "gzip");
    assert_eq!(r.authorization, Some("Bearer key".to_string()));
    assert_eq!(r.body, vec![1, 2, 3]);
    let r = BatchRequest::new(&request("1 MiB", None), Mime::Json, vec![]);
    assert_eq!(r.authorization, None);
    assert_eq!(r.content_type, "application/json");
}

#[test]
fn primary_key_goes_in_the_query() {
    let r = BatchRequest::new(&request("1 MiB", None), Mime::Json, vec![]);
    assert_eq!(r.url, "http://localhost:7700/indexes/documents/documents?primaryKey=id");
    let mut q = request("1 MiB", None);
    q.primary_key = Some("my key/é".to_string());
    let r = BatchRequest::new(&q, Mime::NdJson, vec![]);
    assert_eq!(r.url, "http://localhost:7700/indexes/documents/documents?primaryKey=my%20key%2F%C3%A9");
}

#[test]
fn csv_delimiter_goes_in_the_query() {
    let r = BatchRequest::new(&plain_request(), Mime::Csv, vec![]);
    assert_eq!(r.url, "http://localhost:7700/indexes/documents/documents?csvDelimiter=%2C");
    assert_eq!(r.content_type, "text/csv");
    let mut q = request("1 MiB", None);
    q.csv_delimiter = b';';
    let r = BatchRequest::new(&q, Mime::Csv, vec![]);
    assert_eq!(r.url, "http://localhost:7700/indexes/documents/documents?primaryKey=id&csvDelimiter=%3B");
}

#[test]
fn upload_operation_picks_the_method() {
    let mut q = plain_request();
    q.upload_operation = DocumentOperation::AddOrUpdate;
    assert_eq!(BatchRequest::new(&q, Mime::Json, vec![]).method, "PUT");
    q.upload_operation = DocumentOperation::AddOrReplace;
    assert_eq!(BatchRequest::new(&q, Mime::Json, vec![]).method, "POST");
}

#[test]
fn concurrency_follows_jobs() {
    let mut q = plain_request();
    assert_eq!(upload_concurrency(&q), 2);
    q.jobs = 0;
    assert_eq!(upload_concurrency(&q), 1);
    q.jobs = 8;
    assert_eq!(upload_concurrency(&q), 8);
}

#[test]
fn batch_body_is_gzip_of_the_text() {
    let text = b"[{\"id\":1},{\"id\":2}]";
    let r = prepare_batch_request(text, &request("1 MiB", Some("k")), Mime::Json).unwrap();
    assert_eq!(r.url, "http://localhost:7700/indexes/documents/documents?primaryKey=id");
    assert_eq!(r.content_type, "application/json");
    assert_eq!(r.authorization, Some("Bearer k".to_string()));
    assert_eq!(&r.body[..2], &[0x1f, 0x8b]);
    assert_ne!(r.body, text.to_vec());
    let mut out = Vec::new();
    flate2::read::GzDecoder::new(&r.body[..]).read_to_end(&mut out).unwrap();
    assert_eq!(out, text.to_vec());
}

#[test]
fn tally_counts_documents_and_batches() {
    let mut t = ImportTally::new();
    t.record_batch(&docs(&["a", "b"]));
    t.record_batch(&docs(&["c"]));
    assert_eq!(t.total_documents(), 3);
    assert_eq!(t.batches_processed(), 2);
    let r = t.into_response();
    assert_eq!(r.status, ImportStatus::Success);
    assert_eq!(r.batches_processed, Some(2));
    assert_eq!(r.total_documents, Some(3));
}

#[test]
fn retry_accepts_at_once() {
    let mut r = SendRetry::new();
    assert_eq!(r.on_response(true), RetryAction::Done);
    assert_eq!(r.attempt_number(), 0);
}

#[test]
fn retry_backs_off_exponentially_then_gives_up() {
    let mut r = SendRetry::new();
    let mut waits = Vec::new();
    loop {
        match r.on_response(false) {
            RetryAction::RetryAfterSecs(s) => waits.push(s),
            RetryAction::GiveUp => break,
            RetryAction::Done => panic!("refused batch accepted"),
        }
    }
    assert_eq!(waits.len() as u32 + 1, MAX_SEND_ATTEMPTS);
    for (i, w) in waits.iter().enumerate() {
        assert_eq!(*w, 1u64 << i);
    }
    assert_eq!(waits.iter().sum::<u64>(), (1u64 << 19) - 1);
    assert_eq!(r.attempt_number(), 19);
}

#[test]
fn retry_success_after_failures() {
    let mut r = SendRetry::new();
    assert_eq!(r.on_response(false), RetryAction::RetryAfterSecs(1));
    assert_eq!(r.on_response(false), RetryAction::RetryAfterSecs(2));
    assert_eq!(r.attempt_number(), 2);
    assert_eq!(r.on_response(true), RetryAction::Done);
}
