use meilisearch_importer::batch::batch_body;
use meilisearch_importer::format::Mime;
use meilisearch_importer::json::{json_values_of, strip_embeddings};
use meilisearch_importer::lines::{line_document, text_of_line};
use meilisearch_importer::stream::{plan_batches, DocumentStream};

fn text(batches: &Vec<Vec<Vec<u8>>>) -> Vec<Vec<String>> {
    batches
        .iter()
        .map(|b| b.iter().map(|d| String::from_utf8(d.clone()).unwrap()).collect())
        .collect()
}

fn strs(batches: &[&[&str]]) -> Vec<Vec<String>> {
    batches.iter().map(|b| b.iter().map(|s| s.to_string()).collect()).collect()
}

#[test]
fn lines_are_trimmed() {
    assert_eq!(text_of_line("  {\"a\":1}, "), Some("{\"a\":1},".to_string()));
    assert_eq!(text_of_line("\u{3000}id,name\u{a0}"), Some("id,name".to_string()));
    assert_eq!(text_of_line(" \t\r"), None);
    assert_eq!(text_of_line(""), None);
}

#[test]
fn raw_lines_are_decoded_and_trimmed() {
    assert_eq!(line_document(b"1,Alice\r"), Some(b"1,Alice".to_vec()));
    assert_eq!(line_document(&[b'a', 0xff, b'b', b'\r']), Some("a\u{fffd}b".as_bytes().to_vec()));
    assert_eq!(line_document(b""), None);
    assert_eq!(line_document(b"\r"), None);
}

#[test]
fn one_line_json_array_gives_its_elements() {
    let body = br#"[{"id": 1, "name": "Alice"}, {"id": 2, "name": "Bob"}]"#;
    let (batches, header) = plan_batches(body, Mime::Json, false, 1048576);
    assert_eq!(text(&batches), strs(&[&[r#"{"id": 1, "name": "Alice"}"#, r#"{"id": 2, "name": "Bob"}"#]]));
    assert!(header.is_empty());
}

#[test]
fn pretty_printed_json_array() {
    let body = b"[\n  {\"id\": 1},\n  {\"id\": 2,\n   \"tags\": [\"a\", \"b,c\"]},\n  {\"id\": 3}\n]\n";
    let (batches, _) = plan_batches(body, Mime::Json, false, 1048576);
    assert_eq!(
        text(&batches),
        strs(&[&["{\"id\": 1}", "{\"id\": 2,\n   \"tags\": [\"a\", \"b,c\"]}", "{\"id\": 3}"]])
    );
}

#[test]
fn json_values_of_a_body() {
    let values = json_values_of(b" [ 1 , \"x]\" , {\"a\":[1,2]} ] ");
    assert_eq!(values, vec![b"1".to_vec(), b"\"x]\"".to_vec(), b"{\"a\":[1,2]}".to_vec()]);
    assert_eq!(json_values_of(b"{\"a\":1}\n{\"b\":2}"), vec![b"{\"a\":1}".to_vec(), b"{\"b\":2}".to_vec()]);
    assert!(json_values_of(b"[]").is_empty());
}

#[test]
fn ndjson_last_line_without_newline_is_imported() {
    let body = b"{\"id\": 1, \"name\": \"Alice\"}\n{\"id\": 2, \"name\": \"Bob\"}";
    let (batches, _) = plan_batches(body, Mime::NdJson, false, 1048576);
    assert_eq!(text(&batches), strs(&[&["{\"id\": 1, \"name\": \"Alice\"}", "{\"id\": 2, \"name\": \"Bob\"}"]]));
}

#[test]
fn streamed_chunks_lose_no_line() {
    let mut s = DocumentStream::new(Mime::NdJson, false, 1048576);
    assert!(s.push_chunk(b"{\"id\": 1, \"name\": \"Alice\"}\n").is_empty());
    assert!(s.push_chunk(b"{\"id\": 2, \"name\": \"Bob\"}").is_empty());
    let (rest, header) = s.finish();
    assert_eq!(text(&rest), strs(&[&["{\"id\": 1, \"name\": \"Alice\"}", "{\"id\": 2, \"name\": \"Bob\"}"]]));
    assert!(header.is_empty());
}

#[test]
fn body_in_one_chunk_is_read() {
    let mut s = DocumentStream::new(Mime::NdJson, false, 1048576);
    assert!(s.push_chunk(b"{\"id\": 1}\n{\"id\": 2}\n").is_empty());
    let (rest, _) = s.finish();
    assert_eq!(text(&rest), strs(&[&["{\"id\": 1}", "{\"id\": 2}"]]));
    let body = batch_body(Mime::NdJson, b"", &rest[0]);
    assert_eq!(body, b"{\"id\": 1}\n{\"id\": 2}".to_vec());
}

#[test]
fn json_value_split_across_chunks() {
    let mut s = DocumentStream::new(Mime::Json, false, 1048576);
    assert!(s.push_chunk(b"[{\"id\":").is_empty());
    assert!(s.push_chunk(b"1},{\"id\"").is_empty());
    assert!(s.push_chunk(b":2}]").is_empty());
    let (rest, _) = s.finish();
    assert_eq!(text(&rest), strs(&[&["{\"id\":1}", "{\"id\":2}"]]));
}

#[test]
fn batches_are_cut_by_bytes() {
    let body = b"{\"id\":1}\n{\"id\":2}\n{\"id\":3}";
    let (batches, _) = plan_batches(body, Mime::NdJson, false, 2000);
    assert_eq!(batches.len(), 1);
    assert_eq!(batches[0].len(), 3);
    let (batches, _) = plan_batches(body, Mime::NdJson, false, 17);
    assert_eq!(text(&batches), strs(&[&["{\"id\":1}", "{\"id\":2}"], &["{\"id\":3}"]]));
    let (batches, _) = plan_batches(body, Mime::NdJson, false, 16);
    assert_eq!(text(&batches), strs(&[&["{\"id\":1}"], &["{\"id\":2}"], &["{\"id\":3}"]]));
    let (batches, _) = plan_batches(body, Mime::NdJson, false, 0);
    assert_eq!(batches.len(), 3);
}

#[test]
fn json_budget_counts_the_brackets() {
    let (batches, _) = plan_batches(b"[1,2,3]", Mime::Json, false, 5);
    assert_eq!(text(&batches), strs(&[&["1", "2"], &["3"]]));
    assert_eq!(batch_body(Mime::Json, b"", &batches[0]), b"[1,2]".to_vec());
    let (batches, _) = plan_batches(b"[1,2,3]", Mime::Json, false, 4);
    assert_eq!(batches.len(), 3);
}

#[test]
fn streamed_batches_are_released_as_they_fill() {
    let mut s = DocumentStream::new(Mime::NdJson, false, 8);
    let first = s.push_chunk(b"{\"id\":1}\n{\"id\":2}\n");
    assert_eq!(text(&first), strs(&[&["{\"id\":1}"]]));
    assert!(s.push_chunk(b"{\"id\":3}").is_empty());
    let (rest, _) = s.finish();
    assert_eq!(text(&rest), strs(&[&["{\"id\":2}"], &["{\"id\":3}"]]));
}

#[test]
fn csv_header_is_no_document() {
    let (batches, header) = plan_batches(b"id,name\n1,Alice\n2,Bob", Mime::Csv, false, 1048576);
    assert_eq!(header, b"id,name".to_vec());
    assert_eq!(text(&batches), strs(&[&["1,Alice", "2,Bob"]]));
    assert_eq!(batch_body(Mime::Csv, &header, &batches[0]), b"id,name\n1,Alice\n2,Bob".to_vec());
}

#[test]
fn every_csv_batch_carries_the_header() {
    let (batches, header) = plan_batches(b"\nid,name\r\n1,Alice\n\n2,Bob\n", Mime::Csv, false, 15);
    assert_eq!(header, b"id,name".to_vec());
    assert_eq!(text(&batches), strs(&[&["1,Alice"], &["2,Bob"]]));
    assert_eq!(batch_body(Mime::Csv, &header, &batches[0]), b"id,name\n1,Alice".to_vec());
    assert_eq!(batch_body(Mime::Csv, &header, &batches[1]), b"id,name\n2,Bob".to_vec());
}

#[test]
fn csv_header_only() {
    let (batches, header) = plan_batches(b"id,name\n", Mime::Csv, false, 1048576);
    assert!(batches.is_empty());
    assert_eq!(header, b"id,name".to_vec());
}

#[test]
fn streamed_csv_header_is_known_early() {
    let mut s = DocumentStream::new(Mime::Csv, false, 1048576);
    assert!(s.header().is_empty());
    assert!(s.push_chunk(b"id,na").is_empty());
    assert!(s.header().is_empty());
    assert!(s.push_chunk(b"me\n1,Alice\n").is_empty());
    assert_eq!(s.header(), b"id,name");
    let (rest, header) = s.finish();
    assert_eq!(header, b"id,name".to_vec());
    assert_eq!(text(&rest), strs(&[&["1,Alice"]]));
}

#[test]
fn embeddings_are_stripped_when_asked() {
    let body = br#"{"id":1,"_vectors":{"default":[1,2]}}"#;
    let (batches, _) = plan_batches(body, Mime::NdJson, true, 1048576);
    assert_eq!(text(&batches), strs(&[&[r#"{"id":1}"#]]));
    let (batches, _) = plan_batches(body, Mime::NdJson, false, 1048576);
    assert_eq!(text(&batches), strs(&[&[r#"{"id":1,"_vectors":{"default":[1,2]}}"#]]));
    let (batches, _) = plan_batches(br#"[{"_vectors" : [0], "id":2, "t":"_vectors"}]"#, Mime::Json, true, 1048576);
    assert_eq!(text(&batches), strs(&[&[r#"{"id":2,"t":"_vectors"}"#]]));
}

#[test]
fn strip_keeps_documents_without_embeddings() {
    assert_eq!(strip_embeddings(b"{\"id\":1}".to_vec()), b"{\"id\":1}".to_vec());
    assert_eq!(strip_embeddings(b"[1,2]".to_vec()), b"[1,2]".to_vec());
    assert_eq!(strip_embeddings(b"{\"_vectors\":1}".to_vec()), b"{}".to_vec());
    let stripped = strip_embeddings(b"{\"a\":1,\"_vectors\":{\"x\":[1]},\"b\":\"c\"}".to_vec());
    assert_eq!(stripped, b"{\"a\":1,\"b\":\"c\"}".to_vec());
    let v: serde_json::Value = serde_json::from_slice(&stripped).unwrap();
    assert_eq!(v.as_object().unwrap().len(), 2);
}

#[test]
fn csv_is_never_stripped() {
    let (batches, _) = plan_batches(b"_vectors,id\n1,2\n", Mime::Csv, true, 1048576);
    assert_eq!(text(&batches), strs(&[&["1,2"]]));
}

#[test]
fn blank_and_invalid_lines() {
    let (batches, _) = plan_batches(b"\n \n{\"a\":1}\r\n\n\xffx\n", Mime::NdJson, false, 1048576);
    assert_eq!(text(&batches), strs(&[&["{\"a\":1}", "\u{fffd}x"]]));
    let (batches, _) = plan_batches(b"", Mime::NdJson, false, 1048576);
    assert!(batches.is_empty());
    let (batches, _) = plan_batches(b"  [ ]  ", Mime::Json, false, 1048576);
    assert!(batches.is_empty());
}
