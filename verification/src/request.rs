//! Import requests and responses, their defaults and error messages, the
//! batch-size setting, and the upload request made of a batch.
use vstd::prelude::*;
use vstd::string::*;
use vstd::utf8::encode_utf8;
use std::str::FromStr;
use crate::codec::{gzip_encode, gzip_encoded};
use crate::format::Mime;
use crate::text::chars_of;

verus! {

/// How uploaded documents are merged with those already in the index.
#[derive(Debug, Clone, Copy, PartialEq, Eq, Structural)]
pub enum DocumentOperation {
    AddOrReplace,
    AddOrUpdate,
}

/// A request to import the documents found at `url` into an index.
#[derive(Debug, Clone)]
pub struct ImportRequest {
    pub url: String,
    pub meilisearch_url: String,
    pub index: String,
    pub primary_key: Option<String>,
    pub api_key: Option<String>,
    pub csv_delimiter: u8,
    pub ignore_embeddings: bool,
    pub batch_size: String,
    pub jobs: usize,
    pub upload_operation: DocumentOperation,
}

/// The CSV delimiter when a request names none: a comma.
pub fn default_csv_delimiter() -> (d: u8)
    ensures
        d == 44,
{
    44u8
}

/// The batch size when a request names none.
pub fn default_batch_size() -> (s: String)
    ensures
        s@ == "1 MiB"@,
{
    "1 MiB".to_owned()
}

/// The number of parallel jobs when a request names none.
pub fn default_jobs() -> (j: usize)
    ensures
        j == 2,
{
    2
}

/// The upload operation when a request names none.
pub fn default_upload_operation() -> (op: DocumentOperation)
    ensures
        op == DocumentOperation::AddOrReplace,
{
    DocumentOperation::AddOrReplace
}

/// A CSV delimiter written as text: exactly one ASCII character.
pub fn csv_delimiter_from_text(text: &str) -> (d: Option<u8>)
    ensures
        d is Some <==> text@.len() == 1 && (text@[0] as u32) < 128,
        d matches Some(b) ==> b as u32 == text@[0] as u32,
{
    let cs = chars_of(text);
    if cs.len() == 1 {
        let u = cs[0] as u32;
        if u < 128 {
            return Some(u as u8);
        }
    }
    None
}

/// Whether an import succeeded.
#[derive(Debug, Clone, Copy, PartialEq, Eq, Structural)]
pub enum ImportStatus {
    Success,
    Error,
}

/// The answer to an import request.
#[derive(Debug, Clone)]
pub struct ImportResponse {
    pub status: ImportStatus,
    pub message: String,
    pub batches_processed: Option<usize>,
    pub total_documents: Option<usize>,
}

/// Why an import stopped.
#[derive(Debug, Clone)]
pub enum ImportError {
    /// The download answered with this non-success HTTP status.
    Download(String),
    /// A transfer failed, with the client's error text.
    Transport(String),
    /// The batch size is no byte size, with the parser's error text.
    BatchSize(String),
    /// The body could not be decompressed, with the decoder's error text.
    Decompression(String),
    /// A batch could not be compressed, with the encoder's error text.
    Compression(String),
    /// Every attempt to upload a batch was refused.
    SendFailed,
}

impl ImportError {
    /// The message that describes the error.
    pub open spec fn text(self) -> Seq<char> {
        match self {
            ImportError::Download(status) => "Failed to download file: HTTP "@ + status@,
            ImportError::Transport(m) => m@,
            ImportError::BatchSize(m) => m@,
            ImportError::Decompression(m) => m@,
            ImportError::Compression(m) => m@,
            ImportError::SendFailed => "Failed to send batch after all retries"@,
        }
    }

    /// The message that describes the error.
    pub fn message(&self) -> (m: String)
        ensures
            m@ == self.text(),
    {
        match self {
            ImportError::Download(status) => {
                let mut m = "Failed to download file: HTTP ".to_owned();
                m.append(status.as_str());
                m
            },
            ImportError::Transport(m) => m.clone(),
            ImportError::BatchSize(m) => m.clone(),
            ImportError::Decompression(m) => m.clone(),
            ImportError::Compression(m) => m.clone(),
            ImportError::SendFailed => "Failed to send batch after all retries".to_owned(),
        }
    }
}

impl ImportResponse {
    /// The answer to a completed import.
    pub fn success(batches_processed: usize, total_documents: usize) -> (r: ImportResponse)
        ensures
            r.status == ImportStatus::Success,
            r.message@ == "Import completed successfully"@,
            r.batches_processed == Some(batches_processed),
            r.total_documents == Some(total_documents),
    {
        ImportResponse {
            status: ImportStatus::Success,
            message: "Import completed successfully".to_owned(),
            batches_processed: Some(batches_processed),
            total_documents: Some(total_documents),
        }
    }

    /// The answer to a failed import.
    pub fn failure(error: &ImportError) -> (r: ImportResponse)
        ensures
            r.status == ImportStatus::Error,
            r.message@ == "Import failed: "@ + error.text(),
            r.batches_processed is None,
            r.total_documents is None,
    {
        let mut message = "Import failed: ".to_owned();
        let detail = error.message();
        message.append(detail.as_str());
        ImportResponse { status: ImportStatus::Error, message, batches_processed: None, total_documents: None }
    }
}

/// What `byte_unit::Byte::from_str` makes of `text`, as a number of bytes
/// (`as_u64`), or the text of its parse error.
pub uninterp spec fn byte_size_parsed(text: Seq<char>) -> Result<u64, Seq<char>>;

/// Parses a human-readable byte size such as "1 MiB" with byte_unit.
/// Claimed of byte_unit: the outcome depends on the text alone.
#[verifier::external_body]
fn parse_byte_size(text: &str) -> (res: Result<u64, String>)
    ensures
        match res {
            Ok(n) => byte_size_parsed(text@) == Ok::<u64, Seq<char>>(n),
            Err(m) => byte_size_parsed(text@) == Err::<u64, Seq<char>>(m@),
        },
{
    match byte_unit::Byte::from_str(text) {
        Ok(b) => Ok(b.as_u64()),
        Err(e) => Err(e.to_string()),
    }
}

/// The byte budget of a batch that a request names.
pub fn batch_size_bytes(config: &ImportRequest) -> (res: Result<usize, ImportError>)
    ensures
        match byte_size_parsed(config.batch_size@) {
            Ok(n) => res == Ok::<usize, ImportError>(n as usize),
            Err(m) => res matches Err(ImportError::BatchSize(t)) && t@ == m,
        },
{
    match parse_byte_size(config.batch_size.as_str()) {
        Ok(n) => Ok(n as usize),
        Err(m) => Err(ImportError::BatchSize(m)),
    }
}

/// Appends a character with `String::push`.
/// Claimed of std: the string gains exactly that character at its end.
#[verifier::external_body]
fn push_char(s: &mut String, c: char)
    ensures
        final(s)@ == old(s)@.push(c),
{
    s.push(c);
}

/// A byte that a URL query carries as it is.
pub open spec fn is_unreserved(b: u8) -> bool {
    (0x30 <= b <= 0x39) || (0x41 <= b <= 0x5a) || (0x61 <= b <= 0x7a) || b == 0x2d || b == 0x2e
        || b == 0x5f || b == 0x7e
}

/// The upper-case hexadecimal digit of `n`, for `n < 16`.
pub open spec fn hex_digit(n: u8) -> char {
    if n < 10 {
        ((0x30 + n) as u8) as char
    } else {
        ((0x37 + n) as u8) as char
    }
}

/// Bytes percent-encoded for a URL query: unreserved bytes as they are,
/// any other as `%` and two upper-case hexadecimal digits.
pub open spec fn percent_encoded(bytes: Seq<u8>) -> Seq<char>
    decreases bytes.len(),
{
    if bytes.len() == 0 {
        seq![]
    } else {
        let p = percent_encoded(bytes.drop_last());
        let b = bytes.last();
        if is_unreserved(b) {
            p.push(b as char)
        } else {
            p.push('%').push(hex_digit(b / 16)).push(hex_digit(b % 16))
        }
    }
}

/// The query of an upload: the primary key when the request names one,
/// and the CSV delimiter for CSV.
pub open spec fn upload_query(primary_key: Option<Seq<char>>, delimiter: Option<u8>) -> Seq<char> {
    let pk = match primary_key {
        Some(k) => "primaryKey="@ + percent_encoded(encode_utf8(k)),
        None => seq![],
    };
    let dl = match delimiter {
        Some(d) => "csvDelimiter="@ + percent_encoded(seq![d]),
        None => seq![],
    };
    if pk.len() > 0 && dl.len() > 0 {
        seq!['?'] + pk + seq!['&'] + dl
    } else if pk.len() > 0 {
        seq!['?'] + pk
    } else if dl.len() > 0 {
        seq!['?'] + dl
    } else {
        seq![]
    }
}

/// The upload endpoint of an index, with its query.
pub open spec fn documents_url(config: ImportRequest, mime: Mime) -> Seq<char> {
    let pk = match config.primary_key {
        Some(k) => Some(k@),
        None => None,
    };
    let dl = if mime == Mime::Csv {
        Some(config.csv_delimiter)
    } else {
        None
    };
    config.meilisearch_url@ + "/indexes/"@ + config.index@ + "/documents"@ + upload_query(pk, dl)
}

/// The HTTP method of an upload: POST replaces documents, PUT updates them.
pub open spec fn upload_method(op: DocumentOperation) -> Seq<char> {
    match op {
        DocumentOperation::AddOrReplace => "POST"@,
        DocumentOperation::AddOrUpdate => "PUT"@,
    }
}

fn push_hex_digit(s: &mut String, n: u8)
    requires
        n < 16,
    ensures
        final(s)@ == old(s)@.push(hex_digit(n)),
{
    if n < 10 {
        push_char(s, ((0x30 + n) as u8) as char);
    } else {
        push_char(s, ((0x37 + n) as u8) as char);
    }
}

/// Appends `bytes` percent-encoded.
fn append_percent_encoded(s: &mut String, bytes: &[u8])
    ensures
        final(s)@ == old(s)@ + percent_encoded(bytes@),
{
    let ghost start = s@;
    let mut i: usize = 0;
    assert(bytes@.take(0) =~= Seq::<u8>::empty());
    assert(start + Seq::<char>::empty() =~= start);
    while i < bytes.len()
        invariant
            i <= bytes@.len(),
            s@ == start + percent_encoded(bytes@.take(i as int)),
        decreases bytes@.len() - i,
    {
        let b = bytes[i];
        assert(bytes@.take(i + 1).drop_last() =~= bytes@.take(i as int));
        assert(bytes@.take(i + 1).last() == b);
        let ghost p = percent_encoded(bytes@.take(i as int));
        if (0x30 <= b && b <= 0x39) || (0x41 <= b && b <= 0x5a) || (0x61 <= b && b <= 0x7a) || b
            == 0x2d || b == 0x2e || b == 0x5f || b == 0x7e {
            push_char(s, b as char);
            assert(s@ =~= start + p.push(b as char));
        } else {
            push_char(s, '%');
            push_hex_digit(s, b / 16);
            push_hex_digit(s, b % 16);
            assert(s@ =~= start + p.push('%').push(hex_digit(b / 16)).push(hex_digit(b % 16)));
        }
        i = i + 1;
    }
    assert(bytes@.take(i as int) =~= bytes@);
}

/// One upload of a batch: its method, where it goes, its headers and its
/// compressed body.
#[derive(Debug, Clone)]
pub struct BatchRequest {
    pub method: String,
    pub url: String,
    pub content_type: String,
    pub content_encoding: String,
    pub authorization: Option<String>,
    pub body: Vec<u8>,
}

impl BatchRequest {
    /// The upload of an already compressed body: to the index's documents
    /// endpoint with the primary key and, for CSV, the delimiter in its
    /// query; POST or PUT as the request's operation says; typed by the
    /// format, marked as gzip-encoded, with a bearer token when the request
    /// carries an API key.
    pub fn new(config: &ImportRequest, mime: Mime, body: Vec<u8>) -> (r: BatchRequest)
        ensures
            r.method@ == upload_method(config.upload_operation),
            r.url@ == documents_url(*config, mime),
            r.content_type@ == mime.content_type(),
            r.content_encoding@ == "gzip"@,
            r.body@ == body@,
            match config.api_key {
                Some(key) => r.authorization matches Some(a) && a@ == "Bearer "@ + key@,
                None => r.authorization is None,
            },
    {
        let mut url = config.meilisearch_url.clone();
        url.append("/indexes/");
        url.append(config.index.as_str());
        url.append("/documents");
        let ghost base = url@;
        let has_pk = config.primary_key.is_some();
        let has_dl = mime == Mime::Csv;
        match &config.primary_key {
            Some(k) => {
                url.append("?primaryKey=");
                append_percent_encoded(&mut url, k.as_str().as_bytes());
            },
            None => {},
        }
        if has_dl {
            if has_pk {
                url.append("&csvDelimiter=");
            } else {
                url.append("?csvDelimiter=");
            }
            let d = [config.csv_delimiter];
            assert(d@ =~= seq![config.csv_delimiter]);
            append_percent_encoded(&mut url, &d);
        }
        proof {
            reveal_strlit("?primaryKey=");
            reveal_strlit("&csvDelimiter=");
            reveal_strlit("?csvDelimiter=");
            reveal_strlit("primaryKey=");
            reveal_strlit("csvDelimiter=");
            let pk = match &config.primary_key {
                Some(k) => Some(k@),
                None => None,
            };
            let dl = if mime == Mime::Csv {
                Some(config.csv_delimiter)
            } else {
                None
            };
            let q = upload_query(pk, dl);
            assert(url@ =~= base + q);
        }
        let method = match config.upload_operation {
            DocumentOperation::AddOrReplace => "POST".to_owned(),
            DocumentOperation::AddOrUpdate => "PUT".to_owned(),
        };
        let authorization = match &config.api_key {
            Some(key) => {
                let mut a = "Bearer ".to_owned();
                a.append(key.as_str());
                Some(a)
            },
            None => None,
        };
        BatchRequest {
            method,
            url,
            content_type: mime.as_str().to_owned(),
            content_encoding: "gzip".to_owned(),
            authorization,
            body,
        }
    }
}

/// Prepares the upload of a batch body: it is gzip-compressed and sent as
/// `BatchRequest::new` says.
pub fn prepare_batch_request(body: &[u8], config: &ImportRequest, mime: Mime) -> (res: Result<BatchRequest, ImportError>)
    ensures
        match gzip_encoded(body@) {
            Ok(gz) => res matches Ok(r) && {
                &&& r.method@ == upload_method(config.upload_operation)
                &&& r.url@ == documents_url(*config, mime)
                &&& r.content_type@ == mime.content_type()
                &&& r.content_encoding@ == "gzip"@
                &&& r.body@ == gz
                &&& match config.api_key {
                    Some(key) => r.authorization matches Some(a) && a@ == "Bearer "@ + key@,
                    None => r.authorization is None,
                }
            },
            Err(m) => res matches Err(ImportError::Compression(t)) && t@ == m,
        },
{
    match gzip_encode(body) {
        Ok(gz) => Ok(BatchRequest::new(config, mime, gz)),
        Err(m) => Err(ImportError::Compression(m)),
    }
}

/// How many batches are uploaded at the same time: the request's jobs, at
/// least one.
pub fn upload_concurrency(config: &ImportRequest) -> (n: usize)
    ensures
        n == if config.jobs == 0 { 1 } else { config.jobs },
{
    if config.jobs == 0 {
        1
    } else {
        config.jobs
    }
}

/// The counts of an import in progress: documents and batches uploaded.
pub struct ImportTally {
    total_documents: usize,
    batches_processed: usize,
}

impl ImportTally {
    /// Documents uploaded so far.
    pub closed spec fn documents(&self) -> nat {
        self.total_documents as nat
    }

    /// Batches uploaded so far.
    pub closed spec fn batches(&self) -> nat {
        self.batches_processed as nat
    }

    /// Nothing uploaded yet.
    pub fn new() -> (t: ImportTally)
        ensures
            t.documents() == 0,
            t.batches() == 0,
    {
        ImportTally { total_documents: 0, batches_processed: 0 }
    }

    /// Counts an uploaded batch.
    pub fn record_batch(&mut self, batch: &Vec<Vec<u8>>)
        requires
            old(self).documents() + batch@.len() <= usize::MAX,
            old(self).batches() + 1 <= usize::MAX,
        ensures
            final(self).documents() == old(self).documents() + batch@.len(),
            final(self).batches() == old(self).batches() + 1,
    {
        self.total_documents = self.total_documents + batch.len();
        self.batches_processed = self.batches_processed + 1;
    }

    /// Documents uploaded so far.
    pub fn total_documents(&self) -> (n: usize)
        ensures
            n == self.documents(),
    {
        self.total_documents
    }

    /// Batches uploaded so far.
    pub fn batches_processed(&self) -> (n: usize)
        ensures
            n == self.batches(),
    {
        self.batches_processed
    }

    /// The answer to the completed import.
    pub fn into_response(self) -> (r: ImportResponse)
        ensures
            r.status == ImportStatus::Success,
            r.message@ == "Import completed successfully"@,
            r.batches_processed matches Some(n) && n == self.batches(),
            r.total_documents matches Some(n) && n == self.documents(),
    {
        ImportResponse::success(self.batches_processed, self.total_documents)
    }
}

} // verus!
