//! Import pipeline for Meilisearch: format and compression detection,
//! reading the documents of JSON, NDJSON and CSV bodies as they arrive,
//! batching them under a byte budget, upload requests and the retry policy
//! of uploads.
use vstd::prelude::*;

pub mod batch;
pub mod codec;
pub mod detect_laws;
pub mod format;
pub mod json;
pub mod json_grammar;
pub mod laws;
pub mod lines;
pub mod request;
pub mod retry;
pub mod session;
pub mod stream;
pub mod text;

verus! {

} // verus!
