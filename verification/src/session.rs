//! The decisions of one import from a URL: how the body is read, and which
//! batches each piece of it releases for upload.
use vstd::prelude::*;
use crate::batch::batches_view;
use crate::codec::{decompress_data, decompressed};
use crate::format::{
    compression_of, detect_compression, detect_format, format_of, CompressionType, Mime,
};
use crate::request::{batch_size_bytes, byte_size_parsed, ImportError, ImportRequest};
use crate::stream::{
    batching_of, csv_header, ended_raw, header_of, plan_batches, planned_batches, DocumentStream,
};

verus! {

/// How the body is being read.
pub enum BodyReader {
    /// Uncompressed: documents are batched as the chunks arrive.
    Streaming(DocumentStream),
    /// Compressed: the whole body is gathered before it is decompressed.
    Gathering(CompressionType, Vec<u8>),
}

/// One import from a URL, from its first bytes to the end of its body.
pub struct ImportSession {
    mime: Mime,
    strip: bool,
    batch_size_bytes: usize,
    reader: BodyReader,
}

impl ImportSession {
    /// The detected document format.
    pub closed spec fn format(&self) -> Mime {
        self.mime
    }

    /// Whether embedding fields are removed.
    pub closed spec fn strips(&self) -> bool {
        self.strip
    }

    /// The detected compression.
    pub closed spec fn compression(&self) -> CompressionType {
        match self.reader {
            BodyReader::Streaming(_) => CompressionType::Uncompressed,
            BodyReader::Gathering(c, _) => c,
        }
    }

    /// The byte budget of a batch.
    pub closed spec fn budget(&self) -> nat {
        self.batch_size_bytes as nat
    }

    /// The bytes of the body received so far.
    pub closed spec fn received(&self) -> Seq<u8> {
        match self.reader {
            BodyReader::Streaming(s) => s.received(),
            BodyReader::Gathering(_, data) => data@,
        }
    }

    /// The batches released so far.
    pub closed spec fn released(&self) -> Seq<Seq<Seq<u8>>> {
        match self.reader {
            BodyReader::Streaming(s) => s.progress().sent,
            BodyReader::Gathering(_, _) => seq![],
        }
    }

    /// The documents read so far, CSV header line included.
    pub closed spec fn documents_read(&self) -> Seq<Seq<u8>> {
        match self.reader {
            BodyReader::Streaming(s) => s.documents_read(),
            BodyReader::Gathering(_, _) => seq![],
        }
    }

    /// The session is consistent.
    pub closed spec fn wf(&self) -> bool {
        match self.reader {
            BodyReader::Streaming(s) => {
                &&& s.wf()
                &&& s.format() == self.mime
                &&& s.strips() == self.strip
                &&& s.budget() == self.batch_size_bytes
            },
            BodyReader::Gathering(c, _) => c != CompressionType::Uncompressed,
        }
    }

    /// The detected document format.
    pub fn document_format(&self) -> (m: Mime)
        ensures
            m == self.format(),
    {
        self.mime
    }

    /// The detected compression.
    pub fn compression_type(&self) -> (c: CompressionType)
        ensures
            c == self.compression(),
    {
        match &self.reader {
            BodyReader::Streaming(_) => CompressionType::Uncompressed,
            BodyReader::Gathering(c, _) => *c,
        }
    }

    /// Starts an import from the first bytes of the body (none when the
    /// body is empty): detects the format and the compression, and reads
    /// the batch size of the request. The first bytes are then received
    /// like any other chunk.
    pub fn begin(config: &ImportRequest, content_type: &str, first_bytes: &[u8]) -> (res: Result<ImportSession, ImportError>)
        ensures
            match byte_size_parsed(config.batch_size@) {
                Ok(n) => res matches Ok(s) && {
                    &&& s.wf()
                    &&& s.format() == format_of(config.url@, content_type@)
                    &&& s.compression() == compression_of(config.url@, content_type@, first_bytes@)
                    &&& s.budget() == (n as usize) as nat
                    &&& s.strips() == config.ignore_embeddings
                    &&& s.received() == Seq::<u8>::empty()
                    &&& s.released() == Seq::<Seq<Seq<u8>>>::empty()
                },
                Err(m) => res matches Err(ImportError::BatchSize(t)) && t@ == m,
            },
    {
        let mime = detect_format(config.url.as_str(), content_type);
        let compression = detect_compression(config.url.as_str(), content_type, first_bytes);
        let size = match batch_size_bytes(config) {
            Ok(n) => n,
            Err(e) => {
                return Err(e);
            },
        };
        let strip = config.ignore_embeddings;
        let reader = if compression == CompressionType::Uncompressed {
            BodyReader::Streaming(DocumentStream::new(mime, strip, size))
        } else {
            let data: Vec<u8> = Vec::new();
            assert(data@ =~= Seq::<u8>::empty());
            BodyReader::Gathering(compression, data)
        };
        Ok(ImportSession { mime, strip, batch_size_bytes: size, reader })
    }

    /// The CSV header line read so far, which every CSV batch released so
    /// far carries (empty for the JSON formats).
    pub fn header(&self) -> (h: Vec<u8>)
        requires
            self.wf(),
        ensures
            h@ == csv_header(self.format(), self.documents_read()),
    {
        match &self.reader {
            BodyReader::Streaming(s) => vstd::slice::slice_to_vec(s.header()),
            BodyReader::Gathering(_, _) => Vec::new(),
        }
    }

    /// Receives the next chunk of the body; returns, in order, the batches
    /// that it releases for upload (none while a compressed body gathers).
    pub fn receive_chunk(&mut self, chunk: &[u8]) -> (batches: Vec<Vec<Vec<u8>>>)
        requires
            old(self).wf(),
            old(self).received().len() + chunk@.len() <= u64::MAX,
        ensures
            final(self).wf(),
            final(self).format() == old(self).format(),
            final(self).strips() == old(self).strips(),
            final(self).compression() == old(self).compression(),
            final(self).budget() == old(self).budget(),
            final(self).received() == old(self).received() + chunk@,
            final(self).released() == old(self).released() + batches_view(batches@),
            final(self).compression() == CompressionType::Uncompressed ==> final(self).released()
                == batching_of(
                final(self).format(),
                final(self).strips(),
                final(self).budget(),
                ended_raw(final(self).format(), final(self).received()),
            ).sent,
            final(self).documents_read().len() >= old(self).documents_read().len(),
            final(self).documents_read().subrange(0, old(self).documents_read().len() as int)
                == old(self).documents_read(),
            old(self).compression() != CompressionType::Uncompressed ==> batches@.len() == 0,
    {
        match &mut self.reader {
            BodyReader::Streaming(s) => s.push_chunk(chunk),
            BodyReader::Gathering(_, data) => {
                let ghost before = data@;
                let mut i: usize = 0;
                assert(chunk@.take(0) =~= Seq::<u8>::empty());
                assert(before + Seq::<u8>::empty() =~= before);
                while i < chunk.len()
                    invariant
                        i <= chunk@.len(),
                        data@ == before + chunk@.take(i as int),
                    decreases chunk@.len() - i,
                {
                    data.push(chunk[i]);
                    i = i + 1;
                    assert(data@ =~= before + chunk@.take(i as int));
                }
                assert(chunk@.take(i as int) =~= chunk@);
                let out: Vec<Vec<Vec<u8>>> = Vec::new();
                assert(batches_view(out@) =~= Seq::<Seq<Seq<u8>>>::empty());
                assert(Seq::<Seq<Seq<u8>>>::empty() + Seq::<Seq<Seq<u8>>>::empty() =~= Seq::<Seq<Seq<u8>>>::empty());
                assert(Seq::<Seq<u8>>::empty().subrange(0, 0) =~= Seq::<Seq<u8>>::empty());
                out
            },
        }
    }

    /// Ends the body; returns the batches still to upload and the CSV
    /// header that every batch carries. A streamed body releases what its
    /// end completes; a compressed one is decompressed and read whole.
    pub fn finish(self) -> (res: Result<(Vec<Vec<Vec<u8>>>, Vec<u8>), ImportError>)
        requires
            self.wf(),
        ensures
            self.compression() == CompressionType::Uncompressed ==> (res matches Ok(r)
                && self.released() + batches_view(r.0@) == planned_batches(self.format(), self.strips(), self.budget(), self.received())
                && r.1@ == header_of(self.format(), self.received())),
            self.compression() != CompressionType::Uncompressed ==> match decompressed(self.compression(), self.received()) {
                Ok(d) => res matches Ok(r) && batches_view(r.0@) == planned_batches(self.format(), self.strips(), self.budget(), d)
                    && r.1@ == header_of(self.format(), d),
                Err(m) => res matches Err(ImportError::Decompression(t)) && t@ == m,
            },
    {
        match self.reader {
            BodyReader::Streaming(s) => Ok(s.finish()),
            BodyReader::Gathering(compression, data) => {
                match decompress_data(compression, data) {
                    Ok(d) => Ok(plan_batches(d.as_slice(), self.mime, self.strip, self.batch_size_bytes)),
                    Err(m) => Err(ImportError::Decompression(m)),
                }
            },
        }
    }
}

} // verus!
