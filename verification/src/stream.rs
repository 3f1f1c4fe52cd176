//! The documents of a body that arrives in chunks, and the batches that
//! they fill: lines for NDJSON and CSV (the first CSV line is the header,
//! carried by every batch), array elements or top-level values for JSON.
use vstd::prelude::*;
use vstd::string::*;
use vstd::utf8::encode_utf8;
use crate::batch::{
    batches_view, body_len, close_packing, framing, pack_from, pack_step, packed,
    packing_start, Batcher, Packing,
};
use crate::format::Mime;
use crate::json::{
    emit, json_scan_from, json_start, json_step, json_values, lemma_json_scan_concat,
    lemma_json_scan_keeps_out, strip_embeddings, values_view, without_embeddings, JsonScan,
    JsonScanner,
};
use crate::lines::{
    complete_lines, lemma_line_docs_concat, lemma_lines_of_concat, line_document, line_docs,
    line_remainder, line_text, split_from, split_lines, split_start, NEWLINE,
};
use crate::text::{decode_utf8_lossy, utf8_lossy};

verus! {

/// A JSON value as UTF-8 text: invalid sequences are replaced.
pub open spec fn normalize(v: Seq<u8>) -> Seq<u8> {
    encode_utf8(utf8_lossy(v))
}

pub open spec fn normalize_all(vs: Seq<Seq<u8>>) -> Seq<Seq<u8>> {
    vs.map_values(|v: Seq<u8>| normalize(v))
}

/// The documents (CSV header line included) that the bytes received so far
/// have ended: values a JSON separator ended, lines a newline ended.
pub open spec fn ended_raw(mime: Mime, data: Seq<u8>) -> Seq<Seq<u8>> {
    match mime {
        Mime::Json => normalize_all(json_scan_from(json_start(), data).out),
        _ => line_docs(complete_lines(data)),
    }
}

/// The documents (CSV header line included) of a whole body: its end ends
/// the last value or line too.
pub open spec fn all_raw(mime: Mime, data: Seq<u8>) -> Seq<Seq<u8>> {
    match mime {
        Mime::Json => normalize_all(json_values(data)),
        _ => line_docs(split_lines(data)),
    }
}

/// The CSV header line: the first line that holds text.
pub open spec fn csv_header(mime: Mime, raw: Seq<Seq<u8>>) -> Seq<u8> {
    if mime == Mime::Csv && raw.len() > 0 {
        raw[0]
    } else {
        seq![]
    }
}

/// A document as uploaded: without its embedding field when asked, for the
/// JSON formats.
pub open spec fn prepared(mime: Mime, strip: bool, d: Seq<u8>) -> Seq<u8> {
    if strip && mime != Mime::Csv {
        without_embeddings(d)
    } else {
        d
    }
}

/// The documents that are uploaded: all but the CSV header, prepared.
pub open spec fn body_documents(mime: Mime, strip: bool, raw: Seq<Seq<u8>>) -> Seq<Seq<u8>>
    decreases raw.len(),
{
    if raw.len() == 0 {
        seq![]
    } else if mime == Mime::Csv && raw.len() == 1 {
        seq![]
    } else {
        body_documents(mime, strip, raw.drop_last()).push(prepared(mime, strip, raw.last()))
    }
}

/// The documents of a whole body, as uploaded.
pub open spec fn documents_of(mime: Mime, strip: bool, data: Seq<u8>) -> Seq<Seq<u8>> {
    body_documents(mime, strip, all_raw(mime, data))
}

/// The CSV header of a whole body (empty for the JSON formats).
pub open spec fn header_of(mime: Mime, data: Seq<u8>) -> Seq<u8> {
    csv_header(mime, all_raw(mime, data))
}

/// The batches of a whole body under the byte budget `size`.
pub open spec fn planned_batches(mime: Mime, strip: bool, size: nat, data: Seq<u8>) -> Seq<Seq<Seq<u8>>> {
    packed(documents_of(mime, strip, data), framing(mime, header_of(mime, data)), size)
}

/// The batching reached once the documents `raw` are read.
pub open spec fn batching_of(mime: Mime, strip: bool, size: nat, raw: Seq<Seq<u8>>) -> Packing {
    pack_from(packing_start(), body_documents(mime, strip, raw), framing(mime, csv_header(mime, raw)), size)
}

/// The documents of a body that arrives in chunks, batched as they end.
pub struct DocumentStream {
    mime: Mime,
    strip: bool,
    buffer: Vec<u8>,
    scanner: JsonScanner,
    header: Vec<u8>,
    has_header: bool,
    batcher: Batcher,
    received: Ghost<Seq<u8>>,
    json_out: Ghost<Seq<Seq<u8>>>,
    raw: Ghost<Seq<Seq<u8>>>,
    sent: Ghost<Seq<Seq<Seq<u8>>>>,
}

impl DocumentStream {
    pub closed spec fn format(&self) -> Mime {
        self.mime
    }

    pub closed spec fn strips(&self) -> bool {
        self.strip
    }

    pub closed spec fn budget(&self) -> nat {
        self.batcher.budget()
    }

    /// All bytes received so far.
    pub closed spec fn received(&self) -> Seq<u8> {
        self.received@
    }

    /// The documents (CSV header line included) read so far.
    pub closed spec fn documents_read(&self) -> Seq<Seq<u8>> {
        self.raw@
    }

    /// The batches handed out so far and the batch being filled.
    pub closed spec fn progress(&self) -> Packing {
        Packing { sent: self.sent@, pending: self.batcher.pending() }
    }

    closed spec fn batching_ok(&self) -> bool {
        &&& self.batcher.wf()
        &&& self.has_header <==> (self.mime == Mime::Csv && self.raw@.len() > 0)
        &&& self.has_header ==> self.header@ == self.raw@[0]
        &&& self.batcher.framing() == framing(self.mime, csv_header(self.mime, self.raw@))
        &&& self.progress() == batching_of(self.mime, self.strip, self.batcher.budget(), self.raw@)
    }

    /// The stream is consistent.
    pub closed spec fn wf(&self) -> bool {
        &&& self.batching_ok()
        &&& self.raw@ == ended_raw(self.mime, self.received@)
        &&& self.mime != Mime::Json ==> self.buffer@ == line_remainder(self.received@)
        &&& self.mime == Mime::Json ==> {
            &&& self.scanner.state(self.json_out@) == json_scan_from(json_start(), self.received@)
            &&& self.raw@ == normalize_all(self.json_out@)
            &&& self.scanner.depth() <= self.received@.len()
        }
    }

    /// What a consistent stream holds.
    pub proof fn lemma_wf(&self)
        requires
            self.wf(),
        ensures
            self.documents_read() == ended_raw(self.format(), self.received()),
            self.progress() == batching_of(self.format(), self.strips(), self.budget(), self.documents_read()),
    {
    }

    /// A stream before any byte.
    pub fn new(mime: Mime, strip: bool, batch_size_bytes: usize) -> (s: DocumentStream)
        ensures
            s.wf(),
            s.format() == mime,
            s.strips() == strip,
            s.budget() == batch_size_bytes,
            s.received() == Seq::<u8>::empty(),
            s.progress() == packing_start(),
    {
        let f: usize = match mime {
            Mime::Json => 2,
            Mime::NdJson => 0,
            Mime::Csv => 1,
        };
        let received: Ghost<Seq<u8>> = Ghost(Seq::empty());
        let json_out: Ghost<Seq<Seq<u8>>> = Ghost(Seq::empty());
        let raw: Ghost<Seq<Seq<u8>>> = Ghost(Seq::empty());
        let sent: Ghost<Seq<Seq<Seq<u8>>>> = Ghost(Seq::empty());
        let s = DocumentStream {
            mime,
            strip,
            buffer: Vec::new(),
            scanner: JsonScanner::new(),
            header: Vec::new(),
            has_header: false,
            batcher: Batcher::new(f, batch_size_bytes),
            received,
            json_out,
            raw,
            sent,
        };
        assert(s.buffer@ =~= line_remainder(Seq::<u8>::empty()));
        assert(s.progress() =~= packing_start());
        assert(values_view(Seq::<Vec<u8>>::empty()) =~= Seq::<Seq<u8>>::empty());
        assert(normalize_all(Seq::<Seq<u8>>::empty()) =~= Seq::<Seq<u8>>::empty());
        assert(line_docs(complete_lines(Seq::<u8>::empty())) =~= Seq::<Seq<u8>>::empty());
        s
    }

    /// The CSV header line read so far (empty for the JSON formats, or
    /// before it arrives).
    pub fn header(&self) -> (h: &[u8])
        requires
            self.wf(),
        ensures
            h@ == csv_header(self.format(), self.documents_read()),
    {
        self.header_read()
    }

    fn header_read(&self) -> (h: &[u8])
        requires
            self.batching_ok(),
        ensures
            h@ == csv_header(self.format(), self.documents_read()),
    {
        if self.has_header {
            self.header.as_slice()
        } else {
            &[]
        }
    }

    /// Reads one more document.
    fn accept(&mut self, d: Vec<u8>, out: &mut Vec<Vec<Vec<u8>>>)
        requires
            old(self).batching_ok(),
        ensures
            final(self).batching_ok(),
            final(self).mime == old(self).mime,
            final(self).strip == old(self).strip,
            final(self).batcher.budget() == old(self).batcher.budget(),
            final(self).buffer == old(self).buffer,
            final(self).scanner == old(self).scanner,
            final(self).received == old(self).received,
            final(self).json_out == old(self).json_out,
            final(self).raw@ == old(self).raw@.push(d@),
            final(self).sent@ == old(self).sent@ + batches_view(final(out)@).subrange(
                old(out)@.len() as int,
                final(out)@.len() as int,
            ),
            batches_view(final(out)@).subrange(0, old(out)@.len() as int) == batches_view(old(out)@),
            final(out)@.len() >= old(out)@.len(),
    {
        let ghost raw0 = self.raw@;
        let ghost o = out@;
        let ghost size = self.batcher.budget();
        let ghost mime = self.mime;
        let ghost strip = self.strip;
        assert(raw0.push(d@).drop_last() =~= raw0);
        assert(batches_view(out@).subrange(0, out@.len() as int) =~= batches_view(out@));
        assert(batches_view(out@).subrange(out@.len() as int, out@.len() as int) =~= Seq::<Seq<Seq<u8>>>::empty());
        assert(self.sent@ + Seq::<Seq<Seq<u8>>>::empty() =~= self.sent@);
        if self.mime == Mime::Csv && !self.has_header {
            let hl = d.len() as u128;
            self.batcher.set_framing(hl + 1);
            self.header = d;
            self.has_header = true;
            self.raw = Ghost(raw0.push(self.header@));
            assert(self.raw@[0] == self.header@);
            assert(body_documents(mime, strip, self.raw@) =~= Seq::<Seq<u8>>::empty());
            assert(body_documents(mime, strip, raw0) =~= Seq::<Seq<u8>>::empty());
            return;
        }
        let dlen = d.len();
        assert(d@.len() <= u64::MAX) by {
            assert(usize::MAX <= u64::MAX);
        }
        let doc = if self.strip && self.mime != Mime::Csv {
            strip_embeddings(d)
        } else {
            d
        };
        assert(doc@ == prepared(mime, strip, raw0.push(d@).last()));
        let ghost bd = body_documents(mime, strip, raw0);
        assert(body_documents(mime, strip, raw0.push(d@)) == bd.push(doc@));
        assert(csv_header(mime, raw0.push(d@)) == csv_header(mime, raw0));
        assert(bd.push(doc@).drop_last() =~= bd);
        let flushed = self.batcher.add(doc);
        self.raw = Ghost(raw0.push(d@));
        match flushed {
            Some(b) => {
                let ghost s0 = self.sent@;
                out.push(b);
                self.sent = Ghost(s0.push(values_view(b@)));
                assert(batches_view(out@).subrange(o.len() as int, out@.len() as int) =~= seq![values_view(b@)]);
                assert(batches_view(out@).subrange(0, o.len() as int) =~= batches_view(o));
                assert(s0 + seq![values_view(b@)] =~= s0.push(values_view(b@)));
            },
            None => {},
        }
    }

    /// Receives the next chunk; returns, in order, the batches that the
    /// documents it ends have filled.
    pub fn push_chunk(&mut self, chunk: &[u8]) -> (batches: Vec<Vec<Vec<u8>>>)
        requires
            old(self).wf(),
            old(self).received().len() + chunk@.len() <= u64::MAX,
        ensures
            final(self).wf(),
            final(self).format() == old(self).format(),
            final(self).strips() == old(self).strips(),
            final(self).budget() == old(self).budget(),
            final(self).received() == old(self).received() + chunk@,
            final(self).progress().sent == old(self).progress().sent + batches_view(batches@),
            final(self).documents_read() == ended_raw(final(self).format(), final(self).received()),
            final(self).progress() == batching_of(
                final(self).format(),
                final(self).strips(),
                final(self).budget(),
                final(self).documents_read(),
            ),
            final(self).documents_read().len() >= old(self).documents_read().len(),
            final(self).documents_read().subrange(0, old(self).documents_read().len() as int)
                == old(self).documents_read(),
    {
        let ghost r = self.received@;
        let ghost raw0 = self.raw@;
        let ghost sent0 = self.sent@;
        let mut out: Vec<Vec<Vec<u8>>> = Vec::new();
        assert(batches_view(out@) =~= Seq::<Seq<Seq<u8>>>::empty());
        if self.mime == Mime::Json {
            let mut vals: Vec<Vec<u8>> = Vec::new();
            let ghost jo = self.json_out@;
            let ghost stj = self.scanner.state(jo);
            let ghost st0 = self.scanner.state(Seq::<Seq<u8>>::empty());
            proof {
                assert(values_view(vals@) =~= Seq::<Seq<u8>>::empty());
                lemma_json_scan_keeps_out(stj, chunk@);
                lemma_json_scan_concat(json_start(), r, chunk@);
                self.scanner.lemma_state_out(jo, Seq::<Seq<u8>>::empty());
                self.scanner.lemma_state_out(Seq::<Seq<u8>>::empty(), jo);
                assert(st0 == (JsonScan { out: seq![], ..stj }));
            }
            self.scanner.feed(chunk, &mut vals);
            let ghost vs = values_view(vals@);
            proof {
                self.scanner.lemma_state_out(vs, jo + vs);
                self.scanner.lemma_state_out(jo + vs, vs);
                let x = json_scan_from(st0, chunk@);
                assert(x == self.scanner.state(vs));
                assert(x.out == vs);
                assert(json_scan_from(json_start(), r + chunk@) == json_scan_from(stj, chunk@));
                assert(json_scan_from(stj, chunk@) == (JsonScan { out: jo + vs, ..x }));
                assert(self.scanner.state(jo + vs) == json_scan_from(json_start(), r + chunk@));
            }
            self.received = Ghost(r + chunk@);
            self.json_out = Ghost(jo + vs);
            assert(normalize_all(jo + vs) =~= normalize_all(jo) + normalize_all(vs));
            let mut k: usize = 0;
            assert(normalize_all(vs.take(0)) =~= Seq::<Seq<u8>>::empty());
            assert(raw0 + Seq::<Seq<u8>>::empty() =~= raw0);
            assert(sent0 + Seq::<Seq<Seq<u8>>>::empty() =~= sent0);
            while k < vals.len()
                invariant
                    k <= vals@.len(),
                    vs == values_view(vals@),
                    self.batching_ok(),
                    self.mime == Mime::Json,
                    self.strip == old(self).strip,
                    self.batcher.budget() == old(self).batcher.budget(),
                    self.received@ == r + chunk@,
                    self.json_out@ == jo + vs,
                    self.scanner.state(self.json_out@) == json_scan_from(json_start(), self.received@),
                    self.scanner.depth() <= self.received@.len(),
                    self.raw@ == raw0 + normalize_all(vs.take(k as int)),
                    raw0 == normalize_all(jo),
                    self.sent@ == sent0 + batches_view(out@),
                decreases vals@.len() - k,
            {
                let v = &vals[k];
                let text = decode_utf8_lossy(v.as_slice());
                let d = text.as_str().as_bytes_vec();
                let ghost o = out@;
                let ghost s1 = self.sent@;
                self.accept(d, &mut out);
                assert(normalize_all(vs.take(k + 1)) =~= normalize_all(vs.take(k as int)).push(normalize(vs[k as int])));
                assert(batches_view(out@) =~= batches_view(o) + batches_view(out@).subrange(o.len() as int, out@.len() as int));
                assert(self.sent@ =~= sent0 + batches_view(out@));
                k = k + 1;
            }
            assert(vs.take(k as int) =~= vs);
            assert(self.raw@ == ended_raw(self.mime, self.received@));
            assert(self.raw@.subrange(0, raw0.len() as int) =~= raw0);
            out
        } else {
            let mut combined: Vec<u8> = Vec::new();
            std::mem::swap(&mut combined, &mut self.buffer);
            let ghost held = combined@;
            let mut i: usize = 0;
            assert(chunk@.take(0) =~= Seq::<u8>::empty());
            assert(held + Seq::<u8>::empty() =~= held);
            while i < chunk.len()
                invariant
                    i <= chunk@.len(),
                    combined@ == held + chunk@.take(i as int),
                decreases chunk@.len() - i,
            {
                combined.push(chunk[i]);
                i = i + 1;
                assert(combined@ =~= held + chunk@.take(i as int));
            }
            assert(chunk@.take(i as int) =~= chunk@);
            let ghost comb = combined@;
            let n = combined.len();
            let mut start: usize = 0;
            let mut j: usize = 0;
            assert(comb.take(0) =~= Seq::<u8>::empty());
            assert(comb.subrange(0, 0) =~= Seq::<u8>::empty());
            assert(raw0 + Seq::<Seq<u8>>::empty() =~= raw0);
            assert(sent0 + Seq::<Seq<Seq<u8>>>::empty() =~= sent0);
            while j < n
                invariant
                    n == comb.len(),
                    combined@ == comb,
                    start <= j <= n,
                    self.batching_ok(),
                    self.mime != Mime::Json,
                    self.mime == old(self).mime,
                    self.strip == old(self).strip,
                    self.batcher.budget() == old(self).batcher.budget(),
                    self.received == old(self).received,
                    self.json_out == old(self).json_out,
                    self.scanner == old(self).scanner,
                    line_remainder(comb.take(j as int)) == comb.subrange(start as int, j as int),
                    self.raw@ == raw0 + line_docs(complete_lines(comb.take(j as int))),
                    self.sent@ == sent0 + batches_view(out@),
                decreases n - j,
            {
                let ghost pre = comb.take(j as int);
                assert(comb.take(j + 1).drop_last() =~= pre);
                assert(comb.take(j + 1).last() == comb[j as int]);
                if combined[j] == NEWLINE {
                    let line = &combined[start..j];
                    let ghost ls = complete_lines(pre);
                    assert(complete_lines(comb.take(j + 1)) == ls.push(line@));
                    assert(ls.push(line@).drop_last() =~= ls);
                    let ghost ld = line_docs(ls);
                    match line_document(line) {
                        Some(d) => {
                            let ghost o = out@;
                            let ghost s1 = self.sent@;
                            self.accept(d, &mut out);
                            assert(raw0 + ld.push(d@) =~= (raw0 + ld).push(d@));
                            let ghost sub = batches_view(out@).subrange(o.len() as int, out@.len() as int);
                            assert(batches_view(out@) =~= batches_view(o) + sub);
                            assert(sent0 + batches_view(o) + sub =~= sent0 + (batches_view(o) + sub));
                        },
                        None => {},
                    }
                    start = j + 1;
                    assert(comb.subrange(start as int, j + 1) =~= Seq::<u8>::empty());
                } else {
                    assert(comb.subrange(start as int, j + 1) =~= comb.subrange(start as int, j as int).push(comb[j as int]));
                }
                j = j + 1;
            }
            assert(comb.take(n as int) =~= comb);
            let tail = combined.split_off(start);
            self.buffer = tail;
            proof {
                lemma_lines_of_concat(r, chunk@);
                lemma_line_docs_concat(complete_lines(r), complete_lines(comb));
            }
            self.received = Ghost(r + chunk@);
            assert(line_docs(complete_lines(r + chunk@)) == raw0 + line_docs(complete_lines(comb)));
            assert(self.raw@ == ended_raw(self.mime, self.received@));
            assert(self.raw@.subrange(0, raw0.len() as int) =~= raw0);
            out
        }
    }

    /// Ends the body: the last line or value that its end ends is read;
    /// returns the batches still to upload.
    pub fn finish(self) -> (res: (Vec<Vec<Vec<u8>>>, Vec<u8>))
        requires
            self.wf(),
        ensures
            self.progress().sent + batches_view(res.0@) == planned_batches(
                self.format(),
                self.strips(),
                self.budget(),
                self.received(),
            ),
            res.1@ == header_of(self.format(), self.received()),
            all_raw(self.format(), self.received()).len() >= self.documents_read().len(),
            all_raw(self.format(), self.received()).subrange(0, self.documents_read().len() as int)
                == self.documents_read(),
    {
        let mut s = self;
        let ghost raw0 = s.raw@;
        let ghost sent0 = s.sent@;
        let ghost r = s.received@;
        let ghost mime = s.mime;
        let ghost strip = s.strip;
        let ghost size = s.batcher.budget();
        let mut out: Vec<Vec<Vec<u8>>> = Vec::new();
        assert(batches_view(out@) =~= Seq::<Seq<Seq<u8>>>::empty());
        assert(sent0 + Seq::<Seq<Seq<u8>>>::empty() =~= sent0);
        if s.mime == Mime::Json {
            let mut scanner = JsonScanner::new();
            std::mem::swap(&mut scanner, &mut s.scanner);
            let ghost st = scanner.state(s.json_out@);
            let mut vals: Vec<Vec<u8>> = Vec::new();
            assert(values_view(vals@) =~= Seq::<Seq<u8>>::empty());
            proof {
                scanner.lemma_state_out(s.json_out@, Seq::<Seq<u8>>::empty());
                scanner.lemma_state_out(Seq::<Seq<u8>>::empty(), s.json_out@);
            }
            scanner.finish(&mut vals);
            let ghost vs = values_view(vals@);
            assert(vs == emit(Seq::<Seq<u8>>::empty(), st.cur));
            assert(json_values(r) =~= s.json_out@ + vs) by {
                if crate::json::trim_json_end(st.cur).len() > 0 {
                    assert(s.json_out@ + seq![crate::json::trim_json_end(st.cur)] =~= s.json_out@.push(crate::json::trim_json_end(st.cur)));
                } else {
                    assert(s.json_out@ + Seq::<Seq<u8>>::empty() =~= s.json_out@);
                }
            }
            assert(normalize_all(s.json_out@ + vs) =~= raw0 + normalize_all(vs));
            if vals.len() > 0 {
                let text = decode_utf8_lossy(vals[0].as_slice());
                let d = text.as_str().as_bytes_vec();
                s.accept(d, &mut out);
                assert(normalize_all(vs) =~= seq![d@]);
                assert(raw0 + seq![d@] =~= raw0.push(d@));
            } else {
                assert(normalize_all(vs) =~= Seq::<Seq<u8>>::empty());
                assert(raw0 + Seq::<Seq<u8>>::empty() =~= raw0);
            }
        } else {
            let mut line: Vec<u8> = Vec::new();
            std::mem::swap(&mut line, &mut s.buffer);
            assert(split_lines(r).drop_last() =~= complete_lines(r));
            assert(split_lines(r).last() == line@);
            match line_document(line.as_slice()) {
                Some(d) => {
                    s.accept(d, &mut out);
                },
                None => {},
            }
        }
        assert(s.raw@ == all_raw(mime, r));
        assert(s.raw@.subrange(0, raw0.len() as int) =~= raw0);
        let header: Vec<u8> = vstd::slice::slice_to_vec(s.header_read());
        assert(s.sent@ == sent0 + batches_view(out@)) by {
            assert(batches_view(out@) =~= Seq::<Seq<Seq<u8>>>::empty() + batches_view(out@).subrange(0, out@.len() as int));
        }
        let ghost mid = s.sent@;
        let ghost pend = s.batcher.pending();
        match s.batcher.finish() {
            Some(b) => {
                let ghost o = out@;
                out.push(b);
                assert(batches_view(out@) =~= batches_view(o).push(values_view(b@)));
                assert(sent0 + batches_view(out@) =~= (sent0 + batches_view(o)).push(pend));
            },
            None => {},
        }
        (out, header)
    }
}

/// The batches of a whole body, read in one piece, and its CSV header.
pub fn plan_batches(data: &[u8], mime: Mime, strip: bool, batch_size_bytes: usize) -> (res: (Vec<Vec<Vec<u8>>>, Vec<u8>))
    ensures
        batches_view(res.0@) == planned_batches(mime, strip, batch_size_bytes as nat, data@),
        res.1@ == header_of(mime, data@),
{
    let mut s = DocumentStream::new(mime, strip, batch_size_bytes);
    let dlen = data.len();
    assert(data@.len() <= u64::MAX) by {
        assert(usize::MAX <= u64::MAX);
    }
    assert(Seq::<u8>::empty() + data@ =~= data@);
    let mut first = s.push_chunk(data);
    let (mut rest, header) = s.finish();
    let ghost f = first@;
    let ghost rs = rest@;
    first.append(&mut rest);
    assert(batches_view(f + rs) =~= batches_view(f) + batches_view(rs));
    (first, header)
}

} // verus!
