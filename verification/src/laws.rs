//! Properties of the import pipeline as a whole.
use vstd::prelude::*;
use crate::batch::{
    body_bytes, body_len, close_packing, framing, lemma_body_len, lemma_pack_concat, pack_from,
    pack_step, packed, packing_start, Packing,
};
use crate::format::Mime;
use crate::json::{
    emit, is_vectors_member, join_bytes, json_scan_from, json_start, json_values, kept_members,
    lemma_json_scan_concat, lemma_json_scan_keeps_out, JsonScan, CLOSE_BRACKET, COMMA,
    OPEN_BRACKET,
};
use crate::lines::{
    complete_lines, lemma_line_docs_concat, lemma_lines_of_concat, line_docs, line_remainder,
    line_text, split_lines, NEWLINE,
};
use crate::retry::two_to_the;
use crate::stream::{
    all_raw, batching_of, body_documents, csv_header, documents_of, ended_raw, header_of,
    normalize_all, planned_batches, prepared,
};
use crate::text::{is_white_space, trim, trim_end, trim_start, utf8_lossy};
use crate::json::{without_embeddings, CLOSE_BRACE, OPEN_BRACE};

verus! {

/// The batches laid end to end.
pub open spec fn flatten(batches: Seq<Seq<Seq<u8>>>) -> Seq<Seq<u8>>
    decreases batches.len(),
{
    if batches.len() == 0 {
        seq![]
    } else {
        flatten(batches.drop_last()) + batches.last()
    }
}

proof fn lemma_flatten_push(b: Seq<Seq<Seq<u8>>>, x: Seq<Seq<u8>>)
    ensures
        flatten(b.push(x)) == flatten(b) + x,
{
    assert(b.push(x).drop_last() =~= b);
}

proof fn lemma_packing_keeps_documents(docs: Seq<Seq<u8>>, f: nat, size: nat)
    ensures
        ({
            let st = pack_from(packing_start(), docs, f, size);
            flatten(st.sent) + st.pending == docs
        }),
    decreases docs.len(),
{
    if docs.len() == 0 {
        assert(flatten(Seq::<Seq<Seq<u8>>>::empty()) + Seq::<Seq<u8>>::empty() =~= docs);
    } else {
        lemma_packing_keeps_documents(docs.drop_last(), f, size);
        let st = pack_from(packing_start(), docs.drop_last(), f, size);
        let d = docs.last();
        if st.pending.len() > 0 && body_len(f, st.pending.push(d)) > size {
            lemma_flatten_push(st.sent, st.pending);
            assert(flatten(st.sent) + st.pending + seq![d] =~= (flatten(st.sent) + st.pending).push(d));
        } else {
            assert(flatten(st.sent) + st.pending.push(d) =~= (flatten(st.sent) + st.pending).push(d));
        }
        assert(docs.drop_last().push(d) =~= docs);
    }
}

/// Every document is uploaded exactly once, in the order of the body, and
/// nothing else is: laid end to end, the batches are the documents.
pub proof fn law_batches_hold_each_document_once(docs: Seq<Seq<u8>>, framing: nat, size: nat)
    ensures
        flatten(packed(docs, framing, size)) == docs,
{
    lemma_packing_keeps_documents(docs, framing, size);
    let st = pack_from(packing_start(), docs, framing, size);
    if st.pending.len() > 0 {
        lemma_flatten_push(st.sent, st.pending);
    } else {
        assert(flatten(st.sent) + st.pending =~= flatten(st.sent));
    }
}

/// A batch fits the budget, or holds a single document.
pub open spec fn fits(f: nat, size: nat, b: Seq<Seq<u8>>) -> bool {
    b.len() == 1 || body_len(f, b) <= size
}

/// The first document of `next` would not have fitted in `b`.
pub open spec fn overflows(f: nat, size: nat, b: Seq<Seq<u8>>, next: Seq<Seq<u8>>) -> bool {
    body_len(f, b.push(next[0])) > size
}

/// The shape of the batches while they are filled.
pub open spec fn packing_shaped(st: Packing, f: nat, size: nat) -> bool {
    &&& forall|i: int| 0 <= i < st.sent.len() ==> (#[trigger] st.sent[i]).len() > 0 && fits(f, size, st.sent[i])
    &&& forall|i: int, j: int|
        #![trigger st.sent[i], st.sent[j]]
        0 <= i && j == i + 1 && j < st.sent.len() ==> overflows(f, size, st.sent[i], st.sent[j])
    &&& st.pending.len() > 0 ==> fits(f, size, st.pending)
    &&& st.sent.len() > 0 ==> st.pending.len() > 0 && overflows(f, size, st.sent.last(), st.pending)
}

proof fn lemma_packing_shaped(docs: Seq<Seq<u8>>, f: nat, size: nat)
    ensures
        packing_shaped(pack_from(packing_start(), docs, f, size), f, size),
    decreases docs.len(),
{
    if docs.len() > 0 {
        lemma_packing_shaped(docs.drop_last(), f, size);
        let st = pack_from(packing_start(), docs.drop_last(), f, size);
        let d = docs.last();
        let next = pack_step(st, d, f, size);
        if st.pending.len() > 0 && body_len(f, st.pending.push(d)) > size {
            assert(next.sent == st.sent.push(st.pending));
            assert(seq![d].len() == 1);
            assert(next.pending == seq![d]);
            assert(next.pending[0] == d);
            assert forall|i: int| 0 <= i < next.sent.len() implies (#[trigger] next.sent[i]).len() > 0 && fits(f, size, next.sent[i]) by {
                if i < st.sent.len() {
                    assert(next.sent[i] == st.sent[i]);
                }
            }
            assert forall|i: int, j: int|
                #![trigger next.sent[i], next.sent[j]]
                0 <= i && j == i + 1 && j < next.sent.len() implies overflows(f, size, next.sent[i], next.sent[j]) by {
                if j < st.sent.len() {
                    assert(next.sent[i] == st.sent[i]);
                    assert(next.sent[j] == st.sent[j]);
                } else {
                    assert(next.sent[i] == st.sent.last());
                    assert(next.sent[j] == st.pending);
                }
            }
        } else {
            assert(next.sent == st.sent);
            assert(next.pending == st.pending.push(d));
            if st.pending.len() > 0 {
                assert(next.pending[0] == st.pending[0]);
            }
        }
    }
}

/// The batches of a body respect the byte budget: each holds at least one
/// document, and either a single one or documents whose body is within the
/// budget; and each batch but the last is full: the first document of the
/// next one would have taken its body over the budget.
pub proof fn law_batch_sizes(docs: Seq<Seq<u8>>, framing: nat, size: nat)
    ensures
        ({
            let b = packed(docs, framing, size);
            &&& forall|i: int| 0 <= i < b.len() ==> (#[trigger] b[i]).len() > 0
            &&& forall|i: int| 0 <= i < b.len() ==> (#[trigger] b[i]).len() == 1 || body_len(framing, b[i]) <= size
            &&& forall|i: int, j: int|
                #![trigger b[i], b[j]]
                0 <= i && j == i + 1 && j < b.len() ==> body_len(framing, b[i].push(b[j][0])) > size
        }),
{
    lemma_packing_shaped(docs, framing, size);
    let st = pack_from(packing_start(), docs, framing, size);
    let b = packed(docs, framing, size);
    if st.pending.len() > 0 {
        assert(b == st.sent.push(st.pending));
        assert forall|i: int| 0 <= i < b.len() implies (#[trigger] b[i]).len() > 0 && fits(framing, size, b[i]) by {
            if i < st.sent.len() {
                assert(b[i] == st.sent[i]);
            }
        }
        assert forall|i: int, j: int|
            #![trigger b[i], b[j]]
            0 <= i && j == i + 1 && j < b.len() implies overflows(framing, size, b[i], b[j]) by {
            if j < st.sent.len() {
                assert(b[i] == st.sent[i]);
                assert(b[j] == st.sent[j]);
            } else {
                assert(b[i] == st.sent.last());
            }
        }
    } else {
        assert(b == st.sent);
        assert forall|i: int| 0 <= i < b.len() implies (#[trigger] b[i]).len() > 0 && fits(framing, size, b[i]) by {
            assert(b[i] == st.sent[i]);
        }
    }
}

/// Every upload body of a body's batches is at most `size` bytes long,
/// unless its batch holds a single document; and for every batch but the
/// last, the body with the next document added would be over `size`.
pub proof fn law_upload_bodies_within_budget(mime: Mime, strip: bool, size: nat, data: Seq<u8>)
    ensures
        ({
            let b = planned_batches(mime, strip, size, data);
            let h = header_of(mime, data);
            &&& forall|i: int|
                0 <= i < b.len() ==> (#[trigger] b[i]).len() == 1 || body_bytes(mime, h, b[i]).len() <= size
            &&& forall|i: int, j: int|
                #![trigger b[i], b[j]]
                0 <= i && j == i + 1 && j < b.len() ==> body_bytes(mime, h, b[i].push(b[j][0])).len() > size
        }),
{
    let b = planned_batches(mime, strip, size, data);
    let h = header_of(mime, data);
    let f = framing(mime, h);
    law_batch_sizes(documents_of(mime, strip, data), f, size);
    assert forall|i: int| 0 <= i < b.len() implies (#[trigger] b[i]).len() == 1 || body_bytes(mime, h, b[i]).len() <= size by {
        lemma_body_len(mime, h, b[i]);
    }
    assert forall|i: int, j: int|
        #![trigger b[i], b[j]]
        0 <= i && j == i + 1 && j < b.len() implies body_bytes(mime, h, b[i].push(b[j][0])).len() > size by {
        lemma_body_len(mime, h, b[i].push(b[j][0]));
    }
}

proof fn lemma_csv_documents(strip: bool, raw: Seq<Seq<u8>>)
    requires
        raw.len() > 0,
    ensures
        body_documents(Mime::Csv, strip, raw) == raw.subrange(1, raw.len() as int),
    decreases raw.len(),
{
    if raw.len() == 1 {
        assert(raw.subrange(1, 1) =~= Seq::<Seq<u8>>::empty());
    } else {
        lemma_csv_documents(strip, raw.drop_last());
        assert(prepared(Mime::Csv, strip, raw.last()) == raw.last());
        assert(raw.drop_last().subrange(1, raw.len() - 1).push(raw.last()) =~= raw.subrange(1, raw.len() as int));
    }
}

/// The first CSV line that holds text is the header: it is no document,
/// every other such line is one, and every CSV upload body begins with the
/// header line.
pub proof fn law_csv_header_is_not_a_document(strip: bool, data: Seq<u8>, docs: Seq<Seq<u8>>)
    ensures
        ({
            let raw = all_raw(Mime::Csv, data);
            raw.len() > 0 ==> {
                &&& header_of(Mime::Csv, data) == raw[0]
                &&& documents_of(Mime::Csv, strip, data) == raw.subrange(1, raw.len() as int)
            }
        }),
        ({
            let h = header_of(Mime::Csv, data);
            body_bytes(Mime::Csv, h, docs).subrange(0, h.len() + 1int) == h.push(NEWLINE)
        }),
{
    let raw = all_raw(Mime::Csv, data);
    if raw.len() > 0 {
        lemma_csv_documents(strip, raw);
    }
    let h = header_of(Mime::Csv, data);
    let body = body_bytes(Mime::Csv, h, docs);
    assert(body.subrange(0, h.len() + 1int) =~= h.push(NEWLINE));
}

proof fn lemma_pack_sent_grows(st: Packing, docs: Seq<Seq<u8>>, f: nat, size: nat)
    ensures
        st.sent.is_prefix_of(pack_from(st, docs, f, size).sent),
    decreases docs.len(),
{
    if docs.len() == 0 {
        assert(st.sent.is_prefix_of(st.sent)) by {
            assert(st.sent.subrange(0, st.sent.len() as int) =~= st.sent);
        }
    } else {
        lemma_pack_sent_grows(st, docs.drop_last(), f, size);
        let mid = pack_from(st, docs.drop_last(), f, size);
        let next = pack_step(mid, docs.last(), f, size);
        assert(next.sent.subrange(0, st.sent.len() as int) =~= mid.sent.subrange(0, st.sent.len() as int));
    }
}

proof fn lemma_prefix_trans<A>(a: Seq<A>, b: Seq<A>, c: Seq<A>)
    requires
        a.is_prefix_of(b),
        b.is_prefix_of(c),
    ensures
        a.is_prefix_of(c),
{
    assert(c.subrange(0, a.len() as int) =~= b.subrange(0, a.len() as int));
}

proof fn lemma_prefix_concat<A>(a: Seq<A>, b: Seq<A>)
    ensures
        a.is_prefix_of(a + b),
{
    assert((a + b).subrange(0, a.len() as int) =~= a);
}

proof fn lemma_body_documents_prefix(mime: Mime, strip: bool, p: Seq<Seq<u8>>, raw: Seq<Seq<u8>>)
    requires
        p.is_prefix_of(raw),
    ensures
        body_documents(mime, strip, p).is_prefix_of(body_documents(mime, strip, raw)),
    decreases raw.len(),
{
    if p.len() == raw.len() {
        assert(p =~= raw);
        lemma_prefix_concat(body_documents(mime, strip, p), Seq::<Seq<u8>>::empty());
        assert(body_documents(mime, strip, p) + Seq::<Seq<u8>>::empty() =~= body_documents(mime, strip, p));
    } else {
        assert(p.is_prefix_of(raw.drop_last())) by {
            assert(raw.drop_last().subrange(0, p.len() as int) =~= raw.subrange(0, p.len() as int));
        }
        lemma_body_documents_prefix(mime, strip, p, raw.drop_last());
        let q = body_documents(mime, strip, raw.drop_last());
        if raw.len() == 0 || (mime == Mime::Csv && raw.len() == 1) {
        } else {
            lemma_prefix_concat(q, seq![prepared(mime, strip, raw.last())]);
            assert(q + seq![prepared(mime, strip, raw.last())] =~= q.push(prepared(mime, strip, raw.last())));
            lemma_prefix_trans(body_documents(mime, strip, p), q, body_documents(mime, strip, raw));
        }
    }
}

proof fn lemma_ended_prefix_of_all(mime: Mime, a: Seq<u8>, b: Seq<u8>)
    ensures
        ended_raw(mime, a).is_prefix_of(all_raw(mime, a + b)),
{
    match mime {
        Mime::Json => {
            let st = json_scan_from(json_start(), a);
            lemma_json_scan_concat(json_start(), a, b);
            lemma_json_scan_keeps_out(st, b);
            let x = json_scan_from(JsonScan { out: seq![], ..st }, b);
            let whole = json_scan_from(json_start(), a + b);
            assert(whole.out == st.out + x.out);
            let vals = json_values(a + b);
            assert(st.out.is_prefix_of(vals)) by {
                lemma_prefix_concat(st.out, x.out);
                if vals.len() > whole.out.len() {
                    lemma_prefix_concat(whole.out, seq![vals.last()]);
                    assert(vals =~= whole.out + seq![vals.last()]);
                    lemma_prefix_trans(st.out, whole.out, vals);
                }
            }
            assert(normalize_all(st.out).is_prefix_of(normalize_all(vals))) by {
                assert(normalize_all(vals).subrange(0, st.out.len() as int) =~= normalize_all(st.out));
            }
        },
        _ => {
            lemma_lines_of_concat(a, b);
            let rest = complete_lines(line_remainder(a) + b).push(line_remainder(a + b));
            assert(split_lines(a + b) =~= complete_lines(a) + rest);
            lemma_line_docs_concat(complete_lines(a), rest);
            lemma_prefix_concat(line_docs(complete_lines(a)), line_docs(rest));
        },
    }
}

/// The batches that a streamed body releases while its first bytes `a`
/// are in are final: whatever bytes `b` follow, the batches of the whole
/// body `a + b` begin with them. So releasing batches as chunks arrive,
/// however the body is cut, uploads what reading it whole would.
pub proof fn law_released_batches_are_final(mime: Mime, strip: bool, size: nat, a: Seq<u8>, b: Seq<u8>)
    ensures
        batching_of(mime, strip, size, ended_raw(mime, a)).sent.is_prefix_of(
            planned_batches(mime, strip, size, a + b),
        ),
{
    let p = ended_raw(mime, a);
    let raw = all_raw(mime, a + b);
    let sent = batching_of(mime, strip, size, p).sent;
    if p.len() == 0 {
        assert(body_documents(mime, strip, p) =~= Seq::<Seq<u8>>::empty());
        assert(sent =~= Seq::<Seq<Seq<u8>>>::empty());
        assert(sent.is_prefix_of(planned_batches(mime, strip, size, a + b)));
    } else {
        lemma_ended_prefix_of_all(mime, a, b);
        assert(raw[0] == p[0]) by {
            assert(raw.subrange(0, p.len() as int)[0] == raw[0]);
        }
        assert(csv_header(mime, p) == csv_header(mime, raw));
        let f = framing(mime, csv_header(mime, raw));
        let dp = body_documents(mime, strip, p);
        let dr = body_documents(mime, strip, raw);
        lemma_body_documents_prefix(mime, strip, p, raw);
        let rest = dr.subrange(dp.len() as int, dr.len() as int);
        assert(dr =~= dp + rest);
        lemma_pack_concat(packing_start(), dp, rest, f, size);
        let st = pack_from(packing_start(), dp, f, size);
        lemma_pack_sent_grows(st, rest, f, size);
        let whole = pack_from(packing_start(), dr, f, size);
        assert(whole == pack_from(st, rest, f, size));
        if whole.pending.len() > 0 {
            lemma_prefix_concat(whole.sent, seq![whole.pending]);
            assert(whole.sent + seq![whole.pending] =~= whole.sent.push(whole.pending));
            lemma_prefix_trans(st.sent, whole.sent, close_packing(whole));
        }
    }
}

/// Inside the top-level array, between two values.
pub open spec fn between_values() -> JsonScan {
    JsonScan { depth: 0, in_array: true, in_string: false, escaped: false, cur: seq![], out: seq![] }
}

/// Read between two values of an array, `d` is one whole value: it closes
/// everything it opens and is read back as itself.
pub open spec fn reads_as_one_value(d: Seq<u8>) -> bool {
    let st = json_scan_from(between_values(), d);
    &&& st.depth == 0
    &&& st.in_array
    &&& !st.in_string
    &&& !st.escaped
    &&& emit(st.out, st.cur) == seq![d]
}

proof fn lemma_emit_prefix(a: Seq<Seq<u8>>, b: Seq<Seq<u8>>, c: Seq<u8>)
    ensures
        emit(a + b, c) == a + emit(b, c),
{
    if crate::json::trim_json_end(c).len() > 0 {
        assert((a + b).push(crate::json::trim_json_end(c)) =~= a + b.push(crate::json::trim_json_end(c)));
    }
}

/// Reading one byte is one step of the scanner.
pub proof fn lemma_scan_one(st: JsonScan, b: u8)
    ensures
        json_scan_from(st, seq![b]) == crate::json::json_step(st, b),
{
    let s = seq![b];
    assert(s.drop_last() =~= Seq::<u8>::empty());
    assert(json_scan_from(st, s.drop_last()) == st);
    assert(s.last() == b);
}

/// The scanner after the opening bracket and the documents joined by commas.
proof fn lemma_array_prefix(docs: Seq<Seq<u8>>)
    requires
        docs.len() > 0,
        forall|i: int| 0 <= i < docs.len() ==> reads_as_one_value(#[trigger] docs[i]),
    ensures
        ({
            let st = json_scan_from(json_start(), seq![OPEN_BRACKET] + join_bytes(docs, COMMA));
            &&& st.depth == 0
            &&& st.in_array
            &&& !st.in_string
            &&& !st.escaped
            &&& emit(st.out, st.cur) == docs
        }),
    decreases docs.len(),
{
    let open = seq![OPEN_BRACKET];
    assert(json_scan_from(json_start(), open) == between_values()) by {
        lemma_scan_one(json_start(), OPEN_BRACKET);
        assert(json_start().cur.len() == 0);
    }
    let d = docs.last();
    assert(reads_as_one_value(docs[docs.len() - 1]));
    let x = json_scan_from(between_values(), d);
    if docs.len() == 1 {
        lemma_json_scan_concat(json_start(), open, d);
        assert(join_bytes(docs, COMMA) == d);
        assert(seq![d] =~= docs);
    } else {
        let init = docs.drop_last();
        assert forall|i: int| 0 <= i < init.len() implies reads_as_one_value(#[trigger] init[i]) by {
            assert(init[i] == docs[i]);
        }
        lemma_array_prefix(init);
        let pre = open + join_bytes(init, COMMA);
        let t = json_scan_from(json_start(), pre);
        let comma = seq![COMMA];
        lemma_json_scan_concat(json_start(), pre, comma);
        lemma_scan_one(t, COMMA);
        let u = json_scan_from(t, comma);
        assert(u == JsonScan { out: init, ..between_values() });
        lemma_json_scan_concat(json_start(), pre + comma, d);
        assert(open + join_bytes(docs, COMMA) =~= pre + comma + d);
        assert(pre.push(COMMA) =~= pre + comma);
        lemma_json_scan_keeps_out(u, d);
        assert(JsonScan { out: seq![], ..u } == between_values());
        lemma_emit_prefix(init, x.out, x.cur);
        assert(init + seq![d] =~= docs);
    }
}

/// A JSON upload body is read back as the documents of its batch, in
/// order, when each of them is one whole value: the body is the array of
/// the batch's documents.
pub proof fn law_json_body_reads_back(header: Seq<u8>, docs: Seq<Seq<u8>>)
    requires
        forall|i: int| 0 <= i < docs.len() ==> reads_as_one_value(#[trigger] docs[i]),
    ensures
        json_values(body_bytes(Mime::Json, header, docs)) == docs,
{
    let body = body_bytes(Mime::Json, header, docs);
    let close = seq![CLOSE_BRACKET];
    let pre = seq![OPEN_BRACKET] + join_bytes(docs, COMMA);
    assert(body == pre + close);
    lemma_json_scan_concat(json_start(), pre, close);
    let t = json_scan_from(json_start(), pre);
    lemma_scan_one(t, CLOSE_BRACKET);
    if docs.len() == 0 {
        assert(pre =~= seq![OPEN_BRACKET]);
        lemma_scan_one(json_start(), OPEN_BRACKET);
        assert(json_start().cur.len() == 0);
        assert(t == between_values());
        assert(emit(t.out, t.cur) =~= docs);
    } else {
        lemma_array_prefix(docs);
    }
    let e = json_scan_from(t, close);
    assert(e.cur.len() == 0);
    assert(crate::json::trim_json_end(e.cur).len() == 0) by {
        assert(e.cur =~= Seq::<u8>::empty());
    }
}

proof fn lemma_trim_start_first(s: Seq<char>)
    ensures
        trim_start(s).len() > 0 ==> !is_white_space(trim_start(s)[0]),
        trim_start(s).len() <= s.len(),
    decreases s.len(),
{
    if s.len() > 0 && is_white_space(s[0]) {
        lemma_trim_start_first(s.drop_first());
    }
}

proof fn lemma_trim_end_last(s: Seq<char>)
    ensures
        trim_end(s).len() > 0 ==> !is_white_space(trim_end(s).last()),
        trim_end(s).len() <= s.len(),
        trim_end(s) == s.subrange(0, trim_end(s).len() as int),
    decreases s.len(),
{
    if s.len() > 0 && is_white_space(s.last()) {
        lemma_trim_end_last(s.drop_last());
        let t = trim_end(s.drop_last());
        assert(s.drop_last().subrange(0, t.len() as int) =~= s.subrange(0, t.len() as int));
    } else {
        assert(s.subrange(0, s.len() as int) =~= s);
    }
}

/// The text of an NDJSON or CSV line that holds a document is never empty
/// and neither begins nor ends with whitespace.
pub proof fn law_line_documents_are_trimmed(line: Seq<u8>)
    ensures
        line_text(line) matches Some(t) ==> {
            &&& t.len() > 0
            &&& !is_white_space(t[0])
            &&& !is_white_space(t.last())
        },
{
    let s = trim_start(crate::text::utf8_lossy(line));
    lemma_trim_start_first(crate::text::utf8_lossy(line));
    lemma_trim_end_last(s);
    let t = trim(crate::text::utf8_lossy(line));
    if t.len() > 0 {
        assert(t[0] == s[0]);
    }
}

/// Stripping embeddings removes the `_vectors` members of an object and
/// nothing else: no member left is one, and an object without one keeps
/// all its members, in order.
pub proof fn law_only_embeddings_are_stripped(ms: Seq<Seq<u8>>)
    ensures
        forall|i: int| 0 <= i < kept_members(ms).len() ==> !is_vectors_member(#[trigger] kept_members(ms)[i]),
        (forall|i: int| 0 <= i < ms.len() ==> !is_vectors_member(#[trigger] ms[i])) ==> kept_members(ms) == ms,
    decreases ms.len(),
{
    if ms.len() > 0 {
        law_only_embeddings_are_stripped(ms.drop_last());
        let k = kept_members(ms.drop_last());
        if !is_vectors_member(ms.last()) {
            assert forall|i: int| 0 <= i < k.push(ms.last()).len() implies !is_vectors_member(#[trigger] k.push(ms.last())[i]) by {
                if i < k.len() {
                    assert(k.push(ms.last())[i] == k[i]);
                }
            }
        }
        if forall|i: int| 0 <= i < ms.len() ==> !is_vectors_member(#[trigger] ms[i]) {
            assert forall|i: int| 0 <= i < ms.drop_last().len() implies !is_vectors_member(#[trigger] ms.drop_last()[i]) by {
                assert(ms.drop_last()[i] == ms[i]);
            }
            assert(!is_vectors_member(ms[ms.len() - 1]));
            assert(ms.drop_last().push(ms.last()) =~= ms);
        }
    }
}

/// A line holds a document exactly when its text is not blank, whatever
/// its length: the document is that text, trimmed.
pub proof fn law_line_holds_its_text(line: Seq<u8>)
    requires
        line.len() > 0,
    ensures
        trim(utf8_lossy(line)).len() > 0 ==> line_text(line) == Some(trim(utf8_lossy(line))),
        trim(utf8_lossy(line)).len() == 0 ==> line_text(line) is None,
{
}

/// The members of an object that are not the embedding field.
pub open spec fn non_embedding_members(ms: Seq<Seq<u8>>) -> Seq<Seq<u8>> {
    ms.filter(|m: Seq<u8>| !is_vectors_member(m))
}

proof fn lemma_kept_is_filter(ms: Seq<Seq<u8>>)
    ensures
        kept_members(ms) == non_embedding_members(ms),
        (exists|i: int| 0 <= i < ms.len() && is_vectors_member(#[trigger] ms[i])) ==> kept_members(ms).len() < ms.len(),
        kept_members(ms).len() <= ms.len(),
    decreases ms.len(),
{
    reveal(Seq::filter);
    if ms.len() > 0 {
        lemma_kept_is_filter(ms.drop_last());
        if exists|i: int| 0 <= i < ms.len() && is_vectors_member(#[trigger] ms[i]) {
            let i = choose|i: int| 0 <= i < ms.len() && is_vectors_member(#[trigger] ms[i]);
            if i < ms.len() - 1 {
                assert(ms.drop_last()[i] == ms[i]);
            }
        }
    }
}

/// Stripping an object with a `_vectors` member gives the object of its
/// other members, in order, whatever its length, and no `_vectors` member
/// is left; an object without one, or a document that is no object, is
/// kept as it is.
pub proof fn law_embeddings_are_removed(doc: Seq<u8>)
    ensures
        ({
            let is_object = doc.len() >= 2 && doc[0] == OPEN_BRACE && doc.last() == CLOSE_BRACE;
            let ms = json_values(doc.subrange(1, doc.len() - 1));
            let others = non_embedding_members(ms);
            &&& is_object && (exists|i: int| 0 <= i < ms.len() && is_vectors_member(#[trigger] ms[i])) ==> {
                &&& without_embeddings(doc) == seq![OPEN_BRACE] + join_bytes(others, COMMA) + seq![CLOSE_BRACE]
                &&& forall|j: int| 0 <= j < others.len() ==> !is_vectors_member(#[trigger] others[j])
            }
            &&& is_object && (forall|i: int| 0 <= i < ms.len() ==> !is_vectors_member(#[trigger] ms[i]))
                ==> without_embeddings(doc) == doc
            &&& !is_object ==> without_embeddings(doc) == doc
        }),
{
    let ms = json_values(doc.subrange(1, doc.len() - 1));
    lemma_kept_is_filter(ms);
    law_only_embeddings_are_stripped(ms);
}

/// Embeddings are stripped only when asked, and only from JSON and NDJSON
/// documents: CSV rows, and every document when not asked, are uploaded as
/// they were read.
pub proof fn law_stripping_scope(mime: Mime, strip: bool, d: Seq<u8>)
    ensures
        !strip ==> prepared(mime, strip, d) == d,
        mime == Mime::Csv ==> prepared(mime, strip, d) == d,
        strip && mime != Mime::Csv ==> prepared(mime, strip, d) == without_embeddings(d),
{
}

/// The seconds waited before the attempts after the first `n`.
pub open spec fn total_backoff(n: nat) -> nat
    decreases n,
{
    if n == 0 {
        0
    } else {
        total_backoff((n - 1) as nat) + two_to_the((n - 1) as nat)
    }
}

/// The waits double from one second on, so `n` refused attempts that are
/// each retried cost 2^n - 1 seconds of waiting.
pub proof fn law_backoff_is_exponential(n: nat)
    ensures
        total_backoff(n) == two_to_the(n) - 1,
    decreases n,
{
    if n > 0 {
        law_backoff_is_exponential((n - 1) as nat);
    }
}

} // verus!
