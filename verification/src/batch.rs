//! Grouping documents into batches whose upload bodies stay within a byte
//! budget, and the bodies themselves.
use vstd::prelude::*;
use crate::format::Mime;
use crate::json::{join_bytes, values_view, CLOSE_BRACKET, COMMA, OPEN_BRACKET};
use crate::lines::NEWLINE;

verus! {

/// The total length of the documents.
pub open spec fn sum_len(docs: Seq<Seq<u8>>) -> nat
    decreases docs.len(),
{
    if docs.len() == 0 {
        0
    } else {
        sum_len(docs.drop_last()) + docs.last().len()
    }
}

/// The bytes of a body around its documents: the brackets of a JSON array,
/// nothing for NDJSON, the header line for CSV.
pub open spec fn framing(mime: Mime, header: Seq<u8>) -> nat {
    match mime {
        Mime::Json => 2,
        Mime::NdJson => 0,
        Mime::Csv => header.len() + 1,
    }
}

/// The length of a body holding `docs`, one separator byte between two.
pub open spec fn body_len(framing: nat, docs: Seq<Seq<u8>>) -> nat {
    if docs.len() == 0 {
        framing
    } else {
        framing + sum_len(docs) + (docs.len() - 1) as nat
    }
}

/// The upload body of a batch: a JSON array of the documents, the NDJSON
/// documents one per line, or the CSV header line followed by the rows.
pub open spec fn body_bytes(mime: Mime, header: Seq<u8>, docs: Seq<Seq<u8>>) -> Seq<u8> {
    match mime {
        Mime::Json => seq![OPEN_BRACKET] + join_bytes(docs, COMMA) + seq![CLOSE_BRACKET],
        Mime::NdJson => join_bytes(docs, NEWLINE),
        Mime::Csv => header.push(NEWLINE) + join_bytes(docs, NEWLINE),
    }
}

/// Batches being filled: those handed out and the one being filled.
pub struct Packing {
    pub sent: Seq<Seq<Seq<u8>>>,
    pub pending: Seq<Seq<u8>>,
}

pub open spec fn packing_start() -> Packing {
    Packing { sent: seq![], pending: seq![] }
}

/// One more document: it joins the batch being filled when the body stays
/// within the budget or the batch is empty; otherwise the batch is handed
/// out and the document starts the next one.
pub open spec fn pack_step(st: Packing, d: Seq<u8>, framing: nat, size: nat) -> Packing {
    if st.pending.len() > 0 && body_len(framing, st.pending.push(d)) > size {
        Packing { sent: st.sent.push(st.pending), pending: seq![d] }
    } else {
        Packing { sent: st.sent, pending: st.pending.push(d) }
    }
}

/// The batching reached from `st` by adding `docs` in order.
pub open spec fn pack_from(st: Packing, docs: Seq<Seq<u8>>, framing: nat, size: nat) -> Packing
    decreases docs.len(),
{
    if docs.len() == 0 {
        st
    } else {
        pack_step(pack_from(st, docs.drop_last(), framing, size), docs.last(), framing, size)
    }
}

/// All batches once the documents are over.
pub open spec fn close_packing(st: Packing) -> Seq<Seq<Seq<u8>>> {
    if st.pending.len() > 0 {
        st.sent.push(st.pending)
    } else {
        st.sent
    }
}

/// The batches of `docs` under the byte budget `size`.
pub open spec fn packed(docs: Seq<Seq<u8>>, framing: nat, size: nat) -> Seq<Seq<Seq<u8>>> {
    close_packing(pack_from(packing_start(), docs, framing, size))
}

/// Batches of documents, as values.
pub open spec fn batches_view(v: Seq<Vec<Vec<u8>>>) -> Seq<Seq<Seq<u8>>> {
    v.map_values(|b: Vec<Vec<u8>>| values_view(b@))
}

/// Adding `a` then `b` packs as adding `a + b`.
pub proof fn lemma_pack_concat(st: Packing, a: Seq<Seq<u8>>, b: Seq<Seq<u8>>, framing: nat, size: nat)
    ensures
        pack_from(st, a + b, framing, size) == pack_from(pack_from(st, a, framing, size), b, framing, size),
    decreases b.len(),
{
    if b.len() == 0 {
        assert(a + b =~= a);
    } else {
        assert((a + b).drop_last() =~= a + b.drop_last());
        assert((a + b).last() == b.last());
        lemma_pack_concat(st, a, b.drop_last(), framing, size);
    }
}

/// Fills batches of documents under a byte budget.
pub struct Batcher {
    framing: u128,
    size: usize,
    pending: Vec<Vec<u8>>,
    pending_len: u128,
}

impl Batcher {
    pub closed spec fn framing(&self) -> nat {
        self.framing as nat
    }

    pub closed spec fn budget(&self) -> nat {
        self.size as nat
    }

    /// The documents of the batch being filled.
    pub closed spec fn pending(&self) -> Seq<Seq<u8>> {
        values_view(self.pending@)
    }

    pub closed spec fn wf(&self) -> bool {
        &&& self.framing <= usize::MAX + 1
        &&& self.pending@.len() > 0 ==> self.pending_len == body_len(self.framing as nat, self.pending())
        &&& self.pending@.len() > 0 ==> self.pending_len <= 2 * usize::MAX + 1
        &&& self.pending@.len() >= 2 ==> self.pending_len <= self.size
    }

    /// A batcher with an empty batch.
    pub fn new(framing: usize, size: usize) -> (b: Batcher)
        ensures
            b.wf(),
            b.framing() == framing,
            b.budget() == size,
            b.pending() == Seq::<Seq<u8>>::empty(),
    {
        let b = Batcher { framing: framing as u128, size, pending: Vec::new(), pending_len: 0 };
        assert(b.pending() =~= Seq::<Seq<u8>>::empty());
        b
    }

    /// Sets the framing before any document: the CSV header line.
    pub fn set_framing(&mut self, framing: u128)
        requires
            old(self).wf(),
            old(self).pending().len() == 0,
            framing <= usize::MAX + 1,
        ensures
            final(self).wf(),
            final(self).framing() == framing,
            final(self).budget() == old(self).budget(),
            final(self).pending() == old(self).pending(),
    {
        self.framing = framing;
    }

    /// Adds a document; returns the batch that it closes, if any.
    pub fn add(&mut self, d: Vec<u8>) -> (flushed: Option<Vec<Vec<u8>>>)
        requires
            old(self).wf(),
        ensures
            final(self).wf(),
            final(self).framing() == old(self).framing(),
            final(self).budget() == old(self).budget(),
            ({
                let st = pack_step(
                    Packing { sent: seq![], pending: old(self).pending() },
                    d@,
                    old(self).framing(),
                    old(self).budget(),
                );
                &&& final(self).pending() == st.pending
                &&& match flushed {
                    Some(b) => st.sent == seq![values_view(b@)],
                    None => st.sent == Seq::<Seq<Seq<u8>>>::empty(),
                }
            }),
    {
        let ghost old_pending = self.pending();
        let dl = d.len() as u128;
        assert(old_pending.push(d@).drop_last() =~= old_pending);
        if self.pending.len() > 0 {
            let cand = self.pending_len + 1 + dl;
            if cand > self.size as u128 {
                let mut full: Vec<Vec<u8>> = Vec::new();
                std::mem::swap(&mut full, &mut self.pending);
                self.pending.push(d);
                self.pending_len = self.framing + dl;
                assert(self.pending() =~= seq![d@]);
                assert(seq![d@].drop_last() =~= Seq::<Seq<u8>>::empty());
                assert(sum_len(seq![d@].drop_last()) == 0);
                assert(seq![d@].last() == d@);
                assert(sum_len(seq![d@]) == d@.len());
                assert(seq![values_view(full@)] =~= Seq::<Seq<Seq<u8>>>::empty().push(values_view(full@)));
                return Some(full);
            }
            self.pending.push(d);
            self.pending_len = cand;
            assert(self.pending() =~= old_pending.push(d@));
            None
        } else {
            self.pending.push(d);
            self.pending_len = self.framing + dl;
            assert(self.pending() =~= old_pending.push(d@));
            assert(old_pending =~= Seq::<Seq<u8>>::empty());
            None
        }
    }

    /// Ends the documents; returns the last batch when it holds one.
    pub fn finish(self) -> (last: Option<Vec<Vec<u8>>>)
        ensures
            match last {
                Some(b) => self.pending().len() > 0 && values_view(b@) == self.pending(),
                None => self.pending().len() == 0,
            },
    {
        if self.pending.len() > 0 {
            Some(self.pending)
        } else {
            None
        }
    }
}

/// Appends `parts` joined by `sep` to `r`.
fn append_joined(r: &mut Vec<u8>, parts: &Vec<Vec<u8>>, sep: u8)
    ensures
        final(r)@ == old(r)@ + join_bytes(values_view(parts@), sep),
{
    let ghost start = r@;
    let ghost ps = values_view(parts@);
    let mut j: usize = 0;
    assert(ps.take(0) =~= Seq::<Seq<u8>>::empty());
    assert(start + Seq::<u8>::empty() =~= start);
    while j < parts.len()
        invariant
            j <= parts@.len(),
            ps == values_view(parts@),
            r@ == start + join_bytes(ps.take(j as int), sep),
        decreases parts@.len() - j,
    {
        assert(ps.take(j + 1).drop_last() =~= ps.take(j as int));
        assert(ps.take(j + 1).last() == parts@[j as int]@);
        if j > 0 {
            r.push(sep);
        }
        let part = &parts[j];
        let mut t: usize = 0;
        let ghost mid = r@;
        while t < part.len()
            invariant
                t <= part@.len(),
                r@ == mid + part@.subrange(0, t as int),
            decreases part@.len() - t,
        {
            r.push(part[t]);
            t = t + 1;
            assert(r@ =~= mid + part@.subrange(0, t as int));
        }
        assert(part@.subrange(0, t as int) =~= part@);
        if j > 0 {
            assert(r@ =~= start + (join_bytes(ps.take(j as int), sep).push(sep) + ps.take(j + 1).last()));
        } else {
            assert(join_bytes(ps.take(1), sep) == ps.take(1)[0]);
            assert(r@ =~= start + join_bytes(ps.take(j + 1), sep));
        }
        j = j + 1;
    }
    assert(ps.take(j as int) =~= ps);
}

/// The upload body of a batch.
pub fn batch_body(mime: Mime, header: &[u8], docs: &Vec<Vec<u8>>) -> (body: Vec<u8>)
    ensures
        body@ == body_bytes(mime, header@, values_view(docs@)),
{
    let mut r: Vec<u8> = Vec::new();
    match mime {
        Mime::Json => {
            r.push(OPEN_BRACKET);
            append_joined(&mut r, docs, COMMA);
            r.push(CLOSE_BRACKET);
        },
        Mime::NdJson => {
            append_joined(&mut r, docs, NEWLINE);
            assert(r@ =~= join_bytes(values_view(docs@), NEWLINE));
        },
        Mime::Csv => {
            let mut i: usize = 0;
            while i < header.len()
                invariant
                    i <= header@.len(),
                    r@ == header@.subrange(0, i as int),
                decreases header@.len() - i,
            {
                r.push(header[i]);
                i = i + 1;
                assert(r@ =~= header@.subrange(0, i as int));
            }
            assert(header@.subrange(0, i as int) =~= header@);
            r.push(NEWLINE);
            append_joined(&mut r, docs, NEWLINE);
        },
    }
    r
}

/// The length of a joined sequence: the parts and a separator between two.
pub proof fn lemma_join_len(parts: Seq<Seq<u8>>, sep: u8)
    ensures
        parts.len() > 0 ==> join_bytes(parts, sep).len() == sum_len(parts) + parts.len() - 1,
        parts.len() == 0 ==> join_bytes(parts, sep).len() == 0,
    decreases parts.len(),
{
    if parts.len() > 1 {
        lemma_join_len(parts.drop_last(), sep);
        assert(sum_len(parts) == sum_len(parts.drop_last()) + parts.last().len());
    } else if parts.len() == 1 {
        assert(parts.drop_last().len() == 0);
        assert(sum_len(parts.drop_last()) == 0);
        assert(parts.last() == parts[0]);
    }
}

/// A body is exactly as long as the length that the budget is held to.
pub proof fn lemma_body_len(mime: Mime, header: Seq<u8>, docs: Seq<Seq<u8>>)
    requires
        docs.len() > 0,
    ensures
        body_bytes(mime, header, docs).len() == body_len(framing(mime, header), docs),
{
    lemma_join_len(docs, COMMA);
    lemma_join_len(docs, NEWLINE);
}

} // verus!
