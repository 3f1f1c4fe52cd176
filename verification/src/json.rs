//! Reading the documents of a JSON body: the elements of a top-level array
//! (over any number of lines), or top-level values one after the other; and
//! removing the embedding field `_vectors` from a document.
use vstd::prelude::*;

verus! {

pub const QUOTE: u8 = 0x22u8;
pub const BACKSLASH: u8 = 0x5cu8;
pub const COMMA: u8 = 0x2cu8;
pub const COLON: u8 = 0x3au8;
pub const OPEN_BRACKET: u8 = 0x5bu8;
pub const CLOSE_BRACKET: u8 = 0x5du8;
pub const OPEN_BRACE: u8 = 0x7bu8;
pub const CLOSE_BRACE: u8 = 0x7du8;

/// JSON's insignificant whitespace.
pub open spec fn is_json_space(b: u8) -> bool {
    b == 0x20 || b == 0x09 || b == 0x0a || b == 0x0d
}

pub open spec fn is_open(b: u8) -> bool {
    b == OPEN_BRACE || b == OPEN_BRACKET
}

pub open spec fn is_close(b: u8) -> bool {
    b == CLOSE_BRACE || b == CLOSE_BRACKET
}

/// `s` without trailing JSON whitespace.
pub open spec fn trim_json_end(s: Seq<u8>) -> Seq<u8>
    decreases s.len(),
{
    if s.len() > 0 && is_json_space(s.last()) {
        trim_json_end(s.drop_last())
    } else {
        s
    }
}

/// `s` without leading JSON whitespace.
pub open spec fn trim_json_start(s: Seq<u8>) -> Seq<u8>
    decreases s.len(),
{
    if s.len() > 0 && is_json_space(s[0]) {
        trim_json_start(s.drop_first())
    } else {
        s
    }
}

/// The scanner of a JSON body, read left to right: the nesting depth of the
/// value being read, whether a top-level array is open, whether a string is
/// open and its last byte was a backslash, the bytes of the value being read
/// and the values ended so far.
pub struct JsonScan {
    pub depth: nat,
    pub in_array: bool,
    pub in_string: bool,
    pub escaped: bool,
    pub cur: Seq<u8>,
    pub out: Seq<Seq<u8>>,
}

/// Nothing read yet.
pub open spec fn json_start() -> JsonScan {
    JsonScan { depth: 0, in_array: false, in_string: false, escaped: false, cur: seq![], out: seq![] }
}

/// Ends the value being read: it is handed out, without its trailing
/// whitespace, unless nothing is left of it.
pub open spec fn emit(out: Seq<Seq<u8>>, cur: Seq<u8>) -> Seq<Seq<u8>> {
    if trim_json_end(cur).len() > 0 {
        out.push(trim_json_end(cur))
    } else {
        out
    }
}

/// One more byte read. Inside a string every byte belongs to the value. At
/// the top level, a `[` that starts nothing opens the top-level array, its
/// `]` and every comma end the value being read, whitespace before a value
/// is passed over, and any other byte starts or continues a value. Inside a
/// value, brackets and braces nest, and the value ends when they close.
pub open spec fn json_step(st: JsonScan, b: u8) -> JsonScan {
    if st.in_string {
        JsonScan {
            cur: st.cur.push(b),
            in_string: st.escaped || b != QUOTE,
            escaped: !st.escaped && b == BACKSLASH,
            ..st
        }
    } else if st.depth == 0 {
        if b == OPEN_BRACKET && !st.in_array && st.cur.len() == 0 {
            JsonScan { in_array: true, ..st }
        } else if b == CLOSE_BRACKET && st.in_array {
            JsonScan { in_array: false, cur: seq![], out: emit(st.out, st.cur), ..st }
        } else if b == COMMA {
            JsonScan { cur: seq![], out: emit(st.out, st.cur), ..st }
        } else if is_json_space(b) && st.cur.len() == 0 {
            st
        } else {
            JsonScan {
                cur: st.cur.push(b),
                depth: if is_open(b) { 1 } else { 0 },
                in_string: b == QUOTE,
                ..st
            }
        }
    } else if is_close(b) && st.depth == 1 {
        JsonScan { depth: 0, cur: seq![], out: emit(st.out, st.cur.push(b)), ..st }
    } else {
        JsonScan {
            cur: st.cur.push(b),
            depth: if is_open(b) { st.depth + 1 } else if is_close(b) { (st.depth - 1) as nat } else { st.depth },
            in_string: b == QUOTE,
            ..st
        }
    }
}

/// The scanner reached from `st` by reading `s`.
pub open spec fn json_scan_from(st: JsonScan, s: Seq<u8>) -> JsonScan
    decreases s.len(),
{
    if s.len() == 0 {
        st
    } else {
        json_step(json_scan_from(st, s.drop_last()), s.last())
    }
}

/// The values of a whole JSON body, the last one ended by the end of the body.
pub open spec fn json_values(data: Seq<u8>) -> Seq<Seq<u8>> {
    let st = json_scan_from(json_start(), data);
    emit(st.out, st.cur)
}

/// Reading `a` then `b` scans as reading `a + b`.
pub proof fn lemma_json_scan_concat(st: JsonScan, a: Seq<u8>, b: Seq<u8>)
    ensures
        json_scan_from(st, a + b) == json_scan_from(json_scan_from(st, a), b),
    decreases b.len(),
{
    if b.len() == 0 {
        assert(a + b =~= a);
    } else {
        assert((a + b).drop_last() =~= a + b.drop_last());
        lemma_json_scan_concat(st, a, b.drop_last());
    }
}

/// Values ended before a scan stay in front of those it ends.
pub proof fn lemma_json_scan_keeps_out(st: JsonScan, s: Seq<u8>)
    ensures
        ({
            let x = json_scan_from(JsonScan { out: seq![], ..st }, s);
            json_scan_from(st, s) == JsonScan { out: st.out + x.out, ..x }
        }),
    decreases s.len(),
{
    if s.len() == 0 {
        assert(st.out + Seq::<Seq<u8>>::empty() =~= st.out);
    } else {
        lemma_json_scan_keeps_out(st, s.drop_last());
        let x = json_scan_from(JsonScan { out: seq![], ..st }, s.drop_last());
        let t1 = trim_json_end(x.cur);
        let t2 = trim_json_end(x.cur.push(s.last()));
        assert(st.out + x.out.push(t1) =~= (st.out + x.out).push(t1));
        assert(st.out + x.out.push(t2) =~= (st.out + x.out).push(t2));
    }
}

/// The scanner state of a body being read.
pub struct JsonScanner {
    depth: u64,
    in_array: bool,
    in_string: bool,
    escaped: bool,
    cur: Vec<u8>,
}

impl JsonScanner {
    /// The state, with the values ended so far given.
    pub closed spec fn state(&self, out: Seq<Seq<u8>>) -> JsonScan {
        JsonScan {
            depth: self.depth as nat,
            in_array: self.in_array,
            in_string: self.in_string,
            escaped: self.escaped,
            cur: self.cur@,
            out,
        }
    }

    /// The state does not depend on the values ended so far.
    pub proof fn lemma_state_out(&self, a: Seq<Seq<u8>>, b: Seq<Seq<u8>>)
        ensures
            self.state(b) == (JsonScan { out: b, ..self.state(a) }),
    {
    }

    /// The nesting depth of the value being read.
    pub closed spec fn depth(&self) -> nat {
        self.depth as nat
    }

    /// Nothing read yet.
    pub fn new() -> (s: JsonScanner)
        ensures
            s.state(seq![]) == json_start(),
            s.depth() == 0,
    {
        JsonScanner { depth: 0, in_array: false, in_string: false, escaped: false, cur: Vec::new() }
    }

    /// Hands out the value being read, without its trailing whitespace,
    /// unless nothing is left of it.
    fn emit_cur(&mut self, out: &mut Vec<Vec<u8>>)
        ensures
            final(self).depth == old(self).depth,
            final(self).in_array == old(self).in_array,
            final(self).in_string == old(self).in_string,
            final(self).escaped == old(self).escaped,
            final(self).cur@ == Seq::<u8>::empty(),
            values_view(final(out)@) == emit(values_view(old(out)@), old(self).cur@),
    {
        let mut taken: Vec<u8> = Vec::new();
        std::mem::swap(&mut taken, &mut self.cur);
        let mut end = taken.len();
        assert(taken@.subrange(0, end as int) =~= taken@);
        while end > 0 && is_json_space_byte(taken[end - 1])
            invariant
                end <= taken@.len(),
                trim_json_end(taken@) == trim_json_end(taken@.subrange(0, end as int)),
            decreases end,
        {
            assert(taken@.subrange(0, end as int).drop_last() =~= taken@.subrange(0, end - 1));
            end = end - 1;
        }
        assert(trim_json_end(taken@) == taken@.subrange(0, end as int)) by {
            if end > 0 {
            } else {
                assert(taken@.subrange(0, 0) =~= Seq::<u8>::empty());
            }
        }
        if end > 0 {
            let mut v: Vec<u8> = Vec::new();
            let mut i: usize = 0;
            while i < end
                invariant
                    i <= end <= taken@.len(),
                    v@ == taken@.subrange(0, i as int),
                decreases end - i,
            {
                v.push(taken[i]);
                i = i + 1;
                assert(v@ =~= taken@.subrange(0, i as int));
            }
            let ghost o = out@;
            out.push(v);
            assert(values_view(out@) =~= values_view(o).push(v@));
        }
    }

    /// Reads `bytes`, appending each value that they end to `out`.
    pub fn feed(&mut self, bytes: &[u8], out: &mut Vec<Vec<u8>>)
        requires
            old(self).depth() + bytes@.len() <= u64::MAX,
        ensures
            final(self).depth() <= old(self).depth() + bytes@.len(),
            json_scan_from(old(self).state(values_view(old(out)@)), bytes@) == final(self).state(
                values_view(final(out)@),
            ),
    {
        let ghost st0 = self.state(values_view(out@));
        let mut i: usize = 0;
        assert(bytes@.take(0) =~= Seq::<u8>::empty());
        while i < bytes.len()
            invariant
                i <= bytes@.len(),
                old(self).depth() + bytes@.len() <= u64::MAX,
                self.depth() <= old(self).depth() + i,
                json_scan_from(st0, bytes@.take(i as int)) == self.state(values_view(out@)),
            decreases bytes@.len() - i,
        {
            assert(bytes@.take(i + 1).drop_last() =~= bytes@.take(i as int));
            assert(bytes@.take(i + 1).last() == bytes@[i as int]);
            self.step(bytes[i], out);
            i = i + 1;
        }
        assert(bytes@.take(i as int) =~= bytes@);
    }

    /// Reads one byte.
    fn step(&mut self, b: u8, out: &mut Vec<Vec<u8>>)
        requires
            old(self).depth() < u64::MAX,
        ensures
            final(self).depth() <= old(self).depth() + 1,
            json_step(old(self).state(values_view(old(out)@)), b) == final(self).state(
                values_view(final(out)@),
            ),
    {
        let open = b == OPEN_BRACE || b == OPEN_BRACKET;
        let close = b == CLOSE_BRACE || b == CLOSE_BRACKET;
        if self.in_string {
            let was_escaped = self.escaped;
            self.cur.push(b);
            self.in_string = was_escaped || b != QUOTE;
            self.escaped = !was_escaped && b == BACKSLASH;
        } else if self.depth == 0 {
            if b == OPEN_BRACKET && !self.in_array && self.cur.len() == 0 {
                self.in_array = true;
            } else if b == CLOSE_BRACKET && self.in_array {
                self.emit_cur(out);
                self.in_array = false;
            } else if b == COMMA {
                self.emit_cur(out);
            } else if is_json_space_byte(b) && self.cur.len() == 0 {
            } else {
                self.cur.push(b);
                self.depth = if open { 1 } else { 0 };
                self.in_string = b == QUOTE;
            }
        } else if close && self.depth == 1 {
            self.cur.push(b);
            self.emit_cur(out);
            self.depth = 0;
            self.in_string = false;
        } else {
            self.cur.push(b);
            self.depth = if open { self.depth + 1 } else if close { self.depth - 1 } else { self.depth };
            self.in_string = b == QUOTE;
        }
    }

    /// Ends the body: hands out the value being read, if any.
    pub fn finish(self, out: &mut Vec<Vec<u8>>)
        ensures
            values_view(final(out)@) == emit(values_view(old(out)@), self.state(values_view(old(out)@)).cur),
    {
        let mut s = self;
        s.emit_cur(out);
    }
}

/// Whether `b` is JSON whitespace.
pub fn is_json_space_byte(b: u8) -> (r: bool)
    ensures
        r == is_json_space(b),
{
    b == 0x20 || b == 0x09 || b == 0x0a || b == 0x0d
}

/// Byte sequences, as values.
pub open spec fn values_view(v: Seq<Vec<u8>>) -> Seq<Seq<u8>> {
    v.map_values(|x: Vec<u8>| x@)
}

/// The values of a whole JSON body.
pub fn json_values_of(data: &[u8]) -> (values: Vec<Vec<u8>>)
    requires
        data@.len() <= u64::MAX,
    ensures
        values_view(values@) == json_values(data@),
{
    let mut s = JsonScanner::new();
    let mut out: Vec<Vec<u8>> = Vec::new();
    assert(values_view(out@) =~= Seq::<Seq<u8>>::empty());
    s.feed(data, &mut out);
    s.finish(&mut out);
    out
}

/// The quoted key of the embedding field.
pub open spec fn vectors_key() -> Seq<u8> {
    seq![QUOTE, 0x5fu8, 0x76u8, 0x65u8, 0x63u8, 0x74u8, 0x6fu8, 0x72u8, 0x73u8, QUOTE]
}

/// A member of an object is the embedding field: its key is `"_vectors"`,
/// followed, after whitespace, by a colon.
pub open spec fn is_vectors_member(m: Seq<u8>) -> bool {
    let k = vectors_key();
    &&& m.len() >= k.len()
    &&& m.subrange(0, k.len() as int) == k
    &&& trim_json_start(m.subrange(k.len() as int, m.len() as int)).len() > 0
    &&& trim_json_start(m.subrange(k.len() as int, m.len() as int))[0] == COLON
}

/// The members that are not the embedding field, in order.
pub open spec fn kept_members(ms: Seq<Seq<u8>>) -> Seq<Seq<u8>>
    decreases ms.len(),
{
    if ms.len() == 0 {
        seq![]
    } else if is_vectors_member(ms.last()) {
        kept_members(ms.drop_last())
    } else {
        kept_members(ms.drop_last()).push(ms.last())
    }
}

/// Parts joined by a separator byte.
pub open spec fn join_bytes(parts: Seq<Seq<u8>>, sep: u8) -> Seq<u8>
    decreases parts.len(),
{
    if parts.len() == 0 {
        seq![]
    } else if parts.len() == 1 {
        parts[0]
    } else {
        join_bytes(parts.drop_last(), sep).push(sep) + parts.last()
    }
}

/// A document without its embedding field: when it is an object with a
/// `_vectors` member, the object of its other members; otherwise the
/// document itself.
pub open spec fn without_embeddings(doc: Seq<u8>) -> Seq<u8> {
    if doc.len() >= 2 && doc[0] == OPEN_BRACE && doc.last() == CLOSE_BRACE {
        let ms = json_values(doc.subrange(1, doc.len() - 1));
        let kept = kept_members(ms);
        if kept.len() < ms.len() {
            seq![OPEN_BRACE] + join_bytes(kept, COMMA) + seq![CLOSE_BRACE]
        } else {
            doc
        }
    } else {
        doc
    }
}

fn is_vectors_member_exec(m: &Vec<u8>) -> (r: bool)
    ensures
        r == is_vectors_member(m@),
{
    let key: [u8; 10] = [QUOTE, 0x5f, 0x76, 0x65, 0x63, 0x74, 0x6f, 0x72, 0x73, QUOTE];
    assert(key@ =~= vectors_key());
    if m.len() < 10 {
        return false;
    }
    let mut j: usize = 0;
    while j < 10
        invariant
            m@.len() >= 10,
            key@ == vectors_key(),
            j <= 10,
            forall|t: int| 0 <= t < j ==> m@[t] == key@[t],
        decreases 10 - j,
    {
        if m[j] != key[j] {
            assert(m@.subrange(0, 10)[j as int] != vectors_key()[j as int]);
            return false;
        }
        j = j + 1;
    }
    assert(m@.subrange(0, 10) =~= vectors_key());
    let n = m.len();
    let mut k: usize = 10;
    while k < n && is_json_space_byte(m[k])
        invariant
            10 <= k <= n,
            n == m@.len(),
            trim_json_start(m@.subrange(10, n as int)) == trim_json_start(m@.subrange(k as int, n as int)),
        decreases n - k,
    {
        assert(m@.subrange(k as int, n as int).drop_first() =~= m@.subrange(k + 1, n as int));
        k = k + 1;
    }
    if k < n {
        assert(trim_json_start(m@.subrange(k as int, n as int)) == m@.subrange(k as int, n as int));
        m[k] == COLON
    } else {
        assert(m@.subrange(k as int, n as int) =~= Seq::<u8>::empty());
        false
    }
}

/// Removes the embedding field from a document.
pub fn strip_embeddings(doc: Vec<u8>) -> (r: Vec<u8>)
    requires
        doc@.len() <= u64::MAX,
    ensures
        r@ == without_embeddings(doc@),
{
    let n = doc.len();
    if n < 2 || doc[0] != OPEN_BRACE || doc[n - 1] != CLOSE_BRACE {
        return doc;
    }
    let inner = &doc[1..n - 1];
    let members = json_values_of(inner);
    let ghost ms = values_view(members@);
    let mut kept: Vec<Vec<u8>> = Vec::new();
    let mut i: usize = 0;
    assert(ms.take(0) =~= Seq::<Seq<u8>>::empty());
    assert(values_view(kept@) =~= Seq::<Seq<u8>>::empty());
    while i < members.len()
        invariant
            i <= members@.len(),
            ms == values_view(members@),
            values_view(kept@) == kept_members(ms.take(i as int)),
            kept@.len() <= i,
        decreases members@.len() - i,
    {
        assert(ms.take(i + 1).drop_last() =~= ms.take(i as int));
        assert(ms.take(i + 1).last() == members@[i as int]@);
        if !is_vectors_member_exec(&members[i]) {
            let ghost o = kept@;
            kept.push(members[i].clone());
            assert(values_view(kept@) =~= values_view(o).push(members@[i as int]@));
        }
        i = i + 1;
    }
    assert(ms.take(i as int) =~= ms);
    assert(doc@[doc@.len() - 1] == doc@.last());
    if kept.len() == members.len() {
        return doc;
    }
    let mut r: Vec<u8> = Vec::new();
    r.push(OPEN_BRACE);
    let mut j: usize = 0;
    let ghost km = values_view(kept@);
    assert(km.take(0) =~= Seq::<Seq<u8>>::empty());
    while j < kept.len()
        invariant
            j <= kept@.len(),
            km == values_view(kept@),
            r@ == seq![OPEN_BRACE] + join_bytes(km.take(j as int), COMMA),
        decreases kept@.len() - j,
    {
        assert(km.take(j + 1).drop_last() =~= km.take(j as int));
        assert(km.take(j + 1).last() == kept@[j as int]@);
        let ghost before = r@;
        if j > 0 {
            r.push(COMMA);
        }
        let part = &kept[j];
        let mut t: usize = 0;
        let ghost mid = r@;
        while t < part.len()
            invariant
                t <= part@.len(),
                r@ == mid + part@.subrange(0, t as int),
            decreases part@.len() - t,
        {
            r.push(part[t]);
            t = t + 1;
            assert(r@ =~= mid + part@.subrange(0, t as int));
        }
        assert(part@.subrange(0, t as int) =~= part@);
        if j > 0 {
            assert(r@ =~= seq![OPEN_BRACE] + (join_bytes(km.take(j as int), COMMA).push(COMMA) + km.take(j + 1).last()));
        } else {
            assert(r@ =~= seq![OPEN_BRACE] + join_bytes(km.take(j + 1), COMMA));
        }
        j = j + 1;
    }
    assert(km.take(j as int) =~= km);
    r.push(CLOSE_BRACE);
    r
}

} // verus!
