//! Splitting NDJSON and CSV bodies into lines, and reading each line.
use vstd::prelude::*;
use vstd::string::*;
use vstd::utf8::encode_utf8;
use crate::text::{chars_of, decode_utf8_lossy, trim, trim_bounds, utf8_lossy};

verus! {

/// The byte that ends a line.
pub const NEWLINE: u8 = 10u8;

/// A left-to-right split of bytes at newlines: the lines already ended and
/// the bytes of the line still open.
pub struct Split {
    pub lines: Seq<Seq<u8>>,
    pub rest: Seq<u8>,
}

/// Nothing read yet.
pub open spec fn split_start() -> Split {
    Split { lines: seq![], rest: seq![] }
}

/// One more byte read: a newline ends the open line, any other byte extends it.
pub open spec fn split_step(st: Split, b: u8) -> Split {
    if b == NEWLINE {
        Split { lines: st.lines.push(st.rest), rest: seq![] }
    } else {
        Split { lines: st.lines, rest: st.rest.push(b) }
    }
}

/// The split reached from `st` by reading `s`.
pub open spec fn split_from(st: Split, s: Seq<u8>) -> Split
    decreases s.len(),
{
    if s.len() == 0 {
        st
    } else {
        split_step(split_from(st, s.drop_last()), s.last())
    }
}

/// The newline-terminated lines of `s`, without their newlines.
pub open spec fn complete_lines(s: Seq<u8>) -> Seq<Seq<u8>> {
    split_from(split_start(), s).lines
}

/// The bytes of `s` after its last newline.
pub open spec fn line_remainder(s: Seq<u8>) -> Seq<u8> {
    split_from(split_start(), s).rest
}

/// The pieces of `s` between newlines, as `<[u8]>::split` at `b'\n'` gives them:
/// the complete lines, then whatever follows the last newline.
pub open spec fn split_lines(s: Seq<u8>) -> Seq<Seq<u8>> {
    complete_lines(s).push(line_remainder(s))
}

/// The text of a line: decoded lossily as UTF-8 and trimmed; a line of no
/// bytes, or of whitespace only, holds nothing.
pub open spec fn line_text(line: Seq<u8>) -> Option<Seq<char>> {
    if line.len() == 0 || trim(utf8_lossy(line)).len() == 0 {
        None
    } else {
        Some(trim(utf8_lossy(line)))
    }
}

/// The lines that hold text, as UTF-8, in order.
pub open spec fn line_docs(lines: Seq<Seq<u8>>) -> Seq<Seq<u8>>
    decreases lines.len(),
{
    if lines.len() == 0 {
        seq![]
    } else {
        match line_text(lines.last()) {
            Some(t) => line_docs(lines.drop_last()).push(encode_utf8(t)),
            None => line_docs(lines.drop_last()),
        }
    }
}

/// Reading lines one after the other reads their concatenation.
pub proof fn lemma_line_docs_concat(a: Seq<Seq<u8>>, b: Seq<Seq<u8>>)
    ensures
        line_docs(a + b) == line_docs(a) + line_docs(b),
    decreases b.len(),
{
    if b.len() == 0 {
        assert(a + b =~= a);
        assert(line_docs(a) + Seq::<Seq<u8>>::empty() =~= line_docs(a));
    } else {
        assert((a + b).drop_last() =~= a + b.drop_last());
        assert((a + b).last() == b.last());
        lemma_line_docs_concat(a, b.drop_last());
        match line_text(b.last()) {
            Some(t) => {
                assert(line_docs(a) + line_docs(b.drop_last()).push(encode_utf8(t)) =~= (line_docs(a)
                    + line_docs(b.drop_last())).push(encode_utf8(t)));
            },
            None => {},
        }
    }
}

/// Reads the text of a line: trimmed, or nothing when blank.
pub fn text_of_line(text: &str) -> (r: Option<String>)
    ensures
        match r {
            Some(s) => trim(text@).len() > 0 && s@ == trim(text@),
            None => trim(text@).len() == 0,
        },
{
    let cs = chars_of(text);
    let n = cs.len();
    assert(cs@.subrange(0, n as int) =~= cs@);
    let (a, b) = trim_bounds(&cs, 0, n);
    if a == b {
        None
    } else {
        Some(text.substring_char(a, b).to_owned())
    }
}

/// Reads one line of raw bytes: its trimmed text as UTF-8, or nothing.
pub fn line_document(line: &[u8]) -> (r: Option<Vec<u8>>)
    ensures
        match line_text(line@) {
            Some(t) => r matches Some(d) && d@ == encode_utf8(t),
            None => r is None,
        },
{
    if line.len() == 0 {
        return None;
    }
    let text = decode_utf8_lossy(line);
    match text_of_line(text.as_str()) {
        Some(t) => Some(t.as_str().as_bytes_vec()),
        None => None,
    }
}

/// Reading `a` then `b` splits as reading `a + b`.
pub proof fn lemma_split_concat(st: Split, a: Seq<u8>, b: Seq<u8>)
    ensures
        split_from(st, a + b) == split_from(split_from(st, a), b),
    decreases b.len(),
{
    if b.len() == 0 {
        assert(a + b =~= a);
    } else {
        assert((a + b).drop_last() =~= a + b.drop_last());
        lemma_split_concat(st, a, b.drop_last());
    }
}

/// The lines ended before a split started are kept in front.
pub proof fn lemma_split_keeps_lines(lines: Seq<Seq<u8>>, rest: Seq<u8>, s: Seq<u8>)
    ensures
        ({
            let x = split_from(Split { lines: seq![], rest }, s);
            split_from(Split { lines, rest }, s) == Split { lines: lines + x.lines, rest: x.rest }
        }),
    decreases s.len(),
{
    if s.len() == 0 {
        assert(lines + Seq::<Seq<u8>>::empty() =~= lines);
    } else {
        lemma_split_keeps_lines(lines, rest, s.drop_last());
        let x = split_from(Split { lines: seq![], rest }, s.drop_last());
        assert(lines + x.lines.push(x.rest) =~= (lines + x.lines).push(x.rest));
    }
}

/// Bytes without a newline stay one open line.
pub proof fn lemma_split_without_newline(r: Seq<u8>)
    requires
        !r.contains(NEWLINE),
    ensures
        split_from(split_start(), r) == (Split { lines: seq![], rest: r }),
    decreases r.len(),
{
    if r.len() > 0 {
        assert(!r.drop_last().contains(NEWLINE)) by {
            if r.drop_last().contains(NEWLINE) {
                let k = choose|k: int| 0 <= k < r.drop_last().len() && r.drop_last()[k] == NEWLINE;
                assert(r[k] == NEWLINE);
            }
        }
        lemma_split_without_newline(r.drop_last());
        assert(r.last() != NEWLINE) by {
            assert(r[r.len() - 1] == r.last());
        }
        assert(r.drop_last().push(r.last()) =~= r);
    } else {
        assert(r =~= Seq::<u8>::empty());
    }
}

/// The open line never holds a newline.
pub proof fn lemma_remainder_has_no_newline(s: Seq<u8>)
    ensures
        !line_remainder(s).contains(NEWLINE),
    decreases s.len(),
{
    if s.len() > 0 {
        lemma_remainder_has_no_newline(s.drop_last());
        let r = line_remainder(s.drop_last());
        if s.last() != NEWLINE {
            assert(!r.push(s.last()).contains(NEWLINE)) by {
                if r.push(s.last()).contains(NEWLINE) {
                    let k = choose|k: int| 0 <= k < r.push(s.last()).len() && r.push(s.last())[k] == NEWLINE;
                    if k < r.len() {
                        assert(r[k] == NEWLINE);
                    }
                }
            }
        }
    }
}

/// The lines of `r + c` are those of `r`, then those of the open line of `r`
/// continued by `c`.
pub proof fn lemma_lines_of_concat(r: Seq<u8>, c: Seq<u8>)
    ensures
        complete_lines(r + c) == complete_lines(r) + complete_lines(line_remainder(r) + c),
        line_remainder(r + c) == line_remainder(line_remainder(r) + c),
{
    let rem = line_remainder(r);
    lemma_split_concat(split_start(), r, c);
    lemma_split_keeps_lines(complete_lines(r), rem, c);
    lemma_split_concat(split_start(), rem, c);
    lemma_remainder_has_no_newline(r);
    lemma_split_without_newline(rem);
}

} // verus!
