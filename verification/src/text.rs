//! Character-level text helpers: Unicode whitespace, trimming, infix and
//! suffix tests, and lossy UTF-8 decoding of raw lines.
use vstd::prelude::*;
use vstd::utf8::{decode_utf8, valid_utf8};

verus! {

/// The Unicode `White_Space` property, the set of characters that
/// `char::is_whitespace` accepts.
pub open spec fn is_white_space(c: char) -> bool {
    let u = c as u32;
    ||| 0x09 <= u <= 0x0d
    ||| u == 0x20
    ||| u == 0x85
    ||| u == 0xa0
    ||| u == 0x1680
    ||| 0x2000 <= u <= 0x200a
    ||| u == 0x2028
    ||| u == 0x2029
    ||| u == 0x202f
    ||| u == 0x205f
    ||| u == 0x3000
}

/// `s` without its leading whitespace.
pub open spec fn trim_start(s: Seq<char>) -> Seq<char>
    decreases s.len(),
{
    if s.len() > 0 && is_white_space(s[0]) {
        trim_start(s.drop_first())
    } else {
        s
    }
}

/// `s` without its trailing whitespace.
pub open spec fn trim_end(s: Seq<char>) -> Seq<char>
    decreases s.len(),
{
    if s.len() > 0 && is_white_space(s.last()) {
        trim_end(s.drop_last())
    } else {
        s
    }
}

/// `s` without leading and trailing whitespace (what `str::trim` gives).
pub open spec fn trim(s: Seq<char>) -> Seq<char> {
    trim_end(trim_start(s))
}

/// `s` without any trailing occurrence of `c` (what `str::trim_end_matches(c)` gives).
pub open spec fn trim_end_char(s: Seq<char>, c: char) -> Seq<char>
    decreases s.len(),
{
    if s.len() > 0 && s.last() == c {
        trim_end_char(s.drop_last(), c)
    } else {
        s
    }
}

/// `pat` occurs somewhere in `s` as a contiguous piece.
pub open spec fn has_infix(s: Seq<char>, pat: Seq<char>) -> bool {
    exists|i: int| 0 <= i <= s.len() - pat.len() && #[trigger] s.subrange(i, i + pat.len()) == pat
}

/// `s` ends with `pat`.
pub open spec fn has_suffix(s: Seq<char>, pat: Seq<char>) -> bool {
    pat.len() <= s.len() && s.subrange(s.len() - pat.len(), s.len() as int) == pat
}

/// The text that `String::from_utf8_lossy` makes of `bytes`: the decoded
/// characters, with each invalid sequence replaced by U+FFFD.
pub uninterp spec fn utf8_lossy(bytes: Seq<u8>) -> Seq<char>;

/// Decodes a line of raw bytes with `String::from_utf8_lossy`.
/// Claimed of std: the result is a function of the bytes alone, and on valid
/// UTF-8 it is exactly the decoded text. What replacement characters it puts
/// for invalid sequences is left unsaid.
#[verifier::external_body]
pub(crate) fn decode_utf8_lossy(bytes: &[u8]) -> (text: String)
    ensures
        text@ == utf8_lossy(bytes@),
        valid_utf8(bytes@) ==> text@ == decode_utf8(bytes@),
{
    String::from_utf8_lossy(bytes).into_owned()
}

/// Whether `c` is a Unicode whitespace character.
pub fn is_white_space_char(c: char) -> (b: bool)
    ensures
        b == is_white_space(c),
{
    let u = c as u32;
    (0x09 <= u && u <= 0x0d) || u == 0x20 || u == 0x85 || u == 0xa0 || u == 0x1680 || (0x2000
        <= u && u <= 0x200a) || u == 0x2028 || u == 0x2029 || u == 0x202f || u == 0x205f || u
        == 0x3000
}

/// The characters of a string slice, in order.
pub fn chars_of(s: &str) -> (v: Vec<char>)
    ensures
        v@ == s@,
{
    let mut v: Vec<char> = Vec::new();
    for c in it: s.chars()
        invariant
            v@ == it.seq().take(it.index() as int),
    {
        v.push(c);
    }
    v
}

/// The bounds `(a, b)` of `chars[from..to]` with its whitespace trimmed.
pub fn trim_bounds(chars: &Vec<char>, from: usize, to: usize) -> (r: (usize, usize))
    requires
        from <= to <= chars.len(),
    ensures
        from <= r.0 <= r.1 <= to,
        chars@.subrange(r.0 as int, r.1 as int) == trim(chars@.subrange(from as int, to as int)),
{
    let mut a = from;
    while a < to && is_white_space_char(chars[a])
        invariant
            from <= a <= to <= chars.len(),
            trim_start(chars@.subrange(from as int, to as int)) == trim_start(
                chars@.subrange(a as int, to as int),
            ),
        decreases to - a,
    {
        assert(chars@.subrange(a as int, to as int).drop_first() =~= chars@.subrange(
            a + 1,
            to as int,
        ));
        a = a + 1;
    }
    let mut b = to;
    while b > a && is_white_space_char(chars[b - 1])
        invariant
            from <= a <= b <= to <= chars.len(),
            trim_end(chars@.subrange(a as int, to as int)) == trim_end(
                chars@.subrange(a as int, b as int),
            ),
        decreases b - a,
    {
        assert(chars@.subrange(a as int, b as int).drop_last() =~= chars@.subrange(
            a as int,
            b - 1,
        ));
        b = b - 1;
    }
    (a, b)
}

/// The end `c` of `chars[from..to]` once every trailing `sep` is removed.
pub fn trim_end_char_bound(chars: &Vec<char>, from: usize, to: usize, sep: char) -> (c: usize)
    requires
        from <= to <= chars.len(),
    ensures
        from <= c <= to,
        chars@.subrange(from as int, c as int) == trim_end_char(
            chars@.subrange(from as int, to as int),
            sep,
        ),
{
    let mut c = to;
    while c > from && chars[c - 1] == sep
        invariant
            from <= c <= to <= chars.len(),
            trim_end_char(chars@.subrange(from as int, to as int), sep) == trim_end_char(
                chars@.subrange(from as int, c as int),
                sep,
            ),
        decreases c - from,
    {
        assert(chars@.subrange(from as int, c as int).drop_last() =~= chars@.subrange(
            from as int,
            c - 1,
        ));
        c = c - 1;
    }
    c
}

/// Whether `pat` occurs in `s` (what `str::contains` answers).
pub fn contains_chars(s: &Vec<char>, pat: &Vec<char>) -> (b: bool)
    ensures
        b == has_infix(s@, pat@),
{
    let n = s.len();
    let m = pat.len();
    if m > n {
        return false;
    }
    let mut i: usize = 0;
    while i <= n - m
        invariant
            n == s@.len(),
            m == pat@.len(),
            m <= n,
            i <= n - m + 1,
            forall|k: int| 0 <= k < i ==> #[trigger] s@.subrange(k, k + m) != pat@,
        decreases n - m + 1 - i,
    {
        let mut j: usize = 0;
        let mut same = true;
        while j < m
            invariant
                n == s@.len(),
                m == pat@.len(),
                i + m <= n,
                j <= m,
                same ==> forall|t: int| 0 <= t < j ==> s@[i + t] == pat@[t],
                !same ==> s@.subrange(i as int, i + m) != pat@,
            decreases m - j,
        {
            if s[i + j] != pat[j] {
                same = false;
                assert(s@.subrange(i as int, i + m)[j as int] != pat@[j as int]);
            }
            j = j + 1;
        }
        if same {
            assert(s@.subrange(i as int, i + m) =~= pat@);
            return true;
        }
        if i == n - m {
            return false;
        }
        i = i + 1;
    }
    false
}

/// Whether `s` ends with `pat` (what `str::ends_with` answers).
pub fn ends_with_chars(s: &Vec<char>, pat: &Vec<char>) -> (b: bool)
    ensures
        b == has_suffix(s@, pat@),
{
    let n = s.len();
    let m = pat.len();
    if m > n {
        return false;
    }
    let mut j: usize = 0;
    while j < m
        invariant
            n == s@.len(),
            m == pat@.len(),
            m <= n,
            j <= m,
            forall|t: int| 0 <= t < j ==> s@[n - m + t] == pat@[t],
        decreases m - j,
    {
        if s[n - m + j] != pat[j] {
            assert(s@.subrange(n - m, n as int)[j as int] != pat@[j as int]);
            return false;
        }
        j = j + 1;
    }
    assert(s@.subrange(n - m, n as int) =~= pat@);
    true
}

} // verus!
