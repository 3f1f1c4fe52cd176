//! JSON values written out by the grammar, and how the body reader reads
//! them back.
use vstd::prelude::*;
use crate::batch::body_bytes;
use crate::format::Mime;
use crate::json::{
    emit, is_close, is_json_space, is_open, json_scan_from, json_step, json_values,
    lemma_json_scan_concat, trim_json_end, JsonScan, BACKSLASH, CLOSE_BRACE, CLOSE_BRACKET, COLON,
    COMMA, OPEN_BRACE, OPEN_BRACKET, QUOTE,
};
use crate::laws::{between_values, law_json_body_reads_back, lemma_scan_one, reads_as_one_value};

verus! {

/// A JSON value.
pub enum JsonValue {
    Null,
    Bool(bool),
    Number(nat),
    /// A string, by the bytes it holds.
    Str(Seq<u8>),
    Array(Seq<JsonValue>),
    /// An object, by its keys and the values they name, in order.
    Object(Seq<Seq<u8>>, Seq<JsonValue>),
}

/// The decimal digits of `n`.
pub open spec fn decimal(n: nat) -> Seq<u8>
    decreases n,
{
    if n < 10 {
        seq![(0x30 + n) as u8]
    } else {
        decimal(n / 10).push((0x30 + n % 10) as u8)
    }
}

/// How a byte of a string is written: a quote or a backslash behind a
/// backslash, any other byte as it is.
pub open spec fn escape_byte(b: u8) -> Seq<u8> {
    if b == QUOTE || b == BACKSLASH {
        seq![BACKSLASH, b]
    } else {
        seq![b]
    }
}

/// The written form of the bytes of a string, between its quotes.
pub open spec fn escaped(raw: Seq<u8>) -> Seq<u8>
    decreases raw.len(),
{
    if raw.len() == 0 {
        seq![]
    } else {
        escaped(raw.drop_last()) + escape_byte(raw.last())
    }
}

/// A string as written: its escaped bytes between quotes.
pub open spec fn quoted(raw: Seq<u8>) -> Seq<u8> {
    seq![QUOTE] + escaped(raw) + seq![QUOTE]
}

/// A value written out compactly.
pub open spec fn render(v: JsonValue) -> Seq<u8>
    decreases v,
{
    match v {
        JsonValue::Null => seq![0x6eu8, 0x75u8, 0x6cu8, 0x6cu8],
        JsonValue::Bool(b) => if b {
            seq![0x74u8, 0x72u8, 0x75u8, 0x65u8]
        } else {
            seq![0x66u8, 0x61u8, 0x6cu8, 0x73u8, 0x65u8]
        },
        JsonValue::Number(n) => decimal(n),
        JsonValue::Str(raw) => quoted(raw),
        JsonValue::Array(items) => seq![OPEN_BRACKET] + render_items(items) + seq![CLOSE_BRACKET],
        JsonValue::Object(keys, values) => seq![OPEN_BRACE] + render_members(keys, values) + seq![CLOSE_BRACE],
    }
}

/// The elements of an array, separated by commas.
pub open spec fn render_items(items: Seq<JsonValue>) -> Seq<u8>
    decreases items,
{
    if items.len() == 0 {
        seq![]
    } else if items.len() == 1 {
        render(items[0])
    } else {
        render_items(items.subrange(0, items.len() - 1)).push(COMMA) + render(items[items.len() - 1])
    }
}

/// The members of an object, `"key":value`, separated by commas.
pub open spec fn render_members(keys: Seq<Seq<u8>>, values: Seq<JsonValue>) -> Seq<u8>
    decreases values,
{
    if values.len() == 0 {
        seq![]
    } else if values.len() == 1 {
        quoted(keys[0]) + seq![COLON] + render(values[0])
    } else {
        render_members(keys, values.subrange(0, values.len() - 1)).push(COMMA) + (quoted(
            keys[values.len() - 1],
        ) + seq![COLON] + render(values[values.len() - 1]))
    }
}

/// Reading `s` from `st` only appends `s` to the value being read.
pub open spec fn appends(st: JsonScan, s: Seq<u8>) -> bool {
    json_scan_from(st, s) == JsonScan { cur: st.cur + s, ..st }
}

proof fn lemma_appends_concat(st: JsonScan, a: Seq<u8>, b: Seq<u8>)
    requires
        appends(st, a),
        appends(JsonScan { cur: st.cur + a, ..st }, b),
    ensures
        appends(st, a + b),
{
    lemma_json_scan_concat(st, a, b);
    assert(st.cur + a + b =~= st.cur + (a + b));
}

proof fn lemma_appends_empty(st: JsonScan)
    ensures
        appends(st, Seq::<u8>::empty()),
{
    assert(st.cur + Seq::<u8>::empty() =~= st.cur);
}

/// Inside a string, after no backslash, the written bytes of a string are
/// read as part of it.
proof fn lemma_string_body(st: JsonScan, raw: Seq<u8>)
    requires
        st.in_string,
        !st.escaped,
    ensures
        appends(st, escaped(raw)),
    decreases raw.len(),
{
    if raw.len() == 0 {
        lemma_appends_empty(st);
    } else {
        lemma_string_body(st, raw.drop_last());
        let e = escaped(raw.drop_last());
        let mid = JsonScan { cur: st.cur + e, ..st };
        let b = raw.last();
        if b == QUOTE || b == BACKSLASH {
            let s1 = JsonScan { cur: mid.cur.push(BACKSLASH), escaped: true, ..mid };
            lemma_scan_one(mid, BACKSLASH);
            lemma_scan_one(s1, b);
            lemma_json_scan_concat(mid, seq![BACKSLASH], seq![b]);
            assert(seq![BACKSLASH] + seq![b] =~= escape_byte(b));
            assert(mid.cur.push(BACKSLASH).push(b) =~= mid.cur + escape_byte(b));
        } else {
            lemma_scan_one(mid, b);
            assert(mid.cur.push(b) =~= mid.cur + escape_byte(b));
        }
        lemma_appends_concat(st, e, escape_byte(b));
    }
}

/// A string, read where no string is open: it opens, holds its bytes and
/// closes, whatever quotes and backslashes they are.
proof fn lemma_string(st: JsonScan, raw: Seq<u8>)
    requires
        !st.in_string,
        !st.escaped,
        st.depth >= 1 || st.cur.len() == 0,
    ensures
        appends(st, quoted(raw)),
{
    let q = seq![QUOTE];
    let e = escaped(raw);
    let open = JsonScan { cur: st.cur.push(QUOTE), in_string: true, ..st };
    lemma_scan_one(st, QUOTE);
    if st.depth == 0 {
        assert(!is_json_space(QUOTE));
    }
    assert(json_scan_from(st, q) == open);
    lemma_string_body(open, raw);
    lemma_json_scan_concat(st, q, e);
    let body = JsonScan { cur: open.cur + e, ..open };
    assert(json_scan_from(st, q + e) == body);
    lemma_scan_one(body, QUOTE);
    lemma_json_scan_concat(st, q + e, q);
    assert(body.cur.push(QUOTE) =~= st.cur + quoted(raw));
    assert(q + e + q =~= quoted(raw));
}

/// A byte that neither opens nor closes anything and is no quote.
pub open spec fn is_plain(b: u8) -> bool {
    !is_open(b) && !is_close(b) && b != QUOTE
}

/// Inside an array or an object, plain bytes are read as part of the value.
proof fn lemma_inner_plain(st: JsonScan, s: Seq<u8>)
    requires
        st.depth >= 1,
        !st.in_string,
        forall|i: int| 0 <= i < s.len() ==> is_plain(#[trigger] s[i]),
    ensures
        appends(st, s),
    decreases s.len(),
{
    if s.len() == 0 {
        lemma_appends_empty(st);
    } else {
        lemma_inner_plain(st, s.drop_last());
        let mid = JsonScan { cur: st.cur + s.drop_last(), ..st };
        let b = s.last();
        assert(is_plain(s[s.len() - 1]));
        lemma_scan_one(mid, b);
        assert(mid.cur.push(b) =~= mid.cur + seq![b]);
        lemma_appends_concat(st, s.drop_last(), seq![b]);
        assert(s.drop_last() + seq![b] =~= s);
    }
}

/// At the top level, a first value of plain bytes that are neither commas
/// nor whitespace is read as one value.
proof fn lemma_top_plain(st: JsonScan, s: Seq<u8>)
    requires
        st.depth == 0,
        st.in_array,
        !st.in_string,
        forall|i: int| 0 <= i < s.len() ==> is_plain(#[trigger] s[i]) && s[i] != COMMA && !is_json_space(s[i]),
    ensures
        appends(st, s),
    decreases s.len(),
{
    if s.len() == 0 {
        lemma_appends_empty(st);
    } else {
        lemma_top_plain(st, s.drop_last());
        let mid = JsonScan { cur: st.cur + s.drop_last(), ..st };
        let b = s.last();
        assert(is_plain(s[s.len() - 1]) && s[s.len() - 1] != COMMA && !is_json_space(s[s.len() - 1]));
        lemma_scan_one(mid, b);
        assert(mid.cur.push(b) =~= mid.cur + seq![b]);
        lemma_appends_concat(st, s.drop_last(), seq![b]);
        assert(s.drop_last() + seq![b] =~= s);
    }
}

proof fn lemma_decimal_digits(n: nat)
    ensures
        decimal(n).len() > 0,
        forall|i: int| 0 <= i < decimal(n).len() ==> 0x30 <= #[trigger] decimal(n)[i] <= 0x39,
    decreases n,
{
    if n >= 10 {
        lemma_decimal_digits(n / 10);
        let d = decimal(n / 10);
        assert forall|i: int| 0 <= i < decimal(n).len() implies 0x30 <= #[trigger] decimal(n)[i] <= 0x39 by {
            if i < d.len() {
                assert(decimal(n)[i] == d[i]);
            }
        }
    }
}

/// The bytes of `null`, `true`, `false` and numbers.
proof fn lemma_scalar_bytes(v: JsonValue)
    requires
        v is Null || v is Bool || v is Number,
    ensures
        render(v).len() > 0,
        forall|i: int| 0 <= i < render(v).len() ==> {
            let b = #[trigger] render(v)[i];
            is_plain(b) && b != COMMA && !is_json_space(b) && b != BACKSLASH
        },
{
    match v {
        JsonValue::Number(n) => {
            lemma_decimal_digits(n);
        },
        _ => {},
    }
}

/// Inside an array or an object, a whole value is read as part of the value
/// around it, and leaves the nesting as it found it.
proof fn lemma_inner(st: JsonScan, v: JsonValue)
    requires
        st.depth >= 1,
        !st.in_string,
        !st.escaped,
    ensures
        appends(st, render(v)),
    decreases v, 0nat,
{
    match v {
        JsonValue::Str(raw) => {
            lemma_string(st, raw);
        },
        JsonValue::Array(items) => {
            let open = JsonScan { cur: st.cur.push(OPEN_BRACKET), depth: st.depth + 1, ..st };
            lemma_inner_items(open, items);
            lemma_group(st, OPEN_BRACKET, render_items(items), CLOSE_BRACKET);
        },
        JsonValue::Object(keys, values) => {
            let open = JsonScan { cur: st.cur.push(OPEN_BRACE), depth: st.depth + 1, ..st };
            lemma_inner_members(open, keys, values);
            lemma_group(st, OPEN_BRACE, render_members(keys, values), CLOSE_BRACE);
        },
        _ => {
            lemma_scalar_bytes(v);
            lemma_inner_plain(st, render(v));
        },
    }
}

/// An opening byte, a body read inside it, and the closing byte, read inside
/// an array or an object.
proof fn lemma_group(st: JsonScan, o: u8, body: Seq<u8>, c: u8)
    requires
        st.depth >= 1,
        !st.in_string,
        !st.escaped,
        is_open(o),
        is_close(c),
        appends(JsonScan { cur: st.cur.push(o), depth: st.depth + 1, ..st }, body),
    ensures
        appends(st, seq![o] + body + seq![c]),
{
    let open = JsonScan { cur: st.cur.push(o), depth: st.depth + 1, ..st };
    lemma_scan_one(st, o);
    assert(json_scan_from(st, seq![o]) == open);
    lemma_json_scan_concat(st, seq![o], body);
    let inside = JsonScan { cur: open.cur + body, ..open };
    lemma_scan_one(inside, c);
    lemma_json_scan_concat(st, seq![o] + body, seq![c]);
    assert(inside.cur.push(c) =~= st.cur + (seq![o] + body + seq![c]));
}

proof fn lemma_inner_items(st: JsonScan, items: Seq<JsonValue>)
    requires
        st.depth >= 1,
        !st.in_string,
        !st.escaped,
    ensures
        appends(st, render_items(items)),
    decreases items, 0nat,
{
    if items.len() == 0 {
        lemma_appends_empty(st);
    } else if items.len() == 1 {
        lemma_inner(st, items[0]);
    } else {
        let init = items.subrange(0, items.len() - 1);
        let last = items[items.len() - 1];
        lemma_inner_items(st, init);
        let r = render_items(init);
        let mid = JsonScan { cur: st.cur + r, ..st };
        lemma_scan_one(mid, COMMA);
        assert(appends(mid, seq![COMMA])) by {
            assert(mid.cur.push(COMMA) =~= mid.cur + seq![COMMA]);
        }
        lemma_appends_concat(st, r, seq![COMMA]);
        let mid2 = JsonScan { cur: st.cur + (r + seq![COMMA]), ..st };
        lemma_inner(mid2, last);
        lemma_appends_concat(st, r + seq![COMMA], render(last));
        assert(r.push(COMMA) =~= r + seq![COMMA]);
    }
}

proof fn lemma_member(st: JsonScan, key: Seq<u8>, value: JsonValue)
    requires
        st.depth >= 1,
        !st.in_string,
        !st.escaped,
    ensures
        appends(st, quoted(key) + seq![COLON] + render(value)),
    decreases value, 1nat,
{
    lemma_string(st, key);
    let q = quoted(key);
    let a = JsonScan { cur: st.cur + q, ..st };
    lemma_scan_one(a, COLON);
    assert(appends(a, seq![COLON])) by {
        assert(a.cur.push(COLON) =~= a.cur + seq![COLON]);
    }
    lemma_appends_concat(st, q, seq![COLON]);
    let b = JsonScan { cur: st.cur + (q + seq![COLON]), ..st };
    lemma_inner(b, value);
    lemma_appends_concat(st, q + seq![COLON], render(value));
}

proof fn lemma_inner_members(st: JsonScan, keys: Seq<Seq<u8>>, values: Seq<JsonValue>)
    requires
        st.depth >= 1,
        !st.in_string,
        !st.escaped,
    ensures
        appends(st, render_members(keys, values)),
    decreases values, 0nat,
{
    if values.len() == 0 {
        lemma_appends_empty(st);
    } else if values.len() == 1 {
        lemma_member(st, keys[0], values[0]);
    } else {
        let init = values.subrange(0, values.len() - 1);
        let n = values.len() - 1;
        lemma_inner_members(st, keys, init);
        let r = render_members(keys, init);
        let mid = JsonScan { cur: st.cur + r, ..st };
        lemma_scan_one(mid, COMMA);
        assert(appends(mid, seq![COMMA])) by {
            assert(mid.cur.push(COMMA) =~= mid.cur + seq![COMMA]);
        }
        lemma_appends_concat(st, r, seq![COMMA]);
        let mid2 = JsonScan { cur: st.cur + (r + seq![COMMA]), ..st };
        lemma_member(mid2, keys[n], values[n]);
        lemma_appends_concat(st, r + seq![COMMA], quoted(keys[n]) + seq![COLON] + render(values[n]));
        assert(r.push(COMMA) =~= r + seq![COMMA]);
    }
}

/// Every value, read between two values of an array, is one whole value.
pub proof fn lemma_value_reads_as_one(v: JsonValue)
    ensures
        reads_as_one_value(render(v)),
{
    let st = between_values();
    let d = render(v);
    match v {
        JsonValue::Str(raw) => {
            lemma_string(st, raw);
            assert(d.last() == QUOTE);
            assert(trim_json_end(d) == d);
            assert(st.cur + d =~= d);
        },
        JsonValue::Array(items) => {
            let open = JsonScan { cur: seq![OPEN_BRACKET], depth: 1, ..st };
            lemma_inner_items(open, items);
            lemma_top_group(OPEN_BRACKET, render_items(items), CLOSE_BRACKET);
        },
        JsonValue::Object(keys, values) => {
            let open = JsonScan { cur: seq![OPEN_BRACE], depth: 1, ..st };
            lemma_inner_members(open, keys, values);
            lemma_top_group(OPEN_BRACE, render_members(keys, values), CLOSE_BRACE);
        },
        _ => {
            lemma_scalar_bytes(v);
            lemma_top_plain(st, d);
            assert(!is_json_space(d[d.len() - 1]));
            assert(trim_json_end(d) == d);
            assert(st.cur + d =~= d);
        },
    }
}

proof fn lemma_top_group(o: u8, body: Seq<u8>, c: u8)
    requires
        is_open(o),
        is_close(c),
        appends(JsonScan { cur: seq![o], depth: 1, ..between_values() }, body),
    ensures
        reads_as_one_value(seq![o] + body + seq![c]),
{
    let st = between_values();
    let d = seq![o] + body + seq![c];
    let open = JsonScan { cur: seq![o], depth: 1, ..st };
    lemma_scan_one(st, o);
    assert(!is_json_space(o));
    assert(json_scan_from(st, seq![o]) == open) by {
        assert(st.cur.push(o) =~= seq![o]);
    }
    lemma_json_scan_concat(st, seq![o], body);
    let inside = JsonScan { cur: open.cur + body, ..open };
    lemma_scan_one(inside, c);
    lemma_json_scan_concat(st, seq![o] + body, seq![c]);
    assert(inside.cur.push(c) =~= d);
    assert(d.last() == c);
    assert(!is_json_space(c));
    assert(trim_json_end(d) == d);
    let end = json_scan_from(st, d);
    assert(end.out == seq![d]);
    assert(trim_json_end(end.cur).len() == 0) by {
        assert(end.cur =~= Seq::<u8>::empty());
    }
}

/// A JSON upload body made of whole values, of any strings (quotes and
/// backslashes escaped), numbers, literals, arrays and objects nested at
/// will, is read back as exactly those values, in order.
pub proof fn law_json_values_read_back(header: Seq<u8>, values: Seq<JsonValue>)
    ensures
        json_values(body_bytes(Mime::Json, header, values.map_values(|v: JsonValue| render(v))))
            == values.map_values(|v: JsonValue| render(v)),
{
    let docs = values.map_values(|v: JsonValue| render(v));
    assert forall|i: int| 0 <= i < docs.len() implies reads_as_one_value(#[trigger] docs[i]) by {
        lemma_value_reads_as_one(values[i]);
    }
    law_json_body_reads_back(header, docs);
}

} // verus!
