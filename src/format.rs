//! The tagged binary format of cells, responses and request envelopes, as
//! mathematical definitions, with the proofs that parsing inverts encoding.
//!
//! Every length and every integer is written as eight bytes in network byte
//! order; every cell starts with a one-byte tag.
use vstd::prelude::*;
use vstd::utf8::{decode_utf8, encode_utf8, valid_utf8};
use crate::types::{ColumnView, RequestView, ResponseView};

verus! {

broadcast use {vstd::utf8::encode_utf8_valid_utf8, vstd::utf8::encode_utf8_decode_utf8, vstd::utf8::decode_utf8_encode_utf8};

pub const TAG_TEXT: u8 = 0;
pub const TAG_INTEGER: u8 = 1;
pub const TAG_REAL: u8 = 2;
pub const TAG_BLOB: u8 = 3;
pub const TAG_NULL: u8 = 4;

pub const TAG_CANCEL: u8 = 0;
pub const TAG_NETWORK_REQUEST: u8 = 1;

/// The eight big-endian bytes of `n`.
pub open spec fn be64(n: u64) -> Seq<u8> {
    seq![
        (n >> 56u64) as u8, (n >> 48u64) as u8, (n >> 40u64) as u8, (n >> 32u64) as u8,
        (n >> 24u64) as u8, (n >> 16u64) as u8, (n >> 8u64) as u8, n as u8,
    ]
}

/// The number whose big-endian bytes are the first eight of `s`.
pub open spec fn be64_value(s: Seq<u8>) -> u64
    recommends
        s.len() >= 8,
{
    ((s[0] as u64) << 56u64) | ((s[1] as u64) << 48u64) | ((s[2] as u64) << 40u64) | ((s[3] as u64) << 32u64)
        | ((s[4] as u64) << 24u64) | ((s[5] as u64) << 16u64) | ((s[6] as u64) << 8u64) | (s[7] as u64)
}

/// A byte string preceded by its length.
pub open spec fn enc_bytes(b: Seq<u8>) -> Seq<u8> {
    be64(b.len() as u64) + b
}

/// A text preceded by the length of its UTF-8 bytes.
pub open spec fn enc_text(s: Seq<char>) -> Seq<u8> {
    enc_bytes(encode_utf8(s))
}

pub open spec fn enc_column(c: ColumnView) -> Seq<u8> {
    match c {
        ColumnView::Text(s) => seq![TAG_TEXT] + enc_text(s),
        ColumnView::Integer(i) => seq![TAG_INTEGER] + be64(i as u64),
        ColumnView::Real(b) => seq![TAG_REAL] + be64(b),
        ColumnView::Blob(b) => seq![TAG_BLOB] + enc_bytes(b),
        ColumnView::Null => seq![TAG_NULL],
    }
}

/// The encodings of the items of `xs`, one after the other.
pub open spec fn enc_list<T>(xs: Seq<T>, e: spec_fn(T) -> Seq<u8>) -> Seq<u8>
    decreases xs.len(),
{
    if xs.len() == 0 {
        seq![]
    } else {
        enc_list(xs.drop_last(), e) + e(xs.last())
    }
}

/// The number of items, then the items.
pub open spec fn enc_counted<T>(xs: Seq<T>, e: spec_fn(T) -> Seq<u8>) -> Seq<u8> {
    be64(xs.len() as u64) + enc_list(xs, e)
}

pub open spec fn enc_row(cells: Seq<ColumnView>) -> Seq<u8> {
    enc_counted(cells, |c: ColumnView| enc_column(c))
}

pub open spec fn enc_response(r: ResponseView) -> Seq<u8> {
    be64(r.request_id) + enc_counted(r.columns, |s: Seq<char>| enc_text(s)) + enc_counted(
        r.rows,
        |row: Seq<ColumnView>| enc_row(row),
    )
}

pub open spec fn enc_request(r: RequestView) -> Seq<u8> {
    match r {
        RequestView::Cancel => seq![TAG_CANCEL],
        RequestView::NetworkRequest(id, q) => seq![TAG_NETWORK_REQUEST] + be64(id) + enc_text(q),
    }
}

/// A length-prefixed byte string at the start of `b`, and the bytes it takes.
pub open spec fn parse_bytes(b: Seq<u8>) -> Option<(Seq<u8>, nat)> {
    if b.len() < 8 {
        None
    } else {
        let n = be64_value(b);
        if b.len() - 8 < n {
            None
        } else {
            Some((b.subrange(8, 8 + n as int), (8 + n) as nat))
        }
    }
}

pub open spec fn parse_text(b: Seq<u8>) -> Option<(Seq<char>, nat)> {
    match parse_bytes(b) {
        Some((t, k)) => if valid_utf8(t) {
            Some((decode_utf8(t), k))
        } else {
            None
        },
        None => None,
    }
}

pub open spec fn parse_column(b: Seq<u8>) -> Option<(ColumnView, nat)> {
    if b.len() == 0 {
        None
    } else {
        let rest = b.drop_first();
        if b[0] == TAG_TEXT {
            match parse_text(rest) {
                Some((s, k)) => Some((ColumnView::Text(s), k + 1)),
                None => None,
            }
        } else if b[0] == TAG_INTEGER {
            if rest.len() < 8 { None } else { Some((ColumnView::Integer(be64_value(rest) as i64), 9)) }
        } else if b[0] == TAG_REAL {
            if rest.len() < 8 { None } else { Some((ColumnView::Real(be64_value(rest)), 9)) }
        } else if b[0] == TAG_BLOB {
            match parse_bytes(rest) {
                Some((t, k)) => Some((ColumnView::Blob(t), k + 1)),
                None => None,
            }
        } else if b[0] == TAG_NULL {
            Some((ColumnView::Null, 1))
        } else {
            None
        }
    }
}

/// `n` items parsed one after the other from the start of `b`.
pub open spec fn parse_list<T>(b: Seq<u8>, n: nat, p: spec_fn(Seq<u8>) -> Option<(T, nat)>) -> Option<(Seq<T>, nat)>
    decreases n,
{
    if n == 0 {
        Some((seq![], 0))
    } else {
        match parse_list(b, (n - 1) as nat, p) {
            Some((xs, k)) => match p(b.skip(k as int)) {
                Some((x, k2)) => Some((xs.push(x), k + k2)),
                None => None,
            },
            None => None,
        }
    }
}

pub open spec fn parse_counted<T>(b: Seq<u8>, p: spec_fn(Seq<u8>) -> Option<(T, nat)>) -> Option<(Seq<T>, nat)> {
    if b.len() < 8 {
        None
    } else {
        match parse_list(b.skip(8), be64_value(b) as nat, p) {
            Some((xs, k)) => Some((xs, k + 8)),
            None => None,
        }
    }
}

pub open spec fn parse_row(b: Seq<u8>) -> Option<(Seq<ColumnView>, nat)> {
    parse_counted(b, |x: Seq<u8>| parse_column(x))
}

pub open spec fn parse_response(b: Seq<u8>) -> Option<(ResponseView, nat)> {
    if b.len() < 8 {
        None
    } else {
        match parse_counted(b.skip(8), |x: Seq<u8>| parse_text(x)) {
            Some((cols, k)) => match parse_counted(b.skip(8 + k as int), |x: Seq<u8>| parse_row(x)) {
                Some((rows, k2)) => Some((ResponseView { request_id: be64_value(b), columns: cols, rows }, 8 + k + k2)),
                None => None,
            },
            None => None,
        }
    }
}

pub open spec fn parse_request(b: Seq<u8>) -> Option<(RequestView, nat)> {
    if b.len() == 0 {
        None
    } else if b[0] == TAG_CANCEL {
        Some((RequestView::Cancel, 1))
    } else if b[0] == TAG_NETWORK_REQUEST && b.len() >= 9 {
        match parse_text(b.skip(9)) {
            Some((q, k)) => Some((RequestView::NetworkRequest(be64_value(b.skip(1)), q), 9 + k)),
            None => None,
        }
    } else {
        None
    }
}

/// What fits the eight-byte length fields.
pub open spec fn column_fits(c: ColumnView) -> bool {
    match c {
        ColumnView::Text(s) => encode_utf8(s).len() <= u64::MAX,
        ColumnView::Blob(b) => b.len() <= u64::MAX,
        _ => true,
    }
}

pub open spec fn row_fits(r: Seq<ColumnView>) -> bool {
    r.len() <= u64::MAX && forall|i: int| 0 <= i < r.len() ==> column_fits(#[trigger] r[i])
}

pub open spec fn response_fits(r: ResponseView) -> bool {
    &&& r.columns.len() <= u64::MAX
    &&& r.rows.len() <= u64::MAX
    &&& forall|i: int| 0 <= i < r.columns.len() ==> encode_utf8(#[trigger] r.columns[i]).len() <= u64::MAX
    &&& forall|i: int| 0 <= i < r.rows.len() ==> row_fits(#[trigger] r.rows[i])
}

pub open spec fn request_fits(r: RequestView) -> bool {
    match r {
        RequestView::NetworkRequest(_, q) => encode_utf8(q).len() <= u64::MAX,
        RequestView::Cancel => true,
    }
}

// ---- lemmas ----

pub proof fn lemma_be64(n: u64, rest: Seq<u8>)
    ensures
        (be64(n) + rest).len() == 8 + rest.len(),
        be64_value(be64(n) + rest) == n,
        (be64(n) + rest).skip(8) == rest,
{
    let s = be64(n) + rest;
    assert(s[0] == (n >> 56u64) as u8 && s[1] == (n >> 48u64) as u8 && s[2] == (n >> 40u64) as u8);
    assert(s[3] == (n >> 32u64) as u8 && s[4] == (n >> 24u64) as u8 && s[5] == (n >> 16u64) as u8);
    assert(s[6] == (n >> 8u64) as u8 && s[7] == n as u8);
    assert(((((n >> 56u64) as u8) as u64) << 56u64) | ((((n >> 48u64) as u8) as u64) << 48u64)
        | ((((n >> 40u64) as u8) as u64) << 40u64) | ((((n >> 32u64) as u8) as u64) << 32u64)
        | ((((n >> 24u64) as u8) as u64) << 24u64) | ((((n >> 16u64) as u8) as u64) << 16u64)
        | ((((n >> 8u64) as u8) as u64) << 8u64) | ((n as u8) as u64) == n) by (bit_vector);
    assert(s.skip(8) =~= rest);
}

pub proof fn lemma_be64_sound(s: Seq<u8>)
    requires
        s.len() >= 8,
    ensures
        s.subrange(0, 8) == be64(be64_value(s)),
{
    let (b0, b1, b2, b3, b4, b5, b6, b7) = (s[0], s[1], s[2], s[3], s[4], s[5], s[6], s[7]);
    let v = be64_value(s);
    assert(v == ((b0 as u64) << 56u64) | ((b1 as u64) << 48u64) | ((b2 as u64) << 40u64) | ((b3 as u64) << 32u64)
        | ((b4 as u64) << 24u64) | ((b5 as u64) << 16u64) | ((b6 as u64) << 8u64) | (b7 as u64));
    assert((v >> 56u64) as u8 == b0 && (v >> 48u64) as u8 == b1 && (v >> 40u64) as u8 == b2
        && (v >> 32u64) as u8 == b3 && (v >> 24u64) as u8 == b4 && (v >> 16u64) as u8 == b5
        && (v >> 8u64) as u8 == b6 && v as u8 == b7) by (bit_vector)
        requires
            v == ((b0 as u64) << 56u64) | ((b1 as u64) << 48u64) | ((b2 as u64) << 40u64) | ((b3 as u64) << 32u64)
                | ((b4 as u64) << 24u64) | ((b5 as u64) << 16u64) | ((b6 as u64) << 8u64) | (b7 as u64);
    assert(s.subrange(0, 8) =~= be64(v));
}

pub proof fn lemma_bytes_round_trip(b: Seq<u8>, rest: Seq<u8>)
    requires
        b.len() <= u64::MAX,
    ensures
        parse_bytes(enc_bytes(b) + rest) == Some((b, enc_bytes(b).len())),
{
    lemma_be64(b.len() as u64, b + rest);
    assert(enc_bytes(b) + rest =~= be64(b.len() as u64) + (b + rest));
    assert((enc_bytes(b) + rest).subrange(8, 8 + b.len() as int) =~= b);
}

pub proof fn lemma_bytes_sound(s: Seq<u8>)
    ensures
        parse_bytes(s) matches Some((b, k)) ==> k <= s.len() && s.subrange(0, k as int) == enc_bytes(b),
{
    if let Some((b, k)) = parse_bytes(s) {
        lemma_be64_sound(s);
        assert(s.subrange(0, k as int) =~= s.subrange(0, 8) + b);
    }
}

pub proof fn lemma_text_round_trip(t: Seq<char>, rest: Seq<u8>)
    requires
        encode_utf8(t).len() <= u64::MAX,
    ensures
        parse_text(enc_text(t) + rest) == Some((t, enc_text(t).len())),
{
    lemma_bytes_round_trip(encode_utf8(t), rest);
}

pub proof fn lemma_text_sound(s: Seq<u8>)
    ensures
        parse_text(s) matches Some((t, k)) ==> k <= s.len() && s.subrange(0, k as int) == enc_text(t),
{
    lemma_bytes_sound(s);
}

pub proof fn lemma_column_round_trip(c: ColumnView, rest: Seq<u8>)
    requires
        column_fits(c),
    ensures
        parse_column(enc_column(c) + rest) == Some((c, enc_column(c).len())),
{
    let s = enc_column(c) + rest;
    match c {
        ColumnView::Text(t) => {
            assert(s.drop_first() =~= enc_text(t) + rest);
            lemma_text_round_trip(t, rest);
        },
        ColumnView::Integer(i) => {
            assert(s.drop_first() =~= be64(i as u64) + rest);
            lemma_be64(i as u64, rest);
            assert(((i as u64) as i64) == i) by (bit_vector);
        },
        ColumnView::Real(b) => {
            assert(s.drop_first() =~= be64(b) + rest);
            lemma_be64(b, rest);
        },
        ColumnView::Blob(b) => {
            assert(s.drop_first() =~= enc_bytes(b) + rest);
            lemma_bytes_round_trip(b, rest);
        },
        ColumnView::Null => {},
    }
}

pub proof fn lemma_column_sound(s: Seq<u8>)
    ensures
        parse_column(s) matches Some((c, k)) ==> k <= s.len() && s.subrange(0, k as int) == enc_column(c),
{
    if let Some((c, k)) = parse_column(s) {
        let rest = s.drop_first();
        lemma_bytes_sound(rest);
        if s[0] == TAG_INTEGER || s[0] == TAG_REAL {
            lemma_be64_sound(rest);
        }
        if s[0] == TAG_INTEGER {
            let v = be64_value(rest);
            assert(((v as i64) as u64) == v) by (bit_vector);
        }
        assert(s.subrange(0, k as int) =~= seq![s[0]] + rest.subrange(0, k - 1));
    }
}

pub proof fn lemma_list_round_trip<T>(
    xs: Seq<T>,
    rest: Seq<u8>,
    e: spec_fn(T) -> Seq<u8>,
    p: spec_fn(Seq<u8>) -> Option<(T, nat)>,
)
    requires
        forall|i: int, r: Seq<u8>| 0 <= i < xs.len() ==> #[trigger] p(e(xs[i]) + r) == Some((xs[i], e(xs[i]).len())),
    ensures
        parse_list(enc_list(xs, e) + rest, xs.len(), p) == Some((xs, enc_list(xs, e).len())),
    decreases xs.len(),
{
    if xs.len() > 0 {
        let init = xs.drop_last();
        let last = xs.last();
        let tail = e(last) + rest;
        assert forall|i: int, r: Seq<u8>| 0 <= i < init.len() implies #[trigger] p(e(init[i]) + r) == Some((init[i], e(init[i]).len())) by {
            assert(init[i] == xs[i]);
            assert(p(e(xs[i]) + r) == Some((xs[i], e(xs[i]).len())));
        }
        lemma_list_round_trip(init, tail, e, p);
        let all = enc_list(xs, e) + rest;
        assert(all =~= enc_list(init, e) + tail);
        let k = enc_list(init, e).len();
        assert(all.skip(k as int) =~= tail);
        assert(p(e(xs[xs.len() - 1]) + rest) == Some((xs[xs.len() - 1], e(xs[xs.len() - 1]).len())));
        assert(init.push(last) =~= xs);
    }
}

pub proof fn lemma_list_sound<T>(
    b: Seq<u8>,
    n: nat,
    e: spec_fn(T) -> Seq<u8>,
    p: spec_fn(Seq<u8>) -> Option<(T, nat)>,
)
    requires
        forall|s: Seq<u8>| #[trigger] p(s) matches Some((x, k)) ==> k <= s.len() && s.subrange(0, k as int) == e(x),
    ensures
        parse_list(b, n, p) matches Some((xs, k)) ==> xs.len() == n && k <= b.len() && b.subrange(0, k as int) == enc_list(xs, e),
    decreases n,
{
    if n > 0 {
        lemma_list_sound(b, (n - 1) as nat, e, p);
        if let Some((xs, k)) = parse_list(b, n, p) {
            let (init, k1) = parse_list(b, (n - 1) as nat, p).unwrap();
            let s = b.skip(k1 as int);
            assert(p(s) matches Some((x, k2)) ==> k2 <= s.len() && s.subrange(0, k2 as int) == e(x));
            let (x, k2) = p(s).unwrap();
            assert(xs.drop_last() =~= init);
            assert(b.subrange(0, k as int) =~= b.subrange(0, k1 as int) + s.subrange(0, k2 as int));
        }
    }
}

pub proof fn lemma_counted_round_trip<T>(
    xs: Seq<T>,
    rest: Seq<u8>,
    e: spec_fn(T) -> Seq<u8>,
    p: spec_fn(Seq<u8>) -> Option<(T, nat)>,
)
    requires
        xs.len() <= u64::MAX,
        forall|i: int, r: Seq<u8>| 0 <= i < xs.len() ==> #[trigger] p(e(xs[i]) + r) == Some((xs[i], e(xs[i]).len())),
    ensures
        parse_counted(enc_counted(xs, e) + rest, p) == Some((xs, enc_counted(xs, e).len())),
{
    let body = enc_list(xs, e) + rest;
    lemma_be64(xs.len() as u64, body);
    assert(enc_counted(xs, e) + rest =~= be64(xs.len() as u64) + body);
    lemma_list_round_trip(xs, rest, e, p);
}

pub proof fn lemma_counted_sound<T>(
    b: Seq<u8>,
    e: spec_fn(T) -> Seq<u8>,
    p: spec_fn(Seq<u8>) -> Option<(T, nat)>,
)
    requires
        forall|s: Seq<u8>| #[trigger] p(s) matches Some((x, k)) ==> k <= s.len() && s.subrange(0, k as int) == e(x),
    ensures
        parse_counted(b, p) matches Some((xs, k)) ==> k <= b.len() && b.subrange(0, k as int) == enc_counted(xs, e),
{
    if b.len() >= 8 {
        lemma_list_sound(b.skip(8), be64_value(b) as nat, e, p);
        if let Some((xs, k)) = parse_counted(b, p) {
            lemma_be64_sound(b);
            assert(b.subrange(0, k as int) =~= b.subrange(0, 8) + b.skip(8).subrange(0, k - 8));
        }
    }
}

pub proof fn lemma_row_round_trip(r: Seq<ColumnView>, rest: Seq<u8>)
    requires
        row_fits(r),
    ensures
        parse_row(enc_row(r) + rest) == Some((r, enc_row(r).len())),
{
    let e = |c: ColumnView| enc_column(c);
    let p = |x: Seq<u8>| parse_column(x);
    assert forall|i: int, t: Seq<u8>| 0 <= i < r.len() implies #[trigger] p(e(r[i]) + t) == Some((r[i], e(r[i]).len())) by {
        lemma_column_round_trip(r[i], t);
    }
    lemma_counted_round_trip(r, rest, e, p);
}

pub proof fn lemma_row_sound(s: Seq<u8>)
    ensures
        parse_row(s) matches Some((r, k)) ==> k <= s.len() && s.subrange(0, k as int) == enc_row(r),
{
    let e = |c: ColumnView| enc_column(c);
    let p = |x: Seq<u8>| parse_column(x);
    assert forall|t: Seq<u8>| (#[trigger] p(t) matches Some((x, k)) ==> k <= t.len() && t.subrange(0, k as int) == e(x)) by {
        lemma_column_sound(t);
    }
    lemma_counted_sound(s, e, p);
}

#[verifier::rlimit(60)]
pub proof fn lemma_response_round_trip(r: ResponseView, rest: Seq<u8>)
    requires
        response_fits(r),
    ensures
        parse_response(enc_response(r) + rest) == Some((r, enc_response(r).len())),
{
    let et = |s: Seq<char>| enc_text(s);
    let pt = |x: Seq<u8>| parse_text(x);
    let er = |row: Seq<ColumnView>| enc_row(row);
    let pr = |x: Seq<u8>| parse_row(x);
    assert forall|i: int, t: Seq<u8>| 0 <= i < r.columns.len() implies #[trigger] pt(et(r.columns[i]) + t) == Some((r.columns[i], et(r.columns[i]).len())) by {
        lemma_text_round_trip(r.columns[i], t);
    }
    assert forall|i: int, t: Seq<u8>| 0 <= i < r.rows.len() implies #[trigger] pr(er(r.rows[i]) + t) == Some((r.rows[i], er(r.rows[i]).len())) by {
        lemma_row_round_trip(r.rows[i], t);
    }
    let rows_part = enc_counted(r.rows, er) + rest;
    let cols_part = enc_counted(r.columns, et);
    lemma_counted_round_trip(r.columns, rows_part, et, pt);
    lemma_counted_round_trip(r.rows, rest, er, pr);
    let all = enc_response(r) + rest;
    lemma_be64(r.request_id, cols_part + rows_part);
    assert(all =~= be64(r.request_id) + (cols_part + rows_part));
    let k1 = cols_part.len();
    assert(all.skip(8) == cols_part + rows_part);
    assert(parse_counted(all.skip(8), pt) == Some((r.columns, k1)));
    assert(all.skip(8 + k1 as int) =~= rows_part);
    assert(parse_counted(all.skip(8 + k1 as int), pr) == Some((r.rows, enc_counted(r.rows, er).len())));
    assert(all.len() >= 8);
    assert(be64_value(all) == r.request_id);
}

pub proof fn lemma_response_sound(s: Seq<u8>)
    ensures
        parse_response(s) matches Some((r, k)) ==> k <= s.len() && s.subrange(0, k as int) == enc_response(r),
{
    if s.len() >= 8 {
        let et = |t: Seq<char>| enc_text(t);
        let pt = |x: Seq<u8>| parse_text(x);
        let er = |row: Seq<ColumnView>| enc_row(row);
        let pr = |x: Seq<u8>| parse_row(x);
        assert forall|t: Seq<u8>| (#[trigger] pt(t) matches Some((x, k)) ==> k <= t.len() && t.subrange(0, k as int) == et(x)) by {
            lemma_text_sound(t);
        }
        assert forall|t: Seq<u8>| (#[trigger] pr(t) matches Some((x, k)) ==> k <= t.len() && t.subrange(0, k as int) == er(x)) by {
            lemma_row_sound(t);
        }
        lemma_counted_sound(s.skip(8), et, pt);
        if let Some((cols, k1)) = parse_counted(s.skip(8), pt) {
            lemma_counted_sound(s.skip(8 + k1 as int), er, pr);
            if let Some((r, k)) = parse_response(s) {
                let k2 = (k - 8 - k1) as nat;
                lemma_be64_sound(s);
                assert(s.subrange(0, k as int) =~= s.subrange(0, 8) + s.skip(8).subrange(0, k1 as int) + s.skip(8 + k1 as int).subrange(0, k2 as int));
            }
        }
    }
}

pub proof fn lemma_request_round_trip(r: RequestView, rest: Seq<u8>)
    requires
        request_fits(r),
    ensures
        parse_request(enc_request(r) + rest) == Some((r, enc_request(r).len())),
{
    if let RequestView::NetworkRequest(id, q) = r {
        let all = enc_request(r) + rest;
        lemma_be64(id, enc_text(q) + rest);
        assert(all.skip(1) =~= be64(id) + (enc_text(q) + rest));
        assert(all.skip(9) =~= enc_text(q) + rest);
        lemma_text_round_trip(q, rest);
    }
}

pub proof fn lemma_request_sound(s: Seq<u8>)
    ensures
        parse_request(s) matches Some((r, k)) ==> k <= s.len() && s.subrange(0, k as int) == enc_request(r),
{
    if let Some((r, k)) = parse_request(s) {
        if s[0] == TAG_NETWORK_REQUEST {
            lemma_text_sound(s.skip(9));
            lemma_be64_sound(s.skip(1));
            assert(s.subrange(0, k as int) =~= seq![s[0]] + s.skip(1).subrange(0, 8) + s.skip(9).subrange(0, k - 9));
        }
    }
}

/// The cell that `b` encodes, when `b` holds exactly one encoded cell.
pub open spec fn column_decoding(b: Seq<u8>) -> Option<ColumnView> {
    match parse_column(b) {
        Some((c, k)) => if k == b.len() { Some(c) } else { None },
        None => None,
    }
}

/// The response that `b` encodes, when `b` holds exactly one encoded response.
pub open spec fn response_decoding(b: Seq<u8>) -> Option<ResponseView> {
    match parse_response(b) {
        Some((r, k)) => if k == b.len() { Some(r) } else { None },
        None => None,
    }
}

/// The envelope that `b` encodes, when `b` holds exactly one encoded envelope.
pub open spec fn request_decoding(b: Seq<u8>) -> Option<RequestView> {
    match parse_request(b) {
        Some((r, k)) => if k == b.len() { Some(r) } else { None },
        None => None,
    }
}

/// Decoding the encoding of a cell gives the same cell back, for every kind of
/// cell, the empty text and the empty blob included.
pub proof fn law_column_round_trip(c: ColumnView)
    requires
        column_fits(c),
    ensures
        column_decoding(enc_column(c)) == Some(c),
{
    lemma_column_round_trip(c, seq![]);
    assert(enc_column(c) + seq![] =~= enc_column(c));
}

/// A byte string decodes to a cell only when it is exactly that cell's encoding.
pub proof fn law_column_decoding_exact(b: Seq<u8>)
    ensures
        column_decoding(b) matches Some(c) ==> b == enc_column(c),
{
    lemma_column_sound(b);
    assert(b.subrange(0, b.len() as int) =~= b);
}

/// Decoding the encoding of a response gives the same response back.
pub proof fn law_response_round_trip(r: ResponseView)
    requires
        response_fits(r),
    ensures
        response_decoding(enc_response(r)) == Some(r),
{
    lemma_response_round_trip(r, seq![]);
    assert(enc_response(r) + seq![] =~= enc_response(r));
}

/// A byte string decodes to a response only when it is exactly that response's
/// encoding.
pub proof fn law_response_decoding_exact(b: Seq<u8>)
    ensures
        response_decoding(b) matches Some(r) ==> b == enc_response(r),
{
    lemma_response_sound(b);
    assert(b.subrange(0, b.len() as int) =~= b);
}

/// Decoding the encoding of an envelope gives the same envelope back.
pub proof fn law_request_round_trip(r: RequestView)
    requires
        request_fits(r),
    ensures
        request_decoding(enc_request(r)) == Some(r),
{
    lemma_request_round_trip(r, seq![]);
    assert(enc_request(r) + seq![] =~= enc_request(r));
}

/// A byte string decodes to an envelope only when it is exactly that
/// envelope's encoding.
pub proof fn law_request_decoding_exact(b: Seq<u8>)
    ensures
        request_decoding(b) matches Some(r) ==> b == enc_request(r),
{
    lemma_request_sound(b);
    assert(b.subrange(0, b.len() as int) =~= b);
}

} // verus!
