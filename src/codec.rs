//! Executable encoders and decoders for the binary format of `format`.
use vstd::prelude::*;
use vstd::utf8::{decode_utf8, valid_utf8};
use crate::format::{
    be64, be64_value, enc_bytes, enc_column, enc_list, enc_request, enc_response, enc_row, enc_text,
    parse_bytes, parse_column, parse_counted, parse_list, parse_request, parse_response, parse_row,
    parse_text, column_decoding, response_decoding, request_decoding, TAG_BLOB, TAG_CANCEL, TAG_INTEGER, TAG_NETWORK_REQUEST, TAG_NULL, TAG_REAL, TAG_TEXT,
};
use crate::types::{
    cells_view, rows_view, strings_view, ColumnData, ColumnView, RequestType, Row, SqlRequest, SqlResponse,
};

verus! {

broadcast use {vstd::utf8::encode_utf8_valid_utf8, vstd::utf8::encode_utf8_decode_utf8, vstd::utf8::decode_utf8_encode_utf8};

/// Relies on `String::from_utf8`: it succeeds exactly on valid UTF-8 and then
/// holds the characters those bytes encode.
#[verifier::external_body]
pub(crate) fn string_from_utf8(bytes: Vec<u8>) -> (r: Option<String>)
    ensures
        r is Some <==> valid_utf8(bytes@),
        r matches Some(s) ==> s@ == decode_utf8(bytes@),
{
    String::from_utf8(bytes).ok()
}

pub(crate) fn push_be64(out: &mut Vec<u8>, n: u64)
    ensures
        final(out)@ == old(out)@ + be64(n),
{
    out.push((n >> 56u64) as u8);
    out.push((n >> 48u64) as u8);
    out.push((n >> 40u64) as u8);
    out.push((n >> 32u64) as u8);
    out.push((n >> 24u64) as u8);
    out.push((n >> 16u64) as u8);
    out.push((n >> 8u64) as u8);
    out.push(n as u8);
    assert(final(out)@ =~= old(out)@ + be64(n));
}

pub(crate) fn read_be64(b: &[u8], pos: usize) -> (r: u64)
    requires
        pos + 8 <= b@.len(),
    ensures
        r == be64_value(b@.skip(pos as int)),
{
    ((b[pos] as u64) << 56u64) | ((b[pos + 1] as u64) << 48u64) | ((b[pos + 2] as u64) << 40u64)
        | ((b[pos + 3] as u64) << 32u64) | ((b[pos + 4] as u64) << 24u64) | ((b[pos + 5] as u64) << 16u64)
        | ((b[pos + 6] as u64) << 8u64) | (b[pos + 7] as u64)
}

/// Appends `b[start..end]` to `out`.
pub(crate) fn push_range(out: &mut Vec<u8>, b: &[u8], start: usize, end: usize)
    requires
        start <= end <= b@.len(),
    ensures
        final(out)@ == old(out)@ + b@.subrange(start as int, end as int),
{
    let mut i = start;
    while i < end
        invariant
            start <= i <= end <= b@.len(),
            out@ == old(out)@ + b@.subrange(start as int, i as int),
        decreases end - i,
    {
        out.push(b[i]);
        i = i + 1;
        assert(out@ =~= old(out)@ + b@.subrange(start as int, i as int));
    }
}

pub(crate) fn push_bytes(out: &mut Vec<u8>, b: &[u8])
    ensures
        final(out)@ == old(out)@ + enc_bytes(b@),
{
    push_be64(out, b.len() as u64);
    push_range(out, b, 0, b.len());
    assert(b@.subrange(0, b@.len() as int) =~= b@);
    assert(final(out)@ =~= old(out)@ + enc_bytes(b@));
}

pub(crate) fn push_text(out: &mut Vec<u8>, s: &String)
    ensures
        final(out)@ == old(out)@ + enc_text(s@),
{
    let bytes = s.as_str().as_bytes();
    push_bytes(out, bytes);
}

fn push_column(out: &mut Vec<u8>, c: &ColumnData)
    ensures
        final(out)@ == old(out)@ + enc_column(c@),
{
    match c {
        ColumnData::Text(s) => {
            out.push(TAG_TEXT);
            push_text(out, s);
        },
        ColumnData::Integer(i) => {
            out.push(TAG_INTEGER);
            push_be64(out, *i as u64);
        },
        ColumnData::Real(bits) => {
            out.push(TAG_REAL);
            push_be64(out, *bits);
        },
        ColumnData::Blob(b) => {
            out.push(TAG_BLOB);
            push_bytes(out, b.as_slice());
        },
        ColumnData::Null => {
            out.push(TAG_NULL);
        },
    }
    assert(final(out)@ =~= old(out)@ + enc_column(c@));
}

fn push_row(out: &mut Vec<u8>, row: &Row)
    ensures
        final(out)@ == old(out)@ + enc_row(row@),
{
    let ghost e = |c: ColumnView| enc_column(c);
    let n = row.data.len();
    push_be64(out, n as u64);
    let mut i: usize = 0;
    while i < n
        invariant
            n == row.data@.len(),
            i <= n,
            e == (|c: ColumnView| enc_column(c)),
            out@ == old(out)@ + be64(n as u64) + enc_list(cells_view(row.data@).take(i as int), e),
        decreases n - i,
    {
        let ghost prev = out@;
        push_column(out, &row.data[i]);
        proof {
            let v = cells_view(row.data@);
            let t = v.take(i + 1);
            assert(t.drop_last() =~= v.take(i as int));
            assert(t.last() == row.data@[i as int]@);
            assert(e(t.last()) == enc_column(row.data@[i as int]@));
            assert(enc_list(t, e) == enc_list(v.take(i as int), e) + e(t.last()));
            assert(out@ =~= old(out)@ + be64(n as u64) + enc_list(t, e));
        }
        i = i + 1;
    }
    assert(cells_view(row.data@).take(n as int) =~= cells_view(row.data@));
    assert(final(out)@ =~= old(out)@ + enc_row(row@));
}

/// The binary encoding of one cell.
pub fn encode_column(c: &ColumnData) -> (r: Vec<u8>)
    ensures
        r@ == enc_column(c@),
{
    let mut out: Vec<u8> = Vec::new();
    push_column(&mut out, c);
    assert(out@ =~= enc_column(c@));
    out
}

/// The binary encoding of a response: its request id, its column names, then
/// its rows.
pub fn encode_response(r: &SqlResponse) -> (out: Vec<u8>)
    ensures
        out@ == enc_response(r@),
{
    let ghost et = |s: Seq<char>| enc_text(s);
    let ghost er = |row: Seq<ColumnView>| enc_row(row);
    let mut out: Vec<u8> = Vec::new();
    push_be64(&mut out, r.request_id);
    let n = r.columns.len();
    push_be64(&mut out, n as u64);
    let mut i: usize = 0;
    while i < n
        invariant
            n == r.columns@.len(),
            i <= n,
            et == (|s: Seq<char>| enc_text(s)),
            out@ == be64(r.request_id) + be64(n as u64) + enc_list(strings_view(r.columns@).take(i as int), et),
        decreases n - i,
    {
        let ghost prev = out@;
        push_text(&mut out, &r.columns[i]);
        proof {
            let v = strings_view(r.columns@);
            let t = v.take(i + 1);
            assert(t.drop_last() =~= v.take(i as int));
            assert(t.last() == r.columns@[i as int]@);
            assert(et(t.last()) == enc_text(r.columns@[i as int]@));
            assert(enc_list(t, et) == enc_list(v.take(i as int), et) + et(t.last()));
            assert(out@ =~= be64(r.request_id) + be64(n as u64) + enc_list(t, et));
        }
        i = i + 1;
    }
    assert(strings_view(r.columns@).take(n as int) =~= strings_view(r.columns@));
    let ghost head = out@;
    let m = r.row_data.len();
    push_be64(&mut out, m as u64);
    let mut j: usize = 0;
    while j < m
        invariant
            m == r.row_data@.len(),
            j <= m,
            er == (|row: Seq<ColumnView>| enc_row(row)),
            out@ == head + be64(m as u64) + enc_list(rows_view(r.row_data@).take(j as int), er),
        decreases m - j,
    {
        let ghost prev = out@;
        push_row(&mut out, &r.row_data[j]);
        proof {
            let v = rows_view(r.row_data@);
            let t = v.take(j + 1);
            assert(t.drop_last() =~= v.take(j as int));
            assert(t.last() == r.row_data@[j as int]@);
            assert(er(t.last()) == enc_row(r.row_data@[j as int]@));
            assert(enc_list(t, er) == enc_list(v.take(j as int), er) + er(t.last()));
            assert(out@ =~= head + be64(m as u64) + enc_list(t, er));
        }
        j = j + 1;
    }
    assert(rows_view(r.row_data@).take(m as int) =~= rows_view(r.row_data@));
    assert(out@ =~= enc_response(r@));
    out
}

/// The binary encoding of a stream envelope.
pub fn encode_request(r: &RequestType) -> (out: Vec<u8>)
    ensures
        out@ == enc_request(r@),
{
    let mut out: Vec<u8> = Vec::new();
    match r {
        RequestType::Cancel => {
            out.push(TAG_CANCEL);
        },
        RequestType::NetworkRequest(req) => {
            out.push(TAG_NETWORK_REQUEST);
            push_be64(&mut out, req.request_id);
            push_text(&mut out, &req.request);
        },
    }
    assert(out@ =~= enc_request(r@));
    out
}

proof fn lemma_list_none_stays<T>(b: Seq<u8>, m: nat, n: nat, p: spec_fn(Seq<u8>) -> Option<(T, nat)>)
    requires
        m <= n,
        parse_list(b, m, p) is None,
    ensures
        parse_list(b, n, p) is None,
    decreases n,
{
    if n > m {
        lemma_list_none_stays(b, m, (n - 1) as nat, p);
    }
}

fn read_bytes_at(b: &[u8], pos: usize) -> (r: Option<(Vec<u8>, usize)>)
    requires
        pos <= b@.len(),
    ensures
        match parse_bytes(b@.skip(pos as int)) {
            Some((v, k)) => r matches Some((x, end)) && x@ == v && end == pos + k,
            None => r is None,
        },
        r matches Some((_, end)) ==> end <= b@.len(),
{
    if b.len() - pos < 8 {
        return None;
    }
    let n = read_be64(b, pos);
    if ((b.len() - pos - 8) as u64) < n {
        return None;
    }
    let end = pos + 8 + n as usize;
    let mut out: Vec<u8> = Vec::new();
    push_range(&mut out, b, pos + 8, end);
    assert(out@ =~= b@.skip(pos as int).subrange(8, 8 + n as int));
    Some((out, end))
}

fn read_text_at(b: &[u8], pos: usize) -> (r: Option<(String, usize)>)
    requires
        pos <= b@.len(),
    ensures
        match parse_text(b@.skip(pos as int)) {
            Some((v, k)) => r matches Some((x, end)) && x@ == v && end == pos + k,
            None => r is None,
        },
        r matches Some((_, end)) ==> end <= b@.len(),
{
    match read_bytes_at(b, pos) {
        Some((bytes, end)) => match string_from_utf8(bytes) {
            Some(s) => Some((s, end)),
            None => None,
        },
        None => None,
    }
}

fn read_column_at(b: &[u8], pos: usize) -> (r: Option<(ColumnData, usize)>)
    requires
        pos <= b@.len(),
    ensures
        match parse_column(b@.skip(pos as int)) {
            Some((v, k)) => r matches Some((x, end)) && x@ == v && end == pos + k,
            None => r is None,
        },
        r matches Some((_, end)) ==> end <= b@.len(),
{
    let ghost s = b@.skip(pos as int);
    if pos == b.len() {
        return None;
    }
    let tag = b[pos];
    assert(s.drop_first() =~= b@.skip(pos + 1));
    if tag == TAG_TEXT {
        match read_text_at(b, pos + 1) {
            Some((t, end)) => Some((ColumnData::Text(t), end)),
            None => None,
        }
    } else if tag == TAG_INTEGER || tag == TAG_REAL {
        if b.len() - pos - 1 < 8 {
            return None;
        }
        let v = read_be64(b, pos + 1);
        if tag == TAG_INTEGER {
            Some((ColumnData::Integer(v as i64), pos + 9))
        } else {
            Some((ColumnData::Real(v), pos + 9))
        }
    } else if tag == TAG_BLOB {
        match read_bytes_at(b, pos + 1) {
            Some((t, end)) => Some((ColumnData::Blob(t), end)),
            None => None,
        }
    } else if tag == TAG_NULL {
        Some((ColumnData::Null, pos + 1))
    } else {
        None
    }
}

fn read_row_at(b: &[u8], pos: usize) -> (r: Option<(Row, usize)>)
    requires
        pos <= b@.len(),
    ensures
        match parse_row(b@.skip(pos as int)) {
            Some((v, k)) => r matches Some((x, end)) && x@ == v && end == pos + k,
            None => r is None,
        },
        r matches Some((_, end)) ==> end <= b@.len(),
{
    let ghost p = |x: Seq<u8>| parse_column(x);
    if b.len() - pos < 8 {
        return None;
    }
    let n = read_be64(b, pos);
    let ghost s = b@.skip(pos + 8);
    assert(b@.skip(pos as int).skip(8) =~= s);
    let mut cells: Vec<ColumnData> = Vec::new();
    let mut cur = pos + 8;
    let mut i: u64 = 0;
    while i < n
        invariant
            pos + 8 <= cur <= b@.len(),
            i <= n,
            s == b@.skip(pos + 8),
            s == b@.skip(pos as int).skip(8),
            n == be64_value(b@.skip(pos as int)),
            b@.skip(pos as int).len() >= 8,
            p == (|x: Seq<u8>| parse_column(x)),
            parse_list(s, i as nat, p) == Some((cells_view(cells@), (cur - pos - 8) as nat)),
        decreases n - i,
    {
        let ghost k = (cur - pos - 8) as nat;
        assert(s.skip(k as int) =~= b@.skip(cur as int));
        match read_column_at(b, cur) {
            Some((c, next)) => {
                proof {
                    assert(cells_view(cells@.push(c)) =~= cells_view(cells@).push(c@));
                }
                cells.push(c);
                cur = next;
                i = i + 1;
            },
            None => {
                proof {
                    assert(parse_list(s, (i + 1) as nat, p) is None);
                    lemma_list_none_stays(s, (i + 1) as nat, n as nat, p);
                }
                return None;
            },
        }
    }
    Some((Row { data: cells }, cur))
}

proof fn lemma_response_rows_fail(b: Seq<u8>, mid: nat)
    requires
        16 <= mid <= b.len(),
        parse_counted(b.skip(8), |x: Seq<u8>| parse_text(x)) matches Some((_, k)) && k == mid - 8,
        parse_counted(b.skip(mid as int), |x: Seq<u8>| parse_row(x)) is None,
    ensures
        parse_response(b) is None,
{
    assert(b.skip(8 + (mid - 8)) =~= b.skip(mid as int));
}

#[verifier::rlimit(40)]
fn read_response(b: &[u8]) -> (r: Option<(SqlResponse, usize)>)
    ensures
        match parse_response(b@) {
            Some((v, k)) => r matches Some((x, end)) && x@ == v && end == k,
            None => r is None,
        },
        r matches Some((_, end)) ==> end <= b@.len(),
{
    let ghost pt = |x: Seq<u8>| parse_text(x);
    let ghost pr = |x: Seq<u8>| parse_row(x);
    if b.len() < 8 {
        return None;
    }
    let request_id = read_be64(b, 0);
    assert(b@.skip(0) =~= b@);
    if b.len() - 8 < 8 {
        return None;
    }
    let n = read_be64(b, 8);
    let ghost s = b@.skip(16);
    assert(b@.skip(8).skip(8) =~= s);
    let mut columns: Vec<String> = Vec::new();
    let mut cur: usize = 16;
    let mut i: u64 = 0;
    while i < n
        invariant
            16 <= cur <= b@.len(),
            i <= n,
            s == b@.skip(16),
            s == b@.skip(8).skip(8),
            n == be64_value(b@.skip(8)),
            request_id == be64_value(b@),
            b@.len() >= 16,
            pt == (|x: Seq<u8>| parse_text(x)),
            parse_list(s, i as nat, pt) == Some((strings_view(columns@), (cur - 16) as nat)),
        decreases n - i,
    {
        let ghost k = (cur - 16) as nat;
        assert(s.skip(k as int) =~= b@.skip(cur as int));
        match read_text_at(b, cur) {
            Some((c, next)) => {
                proof {
                    assert(strings_view(columns@.push(c)) =~= strings_view(columns@).push(c@));
                }
                columns.push(c);
                cur = next;
                i = i + 1;
            },
            None => {
                proof {
                    assert(parse_list(s, (i + 1) as nat, pt) is None);
                    lemma_list_none_stays(s, (i + 1) as nat, n as nat, pt);
                }
                return None;
            },
        }
    }
    let mid = cur;
    assert(b@.skip(8).skip(mid - 8) =~= b@.skip(mid as int));
    if b.len() - mid < 8 {
        return None;
    }
    let m = read_be64(b, mid);
    let ghost s2 = b@.skip(mid + 8);
    assert(b@.skip(mid as int).skip(8) =~= s2);
    let mut rows: Vec<Row> = Vec::new();
    let mut j: u64 = 0;
    cur = mid + 8;
    while j < m
        invariant
            mid + 8 <= cur <= b@.len(),
            j <= m,
            s2 == b@.skip(mid + 8),
            16 <= mid,
            s2 == b@.skip(mid as int).skip(8),
            m == be64_value(b@.skip(mid as int)),
            b@.skip(mid as int).len() >= 8,
            b@.skip(8).skip(mid - 8) == b@.skip(mid as int),
            parse_counted(b@.skip(8), pt) == Some((strings_view(columns@), (mid - 8) as nat)),
            request_id == be64_value(b@),
            pt == (|x: Seq<u8>| parse_text(x)),
            pr == (|x: Seq<u8>| parse_row(x)),
            parse_list(s2, j as nat, pr) == Some((rows_view(rows@), (cur - mid - 8) as nat)),
        decreases m - j,
    {
        let ghost k = (cur - mid - 8) as nat;
        assert(s2.skip(k as int) =~= b@.skip(cur as int));
        match read_row_at(b, cur) {
            Some((row, next)) => {
                proof {
                    assert(rows_view(rows@.push(row)) =~= rows_view(rows@).push(row@));
                }
                rows.push(row);
                cur = next;
                j = j + 1;
            },
            None => {
                proof {
                    assert(parse_list(s2, (j + 1) as nat, pr) is None);
                    lemma_list_none_stays(s2, (j + 1) as nat, m as nat, pr);
                    assert(parse_counted(b@.skip(mid as int), pr) is None);
                    lemma_response_rows_fail(b@, mid as nat);
                }
                return None;
            },
        }
    }
    Some((SqlResponse { request_id, columns, row_data: rows }, cur))
}

fn read_request(b: &[u8]) -> (r: Option<(RequestType, usize)>)
    ensures
        match parse_request(b@) {
            Some((v, k)) => r matches Some((x, end)) && x@ == v && end == k,
            None => r is None,
        },
{
    if b.len() == 0 {
        return None;
    }
    if b[0] == TAG_CANCEL {
        return Some((RequestType::Cancel, 1));
    }
    if b[0] != TAG_NETWORK_REQUEST || b.len() < 9 {
        return None;
    }
    let request_id = read_be64(b, 1);
    match read_text_at(b, 9) {
        Some((request, end)) => Some((RequestType::NetworkRequest(SqlRequest { request_id, request }), end)),
        None => None,
    }
}

/// Decodes bytes that hold exactly one encoded cell.
pub fn decode_column(b: &[u8]) -> (r: Option<ColumnData>)
    ensures
        match r {
            Some(c) => column_decoding(b@) == Some(c@),
            None => column_decoding(b@) is None,
        },
{
    match read_column_at(b, 0) {
        Some((c, end)) => {
            assert(b@.skip(0) =~= b@);
            if end == b.len() { Some(c) } else { None }
        },
        None => {
            assert(b@.skip(0) =~= b@);
            None
        },
    }
}

/// Decodes bytes that hold exactly one encoded response.
pub fn decode_response(b: &[u8]) -> (r: Option<SqlResponse>)
    ensures
        match r {
            Some(x) => response_decoding(b@) == Some(x@),
            None => response_decoding(b@) is None,
        },
{
    match read_response(b) {
        Some((x, end)) => if end == b.len() { Some(x) } else { None },
        None => None,
    }
}

/// Decodes bytes that hold exactly one encoded stream envelope.
pub fn decode_request(b: &[u8]) -> (r: Option<RequestType>)
    ensures
        match r {
            Some(x) => request_decoding(b@) == Some(x@),
            None => request_decoding(b@) is None,
        },
{
    match read_request(b) {
        Some((x, end)) => if end == b.len() { Some(x) } else { None },
        None => None,
    }
}

} // verus!
