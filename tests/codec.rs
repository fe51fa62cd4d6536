use mousqlite::codec::{decode_column, decode_request, decode_response, encode_column, encode_request, encode_response};
use mousqlite::types::{ColumnData, RequestType, Row, SqlRequest, SqlResponse};

fn round_trip(c: ColumnData) {
    let bytes = encode_column(&c);
    assert_eq!(decode_column(&bytes), Some(c));
}

#[test]
fn column_round_trip_every_variant() {
    round_trip(ColumnData::Null);
    round_trip(ColumnData::Blob(vec![]));
    round_trip(ColumnData::Blob(vec![0, 255, 7]));
    round_trip(ColumnData::Text(String::new()));
    round_trip(ColumnData::Text("héllo wörld".to_string()));
    round_trip(ColumnData::Integer(0));
    round_trip(ColumnData::Integer(-1));
    round_trip(ColumnData::Integer(i64::MIN));
    round_trip(ColumnData::Integer(i64::MAX));
    round_trip(ColumnData::Real(1.5f64.to_bits()));
    round_trip(ColumnData::Real(f64::NAN.to_bits()));
}

#[test]
fn column_encoding_bytes() {
    assert_eq!(encode_column(&ColumnData::Null), vec![4]);
    assert_eq!(encode_column(&ColumnData::Integer(1)), vec![1, 0, 0, 0, 0, 0, 0, 0, 1]);
    assert_eq!(encode_column(&ColumnData::Integer(-1)), vec![1, 255, 255, 255, 255, 255, 255, 255, 255]);
    assert_eq!(encode_column(&ColumnData::Text("a".to_string())), vec![0, 0, 0, 0, 0, 0, 0, 0, 1, 97]);
    assert_eq!(encode_column(&ColumnData::Text("é".to_string())), vec![0, 0, 0, 0, 0, 0, 0, 0, 2, 0xc3, 0xa9]);
    assert_eq!(encode_column(&ColumnData::Blob(vec![9, 8])), vec![3, 0, 0, 0, 0, 0, 0, 0, 2, 9, 8]);
    assert_eq!(
        encode_column(&ColumnData::Real(1.0f64.to_bits())),
        vec![2, 0x3f, 0xf0, 0, 0, 0, 0, 0, 0]
    );
}

#[test]
fn column_decoding_rejects_bad_input() {
    assert_eq!(decode_column(&[]), None);
    assert_eq!(decode_column(&[9]), None);
    assert_eq!(decode_column(&[4, 0]), None);
    assert_eq!(decode_column(&[1, 0, 0]), None);
    assert_eq!(decode_column(&[0, 0, 0, 0, 0, 0, 0, 0, 5, 97]), None);
    assert_eq!(decode_column(&[0, 0, 0, 0, 0, 0, 0, 0, 1, 0xff]), None);
    assert_eq!(decode_column(&[3, 0, 0, 0, 0, 0, 0, 0, 1, 0xff]), Some(ColumnData::Blob(vec![0xff])));
}

fn sample_response() -> SqlResponse {
    SqlResponse::new(
        42,
        vec!["id".to_string(), "name".to_string()],
        vec![
            Row::new(vec![ColumnData::Integer(1), ColumnData::Text("a".to_string())]),
            Row::new(vec![ColumnData::Null, ColumnData::Blob(vec![])]),
        ],
    )
}

#[test]
fn response_round_trip() {
    let r = sample_response();
    let bytes = encode_response(&r);
    assert_eq!(decode_response(&bytes), Some(r));
    let empty = SqlResponse::new(7, vec![], vec![]);
    let bytes = encode_response(&empty);
    assert_eq!(bytes, vec![0, 0, 0, 0, 0, 0, 0, 7, 0, 0, 0, 0, 0, 0, 0, 0, 0, 0, 0, 0, 0, 0, 0, 0]);
    assert_eq!(decode_response(&bytes), Some(empty));
}

#[test]
fn response_decoding_rejects_truncated_and_trailing() {
    let bytes = encode_response(&sample_response());
    assert_eq!(decode_response(&bytes[..bytes.len() - 1]), None);
    let mut longer = bytes.clone();
    longer.push(0);
    assert_eq!(decode_response(&longer), None);
}

#[test]
fn request_round_trip() {
    let cancel = RequestType::Cancel;
    assert_eq!(encode_request(&cancel), vec![0]);
    assert_eq!(decode_request(&encode_request(&cancel)), Some(cancel));
    let req = RequestType::NetworkRequest(SqlRequest { request_id: 3, request: "SELECT 1;".to_string() });
    let bytes = encode_request(&req);
    assert_eq!(bytes.len(), 1 + 8 + 8 + 9);
    assert_eq!(decode_request(&bytes), Some(req));
    let empty = RequestType::NetworkRequest(SqlRequest { request_id: 0, request: String::new() });
    assert_eq!(decode_request(&encode_request(&empty)), Some(empty));
    assert_eq!(decode_request(&[2]), None);
    assert_eq!(decode_request(&[0, 0]), None);
}
