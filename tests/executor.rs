use mousqlite::executor::{
    build_response, convert_row, convert_value, prepare_request, record_row, run_prepared, ExecutionError, SqlValue,
};
use mousqlite::types::{ColumnData, Row, SqlRequest};

fn run(conn: &rusqlite::Connection, id: u64, sql: &str) -> Result<mousqlite::types::SqlResponse, ExecutionError> {
    let req = SqlRequest { request_id: id, request: sql.to_string() };
    let mut stmt = prepare_request(conn, &req)?;
    let names = stmt.column_names().into_iter().map(String::from).collect::<Vec<String>>();
    run_prepared(&mut stmt, id, Some(names))
}

#[test]
fn create_insert_select() {
    let conn = rusqlite::Connection::open_in_memory().unwrap();
    let created = run(&conn, 1, "CREATE TABLE t (id INTEGER, name TEXT);").unwrap();
    assert!(created.row_data.is_empty());
    let inserted = run(&conn, 2, "INSERT INTO t VALUES (1,'a');").unwrap();
    assert!(inserted.row_data.is_empty());
    let selected = run(&conn, 9, "SELECT * FROM t;").unwrap();
    assert_eq!(selected.request_id, 9);
    assert_eq!(selected.columns, vec!["id".to_string(), "name".to_string()]);
    assert_eq!(selected.row_data, vec![Row::new(vec![ColumnData::Integer(1), ColumnData::Text("a".to_string())])]);
}

#[test]
fn every_row_has_one_cell_per_column() {
    let conn = rusqlite::Connection::open_in_memory().unwrap();
    let r = run(&conn, 1, "SELECT 1, 2.5, NULL, x'0102', 'z' UNION ALL SELECT 2, 0.0, 'n', x'', ''").unwrap();
    assert_eq!(r.columns.len(), 5);
    assert_eq!(r.row_data.len(), 2);
    for row in &r.row_data {
        assert_eq!(row.data.len(), r.columns.len());
    }
    assert_eq!(
        r.row_data[0].data,
        vec![
            ColumnData::Integer(1),
            ColumnData::Real(2.5f64.to_bits()),
            ColumnData::Null,
            ColumnData::Blob(vec![1, 2]),
            ColumnData::Text("z".to_string()),
        ]
    );
}

#[test]
fn bad_statement_is_reported() {
    let conn = rusqlite::Connection::open_in_memory().unwrap();
    assert!(matches!(run(&conn, 1, "SELEC nonsense"), Err(ExecutionError::BadStatement(_))));
    assert!(matches!(run(&conn, 1, "SELECT * FROM missing;"), Err(ExecutionError::BadStatement(_))));
}

#[test]
fn invalid_utf8_text_is_a_conversion_failure() {
    let conn = rusqlite::Connection::open_in_memory().unwrap();
    assert_eq!(run(&conn, 1, "SELECT CAST(x'ff' AS TEXT);"), Err(ExecutionError::ConversionFailure));
    // the handle stays usable after a failed execution
    let r = run(&conn, 2, "SELECT 5;").unwrap();
    assert_eq!(r.row_data, vec![Row::new(vec![ColumnData::Integer(5)])]);
}

#[test]
fn values_convert_by_storage_class() {
    assert_eq!(convert_value(SqlValue::Null), Ok(ColumnData::Null));
    assert_eq!(convert_value(SqlValue::Integer(-3)), Ok(ColumnData::Integer(-3)));
    assert_eq!(convert_value(SqlValue::Real(7)), Ok(ColumnData::Real(7)));
    assert_eq!(convert_value(SqlValue::Blob(vec![0xff])), Ok(ColumnData::Blob(vec![0xff])));
    assert_eq!(convert_value(SqlValue::Text(vec![0xc3, 0xa9])), Ok(ColumnData::Text("é".to_string())));
    assert_eq!(convert_value(SqlValue::Text(vec![0xff])), Err(ExecutionError::ConversionFailure));
    assert_eq!(
        convert_row(vec![SqlValue::Integer(1), SqlValue::Text(vec![0x80])]),
        Err(ExecutionError::ConversionFailure)
    );
    assert_eq!(
        convert_row(vec![SqlValue::Integer(1), SqlValue::Text(b"b".to_vec())]),
        Ok(Row::new(vec![ColumnData::Integer(1), ColumnData::Text("b".to_string())]))
    );
    assert_eq!(convert_row(vec![]), Ok(Row::new(vec![])));
}

#[test]
fn build_response_keeps_columns_and_rows_in_order() {
    let cols = vec!["a".to_string(), "b".to_string()];
    let read = vec![
        Ok(vec![SqlValue::Integer(1), SqlValue::Text(b"x".to_vec())]),
        Ok(vec![SqlValue::Null, SqlValue::Blob(vec![3])]),
    ];
    let r = build_response(7, cols.clone(), read).unwrap();
    assert_eq!(r.request_id, 7);
    assert_eq!(r.columns, cols);
    assert_eq!(
        r.row_data,
        vec![
            Row::new(vec![ColumnData::Integer(1), ColumnData::Text("x".to_string())]),
            Row::new(vec![ColumnData::Null, ColumnData::Blob(vec![3])]),
        ]
    );
    let empty = build_response(1, vec!["n".to_string()], vec![]).unwrap();
    assert_eq!(empty.columns, vec!["n".to_string()]);
    assert!(empty.row_data.is_empty());
}

#[test]
fn build_response_first_failing_row_decides() {
    let read = vec![
        Ok(vec![SqlValue::Integer(1)]),
        Ok(vec![SqlValue::Text(vec![0xff])]),
        Err("disk I/O error".to_string()),
    ];
    assert_eq!(build_response(1, vec!["c".to_string()], read), Err(ExecutionError::ConversionFailure));
    let read = vec![
        Ok(vec![SqlValue::Integer(1)]),
        Err("disk I/O error".to_string()),
        Ok(vec![SqlValue::Text(vec![0xff])]),
    ];
    assert_eq!(
        build_response(1, vec!["c".to_string()], read),
        Err(ExecutionError::StorageFailure("disk I/O error".to_string()))
    );
}

#[test]
fn unreadable_column_names_are_a_conversion_failure() {
    let conn = rusqlite::Connection::open_in_memory().unwrap();
    let req = SqlRequest { request_id: 1, request: "SELECT 1;".to_string() };
    let mut stmt = prepare_request(&conn, &req).unwrap();
    assert_eq!(run_prepared(&mut stmt, 1, None), Err(ExecutionError::ConversionFailure));
}

#[test]
fn prepare_failure_is_a_bad_statement() {
    let conn = rusqlite::Connection::open_in_memory().unwrap();
    let req = SqlRequest { request_id: 1, request: "INSERT INTO test (numbers".to_string() };
    assert!(matches!(prepare_request(&conn, &req), Err(ExecutionError::BadStatement(_))));
}

#[test]
fn record_row_keeps_rows_and_stops_on_failure_or_end() {
    let mut read: Vec<Result<Vec<SqlValue>, String>> = vec![];
    assert!(record_row(&mut read, Some(Ok(vec![SqlValue::Integer(1)]))));
    assert_eq!(read, vec![Ok(vec![SqlValue::Integer(1)])]);
    assert!(!record_row(&mut read, Some(Err("io".to_string()))));
    assert_eq!(read, vec![Ok(vec![SqlValue::Integer(1)]), Err("io".to_string())]);
    assert!(!record_row(&mut read, None));
    assert_eq!(read.len(), 2);
}
