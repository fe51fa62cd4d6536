//! Runs one SQL statement against the database handle and turns its result
//! rows into cells.
use vstd::prelude::*;
use vstd::utf8::{decode_utf8, valid_utf8};
use rusqlite::types::ValueRef;
use rusqlite::Row as ResultRow;
use crate::codec::string_from_utf8;
use crate::types::{ColumnData, ColumnView, Row, SqlRequest, SqlResponse};

verus! {

#[verifier::external_type_specification]
#[verifier::external_body]
pub struct ExConnection(rusqlite::Connection);

#[verifier::external_type_specification]
#[verifier::external_body]
pub struct ExStatement<'conn>(rusqlite::Statement<'conn>);

#[verifier::external_type_specification]
#[verifier::external_body]
pub struct ExRows<'stmt>(rusqlite::Rows<'stmt>);

#[verifier::external_type_specification]
#[verifier::external_body]
pub struct ExResultRow<'stmt>(ResultRow<'stmt>);

#[verifier::external_type_specification]
#[verifier::external_body]
pub struct ExSqlError(rusqlite::Error);

/// A value as the database stores it, by storage class. A floating-point
/// value is held as its IEEE-754 bit pattern; text is held as the bytes the
/// database handed out.
#[derive(Clone, Debug, PartialEq)]
pub enum SqlValue {
    Null,
    Integer(i64),
    Real(u64),
    Text(Vec<u8>),
    Blob(Vec<u8>),
}

pub enum SqlValueView {
    Null,
    Integer(i64),
    Real(u64),
    Text(Seq<u8>),
    Blob(Seq<u8>),
}

impl View for SqlValue {
    type V = SqlValueView;

    open spec fn view(&self) -> SqlValueView {
        match self {
            SqlValue::Null => SqlValueView::Null,
            SqlValue::Integer(i) => SqlValueView::Integer(*i),
            SqlValue::Real(b) => SqlValueView::Real(*b),
            SqlValue::Text(t) => SqlValueView::Text(t@),
            SqlValue::Blob(b) => SqlValueView::Blob(b@),
        }
    }
}

/// The views of a sequence of stored values.
pub open spec fn values_view(vs: Seq<SqlValue>) -> Seq<SqlValueView> {
    vs.map_values(|v: SqlValue| v@)
}

/// Why a statement could not be run to the end.
#[derive(Clone, Debug, PartialEq)]
pub enum ExecutionError {
    /// The statement text could not be prepared.
    BadStatement(String),
    /// Stepping through the statement or reading a row failed.
    StorageFailure(String),
    /// A text cell held bytes that are not valid UTF-8.
    ConversionFailure,
}

/// The cell for a stored value: text only when its bytes are valid UTF-8,
/// every other storage class as it is.
pub open spec fn converted(v: SqlValueView) -> Option<ColumnView> {
    match v {
        SqlValueView::Null => Some(ColumnView::Null),
        SqlValueView::Integer(i) => Some(ColumnView::Integer(i)),
        SqlValueView::Real(b) => Some(ColumnView::Real(b)),
        SqlValueView::Text(t) => if valid_utf8(t) {
            Some(ColumnView::Text(decode_utf8(t)))
        } else {
            None
        },
        SqlValueView::Blob(b) => Some(ColumnView::Blob(b)),
    }
}

/// Every value of the row converts.
pub open spec fn row_converts(vs: Seq<SqlValueView>) -> bool {
    forall|i: int| 0 <= i < vs.len() ==> (#[trigger] converted(vs[i])) is Some
}

/// Converts one stored value into a cell.
pub fn convert_value(v: SqlValue) -> (r: Result<ColumnData, ExecutionError>)
    ensures
        match converted(v@) {
            Some(c) => r matches Ok(x) && x@ == c,
            None => r == Err::<ColumnData, ExecutionError>(ExecutionError::ConversionFailure),
        },
{
    match v {
        SqlValue::Null => Ok(ColumnData::Null),
        SqlValue::Integer(i) => Ok(ColumnData::Integer(i)),
        SqlValue::Real(b) => Ok(ColumnData::Real(b)),
        SqlValue::Text(t) => match string_from_utf8(t) {
            Some(s) => Ok(ColumnData::Text(s)),
            None => Err(ExecutionError::ConversionFailure),
        },
        SqlValue::Blob(b) => Ok(ColumnData::Blob(b)),
    }
}

/// Converts a whole row; one value that does not convert fails the row.
pub fn convert_row(values: Vec<SqlValue>) -> (r: Result<Row, ExecutionError>)
    ensures
        match r {
            Ok(row) => row_converts(values_view(values@)) && row@.len() == values@.len()
                && forall|i: int| 0 <= i < values@.len() ==> converted(#[trigger] values@[i]@) == Some(row@[i]),
            Err(e) => !row_converts(values_view(values@)) && e == ExecutionError::ConversionFailure,
        },
{
    let ghost vs = values@;
    let n = values.len();
    let mut cells: Vec<ColumnData> = Vec::new();
    let mut rest = values;
    let mut i: usize = 0;
    while i < n
        invariant
            n == vs.len(),
            i <= n,
            vs == values@,
            rest@.len() == n - i,
            forall|k: int| 0 <= k < n - i ==> rest@[k] == vs[k + i],
            cells@.len() == i,
            forall|k: int| 0 <= k < i ==> converted(#[trigger] vs[k]@) == Some(cells@[k]@),
        decreases n - i,
    {
        let v = rest.remove(0);
        match convert_value(v) {
            Ok(c) => {
                cells.push(c);
            },
            Err(e) => {
                assert(converted(values_view(vs)[i as int]) is None);
                assert(e == ExecutionError::ConversionFailure);
                assert(!row_converts(values_view(vs)));
                return Err(e);
            },
        }
        i = i + 1;
    }
    let row = Row { data: cells };
    assert forall|k: int| 0 <= k < n implies (#[trigger] converted(values_view(vs)[k])) is Some by {
        assert(converted(vs[k]@) == Some(cells@[k]@));
    }
    assert forall|k: int| 0 <= k < n implies converted(#[trigger] vs[k]@) == Some(row@[k]) by {
        assert(row@[k] == cells@[k]@);
    }
    Ok(row)
}

/// Relies on `rusqlite::Connection::prepare`: compiles the text as one
/// statement, or fails when it is not valid SQL for this database.
#[verifier::external_body]
fn prepare<'c>(conn: &'c rusqlite::Connection, sql: &str) -> (r: Result<rusqlite::Statement<'c>, rusqlite::Error>) {
    conn.prepare(sql)
}

/// Relies on `rusqlite::Statement::query`, with no parameters bound: starts
/// stepping through the statement.
#[verifier::external_body]
fn start_query<'s>(stmt: &'s mut rusqlite::Statement<'_>) -> (r: Result<rusqlite::Rows<'s>, rusqlite::Error>) {
    stmt.query([])
}

/// Relies on `rusqlite::Rows::next`: the next result row, or `None` once the
/// statement has run to its end.
#[verifier::external_body]
fn next_row<'r, 's>(rows: &'r mut rusqlite::Rows<'s>) -> (r: Result<Option<&'r ResultRow<'s>>, rusqlite::Error>) {
    rows.next()
}

/// Relies on `rusqlite::Row::get_ref`: the value stored in column `i` of the
/// row, by storage class.
#[verifier::external_body]
fn stored_value(row: &ResultRow, i: usize) -> (r: Result<SqlValue, rusqlite::Error>) {
    match row.get_ref(i) {
        Ok(ValueRef::Null) => Ok(SqlValue::Null),
        Ok(ValueRef::Integer(v)) => Ok(SqlValue::Integer(v)),
        Ok(ValueRef::Real(v)) => Ok(SqlValue::Real(v.to_bits())),
        Ok(ValueRef::Text(t)) => Ok(SqlValue::Text(t.to_vec())),
        Ok(ValueRef::Blob(b)) => Ok(SqlValue::Blob(b.to_vec())),
        Err(e) => Err(e),
    }
}

/// Relies on the `Display` impl of `rusqlite::Error`: its message.
#[verifier::external_body]
fn error_message(e: &rusqlite::Error) -> (r: String) {
    e.to_string()
}

/// Reads the first `width` values of a result row.
fn read_values(row: &ResultRow, width: usize) -> (r: Result<Vec<SqlValue>, rusqlite::Error>)
    ensures
        r matches Ok(vs) ==> vs@.len() == width,
{
    let mut vs: Vec<SqlValue> = Vec::new();
    let mut i: usize = 0;
    while i < width
        invariant
            i <= width,
            vs@.len() == i,
        decreases width - i,
    {
        match stored_value(row, i) {
            Ok(v) => vs.push(v),
            Err(e) => return Err(e),
        }
        i = i + 1;
    }
    Ok(vs)
}

/// The cells of a row whose values all convert.
pub open spec fn converted_row(vs: Seq<SqlValueView>) -> Seq<ColumnView> {
    Seq::new(vs.len(), |j: int| converted(vs[j])->Some_0)
}

/// The error that one row as read gives: a failed read is a storage failure;
/// a row that was read but does not convert is a conversion failure.
pub open spec fn failure_of(read: Result<Vec<SqlValue>, String>) -> Option<ExecutionError> {
    match read {
        Err(m) => Some(ExecutionError::StorageFailure(m)),
        Ok(vs) => if row_converts(values_view(vs@)) {
            None
        } else {
            Some(ExecutionError::ConversionFailure)
        },
    }
}

/// The rows before index `k` were all read and all convert.
pub open spec fn reads_convert(read: Seq<Result<Vec<SqlValue>, String>>, k: int) -> bool {
    forall|i: int| 0 <= i < k ==> (#[trigger] failure_of(read[i])) is None
}

/// Builds the response of a statement from its column names and its result
/// rows as they were read, in order. A row that could not be read carries the
/// message of that failure. The first row that fails decides the error;
/// otherwise every row is kept, in order, each converted.
pub fn build_response(request_id: u64, columns: Vec<String>, read: Vec<Result<Vec<SqlValue>, String>>) -> (r: Result<
    SqlResponse,
    ExecutionError,
>)
    ensures
        match r {
            Ok(resp) => reads_convert(read@, read@.len() as int) && resp.request_id == request_id && resp.columns@
                == columns@ && resp@.rows.len() == read@.len() && forall|i: int|
                0 <= i < read@.len() ==> resp@.rows[i] == converted_row(values_view((#[trigger] read@[i])->Ok_0@)),
            Err(e) => exists|k: int| 0 <= k < read@.len() && reads_convert(read@, k) && #[trigger] failure_of(read@[k]) == Some(e),
        },
{
    let ghost orig = read@;
    let n = read.len();
    let mut remaining = read;
    let mut pending: Vec<Result<Vec<SqlValue>, String>> = Vec::new();
    while remaining.len() > 0
        invariant
            n == orig.len(),
            orig == read@,
            pending@.len() + remaining@.len() == n,
            forall|i: int| 0 <= i < remaining@.len() ==> remaining@[i] == orig[i],
            forall|j: int| 0 <= j < pending@.len() ==> pending@[j] == orig[n - 1 - j],
        decreases remaining@.len(),
    {
        match remaining.pop() {
            Some(x) => pending.push(x),
            None => {},
        }
    }
    let mut rows: Vec<Row> = Vec::new();
    while pending.len() > 0
        invariant
            n == orig.len(),
            orig == read@,
            rows@.len() + pending@.len() == n,
            forall|j: int| 0 <= j < pending@.len() ==> pending@[j] == orig[n - 1 - j],
            reads_convert(orig, rows@.len() as int),
            forall|i: int| 0 <= i < rows@.len() ==> (#[trigger] rows@[i])@ == converted_row(values_view(orig[i]->Ok_0@)),
        decreases pending@.len(),
    {
        let ghost k = rows@.len() as int;
        assert(pending@[pending@.len() - 1] == orig[k]);
        match pending.pop() {
            Some(Ok(vs)) => {
                let ghost vv = values_view(vs@);
                match convert_row(vs) {
                    Ok(row) => {
                        assert(row@ =~= converted_row(vv));
                        assert(failure_of(orig[k]) is None);
                        rows.push(row);
                        assert forall|i: int| 0 <= i < rows@.len() implies (#[trigger] failure_of(orig[i])) is None by {
                            if i < k {
                                assert(reads_convert(orig, k));
                            }
                        }
                        assert forall|i: int| 0 <= i < rows@.len() implies (#[trigger] rows@[i])@ == converted_row(
                            values_view(orig[i]->Ok_0@),
                        ) by {}
                    },
                    Err(e) => {
                        assert(failure_of(orig[k]) == Some(e));
                        return Err(e);
                    },
                }
            },
            Some(Err(m)) => {
                assert(failure_of(orig[k]) == Some(ExecutionError::StorageFailure(m)));
                return Err(ExecutionError::StorageFailure(m));
            },
            None => {},
        }
    }
    let resp = SqlResponse { request_id, columns, row_data: rows };
    assert forall|i: int| 0 <= i < orig.len() implies resp@.rows[i] == converted_row(values_view((#[trigger] orig[i])->Ok_0@)) by {
        assert(resp@.rows[i] == rows@[i]@);
    }
    Ok(resp)
}

/// Records one step of reading the result: `None` when the statement has run
/// to its end, else the row as read or the message of the failed read. A row
/// that was read is kept and reading goes on; a failure is kept and reading
/// stops; the end stops reading and keeps nothing.
pub fn record_row(read: &mut Vec<Result<Vec<SqlValue>, String>>, next: Option<Result<Vec<SqlValue>, String>>) -> (more: bool)
    ensures
        match next {
            None => final(read)@ == old(read)@ && !more,
            Some(x) => final(read)@ == old(read)@.push(x) && more == (x is Ok),
        },
{
    match next {
        None => false,
        Some(x) => {
            let more = x.is_ok();
            read.push(x);
            more
        },
    }
}

/// Prepares `req.request`, as it is, as one statement. Every failure here is
/// a bad statement.
pub fn prepare_request<'c>(conn: &'c rusqlite::Connection, req: &SqlRequest) -> (r: Result<
    rusqlite::Statement<'c>,
    ExecutionError,
>)
    ensures
        r matches Err(e) ==> e is BadStatement,
{
    match prepare(conn, req.request.as_str()) {
        Ok(stmt) => Ok(stmt),
        Err(e) => Err(ExecutionError::BadStatement(error_message(&e))),
    }
}

/// Runs a prepared statement to its end and builds the response with
/// `build_response`.
///
/// `columns` are the statement's column names, or `None` when they could not
/// be read (a name that is not valid UTF-8): that is a conversion failure, and
/// the statement is not run. A failure while starting or stepping the
/// statement, or reading a row, is a storage failure; a text cell that is not
/// valid UTF-8 is a conversion failure.
///
/// Which rows come back only the database decides, so the contract states
/// what holds of every outcome: the names are kept as given, and every row has
/// one cell per name.
pub fn run_prepared(stmt: &mut rusqlite::Statement, request_id: u64, columns: Option<Vec<String>>) -> (r: Result<
    SqlResponse,
    ExecutionError,
>)
    ensures
        columns is None ==> r == Err::<SqlResponse, ExecutionError>(ExecutionError::ConversionFailure),
        r matches Ok(resp) ==> resp.request_id == request_id && resp@.rows_match_columns() && (columns matches Some(c)
            && resp.columns@ == c@),
        r matches Err(e) ==> (e is StorageFailure || e is ConversionFailure),
{
    let names = match columns {
        Some(c) => c,
        None => return Err(ExecutionError::ConversionFailure),
    };
    let width = names.len();
    let mut read: Vec<Result<Vec<SqlValue>, String>> = Vec::new();
    let mut rows = match start_query(stmt) {
        Ok(rows) => rows,
        Err(e) => return Err(ExecutionError::StorageFailure(error_message(&e))),
    };
    loop
        invariant
            width == names@.len(),
            columns == Some(names),
            forall|k: int| 0 <= k < read@.len() ==> ((#[trigger] read@[k]) matches Ok(vs) ==> vs@.len() == width),
        decreases usize::MAX - read@.len(),
    {
        if read.len() == usize::MAX {
            return Err(ExecutionError::StorageFailure("too many result rows".to_string()));
        }
        let next = match next_row(&mut rows) {
            Ok(Some(row)) => match read_values(row, width) {
                Ok(vs) => Some(Ok(vs)),
                Err(e) => Some(Err(error_message(&e))),
            },
            Ok(None) => None,
            Err(e) => Some(Err(error_message(&e))),
        };
        if !record_row(&mut read, next) {
            break;
        }
    }
    let ghost all = read@;
    let r = build_response(request_id, names, read);
    if let Ok(resp) = &r {
        assert forall|i: int| 0 <= i < resp@.rows.len() implies (#[trigger] resp@.rows[i]).len() == resp@.columns.len() by {
            assert(failure_of(all[i]) is None);
            assert(resp@.rows[i] == converted_row(values_view(all[i]->Ok_0@)));
        }
    }
    r
}

} // verus!
