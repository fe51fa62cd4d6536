//! The request/response data model and its mathematical views.
use vstd::prelude::*;

verus! {

/// Tag used to group the HTTP operations of the service.
#[derive(Clone, Copy, Debug, PartialEq, Eq)]
pub enum ApiTags {
    Query,
}

/// One cell value returned by the database.
///
/// A floating-point value is carried as its IEEE-754 bit pattern, so that it
/// round-trips bit for bit through every encoding.
#[derive(Clone, Debug, PartialEq)]
pub enum ColumnData {
    Text(String),
    Integer(i64),
    Real(u64),
    Blob(Vec<u8>),
    Null,
}

/// The mathematical value of a cell.
pub enum ColumnView {
    Text(Seq<char>),
    Integer(i64),
    Real(u64),
    Blob(Seq<u8>),
    Null,
}

impl View for ColumnData {
    type V = ColumnView;

    open spec fn view(&self) -> ColumnView {
        match self {
            ColumnData::Text(s) => ColumnView::Text(s@),
            ColumnData::Integer(i) => ColumnView::Integer(*i),
            ColumnData::Real(b) => ColumnView::Real(*b),
            ColumnData::Blob(b) => ColumnView::Blob(b@),
            ColumnData::Null => ColumnView::Null,
        }
    }
}

/// The views of a sequence of cells.
pub open spec fn cells_view(cells: Seq<ColumnData>) -> Seq<ColumnView> {
    cells.map_values(|c: ColumnData| c@)
}

/// One result row: its cells in the order of the response's column names.
#[derive(Clone, Debug, PartialEq)]
pub struct Row {
    pub data: Vec<ColumnData>,
}

impl View for Row {
    type V = Seq<ColumnView>;

    open spec fn view(&self) -> Seq<ColumnView> {
        cells_view(self.data@)
    }
}

impl Row {
    pub fn new(data: Vec<ColumnData>) -> (r: Row)
        ensures
            r.data@ == data@,
    {
        Row { data }
    }
}

/// The views of a sequence of strings.
pub open spec fn strings_view(s: Seq<String>) -> Seq<Seq<char>> {
    s.map_values(|x: String| x@)
}

/// The views of a sequence of rows.
pub open spec fn rows_view(rows: Seq<Row>) -> Seq<Seq<ColumnView>> {
    rows.map_values(|r: Row| r@)
}

/// The result of one executed statement.
#[derive(Clone, Debug, PartialEq)]
pub struct SqlResponse {
    pub request_id: u64,
    pub columns: Vec<String>,
    pub row_data: Vec<Row>,
}

/// The mathematical value of a response.
pub struct ResponseView {
    pub request_id: u64,
    pub columns: Seq<Seq<char>>,
    pub rows: Seq<Seq<ColumnView>>,
}

impl View for SqlResponse {
    type V = ResponseView;

    open spec fn view(&self) -> ResponseView {
        ResponseView {
            request_id: self.request_id,
            columns: strings_view(self.columns@),
            rows: rows_view(self.row_data@),
        }
    }
}

impl ResponseView {
    /// Every row has one cell per column name.
    pub open spec fn rows_match_columns(self) -> bool {
        forall|i: int| 0 <= i < self.rows.len() ==> (#[trigger] self.rows[i]).len() == self.columns.len()
    }
}

impl SqlResponse {
    pub fn new(request_id: u64, columns: Vec<String>, row_data: Vec<Row>) -> (r: SqlResponse)
        ensures
            r.request_id == request_id,
            r.columns@ == columns@,
            r.row_data@ == row_data@,
    {
        SqlResponse { request_id, columns, row_data }
    }
}

/// One query sent by a client; `request_id` is echoed back in the response.
#[derive(Clone, Debug, PartialEq)]
pub struct SqlRequest {
    pub request_id: u64,
    pub request: String,
}

/// The envelope of the stream transport.
#[derive(Clone, Debug, PartialEq)]
pub enum RequestType {
    Cancel,
    NetworkRequest(SqlRequest),
}

/// The mathematical value of an envelope.
pub enum RequestView {
    Cancel,
    NetworkRequest(u64, Seq<char>),
}

impl View for RequestType {
    type V = RequestView;

    open spec fn view(&self) -> RequestView {
        match self {
            RequestType::Cancel => RequestView::Cancel,
            RequestType::NetworkRequest(r) => RequestView::NetworkRequest(r.request_id, r.request@),
        }
    }
}

} // verus!
