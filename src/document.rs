//! One ingested log batch: rows of structured values and the columns that
//! name them by position.
use vstd::prelude::*;

verus! {

/// The name and the type of one column.
pub struct Column {
    pub name: String,
    pub column_type: String,
}

/// What a column is, as text.
pub struct ColumnView {
    pub name: Seq<char>,
    pub column_type: Seq<char>,
}

impl View for Column {
    type V = ColumnView;

    open spec fn view(&self) -> ColumnView {
        ColumnView { name: self.name@, column_type: self.column_type@ }
    }
}

impl Column {
    pub fn new(name: String, column_type: String) -> (r: Column)
        ensures
            r.name@ == name@,
            r.column_type@ == column_type@,
    {
        Column { name, column_type }
    }

    /// A copy of this column.
    pub fn duplicate(&self) -> (r: Column)
        ensures
            r@ == self@,
    {
        Column { name: self.name.clone(), column_type: self.column_type.clone() }
    }
}

/// A log document: `values` holds the rows, `took` the processing time, and
/// `columns[i]` describes the `i`-th value of each row. Mismatched lengths are
/// allowed.
pub struct Log {
    pub values: Vec<Vec<serde_json::Value>>,
    pub took: u32,
    pub columns: Vec<Column>,
}

/// What a document is: its rows, its processing time and its columns.
pub struct LogView {
    pub rows: Seq<Seq<serde_json::Value>>,
    pub took: u32,
    pub columns: Seq<ColumnView>,
}

impl View for Log {
    type V = LogView;

    open spec fn view(&self) -> LogView {
        LogView {
            rows: self.values@.map_values(|r: Vec<serde_json::Value>| r@),
            took: self.took,
            columns: self.columns@.map_values(|c: Column| c@),
        }
    }
}

/// The document that a store holds before anything is ingested: one empty
/// row, no time, no columns.
pub open spec fn empty_log() -> LogView {
    LogView { rows: seq![Seq::empty()], took: 0, columns: Seq::empty() }
}

/// A copy of a row of values.
fn copy_row(row: &Vec<serde_json::Value>) -> (r: Vec<serde_json::Value>)
    ensures
        r@ == row@,
{
    let mut out: Vec<serde_json::Value> = Vec::new();
    let mut i: usize = 0;
    while i < row.len()
        invariant
            i <= row@.len(),
            out@ == row@.subrange(0, i as int),
        decreases row@.len() - i,
    {
        out.push(row[i].clone());
        i = i + 1;
    }
    assert(out@ =~= row@);
    out
}

impl Log {
    /// The empty document.
    pub fn new() -> (r: Log)
        ensures
            r@ == empty_log(),
    {
        let mut values: Vec<Vec<serde_json::Value>> = Vec::new();
        values.push(Vec::new());
        let r = Log { values, took: 0, columns: Vec::new() };
        assert(r@.rows =~= empty_log().rows);
        assert(r@.columns =~= empty_log().columns);
        r
    }

    /// A copy of this document, rows and columns included.
    pub fn duplicate(&self) -> (r: Log)
        ensures
            r@ == self@,
    {
        let mut values: Vec<Vec<serde_json::Value>> = Vec::new();
        let mut i: usize = 0;
        while i < self.values.len()
            invariant
                i <= self.values@.len(),
                values@.len() == i,
                forall|j: int| 0 <= j < i ==> #[trigger] values@[j]@ == self.values@[j]@,
            decreases self.values@.len() - i,
        {
            values.push(copy_row(&self.values[i]));
            i = i + 1;
        }
        let mut columns: Vec<Column> = Vec::new();
        let mut k: usize = 0;
        while k < self.columns.len()
            invariant
                k <= self.columns@.len(),
                columns@.len() == k,
                forall|j: int| 0 <= j < k ==> #[trigger] columns@[j]@ == self.columns@[j]@,
            decreases self.columns@.len() - k,
        {
            columns.push(self.columns[k].duplicate());
            k = k + 1;
        }
        let r = Log { values, took: self.took, columns };
        assert(r@.rows =~= self@.rows);
        assert(r@.columns =~= self@.columns);
        r
    }
}

} // verus!
