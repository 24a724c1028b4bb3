use vstd::prelude::*;
use vstd::string::*;
use vstd::utf8::{decode_utf8, valid_utf8};
use crate::error::{ErrorKind, InternalError};
use crate::text::{int_decimal, nat_decimal, i64_to_decimal, u64_to_decimal, utf8_to_string};

verus! {

/// The most rows a query may return; one more fails the query.
pub const MAX_ROWS: usize = 500;

/// One cell of a result row, by the kind of value the store holds in it.
/// A floating-point cell arrives already rendered in its default text form.
#[derive(Clone, Debug)]
pub enum CellValue {
    Null,
    Integer(i64),
    Real(String),
    Text(Vec<u8>),
    Blob(Vec<u8>),
}

/// The bytes of a blob as a bracketed, comma-separated list of decimals,
/// e.g. `[1, 2, 3]`.
pub open spec fn byte_list(b: Seq<u8>) -> Seq<char>
    decreases b.len(),
{
    if b.len() == 0 {
        Seq::<char>::empty()
    } else if b.len() == 1 {
        nat_decimal(b[0] as nat)
    } else {
        byte_list(b.drop_last()) + ", "@ + nat_decimal(b.last() as nat)
    }
}

pub open spec fn blob_text(b: Seq<u8>) -> Seq<char> {
    "["@ + byte_list(b) + "]"@
}

/// The display text of a cell, or `None` for text that is not valid UTF-8.
pub open spec fn cell_text(c: CellValue) -> Option<Seq<char>> {
    match c {
        CellValue::Null => Some("NULL"@),
        CellValue::Integer(i) => Some(int_decimal(i as int)),
        CellValue::Real(t) => Some(t@),
        CellValue::Text(b) => if valid_utf8(b@) {
            Some(decode_utf8(b@))
        } else {
            None
        },
        CellValue::Blob(b) => Some(blob_text(b@)),
    }
}

/// Renders the bytes of a blob, e.g. `[1, 2, 3]`.
pub fn render_blob(b: &Vec<u8>) -> (r: String)
    ensures
        r@ == blob_text(b@),
{
    let mut r = String::from_str("[");
    proof {
        reveal_strlit("[");
        reveal_strlit("]");
        reveal_strlit(", ");
    }
    let mut i: usize = 0;
    assert(b@.take(0) =~= Seq::<u8>::empty());
    while i < b.len()
        invariant
            i <= b@.len(),
            r@ == "["@ + byte_list(b@.take(i as int)),
        decreases b@.len() - i,
    {
        let d = u64_to_decimal(b[i] as u64);
        assert(b@.take(i + 1).drop_last() =~= b@.take(i as int));
        if i > 0 {
            r.append(", ");
        } else {
            assert(b@.take(1) =~= seq![b@[0]]);
        }
        r.append(d.as_str());
        i = i + 1;
    }
    assert(b@.take(i as int) =~= b@);
    r.append("]");
    r
}

/// Renders one cell by its kind: `NULL`, a decimal integer, the text of a
/// real, UTF-8 text verbatim (invalid UTF-8 is an encoding error), or the
/// list of a blob's bytes.
pub fn render_cell(c: &CellValue) -> (r: Result<String, InternalError>)
    ensures
        match r {
            Ok(s) => cell_text(*c) == Some(s@),
            Err(e) => cell_text(*c) is None && e.kind == ErrorKind::Encoding,
        },
{
    match c {
        CellValue::Null => {
            proof {
                reveal_strlit("NULL");
            }
            Ok(String::from_str("NULL"))
        },
        CellValue::Integer(i) => Ok(i64_to_decimal(*i)),
        CellValue::Real(t) => Ok(t.clone()),
        CellValue::Text(b) => match utf8_to_string(b) {
            Some(s) => Ok(s),
            None => Err(InternalError::new(ErrorKind::Encoding, String::from_str("invalid UTF-8 in text cell"))),
        },
        CellValue::Blob(b) => Ok(render_blob(b)),
    }
}

/// Renders every cell of a row, in order; fails on the first text cell that
/// is not valid UTF-8.
pub fn render_row(cells: &Vec<CellValue>) -> (r: Result<Vec<String>, InternalError>)
    ensures
        match r {
            Ok(v) => v@.len() == cells@.len()
                && forall|k: int| 0 <= k < cells@.len() ==> cell_text(#[trigger] cells@[k]) == Some(v@[k]@),
            Err(e) => e.kind == ErrorKind::Encoding
                && exists|k: int| 0 <= k < cells@.len() && (#[trigger] cell_text(cells@[k])) is None,
        },
{
    let mut out: Vec<String> = Vec::new();
    let mut i: usize = 0;
    while i < cells.len()
        invariant
            i <= cells@.len(),
            out@.len() == i,
            forall|k: int| 0 <= k < i ==> cell_text(#[trigger] cells@[k]) == Some(out@[k]@),
        decreases cells@.len() - i,
    {
        match render_cell(&cells[i]) {
            Ok(s) => out.push(s),
            Err(e) => {
                assert(cell_text(cells@[i as int]) is None);
                return Err(e);
            },
        }
        i = i + 1;
    }
    Ok(out)
}

/// The tabular outcome of a query: column names, and rows of display text.
#[derive(Clone, Debug)]
pub struct QueryResult {
    pub columns: Vec<String>,
    pub rows: Vec<Vec<String>>,
}

/// Gathers the rows of a running query under the row cap.
pub struct QueryCollector {
    columns: Vec<String>,
    rows: Vec<Vec<String>>,
}

impl QueryCollector {
    /// Every row is as wide as the column list, and there are at most
    /// `MAX_ROWS` rows.
    pub open spec fn wf(&self) -> bool {
        &&& self.spec_rows().len() <= MAX_ROWS
        &&& forall|k: int| 0 <= k < self.spec_rows().len()
            ==> (#[trigger] self.spec_rows()[k])@.len() == self.column_names().len()
    }

    pub closed spec fn column_names(&self) -> Seq<String> {
        self.columns@
    }

    pub closed spec fn spec_rows(&self) -> Seq<Vec<String>> {
        self.rows@
    }

    /// Starts a result with the statement's column names, in their order.
    pub fn new(columns: Vec<String>) -> (r: QueryCollector)
        ensures
            r.wf(),
            r.column_names() == columns@,
            r.spec_rows().len() == 0,
    {
        QueryCollector { columns, rows: Vec::new() }
    }

    pub fn column_count(&self) -> (r: usize)
        ensures
            r == self.column_names().len(),
    {
        self.columns.len()
    }

    pub fn row_count(&self) -> (r: usize)
        ensures
            r == self.spec_rows().len(),
    {
        self.rows.len()
    }

    /// Adds the next row of the result. A row beyond `MAX_ROWS` fails with a
    /// capacity error, and a text cell that is not valid UTF-8 with an
    /// encoding error; either way the rows gathered so far are unchanged.
    pub fn push_row(&mut self, cells: &Vec<CellValue>) -> (r: Result<(), InternalError>)
        requires
            old(self).wf(),
            cells@.len() == old(self).column_names().len(),
        ensures
            final(self).wf(),
            final(self).column_names() == old(self).column_names(),
            old(self).spec_rows().len() >= MAX_ROWS ==> r is Err && r->Err_0.kind == ErrorKind::Capacity,
            match r {
                Ok(()) => old(self).spec_rows().len() < MAX_ROWS
                    && final(self).spec_rows().len() == old(self).spec_rows().len() + 1
                    && final(self).spec_rows().drop_last() == old(self).spec_rows()
                    && forall|k: int| 0 <= k < cells@.len()
                        ==> cell_text(#[trigger] cells@[k]) == Some(final(self).spec_rows().last()@[k]@),
                Err(e) => final(self).spec_rows() == old(self).spec_rows() && (
                    (e.kind == ErrorKind::Capacity && old(self).spec_rows().len() >= MAX_ROWS)
                    || (e.kind == ErrorKind::Encoding && old(self).spec_rows().len() < MAX_ROWS
                        && exists|k: int| 0 <= k < cells@.len() && (#[trigger] cell_text(cells@[k])) is None)),
            },
    {
        if self.rows.len() >= MAX_ROWS {
            proof {
                reveal_strlit("query result set too long");
            }
            return Err(InternalError::new(ErrorKind::Capacity, String::from_str("query result set too long")));
        }
        let row = render_row(cells)?;
        let ghost before = self.rows@;
        self.rows.push(row);
        assert(self.rows@.drop_last() =~= before);
        Ok(())
    }

    /// The gathered result.
    pub fn finish(self) -> (r: QueryResult)
        requires
            self.wf(),
        ensures
            r.columns@ == self.column_names(),
            r.rows@ == self.spec_rows(),
            r.rows@.len() <= MAX_ROWS,
    {
        QueryResult { columns: self.columns, rows: self.rows }
    }
}

} // verus!
