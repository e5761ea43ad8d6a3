//! A CSV text read as a table: a header of distinct column names and rows of
//! the header's width.
use vstd::prelude::*;
use crate::csv::{records, read_records};
use crate::error::StatsError;
use crate::number::{integer_text, is_decimal, is_decimal_text, parse_integer};

verus! {

/// The contents of a table: column names and rows of fields.
pub ghost struct TableModel {
    pub header: Seq<Seq<u8>>,
    pub rows: Seq<Seq<Seq<u8>>>,
}

pub open spec fn distinct_names(h: Seq<Seq<u8>>) -> bool {
    forall|i: int, j: int| 0 <= i < j < h.len() ==> h[i] != h[j]
}

impl TableModel {
    /// Column names are distinct and every row has one field per column.
    pub open spec fn wf(self) -> bool {
        &&& distinct_names(self.header)
        &&& forall|i: int| 0 <= i < self.rows.len() ==> (#[trigger] self.rows[i]).len() == self.header.len()
    }

    pub open spec fn has_column(self, name: Seq<u8>) -> bool {
        exists|k: int| 0 <= k < self.header.len() && self.header[k] == name
    }

    /// The position of the column with this name.
    pub open spec fn column_pos(self, name: Seq<u8>) -> int {
        choose|k: int| 0 <= k < self.header.len() && self.header[k] == name
    }

    /// The fields of column `k`, one for each row.
    pub open spec fn column(self, k: int) -> Seq<Seq<u8>> {
        self.rows.map_values(|row: Seq<Seq<u8>>| row[k])
    }
}

/// The table that a CSV text holds: its first record is the header and the
/// others are the rows. It is a parse error for the text to hold no record, for
/// its records to be malformed, for two columns to share a name, or for a row
/// to have more or fewer fields than the header.
pub open spec fn table_of(b: Seq<u8>) -> Result<TableModel, StatsError> {
    match records(b) {
        None => Err(StatsError::ParseError),
        Some(rs) => {
            if rs.len() == 0 {
                Err(StatsError::ParseError)
            } else {
                let t = TableModel { header: rs[0], rows: rs.drop_first() };
                if t.wf() { Ok(t) } else { Err(StatsError::ParseError) }
            }
        },
    }
}

/// The type of a column. Types are tried in a fixed order: integer where every
/// non-empty field is an integer, else float where every non-empty field is a
/// decimal number, else text. An empty field is null and fits every type.
#[derive(Clone, Copy, Debug, PartialEq, Eq, Structural)]
pub enum ColumnKind {
    Integer,
    Float,
    Text,
}

/// A field that is null or an integer.
pub open spec fn fits_integer(c: Seq<u8>) -> bool {
    c.len() == 0 || integer_text(c) is Some
}

/// A field that is null or a decimal number.
pub open spec fn fits_float(c: Seq<u8>) -> bool {
    c.len() == 0 || is_decimal(c)
}

/// The type inferred for a column's fields.
pub open spec fn kind_of(cells: Seq<Seq<u8>>) -> ColumnKind {
    if forall|i: int| 0 <= i < cells.len() ==> fits_integer(#[trigger] cells[i]) {
        ColumnKind::Integer
    } else if forall|i: int| 0 <= i < cells.len() ==> fits_float(#[trigger] cells[i]) {
        ColumnKind::Float
    } else {
        ColumnKind::Text
    }
}

pub broadcast proof fn lemma_bytes_deep_view(x: Vec<u8>)
    ensures
        #[trigger] x.deep_view() == x@,
{
    assert(x.deep_view() =~= x@);
}

/// A table read from CSV text.
pub struct Table {
    pub header: Vec<Vec<u8>>,
    pub rows: Vec<Vec<Vec<u8>>>,
}

impl View for Table {
    type V = TableModel;

    open spec fn view(&self) -> TableModel {
        TableModel { header: self.header.deep_view(), rows: self.rows.deep_view() }
    }
}

/// Whether two byte strings are equal.
pub fn same_bytes(a: &[u8], b: &[u8]) -> (r: bool)
    ensures
        r == (a@ == b@),
{
    if a.len() != b.len() {
        return false;
    }
    let mut i: usize = 0;
    while i < a.len()
        invariant
            a.len() == b.len(),
            0 <= i <= a.len(),
            forall|k: int| 0 <= k < i ==> a@[k] == b@[k],
        decreases a.len() - i,
    {
        if a[i] != b[i] {
            return false;
        }
        i += 1;
    }
    proof {
        assert(a@ =~= b@);
    }
    true
}

/// Whether no two names of a header are equal.
pub fn names_distinct(header: &Vec<Vec<u8>>) -> (r: bool)
    ensures
        r == distinct_names(header.deep_view()),
{
    broadcast use lemma_bytes_deep_view;

    let n = header.len();
    let mut i: usize = 0;
    while i < n
        invariant
            n == header.len(),
            0 <= i <= n,
            forall|a: int, b: int| 0 <= a < i && a < b < n ==> header.deep_view()[a] != header.deep_view()[b],
        decreases n - i,
    {
        let mut j: usize = i + 1;
        while j < n
            invariant
                n == header.len(),
                0 <= i < n,
                i + 1 <= j <= n,
                forall|a: int, b: int| 0 <= a < i && a < b < n ==> header.deep_view()[a] != header.deep_view()[b],
                forall|b: int| i < b < j ==> header.deep_view()[i as int] != header.deep_view()[b],
            decreases n - j,
        {
            assert(header.deep_view()[i as int] == header[i as int]@);
            assert(header.deep_view()[j as int] == header[j as int]@);
            if same_bytes(header[i].as_slice(), header[j].as_slice()) {
                return false;
            }
            j += 1;
        }
        i += 1;
    }
    true
}

/// Reads a CSV text as a table.
pub fn parse_table(text: &[u8]) -> (r: Result<Table, StatsError>)
    ensures
        match r {
            Ok(t) => table_of(text@) == Ok::<TableModel, StatsError>(t@),
            Err(e) => table_of(text@) == Err::<TableModel, StatsError>(e),
        },
{
    let mut rs = match read_records(text) {
        None => return Err(StatsError::ParseError),
        Some(v) => v,
    };
    if rs.len() == 0 {
        return Err(StatsError::ParseError);
    }
    let ghost all = rs.deep_view();
    let header = rs.remove(0);
    proof {
        assert(all[0] == header.deep_view());
        assert(rs.deep_view() =~= all.drop_first());
    }
    if !names_distinct(&header) {
        return Err(StatsError::ParseError);
    }
    let width = header.len();
    let mut i: usize = 0;
    while i < rs.len()
        invariant
            width == header.len(),
            0 <= i <= rs.len(),
            records(text@) == Some(all),
            all.len() > 0,
            all[0] == header.deep_view(),
            rs.deep_view() == all.drop_first(),
            forall|k: int| 0 <= k < i ==> (#[trigger] rs.deep_view()[k]).len() == width,
        decreases rs.len() - i,
    {
        assert(rs.deep_view()[i as int].len() == rs[i as int].len());
        if rs[i].len() != width {
            proof {
                let t = TableModel { header: header.deep_view(), rows: rs.deep_view() };
                assert(t.rows[i as int].len() != t.header.len());
            }
            return Err(StatsError::ParseError);
        }
        i += 1;
    }
    Ok(Table { header, rows: rs })
}

impl Table {
    /// The number of rows.
    pub fn height(&self) -> (r: usize)
        ensures
            r == self@.rows.len(),
    {
        self.rows.len()
    }

    /// The position of the column with the given name, if the header has one.
    pub fn column_index(&self, name: &[u8]) -> (r: Option<usize>)
        requires
            self@.wf(),
        ensures
            match r {
                Some(k) => self@.has_column(name@) && k == self@.column_pos(name@),
                None => !self@.has_column(name@),
            },
    {
        broadcast use lemma_bytes_deep_view;

        let mut k: usize = 0;
        while k < self.header.len()
            invariant
                0 <= k <= self.header.len(),
                self@.wf(),
                forall|j: int| 0 <= j < k ==> self@.header[j] != name@,
            decreases self.header.len() - k,
        {
            assert(self@.header[k as int] == self.header[k as int]@);
            if same_bytes(self.header[k].as_slice(), name) {
                proof {
                    let c = self@.column_pos(name@);
                    assert(0 <= c < self@.header.len() && self@.header[c] == name@);
                    if c < k {
                        assert(self@.header[c] != self@.header[k as int]);
                    } else if c > k {
                        assert(self@.header[k as int] != self@.header[c]);
                    }
                }
                return Some(k);
            }
            k += 1;
        }
        None
    }

    /// The type inferred for column `k`.
    pub fn column_kind(&self, k: usize) -> (r: ColumnKind)
        requires
            self@.wf(),
            k < self@.header.len(),
        ensures
            r == kind_of(self@.column(k as int)),
    {
        broadcast use lemma_bytes_deep_view;

        let ghost col = self@.column(k as int);
        let mut ints = true;
        let mut floats = true;
        let mut i: usize = 0;
        while i < self.rows.len()
            invariant
                self@.wf(),
                k < self@.header.len(),
                col == self@.column(k as int),
                0 <= i <= self.rows.len(),
                ints == forall|j: int| 0 <= j < i ==> fits_integer(#[trigger] col[j]),
                floats == forall|j: int| 0 <= j < i ==> fits_float(#[trigger] col[j]),
            decreases self.rows.len() - i,
        {
            assert(self@.rows[i as int].len() == self@.header.len());
            assert(col[i as int] == self.rows[i as int][k as int]@);
            let cell = self.rows[i][k].as_slice();
            if cell.len() != 0 {
                if ints && parse_integer(cell).is_none() {
                    ints = false;
                }
                if floats && !is_decimal_text(cell) {
                    floats = false;
                }
            }
            i += 1;
        }
        if ints {
            ColumnKind::Integer
        } else if floats {
            ColumnKind::Float
        } else {
            ColumnKind::Text
        }
    }
}

} // verus!
