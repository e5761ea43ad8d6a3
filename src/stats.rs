//! The three feeding statistics of a table.
use vstd::prelude::*;
use crate::error::StatsError;
use crate::number::{decimal_whole, integer_text, parse_decimal_whole, parse_integer};
use crate::table::{
    fits_integer, kind_of, lemma_bytes_deep_view, parse_table, table_of, ColumnKind, Table, TableModel,
};

verus! {

broadcast use lemma_bytes_deep_view;

/// The name of the date column, `Dato`.
pub open spec fn dato_name() -> Seq<u8> {
    seq![0x44u8, 0x61u8, 0x74u8, 0x6fu8]
}

/// The name of the amount column, `Flaske`.
pub open spec fn flaske_name() -> Seq<u8> {
    seq![0x46u8, 0x6cu8, 0x61u8, 0x73u8, 0x6bu8, 0x65u8]
}

/// The amount that a `Flaske` field holds in a column of the given type: none
/// for an empty field, the integer in an integer column, and the integer part
/// of the decimal number in a float column. `None` for a non-empty field also
/// where that value lies outside the range of `i64`.
pub open spec fn amount(c: Seq<u8>, kind: ColumnKind) -> Option<i64> {
    if c.len() == 0 {
        None
    } else if kind == ColumnKind::Integer {
        integer_text(c)
    } else {
        decimal_whole(c)
    }
}

/// A field is empty or holds an amount.
pub open spec fn amount_ok(c: Seq<u8>, kind: ColumnKind) -> bool {
    c.len() == 0 || amount(c, kind) is Some
}

pub open spec fn amounts(cells: Seq<Seq<u8>>, kind: ColumnKind) -> Seq<Option<i64>> {
    cells.map_values(|c: Seq<u8>| amount(c, kind))
}

/// The sum of the amounts that are present.
pub open spec fn sum_present(s: Seq<Option<i64>>) -> int
    decreases s.len(),
{
    if s.len() == 0 {
        0
    } else {
        sum_present(s.drop_last()) + match s.last() {
            Some(x) => x as int,
            None => 0,
        }
    }
}

/// The largest of the amounts that are present, if any is.
pub open spec fn max_present(s: Seq<Option<i64>>) -> Option<i64>
    decreases s.len(),
{
    if s.len() == 0 {
        None
    } else {
        let m = max_present(s.drop_last());
        match s.last() {
            None => m,
            Some(x) => match m {
                Some(y) if y >= x => Some(y),
                _ => Some(x),
            },
        }
    }
}

/// The number of non-empty `Dato` fields.
pub open spec fn count_dated(cells: Seq<Seq<u8>>) -> nat {
    cells.filter(|c: Seq<u8>| c.len() > 0).len()
}

/// The `Flaske` fields of a table that has that column.
pub open spec fn flaske_cells(t: TableModel) -> Seq<Seq<u8>> {
    t.column(t.column_pos(flaske_name()))
}

/// The `Dato` fields of a table that has that column.
pub open spec fn dato_cells(t: TableModel) -> Seq<Seq<u8>> {
    t.column(t.column_pos(dato_name()))
}

pub ghost struct StatsModel {
    pub total_today: int,
    pub n_feeds_today: nat,
    pub largest_meal: int,
}

/// The statistics of a table, or why there are none: a missing column, a
/// `Flaske` column of text or with a number beyond the range of `i64`, or no
/// amount at all.
pub open spec fn table_stats(t: TableModel) -> Result<StatsModel, StatsError> {
    if !t.has_column(dato_name()) || !t.has_column(flaske_name()) {
        Err(StatsError::SchemaError)
    } else {
        let flaske = flaske_cells(t);
        let dato = dato_cells(t);
        let kind = kind_of(flaske);
        if kind == ColumnKind::Text || !(forall|i: int|
            0 <= i < flaske.len() ==> amount_ok(#[trigger] flaske[i], kind)) {
            Err(StatsError::ParseError)
        } else {
            let vals = amounts(flaske, kind);
            match max_present(vals) {
                None => Err(StatsError::AggregationError),
                Some(m) => Ok(
                    StatsModel {
                        total_today: sum_present(vals),
                        n_feeds_today: count_dated(dato),
                        largest_meal: m as int,
                    },
                ),
            }
        }
    }
}

/// The statistics of a CSV text.
pub open spec fn stats_of(b: Seq<u8>) -> Result<StatsModel, StatsError> {
    match table_of(b) {
        Err(e) => Err(e),
        Ok(t) => table_stats(t),
    }
}

/// The statistics of one day's feeds.
#[derive(Clone, Copy, Debug, PartialEq, Eq, Structural)]
pub struct Stats {
    pub total_today: i128,
    pub n_feeds_today: usize,
    pub largest_meal: i64,
}

impl View for Stats {
    type V = StatsModel;

    open spec fn view(&self) -> StatsModel {
        StatsModel {
            total_today: self.total_today as int,
            n_feeds_today: self.n_feeds_today as nat,
            largest_meal: self.largest_meal as int,
        }
    }
}

/// What the largest present amount is: one of the amounts, and no smaller than any.
pub proof fn lemma_max_present(s: Seq<Option<i64>>)
    ensures
        match max_present(s) {
            Some(m) => (exists|i: int| 0 <= i < s.len() && s[i] == Some(m)) && (forall|i: int|
                0 <= i < s.len() && (#[trigger] s[i]) is Some ==> s[i]->0 <= m),
            None => forall|i: int| 0 <= i < s.len() ==> (#[trigger] s[i]) is None,
        },
    decreases s.len(),
{
    if s.len() > 0 {
        let p = s.drop_last();
        lemma_max_present(p);
        assert(forall|i: int| 0 <= i < p.len() ==> p[i] == s[i]);
        match max_present(p) {
            Some(y) => {
                let i = choose|i: int| 0 <= i < p.len() && p[i] == Some(y);
                assert(s[i] == Some(y));
            },
            None => {},
        }
    }
}

/// Where no amount is present the sum is 0.
pub proof fn lemma_sum_none_present(s: Seq<Option<i64>>)
    requires
        forall|i: int| 0 <= i < s.len() ==> (#[trigger] s[i]) is None,
    ensures
        sum_present(s) == 0,
    decreases s.len(),
{
    if s.len() > 0 {
        let p = s.drop_last();
        assert(forall|i: int| 0 <= i < p.len() ==> p[i] == s[i]);
        lemma_sum_none_present(p);
    }
}

/// The amounts of column `k`, read as the given type, or a parse error where
/// a non-empty field holds none.
pub fn column_amounts(t: &Table, k: usize, kind: ColumnKind) -> (r: Result<Vec<Option<i64>>, StatsError>)
    requires
        t@.wf(),
        k < t@.header.len(),
    ensures
        match r {
            Ok(v) => (forall|i: int| 0 <= i < t@.rows.len() ==> amount_ok(#[trigger] t@.column(k as int)[i], kind))
                && v@ == amounts(t@.column(k as int), kind),
            Err(e) => e == StatsError::ParseError && exists|i: int|
                0 <= i < t@.rows.len() && !amount_ok(#[trigger] t@.column(k as int)[i], kind),
        },
{
    let ghost col = t@.column(k as int);
    let mut out: Vec<Option<i64>> = Vec::new();
    let mut i: usize = 0;
    while i < t.rows.len()
        invariant
            t@.wf(),
            k < t@.header.len(),
            col == t@.column(k as int),
            0 <= i <= t.rows.len(),
            out@.len() == i,
            forall|j: int| 0 <= j < i ==> amount_ok(#[trigger] col[j], kind),
            forall|j: int| 0 <= j < i ==> out@[j] == amount(#[trigger] col[j], kind),
        decreases t.rows.len() - i,
    {
        assert(t@.rows[i as int].len() == t@.header.len());
        assert(col[i as int] == t.rows[i as int][k as int]@);
        let cell = t.rows[i][k].as_slice();
        if cell.len() == 0 {
            out.push(None);
        } else {
            let v = match kind {
                ColumnKind::Integer => parse_integer(cell),
                _ => parse_decimal_whole(cell),
            };
            match v {
                None => {
                    return Err(StatsError::ParseError);
                },
                Some(v) => {
                    out.push(Some(v));
                },
            }
        }
        i += 1;
    }
    proof {
        assert(out@ =~= amounts(col, kind));
    }
    Ok(out)
}

/// The sum of the amounts that are present.
pub fn total_today(vals: &Vec<Option<i64>>) -> (r: i128)
    ensures
        r == sum_present(vals@),
{
    let mut total: i128 = 0;
    let mut i: usize = 0;
    while i < vals.len()
        invariant
            0 <= i <= vals.len(),
            total == sum_present(vals@.take(i as int)),
            -(i as int) * 0x8000_0000_0000_0000 <= total <= (i as int) * 0x8000_0000_0000_0000,
        decreases vals.len() - i,
    {
        proof {
            assert(vals@.take(i + 1).drop_last() =~= vals@.take(i as int));
        }
        match vals[i] {
            Some(x) => {
                total = total + x as i128;
            },
            None => {},
        }
        i += 1;
    }
    proof {
        assert(vals@.take(vals.len() as int) =~= vals@);
    }
    total
}

/// The largest amount present, or an aggregation error where none is.
pub fn largest_meal(vals: &Vec<Option<i64>>) -> (r: Result<i64, StatsError>)
    ensures
        match r {
            Ok(m) => max_present(vals@) == Some(m) && (exists|i: int|
                0 <= i < vals@.len() && vals@[i] == Some(m)) && (forall|i: int|
                0 <= i < vals@.len() && (#[trigger] vals@[i]) is Some ==> vals@[i]->0 <= m),
            Err(e) => e == StatsError::AggregationError && max_present(vals@) is None && (forall|i: int|
                0 <= i < vals@.len() ==> (#[trigger] vals@[i]) is None),
        },
{
    let mut best: Option<i64> = None;
    let mut i: usize = 0;
    while i < vals.len()
        invariant
            0 <= i <= vals.len(),
            best == max_present(vals@.take(i as int)),
        decreases vals.len() - i,
    {
        proof {
            assert(vals@.take(i + 1).drop_last() =~= vals@.take(i as int));
        }
        match vals[i] {
            Some(x) => {
                best = match best {
                    Some(y) if y >= x => Some(y),
                    _ => Some(x),
                };
            },
            None => {},
        }
        i += 1;
    }
    proof {
        assert(vals@.take(vals.len() as int) =~= vals@);
        lemma_max_present(vals@);
    }
    match best {
        Some(m) => Ok(m),
        None => Err(StatsError::AggregationError),
    }
}

/// The number of rows whose field in column `k` is not empty.
pub fn n_feeds_today(t: &Table, k: usize) -> (r: usize)
    requires
        t@.wf(),
        k < t@.header.len(),
    ensures
        r == count_dated(t@.column(k as int)),
{
    let ghost col = t@.column(k as int);
    let ghost dated = |c: Seq<u8>| c.len() > 0;
    let mut count: usize = 0;
    let mut i: usize = 0;
    while i < t.rows.len()
        invariant
            t@.wf(),
            k < t@.header.len(),
            col == t@.column(k as int),
            dated == (|c: Seq<u8>| c.len() > 0),
            0 <= i <= t.rows.len(),
            count <= i,
            count == col.take(i as int).filter(dated).len(),
        decreases t.rows.len() - i,
    {
        assert(t@.rows[i as int].len() == t@.header.len());
        assert(col[i as int] == t.rows[i as int][k as int]@);
        proof {
            assert(col.take(i + 1) =~= col.take(i as int).push(col[i as int]));
            col.take(i as int).lemma_filter_push(col[i as int], dated);
        }
        if t.rows[i][k].len() > 0 {
            count += 1;
        }
        i += 1;
    }
    proof {
        assert(col.take(t.rows.len() as int) =~= col);
    }
    count
}

fn dato_bytes() -> (r: Vec<u8>)
    ensures
        r@ == dato_name(),
{
    let r = vec![0x44u8, 0x61u8, 0x74u8, 0x6fu8];
    assert(r@ =~= dato_name());
    r
}

fn flaske_bytes() -> (r: Vec<u8>)
    ensures
        r@ == flaske_name(),
{
    let r = vec![0x46u8, 0x6cu8, 0x61u8, 0x73u8, 0x6bu8, 0x65u8];
    assert(r@ =~= flaske_name());
    r
}

/// The statistics of a table: the sum of the `Flaske` amounts, the number of
/// rows with a `Dato` and the largest `Flaske` amount.
pub fn aggregate(t: &Table) -> (r: Result<Stats, StatsError>)
    requires
        t@.wf(),
    ensures
        match r {
            Ok(s) => table_stats(t@) == Ok::<StatsModel, StatsError>(s@),
            Err(e) => table_stats(t@) == Err::<StatsModel, StatsError>(e),
        },
{
    let dato = dato_bytes();
    let flaske = flaske_bytes();
    let d = match t.column_index(dato.as_slice()) {
        Some(d) => d,
        None => return Err(StatsError::SchemaError),
    };
    let f = match t.column_index(flaske.as_slice()) {
        Some(f) => f,
        None => return Err(StatsError::SchemaError),
    };
    let kind = t.column_kind(f);
    if kind == ColumnKind::Text {
        return Err(StatsError::ParseError);
    }
    let vals = match column_amounts(t, f, kind) {
        Ok(v) => v,
        Err(e) => return Err(e),
    };
    let total = total_today(&vals);
    let feeds = n_feeds_today(t, d);
    match largest_meal(&vals) {
        Ok(m) => Ok(Stats { total_today: total, n_feeds_today: feeds, largest_meal: m }),
        Err(e) => Err(e),
    }
}

/// The statistics of a CSV text.
pub fn stats_from_csv(text: &[u8]) -> (r: Result<Stats, StatsError>)
    ensures
        match r {
            Ok(s) => stats_of(text@) == Ok::<StatsModel, StatsError>(s@),
            Err(e) => stats_of(text@) == Err::<StatsModel, StatsError>(e),
        },
{
    match parse_table(text) {
        Ok(t) => aggregate(&t),
        Err(e) => Err(e),
    }
}

} // verus!
