//! Laws that the statistics obey.
use vstd::prelude::*;
use crate::error::StatsError;
use crate::number::integer_text;
use crate::stats::{
    amounts, count_dated, dato_cells, dato_name, flaske_cells, flaske_name, lemma_max_present,
    lemma_sum_none_present, max_present, stats_of, sum_present, table_stats, StatsModel,
};
use crate::table::{fits_integer, kind_of, table_of, ColumnKind, TableModel};

verus! {

/// The sum of a sequence of integers.
pub open spec fn sum_ints(s: Seq<int>) -> int
    decreases s.len(),
{
    if s.len() == 0 {
        0
    } else {
        sum_ints(s.drop_last()) + s.last()
    }
}

/// The integers of fields that all hold one.
pub open spec fn integers_of(cells: Seq<Seq<u8>>) -> Seq<int> {
    cells.map_values(|c: Seq<u8>| integer_text(c)->0 as int)
}

/// Every field is non-empty and an integer.
pub open spec fn all_integers(cells: Seq<Seq<u8>>) -> bool {
    forall|i: int| 0 <= i < cells.len() ==> (#[trigger] cells[i]).len() > 0 && integer_text(cells[i]) is Some
}

proof fn lemma_sum_all_present(cells: Seq<Seq<u8>>)
    requires
        all_integers(cells),
    ensures
        sum_present(amounts(cells, ColumnKind::Integer)) == sum_ints(integers_of(cells)),
    decreases cells.len(),
{
    if cells.len() > 0 {
        let p = cells.drop_last();
        assert(amounts(cells, ColumnKind::Integer).drop_last() =~= amounts(p, ColumnKind::Integer));
        assert(integers_of(cells).drop_last() =~= integers_of(p));
        assert(all_integers(p)) by {
            assert forall|i: int| 0 <= i < p.len() implies (#[trigger] p[i]).len() > 0 && integer_text(p[i]) is Some by {
                assert(p[i] == cells[i]);
            }
        }
        lemma_sum_all_present(p);
    }
}

/// When a well-formed text has at least one row and every `Flaske` field holds
/// an integer, its statistics exist, the total is the sum of those integers and
/// the largest meal is their maximum.
pub proof fn lemma_full_column_stats(text: Seq<u8>, t: TableModel)
    requires
        table_of(text) == Ok::<TableModel, StatsError>(t),
        t.has_column(dato_name()),
        t.has_column(flaske_name()),
        t.rows.len() > 0,
        all_integers(flaske_cells(t)),
    ensures
        stats_of(text) is Ok,
        stats_of(text)->Ok_0.total_today == sum_ints(integers_of(flaske_cells(t))),
        exists|i: int|
            0 <= i < t.rows.len() && integers_of(flaske_cells(t))[i] == stats_of(text)->Ok_0.largest_meal,
        forall|i: int|
            0 <= i < t.rows.len() ==> integers_of(flaske_cells(t))[i] <= stats_of(text)->Ok_0.largest_meal,
{
    let cells = flaske_cells(t);
    let vals = amounts(cells, ColumnKind::Integer);
    let vs = integers_of(cells);
    assert(kind_of(cells) == ColumnKind::Integer);
    assert(forall|i: int| 0 <= i < cells.len() ==> vals[i] == Some(vs[i] as i64));
    assert(forall|i: int| 0 <= i < cells.len() ==> fits_integer(#[trigger] cells[i]));
    lemma_sum_all_present(cells);
    lemma_max_present(vals);
    assert(vals[0] is Some);
    let m = max_present(vals)->0;
    let i = choose|i: int| 0 <= i < vals.len() && vals[i] == Some(m);
    assert(vs[i] == m);
    assert forall|j: int| 0 <= j < t.rows.len() implies vs[j] <= m by {
        assert(vals[j] is Some);
    }
}

/// The number of feeds is the number of rows with a non-empty `Dato` field and
/// depends on those fields alone: two tables with the same `Dato` fields that
/// both yield statistics count the same feeds, whatever their `Flaske` fields.
pub proof fn lemma_feeds_from_dates_alone(a: TableModel, b: TableModel)
    requires
        dato_cells(a) == dato_cells(b),
        table_stats(a) is Ok,
        table_stats(b) is Ok,
    ensures
        table_stats(a)->Ok_0.n_feeds_today == count_dated(dato_cells(a)),
        table_stats(a)->Ok_0.n_feeds_today == table_stats(b)->Ok_0.n_feeds_today,
{
}

/// The statistics are a function of the text: the same text always yields the
/// same result.
pub proof fn lemma_stats_deterministic(a: Seq<u8>, b: Seq<u8>)
    requires
        a == b,
    ensures
        stats_of(a) == stats_of(b),
{
}

/// A text with a header and no rows has a total of 0 and no feeds, but no
/// largest meal, so it yields an aggregation error.
pub proof fn lemma_no_rows(text: Seq<u8>, t: TableModel)
    requires
        table_of(text) == Ok::<TableModel, StatsError>(t),
        t.has_column(dato_name()),
        t.has_column(flaske_name()),
        t.rows.len() == 0,
    ensures
        sum_present(amounts(flaske_cells(t), kind_of(flaske_cells(t)))) == 0,
        count_dated(dato_cells(t)) == 0,
        max_present(amounts(flaske_cells(t), kind_of(flaske_cells(t)))) is None,
        stats_of(text) == Err::<StatsModel, StatsError>(StatsError::AggregationError),
{
    dato_cells(t).lemma_filter_len(|c: Seq<u8>| c.len() > 0);
    assert(amounts(flaske_cells(t), kind_of(flaske_cells(t))).len() == 0);
}

/// A text whose `Flaske` fields are all empty has a total of 0 and no largest
/// meal, so it yields an aggregation error.
pub proof fn lemma_no_amounts(text: Seq<u8>, t: TableModel)
    requires
        table_of(text) == Ok::<TableModel, StatsError>(t),
        t.has_column(dato_name()),
        t.has_column(flaske_name()),
        forall|i: int| 0 <= i < t.rows.len() ==> (#[trigger] flaske_cells(t)[i]).len() == 0,
    ensures
        sum_present(amounts(flaske_cells(t), kind_of(flaske_cells(t)))) == 0,
        max_present(amounts(flaske_cells(t), kind_of(flaske_cells(t)))) is None,
        stats_of(text) == Err::<StatsModel, StatsError>(StatsError::AggregationError),
{
    let cells = flaske_cells(t);
    let vals = amounts(cells, kind_of(cells));
    assert(forall|i: int| 0 <= i < vals.len() ==> (#[trigger] vals[i]) is None && cells[i].len() == 0);
    assert(forall|i: int| 0 <= i < cells.len() ==> fits_integer(#[trigger] cells[i]));
    lemma_sum_none_present(vals);
    lemma_max_present(vals);
    if max_present(vals) is Some {
        let m = max_present(vals)->0;
        let i = choose|i: int| 0 <= i < vals.len() && vals[i] == Some(m);
        assert(vals[i] is None);
    }
}

} // verus!
