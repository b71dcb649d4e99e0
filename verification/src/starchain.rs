//! The star-versus-chain comparison: for each depth it runs the star
//! benchmark and then the chain benchmark, files the time of each under its
//! own series, and reports the series in ascending order of their keys.
use vstd::prelude::*;
use crate::table::{SeriesTable, ascending_keys, series_rows, series_block, lemma_series_rows_origin};

verus! {

/// Key of the series of star runs.
pub const STAR_SERIES: i32 = 0;

/// Key of the series of chain runs.
pub const CHAIN_SERIES: i32 = 1;

/// The depths of a scaling evaluation.
pub open spec fn spec_scaling_depths() -> Seq<u128> {
    seq![10, 100, 1000, 2000, 3000, 4000, 5000, 6000, 7000, 8000, 9000, 10000]
}

/// The depths the comparison runs: those of a scaling evaluation, or else
/// the one depth asked for.
pub fn benchmark_depths(scaling: bool, depth: u128) -> (r: Vec<u128>)
    ensures
        r@ == if scaling {
            spec_scaling_depths()
        } else {
            seq![depth]
        },
{
    let mut r: Vec<u128> = Vec::new();
    if scaling {
        r.push(10);
        r.push(100);
        r.push(1000);
        r.push(2000);
        r.push(3000);
        r.push(4000);
        r.push(5000);
        r.push(6000);
        r.push(7000);
        r.push(8000);
        r.push(9000);
        r.push(10000);
        assert(r@ =~= spec_scaling_depths());
    } else {
        r.push(depth);
        assert(r@ =~= seq![depth]);
    }
    r
}

/// A table with an empty series of star runs and an empty series of chain
/// runs; each run adds a pair of its depth and its time in microseconds.
pub fn star_chain_table() -> (t: SeriesTable<(u128, u128)>)
    ensures
        t.wf(),
        t@ == Map::<i32, Seq<(u128, u128)>>::empty().insert(STAR_SERIES, Seq::empty()).insert(
            CHAIN_SERIES,
            Seq::empty(),
        ),
{
    let mut t = SeriesTable::new();
    t.insert(STAR_SERIES, Vec::new());
    t.insert(CHAIN_SERIES, Vec::new());
    t
}

/// A report row: the series key, the position of the run in its series,
/// the run's depth and its time.
pub open spec fn star_chain_row(key: i32, j: int, v: (u128, u128)) -> (i32, i32, u128, u128) {
    (key, j as i32, v.0, v.1)
}

/// The function that makes the report's rows.
pub open spec fn star_chain_rows_of() -> spec_fn(i32, int, (u128, u128)) -> (i32, i32, u128, u128) {
    |k: i32, j: int, v: (u128, u128)| star_chain_row(k, j, v)
}

/// The report of the comparison: the rows of each series in ascending order
/// of the keys, each run with its position in its series.
pub fn star_chain_report(table: &SeriesTable<(u128, u128)>) -> (r: Vec<(i32, i32, u128, u128)>)
    requires
        table.wf(),
        forall|k: i32| table@.contains_key(k) ==> table@[k].len() <= i32::MAX,
    ensures
        r@ == series_rows(
            ascending_keys(table@),
            table@,
            star_chain_rows_of(),
        ),
        forall|i: int|
            0 <= i < r@.len() ==> {
                let row = #[trigger] r@[i];
                &&& table@.contains_key(row.0)
                &&& 0 <= row.1 < table@[row.0].len()
                &&& table@[row.0][row.1 as int] == (row.2, row.3)
            },
{
    let make_row = |k: i32, j: usize, v: (u128, u128)| -> (x: (i32, i32, u128, u128))
        requires
            j <= i32::MAX,
        ensures
            x == star_chain_row(k, j as int, v),
        { (k, j as i32, v.0, v.1) };
    let r = table.collect_rows(make_row, Ghost(star_chain_rows_of()));
    proof {
        lemma_star_chain_rows_keep_runs(ascending_keys(table@), table@);
    }
    r
}

/// Each row of the report is a run exactly as it was filed: its key names
/// a series, its position is the run's index in that series, and its depth
/// and time are that run's pair, unchanged. The rows of one series come
/// in the order of the series and number as many as its runs.
pub proof fn lemma_star_chain_rows_keep_runs(keys: Seq<i32>, m: Map<i32, Seq<(u128, u128)>>)
    requires
        forall|k: i32| #[trigger] keys.contains(k) ==> m.contains_key(k) && m[k].len() <= i32::MAX,
    ensures
        forall|i: int|
            0 <= i < series_rows(keys, m, star_chain_rows_of()).len()
                ==> {
                let r = #[trigger] series_rows(
                    keys,
                    m,
                    star_chain_rows_of(),
                )[i];
                &&& m.contains_key(r.0)
                &&& 0 <= r.1 < m[r.0].len()
                &&& m[r.0][r.1 as int] == (r.2, r.3)
            },
        forall|k: i32|
            m.contains_key(k) && m[k].len() <= i32::MAX ==> {
                let b = #[trigger] series_block(
                    k,
                    m,
                    star_chain_rows_of(),
                );
                &&& b.len() == m[k].len()
                &&& forall|j: int|
                    0 <= j < b.len() ==> #[trigger] b[j] == (k, j as i32, m[k][j].0, m[k][j].1)
            },
{
    let row = star_chain_rows_of();
    assert forall|i: int| 0 <= i < series_rows(keys, m, row).len() implies {
        let r = #[trigger] series_rows(keys, m, row)[i];
        &&& m.contains_key(r.0)
        &&& 0 <= r.1 < m[r.0].len()
        &&& m[r.0][r.1 as int] == (r.2, r.3)
    } by {
        lemma_series_rows_origin(keys, m, row, i);
        let (p, j) = choose|p: int, j: int|
            0 <= p < keys.len() && 0 <= j < m[keys[p]].len() && #[trigger] series_rows(
                keys,
                m,
                row,
            )[i] == row(keys[p], j, m[keys[p]][j]);
        assert(keys.contains(keys[p]));
    }
}

} // verus!
