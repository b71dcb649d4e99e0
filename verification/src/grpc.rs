//! The gRPC baseline: a ping-pong service that echoes the payload of each
//! ping, and a client that times a number of pings per run.
use vstd::prelude::*;
use crate::table::{SeriesTable, ascending_keys, series_rows, series_block, lemma_series_rows_origin};

verus! {

/// The payload each ping carries.
pub const PING_PAYLOAD: i32 = 10;

/// The number of runs the client times.
pub const GRPC_RUNS: i32 = 100;

/// A ping.
#[derive(Clone, Copy, Debug, PartialEq, Eq, Structural)]
pub struct PingRequest {
    pub buf: i32,
}

/// The answer to a ping.
#[derive(Clone, Copy, Debug, PartialEq, Eq, Structural)]
pub struct PongResponse {
    pub buf: i32,
}

/// The ping-pong service.
pub struct PP {}

impl Default for PP {
    fn default() -> (r: PP)
        ensures
            r == (PP {}),
    {
        PP {}
    }
}

impl PP {
    /// Answers a ping with its own payload.
    pub fn pong(&self, request: PingRequest) -> (r: PongResponse)
        ensures
            r.buf == request.buf,
    {
        PongResponse { buf: request.buf }
    }
}

/// The average time of one ping in a run of `iterations` pings that took
/// `elapsed_micros` microseconds, rounded down.
pub fn per_call_micros(elapsed_micros: u128, iterations: u128) -> (r: u128)
    requires
        iterations > 0,
    ensures
        r == elapsed_micros / iterations,
{
    elapsed_micros / iterations
}

/// A report row: the run's key, the number of pings per run and the run's
/// time in microseconds.
pub open spec fn grpc_row(key: i32, iterations: u128, micros: u128) -> (i32, u128, u128) {
    (key, iterations, micros)
}

/// The function that makes the report's rows for runs of `iterations`
/// pings.
pub open spec fn grpc_rows_of(iterations: u128) -> spec_fn(i32, int, u128) -> (i32, u128, u128) {
    |k: i32, j: int, v: u128| grpc_row(k, iterations, v)
}

/// The client's report: for each run key in ascending order, one row for
/// each time filed under it.
pub fn grpc_report(table: &SeriesTable<u128>, iterations: u128) -> (r: Vec<(i32, u128, u128)>)
    requires
        table.wf(),
    ensures
        r@ == series_rows(
            ascending_keys(table@),
            table@,
            grpc_rows_of(iterations),
        ),
        forall|i: int|
            0 <= i < r@.len() ==> {
                let row = #[trigger] r@[i];
                &&& table@.contains_key(row.0)
                &&& row.1 == iterations
                &&& table@[row.0].contains(row.2)
            },
{
    let make_row = |k: i32, j: usize, v: u128| -> (x: (i32, u128, u128))
        ensures
            x == grpc_row(k, iterations, v),
        { (k, iterations, v) };
    let r = table.collect_rows(make_row, Ghost(grpc_rows_of(iterations)));
    proof {
        lemma_grpc_rows_keep_times(ascending_keys(table@), table@, iterations);
    }
    r
}

/// Each row of the report is a time exactly as it was filed: its key names
/// a series, its second field is the number of pings per run, and its
/// third is one of the times filed under that key, unchanged. The rows of
/// one key list its times in order, one row each.
pub proof fn lemma_grpc_rows_keep_times(keys: Seq<i32>, m: Map<i32, Seq<u128>>, iterations: u128)
    requires
        forall|k: i32| #[trigger] keys.contains(k) ==> m.contains_key(k),
    ensures
        forall|i: int|
            0 <= i < series_rows(keys, m, grpc_rows_of(iterations)).len()
                ==> {
                let r = #[trigger] series_rows(
                    keys,
                    m,
                    grpc_rows_of(iterations),
                )[i];
                &&& m.contains_key(r.0)
                &&& r.1 == iterations
                &&& m[r.0].contains(r.2)
            },
        forall|k: i32|
            m.contains_key(k) ==> {
                let b = #[trigger] series_block(
                    k,
                    m,
                    grpc_rows_of(iterations),
                );
                &&& b.len() == m[k].len()
                &&& forall|j: int| 0 <= j < b.len() ==> #[trigger] b[j] == (k, iterations, m[k][j])
            },
{
    let row = grpc_rows_of(iterations);
    assert forall|i: int| 0 <= i < series_rows(keys, m, row).len() implies {
        let r = #[trigger] series_rows(keys, m, row)[i];
        &&& m.contains_key(r.0)
        &&& r.1 == iterations
        &&& m[r.0].contains(r.2)
    } by {
        lemma_series_rows_origin(keys, m, row, i);
        let (p, j) = choose|p: int, j: int|
            0 <= p < keys.len() && 0 <= j < m[keys[p]].len() && #[trigger] series_rows(
                keys,
                m,
                row,
            )[i] == row(keys[p], j, m[keys[p]][j]);
        assert(keys.contains(keys[p]));
        assert(m[keys[p]][j] == series_rows(keys, m, row)[i].2);
    }
}

} // verus!
