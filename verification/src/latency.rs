//! The latency benchmark: how the time of a ping-pong invocation grows with
//! the number of capabilities the client has delegated. For each number of
//! capabilities it delegates that many (its receiver among them), warms up,
//! times a fixed number of invocations, and averages them.
use vstd::prelude::*;
use crate::table::{SeriesTable, ascending_keys};

verus! {

/// Id of the remote pong service.
pub const PONG_CAP: u64 = 100;

/// Invocations made before any is timed.
pub const WARMUP_ROUNDS: u32 = 10;

/// Invocations timed for each number of capabilities.
pub const MEASURED_ROUNDS: u32 = 100;

/// Invocations the plain ping-pong client makes.
pub const PING_ROUNDS: u32 = 100;

/// Nanoseconds in a microsecond.
pub const NANOS_PER_MICRO: u128 = 1000;

/// The numbers of delegated capabilities the benchmark measures.
pub open spec fn spec_cap_counts() -> Seq<i32> {
    seq![1, 10, 100, 1000, 10000, 20000, 100000, 1000000]
}

/// The numbers of delegated capabilities the benchmark measures.
pub fn cap_counts() -> (r: Vec<i32>)
    ensures
        r@ == spec_cap_counts(),
{
    let mut r: Vec<i32> = Vec::new();
    r.push(1);
    r.push(10);
    r.push(100);
    r.push(1000);
    r.push(10000);
    r.push(20000);
    r.push(100000);
    r.push(1000000);
    assert(r@ =~= spec_cap_counts());
    r
}

/// The capabilities delegated besides the receiver when `count` are to be
/// delegated in all: `count - 1`, and none when `count` is below two.
pub fn extra_caps(count: i32) -> (r: u32)
    ensures
        r == if count > 1 {
            count - 1
        } else {
            0
        },
{
    if count > 1 {
        (count - 1) as u32
    } else {
        0
    }
}

/// The sum of the elements of `s`, each first cut down to its low 64 bits.
pub open spec fn truncated_sum(s: Seq<u128>) -> int
    decreases s.len(),
{
    if s.len() == 0 {
        0
    } else {
        truncated_sum(s.drop_last()) + (s.last() as u64) as int
    }
}

/// The sum of `s`, each element cut down to its low 64 bits; the sum must
/// fit in 64 bits.
fn sum_truncated(s: &Vec<u128>) -> (r: u64)
    requires
        truncated_sum(s@) <= u64::MAX,
    ensures
        r == truncated_sum(s@),
{
    let mut r: u64 = 0;
    let mut i: usize = 0;
    while i < s.len()
        invariant
            i <= s@.len(),
            truncated_sum(s@) <= u64::MAX,
            r == truncated_sum(s@.take(i as int)),
        decreases s@.len() - i,
    {
        assert(s@.take(i as int + 1).drop_last() =~= s@.take(i as int));
        proof {
            lemma_truncated_sum_prefix(s@, i as int + 1);
        }
        r = r + (s[i] as u64);
        i = i + 1;
    }
    assert(s@.take(i as int) =~= s@);
    r
}

/// The sum of a prefix is at most the sum of the whole.
proof fn lemma_truncated_sum_prefix(s: Seq<u128>, n: int)
    requires
        0 <= n <= s.len(),
    ensures
        truncated_sum(s.take(n)) <= truncated_sum(s),
    decreases s.len() - n,
{
    if n < s.len() {
        lemma_truncated_sum_prefix(s, n + 1);
        assert(s.take(n + 1).drop_last() =~= s.take(n));
    } else {
        assert(s.take(n) =~= s);
    }
}

/// Whether the sum of `s`, each element cut down to its low 64 bits, fits
/// in 64 bits.
pub fn sum_fits(s: &Vec<u128>) -> (r: bool)
    ensures
        r == (truncated_sum(s@) <= u64::MAX),
{
    let mut acc: u64 = 0;
    let mut i: usize = 0;
    while i < s.len()
        invariant
            i <= s@.len(),
            acc == truncated_sum(s@.take(i as int)),
        decreases s@.len() - i,
    {
        assert(s@.take(i as int + 1).drop_last() =~= s@.take(i as int));
        match acc.checked_add(s[i] as u64) {
            Some(a) => {
                acc = a;
            },
            None => {
                proof {
                    lemma_truncated_sum_prefix(s@, i as int + 1);
                }
                return false;
            },
        }
        i = i + 1;
    }
    assert(s@.take(i as int) =~= s@);
    true
}

/// The series in whole microseconds of a series in nanoseconds.
fn micros_of(s: &Vec<u128>) -> (r: Vec<u128>)
    ensures
        r@ == in_micros(s@),
{
    let mut micros: Vec<u128> = Vec::new();
    let mut j: usize = 0;
    while j < s.len()
        invariant
            j <= s@.len(),
            micros@ == in_micros(s@.take(j as int)),
        decreases s@.len() - j,
    {
        micros.push(s[j] / NANOS_PER_MICRO);
        assert(micros@ =~= in_micros(s@.take(j as int + 1)));
        j = j + 1;
    }
    assert(s@.take(j as int) =~= s@);
    micros
}

/// Whether the sum of the series in whole microseconds of `s`, a series in
/// nanoseconds, each element cut down to its low 64 bits, fits in 64 bits.
pub fn micros_sum_fits(s: &Vec<u128>) -> (r: bool)
    ensures
        r == (truncated_sum(in_micros(s@)) <= u64::MAX),
{
    sum_fits(&micros_of(s))
}

/// The average of a series of times in nanoseconds, each cut down to 64
/// bits, rounded down.
pub fn mean_nanos(samples: &Vec<u128>) -> (r: u64)
    requires
        samples@.len() > 0,
        truncated_sum(samples@) <= u64::MAX,
    ensures
        r == truncated_sum(samples@) / (samples@.len() as int),
{
    let total = sum_truncated(samples);
    total / (samples.len() as u64)
}

/// The series in whole microseconds of a series in nanoseconds.
pub open spec fn in_micros(s: Seq<u128>) -> Seq<u128> {
    s.map_values(|t: u128| t / NANOS_PER_MICRO)
}

/// The value reported for a series of times in nanoseconds: the average of
/// the times in whole microseconds, each cut down to 64 bits, rounded down
/// and cut down to 32 bits.
pub open spec fn reported_average(s: Seq<u128>) -> i32 {
    (truncated_sum(in_micros(s)) / (s.len() as int)) as i32
}

/// The benchmark's report: for each number of capabilities in ascending
/// order, that number and the reported average of its times. Each series
/// must be non-empty and its sum in microseconds must fit in 64 bits.
pub fn latency_report(table: &SeriesTable<u128>) -> (r: Vec<(i32, i32)>)
    requires
        table.wf(),
        forall|k: i32|
            table@.contains_key(k) ==> table@[k].len() > 0 && truncated_sum(in_micros(table@[k]))
                <= u64::MAX,
    ensures
        r@ == ascending_keys(table@).map_values(|k: i32| (k, reported_average(table@[k]))),
{
    let keys = table.sorted_keys();
    let mut r: Vec<(i32, i32)> = Vec::new();
    let mut i: usize = 0;
    while i < keys.len()
        invariant
            table.wf(),
            forall|k: i32|
                table@.contains_key(k) ==> table@[k].len() > 0 && truncated_sum(
                    in_micros(table@[k]),
                ) <= u64::MAX,
            keys@ == ascending_keys(table@),
            forall|k: i32| keys@.contains(k) <==> table@.contains_key(k),
            i <= keys@.len(),
            r@ == keys@.take(i as int).map_values(|k: i32| (k, reported_average(table@[k]))),
        decreases keys@.len() - i,
    {
        let key = keys[i];
        assert(keys@.contains(key)) by {
            assert(keys@[i as int] == key);
        }
        let series = match table.get(key) {
            Some(s) => s,
            None => {
                proof {
                    assert(false);
                }
                return r;
            },
        };
        let total = sum_truncated(&micros_of(series));
        let avg = (total / (series.len() as u64)) as i32;
        r.push((key, avg));
        assert(r@ =~= keys@.take(i as int + 1).map_values(
            |k: i32| (k, reported_average(table@[k])),
        ));
        i = i + 1;
    }
    assert(keys@.take(i as int) =~= keys@);
    r
}

/// The truncated sum adds up: the sum of a concatenation is the sum of its
/// parts.
pub proof fn lemma_truncated_sum_concat(a: Seq<u128>, b: Seq<u128>)
    ensures
        truncated_sum(a + b) == truncated_sum(a) + truncated_sum(b),
    decreases b.len(),
{
    if b.len() == 0 {
        assert(a + b =~= a);
    } else {
        lemma_truncated_sum_concat(a, b.drop_last());
        assert((a + b).drop_last() =~= a + b.drop_last());
        assert((a + b).last() == b.last());
    }
}

/// The truncated sum of one element is that element's low 64 bits, which
/// is the element itself when it fits in 64 bits; it is never negative.
pub proof fn lemma_truncated_sum_single(x: u128)
    ensures
        truncated_sum(seq![x]) == (x as u64) as int,
        x <= u64::MAX ==> truncated_sum(seq![x]) == x,
{
    assert(seq![x].drop_last() =~= Seq::<u128>::empty());
    assert(truncated_sum(Seq::<u128>::empty()) == 0);
    assert(seq![x].last() == x);
}

/// The truncated sum of any series is at least zero.
pub proof fn lemma_truncated_sum_nonneg(s: Seq<u128>)
    ensures
        truncated_sum(s) >= 0,
    decreases s.len(),
{
    if s.len() > 0 {
        lemma_truncated_sum_nonneg(s.drop_last());
    }
}

/// The sum of `n` copies of a value that fits in 64 bits is `n` times it.
proof fn lemma_truncated_sum_constant(s: Seq<u128>, m: u128)
    requires
        m <= u64::MAX,
        forall|i: int| 0 <= i < s.len() ==> s[i] == m,
    ensures
        truncated_sum(s) == s.len() * m,
    decreases s.len(),
{
    if s.len() > 0 {
        lemma_truncated_sum_constant(s.drop_last(), m);
        assert(s.len() * m == (s.len() - 1) * m + m) by (nonlinear_arith);
    }
}

/// The reported average of a non-empty series is the floor of the mean of
/// all its times in whole microseconds: times the series length it is at
/// most their sum, and one more times the length exceeds it (when the mean
/// fits in 32 bits).
pub proof fn lemma_reported_average_is_mean(s: Seq<u128>)
    requires
        s.len() > 0,
        truncated_sum(in_micros(s)) / (s.len() as int) <= i32::MAX,
    ensures
        reported_average(s) >= 0,
        reported_average(s) * s.len() <= truncated_sum(in_micros(s)),
        truncated_sum(in_micros(s)) < (reported_average(s) + 1) * s.len(),
{
    let t = truncated_sum(in_micros(s));
    let n = s.len() as int;
    lemma_truncated_sum_nonneg(in_micros(s));
    vstd::arithmetic::div_mod::lemma_fundamental_div_mod(t, n);
    vstd::arithmetic::div_mod::lemma_mod_pos_bound(t, n);
    let q = t / n;
    assert(q >= 0) by (nonlinear_arith)
        requires
            t >= 0,
            n > 0,
            q == t / n,
    ;
    assert(reported_average(s) == q);
    assert(q * n == n * q) by (nonlinear_arith);
    assert((q + 1) * n == n * q + n) by (nonlinear_arith);
}

/// A series whose times are all the same value reports that value in whole
/// microseconds.
pub proof fn lemma_reported_average_constant(s: Seq<u128>, c: u128)
    requires
        s.len() > 0,
        forall|i: int| 0 <= i < s.len() ==> s[i] == c,
        c / NANOS_PER_MICRO <= i32::MAX,
    ensures
        reported_average(s) == c / NANOS_PER_MICRO,
{
    let m = c / NANOS_PER_MICRO;
    let t = in_micros(s);
    assert forall|i: int| 0 <= i < t.len() implies t[i] == m by {}
    lemma_truncated_sum_constant(t, m);
    vstd::arithmetic::div_mod::lemma_div_multiples_vanish_fancy(m as int, 0, s.len() as int);
    assert(s.len() * m == s.len() * m + 0);
}

} // verus!
