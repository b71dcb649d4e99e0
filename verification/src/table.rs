//! Measurement series filed under integer keys: the table a benchmark fills
//! while it runs and reads back, key by key in ascending order, when it writes
//! its report.
use vstd::prelude::*;

verus! {

/// Measurement series, each filed under a distinct integer key.
///
/// Its view is the map from each key to the series filed under it. Filing a
/// series under a key that is already present replaces the old series.
pub struct SeriesTable<T> {
    entries: Vec<(i32, Vec<T>)>,
}

/// `s` is strictly ascending.
pub open spec fn strictly_ascending(s: Seq<i32>) -> bool {
    forall|i: int, j: int| 0 <= i < j < s.len() ==> s[i] < s[j]
}

impl<T> SeriesTable<T> {
    /// No key occurs twice among the entries.
    pub closed spec fn wf(&self) -> bool {
        forall|i: int, j: int|
            0 <= i < j < self.entries@.len() ==> self.entries@[i].0 != self.entries@[j].0
    }

    /// Some entry is filed under `key`.
    spec fn has(&self, key: i32) -> bool {
        exists|i: int| 0 <= i < self.entries@.len() && self.entries@[i].0 == key
    }

    /// The position of the entry filed under `key`.
    spec fn slot(&self, key: i32) -> int {
        choose|i: int| 0 <= i < self.entries@.len() && self.entries@[i].0 == key
    }

    /// The map from each key to its series.
    pub closed spec fn series_map(&self) -> Map<i32, Seq<T>> {
        Map::new(|k: i32| self.has(k), |k: i32| self.entries@[self.slot(k)].1@)
    }

    proof fn lemma_slot(&self, i: int)
        requires
            self.wf(),
            0 <= i < self.entries@.len(),
        ensures
            self.has(self.entries@[i].0),
            self.slot(self.entries@[i].0) == i,
            self.series_map().contains_key(self.entries@[i].0),
            self.series_map()[self.entries@[i].0] == self.entries@[i].1@,
    {
        let k = self.entries@[i].0;
        assert(self.has(k));
    }

    /// An empty table.
    pub fn new() -> (t: Self)
        ensures
            t.wf(),
            t@ == Map::<i32, Seq<T>>::empty(),
    {
        let t = SeriesTable { entries: Vec::new() };
        assert(t@ =~= Map::<i32, Seq<T>>::empty());
        t
    }

    /// The position of the entry filed under `key`, if there is one.
    fn find(&self, key: i32) -> (r: Option<usize>)
        requires
            self.wf(),
        ensures
            match r {
                Some(i) => i < self.entries@.len() && self.entries@[i as int].0 == key,
                None => !self.has(key),
            },
    {
        let mut i: usize = 0;
        while i < self.entries.len()
            invariant
                i <= self.entries@.len(),
                forall|j: int| 0 <= j < i ==> self.entries@[j].0 != key,
            decreases self.entries@.len() - i,
        {
            if self.entries[i].0 == key {
                return Some(i);
            }
            i = i + 1;
        }
        None
    }

    /// Whether a series is filed under `key`.
    pub fn contains_key(&self, key: i32) -> (r: bool)
        requires
            self.wf(),
        ensures
            r == self@.contains_key(key),
    {
        self.find(key).is_some()
    }

    /// Files `series` under `key`, replacing what was filed there before.
    pub fn insert(&mut self, key: i32, series: Vec<T>)
        requires
            old(self).wf(),
        ensures
            final(self).wf(),
            final(self)@ == old(self)@.insert(key, series@),
    {
        let ghost pre = *self;
        let ghost s = series@;
        match self.find(key) {
            Some(i) => {
                self.entries[i] = (key, series);
                assert(self.entries@ == pre.entries@.update(i as int, (key, series)));
                assert forall|k: i32| #[trigger] self.has(k) == pre@.insert(key, s).contains_key(k) by {
                    if pre.has(k) {
                        let j = pre.slot(k);
                        if j == i as int {
                            assert(self.entries@[i as int].0 == k);
                        } else {
                            assert(self.entries@[j].0 == k);
                        }
                    }
                    if self.has(k) {
                        let j = self.slot(k);
                        if j != i as int {
                            assert(pre.entries@[j].0 == k);
                        }
                    }
                }
                assert forall|k: i32| #[trigger] self.has(k) implies self.entries@[self.slot(
                    k,
                )].1@ == pre@.insert(key, s)[k] by {
                    let j = self.slot(k);
                    self.lemma_slot(j);
                    if k != key {
                        assert(j != i as int);
                        assert(pre.entries@[j].0 == k);
                        pre.lemma_slot(j);
                    }
                }
                assert(self@ =~= pre@.insert(key, s));
            },
            None => {
                self.entries.push((key, series));
                let ghost n: int = self.entries@.len() - 1;
                assert(self.entries@ == pre.entries@.push((key, series)));
                assert forall|k: i32| #[trigger] self.has(k) == pre@.insert(key, s).contains_key(k) by {
                    if pre.has(k) {
                        let j = pre.slot(k);
                        assert(self.entries@[j].0 == k);
                    }
                    if k == key {
                        assert(self.entries@[n].0 == k);
                    }
                    if self.has(k) {
                        let j = self.slot(k);
                        if j != n {
                            assert(pre.entries@[j].0 == k);
                        }
                    }
                }
                assert forall|k: i32| #[trigger] self.has(k) implies self.entries@[self.slot(
                    k,
                )].1@ == pre@.insert(key, s)[k] by {
                    let j = self.slot(k);
                    self.lemma_slot(j);
                    if k != key {
                        assert(j != n);
                        assert(pre.entries@[j].0 == k);
                        pre.lemma_slot(j);
                    }
                }
                assert(self@ =~= pre@.insert(key, s));
            },
        }
    }

    /// Appends `value` to the series filed under `key`.
    pub fn push(&mut self, key: i32, value: T)
        requires
            old(self).wf(),
            old(self)@.contains_key(key),
        ensures
            final(self).wf(),
            final(self)@ == old(self)@.insert(key, old(self)@[key].push(value)),
    {
        let ghost pre = *self;
        let i = match self.find(key) {
            Some(i) => i,
            None => {
                proof {
                    assert(false);
                }
                0
            },
        };
        proof {
            pre.lemma_slot(i as int);
        }
        self.entries[i].1.push(value);
        let ghost s = pre@[key].push(value);
        assert(self.entries@ == pre.entries@.update(i as int, (key, pre.entries@[i as int].1)).update(
            i as int,
            self.entries@[i as int],
        ));
        assert forall|j: int| 0 <= j < self.entries@.len() implies #[trigger] self.entries@[j].0
            == pre.entries@[j].0 by {}
        assert forall|k: i32| #[trigger] self.has(k) == pre.has(k) by {
            if pre.has(k) {
                assert(self.entries@[pre.slot(k)].0 == k);
            }
            if self.has(k) {
                assert(pre.entries@[self.slot(k)].0 == k);
            }
        }
        assert forall|k: i32| #[trigger] self.has(k) implies self.entries@[self.slot(k)].1@
            == pre@.insert(key, s)[k] by {
            let j = self.slot(k);
            self.lemma_slot(j);
            pre.lemma_slot(j);
        }
        assert(self@ =~= pre@.insert(key, s));
    }

    /// The series filed under `key`, if there is one.
    pub fn get(&self, key: i32) -> (r: Option<&Vec<T>>)
        requires
            self.wf(),
        ensures
            match r {
                Some(s) => self@.contains_key(key) && s@ == self@[key],
                None => !self@.contains_key(key),
            },
    {
        match self.find(key) {
            Some(i) => {
                proof {
                    self.lemma_slot(i as int);
                }
                Some(&self.entries[i].1)
            },
            None => None,
        }
    }

    /// The keys of the table in ascending order.
    pub fn sorted_keys(&self) -> (r: Vec<i32>)
        requires
            self.wf(),
        ensures
            r@ == ascending_keys(self@),
            strictly_ascending(r@),
            forall|k: i32| r@.contains(k) <==> self@.contains_key(k),
            r@.len() == self@.dom().len(),
    {
        let mut r: Vec<i32> = Vec::new();
        let mut i: usize = 0;
        while i < self.entries.len()
            invariant
                self.wf(),
                i <= self.entries@.len(),
                strictly_ascending(r@),
                r@.len() == i,
                forall|k: i32|
                    r@.contains(k) <==> exists|j: int| 0 <= j < i && self.entries@[j].0 == k,
            decreases self.entries@.len() - i,
        {
            let k = self.entries[i].0;
            assert(!r@.contains(k)) by {
                if r@.contains(k) {
                    let j = choose|j: int| 0 <= j < i && self.entries@[j].0 == k;
                    assert(self.entries@[j].0 != self.entries@[i as int].0);
                }
            }
            let mut p: usize = 0;
            while p < r.len() && r[p] < k
                invariant
                    p <= r@.len(),
                    forall|q: int| 0 <= q < p ==> r@[q] < k,
                decreases r@.len() - p,
            {
                p = p + 1;
            }
            let ghost old_r = r@;
            assert(p < old_r.len() ==> old_r[p as int] > k) by {
                if p < old_r.len() {
                    assert(old_r[p as int] != k);
                }
            }
            r.insert(p, k);
            proof {
                old_r.insert_ensures(p as int, k);
                assert forall|a: int, b: int| 0 <= a < b < r@.len() implies r@[a] < r@[b] by {
                    if b < p {
                    } else if b == p {
                    } else if a < p {
                        assert(r@[b] == old_r[b - 1]);
                        assert(old_r[p as int] > k);
                        assert(old_r[a] < k);
                    } else if a == p {
                        assert(r@[b] == old_r[b - 1]);
                        if b - 1 > p {
                            assert(old_r[p as int] < old_r[b - 1]);
                        }
                    } else {
                        assert(r@[a] == old_r[a - 1]);
                        assert(r@[b] == old_r[b - 1]);
                    }
                }
                assert forall|x: i32|
                    r@.contains(x) <==> exists|j: int|
                        0 <= j < i + 1 && self.entries@[j].0 == x by {
                    if r@.contains(x) {
                        let q = choose|q: int| 0 <= q < r@.len() && r@[q] == x;
                        if q < p {
                            assert(old_r[q] == x);
                            assert(old_r.contains(x));
                        } else if q == p {
                            assert(self.entries@[i as int].0 == x);
                        } else {
                            assert(old_r[q - 1] == x);
                            assert(old_r.contains(x));
                        }
                    }
                    if exists|j: int| 0 <= j < i + 1 && self.entries@[j].0 == x {
                        let j = choose|j: int| 0 <= j < i + 1 && self.entries@[j].0 == x;
                        if j == i {
                            assert(r@[p as int] == x);
                        } else {
                            assert(old_r.contains(x));
                            let q = choose|q: int| 0 <= q < old_r.len() && old_r[q] == x;
                            if q < p {
                                assert(r@[q] == x);
                            } else {
                                assert(r@[q + 1] == x);
                            }
                        }
                    }
                }
            }
            i = i + 1;
        }
        proof {
            assert forall|k: i32| r@.contains(k) <==> self@.contains_key(k) by {
                if r@.contains(k) {
                    let j = choose|j: int| 0 <= j < i && self.entries@[j].0 == k;
                    self.lemma_slot(j);
                }
            }
            lemma_ascending_len(r@, self@.dom());
            lemma_ascending_keys_unique(r@, self@);
        }
        r
    }
}

impl<T: Copy> SeriesTable<T> {
    /// The rows of a report: for each key in ascending order, one row for
    /// each element of its series, made by `make_row` from the key, the
    /// element's position in its series and the element.
    pub(crate) fn collect_rows<R, F: Fn(i32, usize, T) -> R>(
        &self,
        make_row: F,
        Ghost(row): Ghost<spec_fn(i32, int, T) -> R>,
    ) -> (r: Vec<R>)
        requires
            self.wf(),
            forall|k: i32, j: int|
                self@.contains_key(k) && 0 <= j < self@[k].len() ==> make_row.requires(
                    (k, j as usize, #[trigger] self@[k][j]),
                ),
            forall|k: i32, j: usize, v: T, x: R|
                make_row.ensures((k, j, v), x) ==> x == row(k, j as int, v),
        ensures
            r@ == series_rows(ascending_keys(self@), self@, row),
            forall|k: i32| ascending_keys(self@).contains(k) <==> self@.contains_key(k),
    {
        let keys = self.sorted_keys();
        let mut r: Vec<R> = Vec::new();
        let mut i: usize = 0;
        while i < keys.len()
            invariant
                self.wf(),
                forall|k: i32, j: int|
                    self@.contains_key(k) && 0 <= j < self@[k].len() ==> make_row.requires(
                        (k, j as usize, #[trigger] self@[k][j]),
                    ),
                forall|k: i32, j: usize, v: T, x: R|
                    make_row.ensures((k, j, v), x) ==> x == row(k, j as int, v),
                keys@ == ascending_keys(self@),
                forall|k: i32| keys@.contains(k) <==> self@.contains_key(k),
                i <= keys@.len(),
                r@ == series_rows(keys@.take(i as int), self@, row),
            decreases keys@.len() - i,
        {
            let key = keys[i];
            assert(keys@.contains(key)) by {
                assert(keys@[i as int] == key);
            }
            let series = match self.get(key) {
                Some(s) => s,
                None => {
                    proof {
                        assert(false);
                    }
                    return r;
                },
            };
            let ghost base = r@;
            let mut j: usize = 0;
            while j < series.len()
                invariant
                    self@.contains_key(key),
                    series@ == self@[key],
                    forall|k: i32, jj: int|
                        self@.contains_key(k) && 0 <= jj < self@[k].len() ==> make_row.requires(
                            (k, jj as usize, #[trigger] self@[k][jj]),
                        ),
                    forall|k: i32, jj: usize, v: T, x: R|
                        make_row.ensures((k, jj, v), x) ==> x == row(k, jj as int, v),
                    j <= series@.len(),
                    r@ == base + Seq::new(j as nat, |q: int| row(key, q, series@[q])),
                decreases series@.len() - j,
            {
                let v = series[j];
                assert(make_row.requires((key, j, self@[key][j as int])));
                let x = make_row(key, j, v);
                r.push(x);
                assert(r@ =~= base + Seq::new((j + 1) as nat, |q: int| row(key, q, series@[q])));
                j = j + 1;
            }
            proof {
                assert(Seq::new(j as nat, |q: int| row(key, q, series@[q])) =~= series_block(
                    key,
                    self@,
                    row,
                ));
                lemma_series_rows_step(keys@, i as int, self@, row);
            }
            i = i + 1;
        }
        assert(keys@.take(i as int) =~= keys@);
        r
    }
}

impl<T> View for SeriesTable<T> {
    type V = Map<i32, Seq<T>>;

    closed spec fn view(&self) -> Map<i32, Seq<T>> {
        self.series_map()
    }
}

/// The keys of `m` in ascending order.
pub open spec fn ascending_keys<T>(m: Map<i32, Seq<T>>) -> Seq<i32> {
    choose|s: Seq<i32>|
        strictly_ascending(s) && forall|k: i32| s.contains(k) <==> m.contains_key(k)
}

/// The rows a report holds for the series of `m` filed under `keys`: for
/// each key in turn, one row for each element of its series, made by `row`
/// from the key, the element's position in the series and the element.
pub open spec fn series_rows<T, R>(
    keys: Seq<i32>,
    m: Map<i32, Seq<T>>,
    row: spec_fn(i32, int, T) -> R,
) -> Seq<R>
    decreases keys.len(),
{
    if keys.len() == 0 {
        Seq::empty()
    } else {
        series_rows(keys.drop_last(), m, row) + series_block(keys.last(), m, row)
    }
}

/// The rows for the series of `m` filed under `key`.
pub open spec fn series_block<T, R>(key: i32, m: Map<i32, Seq<T>>, row: spec_fn(i32, int, T) -> R) -> Seq<
    R,
> {
    Seq::new(m[key].len(), |j: int| row(key, j, m[key][j]))
}

/// What is read back under a key is what was last filed under it: after
/// filing `s` under `key`, the table holds `s` under `key` and holds under
/// every other key what it held before.
pub proof fn lemma_insert_then_get<T>(m: Map<i32, Seq<T>>, key: i32, s: Seq<T>, other: i32)
    ensures
        m.insert(key, s).contains_key(key),
        m.insert(key, s)[key] == s,
        other != key ==> (m.insert(key, s).contains_key(other) <==> m.contains_key(other)),
        other != key && m.contains_key(other) ==> m.insert(key, s)[other] == m[other],
        m.insert(key, s).dom() == m.dom().insert(key),
{
    assert(m.insert(key, s).dom() =~= m.dom().insert(key));
}

/// The rows for the first `i + 1` keys are those for the first `i` keys
/// followed by the block of key `i`.
pub proof fn lemma_series_rows_step<T, R>(
    keys: Seq<i32>,
    i: int,
    m: Map<i32, Seq<T>>,
    row: spec_fn(i32, int, T) -> R,
)
    requires
        0 <= i < keys.len(),
    ensures
        series_rows(keys.take(i + 1), m, row) == series_rows(keys.take(i), m, row) + series_block(
            keys[i],
            m,
            row,
        ),
{
    assert(keys.take(i + 1).drop_last() =~= keys.take(i));
    assert(keys.take(i + 1).last() == keys[i]);
}

/// Every row of a report comes from some key of `keys` and some element of
/// the series filed under it.
pub proof fn lemma_series_rows_origin<T, R>(
    keys: Seq<i32>,
    m: Map<i32, Seq<T>>,
    row: spec_fn(i32, int, T) -> R,
    i: int,
)
    requires
        0 <= i < series_rows(keys, m, row).len(),
    ensures
        exists|p: int, j: int|
            0 <= p < keys.len() && 0 <= j < m[keys[p]].len() && #[trigger] series_rows(
                keys,
                m,
                row,
            )[i] == row(keys[p], j, m[keys[p]][j]),
    decreases keys.len(),
{
    let front = series_rows(keys.drop_last(), m, row);
    let k = keys.last();
    if i < front.len() {
        lemma_series_rows_origin(keys.drop_last(), m, row, i);
        let (p, j) = choose|p: int, j: int|
            0 <= p < keys.drop_last().len() && 0 <= j < m[keys.drop_last()[p]].len()
                && #[trigger] series_rows(keys.drop_last(), m, row)[i] == row(
                keys.drop_last()[p],
                j,
                m[keys.drop_last()[p]][j],
            );
        assert(keys[p] == keys.drop_last()[p]);
        assert(series_rows(keys, m, row)[i] == front[i]);
    } else {
        let j = i - front.len();
        assert(series_rows(keys, m, row)[i] == series_block(k, m, row)[j]);
        assert(keys[keys.len() - 1] == k);
    }
}

/// The rows of a report over keys `a` followed by keys `b` are those over
/// `a` followed by those over `b`; over a single key they are that key's
/// block: a report lists the blocks in the order of its keys.
pub proof fn lemma_series_rows_concat<T, R>(
    a: Seq<i32>,
    b: Seq<i32>,
    k: i32,
    m: Map<i32, Seq<T>>,
    row: spec_fn(i32, int, T) -> R,
)
    ensures
        series_rows(a + b, m, row) == series_rows(a, m, row) + series_rows(b, m, row),
        series_rows(seq![k], m, row) == series_block(k, m, row),
    decreases b.len(),
{
    assert(seq![k].drop_last() =~= Seq::<i32>::empty());
    assert(series_rows(Seq::<i32>::empty(), m, row) == Seq::<R>::empty());
    assert(Seq::<R>::empty() + series_block(k, m, row) =~= series_block(k, m, row));
    if b.len() == 0 {
        assert(a + b =~= a);
        assert(series_rows(a, m, row) + Seq::<R>::empty() =~= series_rows(a, m, row));
    } else {
        lemma_series_rows_concat(a, b.drop_last(), k, m, row);
        assert((a + b).drop_last() =~= a + b.drop_last());
        assert((a + b).last() == b.last());
        assert(series_rows(a + b, m, row) =~= series_rows(a, m, row) + series_rows(b, m, row));
    }
}

/// Two strictly ascending sequences that hold the same elements are equal.
proof fn lemma_ascending_unique(a: Seq<i32>, b: Seq<i32>)
    requires
        strictly_ascending(a),
        strictly_ascending(b),
        forall|k: i32| a.contains(k) <==> b.contains(k),
    ensures
        a == b,
    decreases a.len() + b.len(),
{
    if a.len() == 0 {
        if b.len() > 0 {
            assert(b.contains(b[0]));
        }
        assert(a =~= b);
    } else if b.len() == 0 {
        assert(a.contains(a[0]));
    } else {
        let x = a.last();
        let y = b.last();
        assert(a.contains(x));
        assert(b.contains(y));
        let i = choose|i: int| 0 <= i < b.len() && b[i] == x;
        let j = choose|j: int| 0 <= j < a.len() && a[j] == y;
        assert(x <= y) by {
            if i < b.len() - 1 {
            }
        }
        assert(y <= x) by {
            if j < a.len() - 1 {
            }
        }
        let a2 = a.drop_last();
        let b2 = b.drop_last();
        assert forall|k: i32| a2.contains(k) <==> b2.contains(k) by {
            if a2.contains(k) {
                let p = choose|p: int| 0 <= p < a2.len() && a2[p] == k;
                assert(a[p] < x);
                assert(b.contains(k));
                let q = choose|q: int| 0 <= q < b.len() && b[q] == k;
                assert(q != b.len() - 1);
                assert(b2[q] == k);
            }
            if b2.contains(k) {
                let p = choose|p: int| 0 <= p < b2.len() && b2[p] == k;
                assert(b[p] < y);
                assert(a.contains(k));
                let q = choose|q: int| 0 <= q < a.len() && a[q] == k;
                assert(q != a.len() - 1);
                assert(a2[q] == k);
            }
        }
        lemma_ascending_unique(a2, b2);
        assert(a =~= a2.push(x));
        assert(b =~= b2.push(y));
    }
}

/// A strictly ascending sequence that holds exactly the keys of `m` is the
/// sequence `ascending_keys(m)`.
pub proof fn lemma_ascending_keys_unique<T>(s: Seq<i32>, m: Map<i32, Seq<T>>)
    requires
        strictly_ascending(s),
        forall|k: i32| s.contains(k) <==> m.contains_key(k),
    ensures
        ascending_keys(m) == s,
{
    let t = ascending_keys(m);
    assert(strictly_ascending(t) && forall|k: i32| t.contains(k) <==> m.contains_key(k));
    lemma_ascending_unique(t, s);
}

/// A strictly ascending sequence holding exactly the elements of `keys` has
/// as many elements as `keys`.
proof fn lemma_ascending_len(s: Seq<i32>, keys: Set<i32>)
    requires
        strictly_ascending(s),
        forall|k: i32| s.contains(k) <==> keys.contains(k),
    ensures
        s.len() == keys.len(),
{
    assert(s.no_duplicates()) by {
        assert forall|i: int, j: int| 0 <= i < s.len() && 0 <= j < s.len() && i != j implies s[i]
            != s[j] by {
            if i < j {
            } else {
            }
        }
    }
    assert(s.to_set() =~= keys) by {
        assert forall|k: i32| s.to_set().contains(k) <==> keys.contains(k) by {}
    }
    s.unique_seq_to_set();
}

} // verus!
