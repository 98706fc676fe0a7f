use vstd::prelude::*;

verus! {

/// One row of a time-series table: a raw sample, or the rollup of an hour or
/// a day. Percentages are in hundredths of a percent, ping latency in
/// microseconds. In a raw row `net_rx` and `net_tx` are the cumulative
/// counters at sample time; in a rollup they are the counter deltas over the
/// bucket. `time` is the sample time, or the bucket start, in epoch seconds.
pub struct MetricRow {
    pub server_id: String,
    pub time: i64,
    pub cpu: u64,
    pub memory: u64,
    pub disk: u64,
    pub net_rx: i128,
    pub net_tx: i128,
    pub ping: Option<u64>,
}

/// The row as plain values.
pub type RowValues = (Seq<char>, i64, u64, u64, u64, i128, i128, Option<u64>);

pub open spec fn row_values(r: MetricRow) -> RowValues {
    (r.server_id@, r.time, r.cpu, r.memory, r.disk, r.net_rx, r.net_tx, r.ping)
}

/// Rows are keyed by server and time.
pub open spec fn same_key(a: MetricRow, b: MetricRow) -> bool {
    a.server_id@ == b.server_id@ && a.time == b.time
}

pub open spec fn sorted_by_time(s: Seq<MetricRow>) -> bool {
    forall|i: int, j: int| 0 <= i < j < s.len() ==> s[i].time <= s[j].time
}

pub open spec fn keys_unique(s: Seq<MetricRow>) -> bool {
    forall|i: int, j: int| 0 <= i < j < s.len() ==> !same_key(s[i], s[j])
}

pub open spec fn table_wf(s: Seq<MetricRow>) -> bool {
    sorted_by_time(s) && keys_unique(s)
}

pub open spec fn has_key(s: Seq<MetricRow>, row: MetricRow) -> bool {
    exists|i: int| 0 <= i < s.len() && same_key(s[i], row)
}

/// What an upsert does: a row with the same key is replaced in place;
/// otherwise the row goes after every row that is not later than it.
pub open spec fn upsert_post(old: Seq<MetricRow>, row: MetricRow, new: Seq<MetricRow>) -> bool {
    if has_key(old, row) {
        forall|i: int| 0 <= i < old.len() && same_key(old[i], row) ==> new == old.update(i, row)
    } else {
        exists|p: int|
            0 <= p <= old.len() && new == old.insert(p, row) && (forall|j: int|
                0 <= j < p ==> old[j].time <= row.time) && (forall|j: int|
                p <= j < old.len() ==> old[j].time > row.time)
    }
}

/// The rows of one server whose time lies in `[lo, hi]`, in table order.
pub open spec fn select(s: Seq<MetricRow>, server: Seq<char>, lo: int, hi: int) -> Seq<MetricRow>
    decreases s.len(),
{
    if s.len() == 0 {
        Seq::empty()
    } else {
        let prev = select(s.drop_last(), server, lo, hi);
        let r = s.last();
        if r.server_id@ == server && lo <= r.time <= hi {
            prev.push(r)
        } else {
            prev
        }
    }
}

/// The rows whose time is at least `cutoff`, in table order.
pub open spec fn keep_from(s: Seq<MetricRow>, cutoff: int) -> Seq<MetricRow>
    decreases s.len(),
{
    if s.len() == 0 {
        Seq::empty()
    } else {
        let prev = keep_from(s.drop_last(), cutoff);
        if s.last().time >= cutoff {
            prev.push(s.last())
        } else {
            prev
        }
    }
}

/// `sub` is made of the rows of `s` at the strictly increasing positions `origin`.
pub open spec fn picked_from(sub: Seq<MetricRow>, s: Seq<MetricRow>, origin: Seq<int>) -> bool {
    &&& origin.len() == sub.len()
    &&& forall|k: int| 0 <= k < sub.len() ==> 0 <= #[trigger] origin[k] < s.len() && sub[k] == s[origin[k]]
    &&& forall|a: int, b: int| 0 <= a < b < sub.len() ==> origin[a] < origin[b]
}

pub proof fn lemma_picked_wf(sub: Seq<MetricRow>, s: Seq<MetricRow>, origin: Seq<int>)
    requires
        table_wf(s),
        picked_from(sub, s, origin),
    ensures
        table_wf(sub),
{
    assert forall|i: int, j: int| 0 <= i < j < sub.len() implies sub[i].time <= sub[j].time by {
        let (a, b) = (origin[i], origin[j]);
        assert(a < b);
        assert(sub[i] == s[a] && sub[j] == s[b]);
    }
    assert forall|i: int, j: int| 0 <= i < j < sub.len() implies !same_key(sub[i], sub[j]) by {
        let (a, b) = (origin[i], origin[j]);
        assert(a < b);
        assert(sub[i] == s[a] && sub[j] == s[b]);
    }
}

pub proof fn lemma_select_all_match(s: Seq<MetricRow>, server: Seq<char>, lo: int, hi: int)
    ensures
        forall|k: int| 0 <= k < select(s, server, lo, hi).len() ==> {
            let r = #[trigger] select(s, server, lo, hi)[k];
            r.server_id@ == server && lo <= r.time <= hi
        },
    decreases s.len(),
{
    if s.len() > 0 {
        lemma_select_all_match(s.drop_last(), server, lo, hi);
    }
}

pub open spec fn has_values(s: Seq<MetricRow>, v: RowValues) -> bool {
    exists|i: int| 0 <= i < s.len() && row_values(s[i]) == v
}

/// After an upsert the new row is in the table, and the rows with other keys
/// are still there; no other row came in.
pub proof fn lemma_upsert_members(old: Seq<MetricRow>, row: MetricRow, new: Seq<MetricRow>)
    requires
        upsert_post(old, row, new),
    ensures
        has_values(new, row_values(row)),
        forall|k: int| 0 <= k < old.len() && !same_key(#[trigger] old[k], row) ==> has_values(new, row_values(old[k])),
        forall|k: int| 0 <= k < new.len() ==> row_values(#[trigger] new[k]) == row_values(row)
            || has_values(old, row_values(new[k])),
{
    if has_key(old, row) {
        let f = choose|f: int| 0 <= f < old.len() && same_key(old[f], row);
        assert(new == old.update(f, row));
        assert(row_values(new[f]) == row_values(row));
        assert forall|k: int| 0 <= k < old.len() && !same_key(#[trigger] old[k], row) implies has_values(new, row_values(old[k])) by {
            assert(new[k] == old[k]);
        }
        assert forall|k: int| 0 <= k < new.len() implies row_values(#[trigger] new[k]) == row_values(row)
            || has_values(old, row_values(new[k])) by {
            if k != f {
                assert(new[k] == old[k]);
            }
        }
    } else {
        let p = choose|p: int|
            0 <= p <= old.len() && new == old.insert(p, row) && (forall|j: int|
                0 <= j < p ==> old[j].time <= row.time) && (forall|j: int|
                p <= j < old.len() ==> old[j].time > row.time);
        assert(row_values(new[p]) == row_values(row));
        assert forall|k: int| 0 <= k < old.len() && !same_key(#[trigger] old[k], row) implies has_values(new, row_values(old[k])) by {
            if k < p {
                assert(new[k] == old[k]);
            } else {
                assert(new[k + 1] == old[k]);
            }
        }
        assert forall|k: int| 0 <= k < new.len() implies row_values(#[trigger] new[k]) == row_values(row)
            || has_values(old, row_values(new[k])) by {
            if k < p {
                assert(new[k] == old[k]);
            } else if k > p {
                assert(new[k] == old[k - 1]);
            }
        }
    }
}

/// Upserting the same row a second time changes nothing.
pub proof fn lemma_upsert_idempotent(s0: Seq<MetricRow>, row: MetricRow, s1: Seq<MetricRow>, s2: Seq<MetricRow>)
    requires
        table_wf(s0),
        upsert_post(s0, row, s1),
        upsert_post(s1, row, s2),
    ensures
        s2 == s1,
{
    if has_key(s0, row) {
        let f = choose|f: int| 0 <= f < s0.len() && same_key(s0[f], row);
        assert(s1 == s0.update(f, row));
        assert(same_key(s1[f], row));
        assert(s2 == s1.update(f, row));
        assert(s2 =~= s1);
    } else {
        let p = choose|p: int|
            0 <= p <= s0.len() && s1 == s0.insert(p, row) && (forall|j: int|
                0 <= j < p ==> s0[j].time <= row.time) && (forall|j: int|
                p <= j < s0.len() ==> s0[j].time > row.time);
        assert(s1[p] == row);
        assert(same_key(s1[p], row));
        assert(s2 == s1.update(p, row));
        assert(s2 =~= s1);
    }
}

/// A row that matches the selection is selected.
pub proof fn lemma_select_has(s: Seq<MetricRow>, server: Seq<char>, lo: int, hi: int, i: int)
    requires
        0 <= i < s.len(),
        s[i].server_id@ == server,
        lo <= s[i].time <= hi,
    ensures
        select(s, server, lo, hi).len() > 0,
    decreases s.len(),
{
    if i < s.len() - 1 {
        lemma_select_has(s.drop_last(), server, lo, hi, i);
    }
}

impl MetricRow {
    pub fn copy(&self) -> (r: MetricRow)
        ensures
            r == *self,
    {
        MetricRow {
            server_id: self.server_id.clone(),
            time: self.time,
            cpu: self.cpu,
            memory: self.memory,
            disk: self.disk,
            net_rx: self.net_rx,
            net_tx: self.net_tx,
            ping: self.ping,
        }
    }
}

/// A table of rows kept in time order, at most one row per key.
pub struct Table {
    pub rows: Vec<MetricRow>,
}

impl Table {
    pub open spec fn wf(&self) -> bool {
        table_wf(self.rows@)
    }

    pub fn new() -> (r: Table)
        ensures
            r.wf(),
            r.rows@.len() == 0,
    {
        Table { rows: Vec::new() }
    }

    /// Inserts a row, replacing the one with the same key if there is one.
    pub fn upsert(&mut self, row: MetricRow)
        requires
            old(self).wf(),
        ensures
            final(self).wf(),
            upsert_post(old(self).rows@, row, final(self).rows@),
    {
        let ghost s = self.rows@;
        let n = self.rows.len();
        let mut found: Option<usize> = None;
        let mut pos: usize = n;
        let mut i: usize = 0;
        while i < n
            invariant
                n == s.len(),
                self.rows@ == s,
                table_wf(s),
                i <= n,
                pos == n || pos < i,
                pos < n ==> s[pos as int].time > row.time,
                forall|j: int| 0 <= j < i && j < pos ==> s[j].time <= row.time,
                match found {
                    Some(f) => f < n && same_key(s[f as int], row),
                    None => forall|j: int| 0 <= j < i ==> !same_key(s[j], row),
                },
            decreases n - i,
        {
            let r = &self.rows[i];
            if found.is_none() && r.time == row.time && r.server_id == row.server_id {
                found = Some(i);
            }
            if pos == n && r.time > row.time {
                pos = i;
            }
            i = i + 1;
        }
        match found {
            Some(f) => {
                self.rows.set(f, row);
                proof {
                    assert forall|a: int, b: int| 0 <= a < b < self.rows@.len() implies
                        self.rows@[a].time <= self.rows@[b].time
                        && !same_key(self.rows@[a], self.rows@[b]) by {
                        assert(s[a].time <= s[b].time && !same_key(s[a], s[b]));
                        if a == f as int {
                            assert(self.rows@[a] == row && self.rows@[b] == s[b]);
                        } else if b == f as int {
                            assert(self.rows@[b] == row && self.rows@[a] == s[a]);
                        } else {
                            assert(self.rows@[a] == s[a] && self.rows@[b] == s[b]);
                        }
                    }
                    assert forall|k: int| 0 <= k < s.len() && same_key(s[k], row) implies
                        self.rows@ == s.update(k, row) by {
                        if k < f as int {
                            assert(!same_key(s[k], s[f as int]));
                        } else if k > f as int {
                            assert(!same_key(s[f as int], s[k]));
                        }
                    }
                }
            },
            None => {
                self.rows.insert(pos, row);
                proof {
                    assert forall|j: int| pos <= j < n implies s[j].time > row.time by {
                        assert(s[j].time >= s[pos as int].time);
                    }
                    assert(!has_key(s, row));
                    let t = self.rows@;
                    assert forall|a: int, b: int| 0 <= a < b < t.len() implies t[a].time
                        <= t[b].time && !same_key(t[a], t[b]) by {
                        if a < pos && b > pos {
                            assert(t[a] == s[a] && t[b] == s[b - 1]);
                        }
                    }
                }
            },
        }
    }

    /// Removes every row whose time is before `cutoff`.
    pub fn retain_from(&mut self, cutoff: i64)
        requires
            old(self).wf(),
        ensures
            final(self).wf(),
            final(self).rows@ == keep_from(old(self).rows@, cutoff as int),
    {
        let ghost s = self.rows@;
        let n = self.rows.len();
        let mut kept: Vec<MetricRow> = Vec::new();
        let ghost mut origin: Seq<int> = Seq::empty();
        let mut i: usize = 0;
        while i < n
            invariant
                n == s.len(),
                self.rows@ == s,
                table_wf(s),
                i <= n,
                kept@ == keep_from(s.take(i as int), cutoff as int),
                picked_from(kept@, s, origin),
                forall|k: int| 0 <= k < origin.len() ==> origin[k] < i,
            decreases n - i,
        {
            assert(s.take(i as int + 1).drop_last() == s.take(i as int));
            if self.rows[i].time >= cutoff {
                kept.push(self.rows[i].copy());
                proof {
                    origin = origin.push(i as int);
                }
            }
            i = i + 1;
        }
        assert(s.take(n as int) == s);
        proof {
            lemma_picked_wf(kept@, s, origin);
        }
        self.rows = kept;
    }

    /// The rows of `server` whose time lies in `[lo, hi]`, in time order.
    pub fn select(&self, server: &String, lo: i64, hi: i64) -> (r: Vec<MetricRow>)
        requires
            self.wf(),
        ensures
            r@ == select(self.rows@, server@, lo as int, hi as int),
            table_wf(r@),
    {
        let ghost s = self.rows@;
        let n = self.rows.len();
        let mut out: Vec<MetricRow> = Vec::new();
        let ghost mut origin: Seq<int> = Seq::empty();
        let mut i: usize = 0;
        while i < n
            invariant
                n == s.len(),
                self.rows@ == s,
                table_wf(s),
                i <= n,
                out@ == select(s.take(i as int), server@, lo as int, hi as int),
                picked_from(out@, s, origin),
                forall|k: int| 0 <= k < origin.len() ==> origin[k] < i,
            decreases n - i,
        {
            assert(s.take(i as int + 1).drop_last() == s.take(i as int));
            let r = &self.rows[i];
            if r.server_id == *server && lo <= r.time && r.time <= hi {
                out.push(r.copy());
                proof {
                    origin = origin.push(i as int);
                }
            }
            i = i + 1;
        }
        assert(s.take(n as int) == s);
        proof {
            lemma_picked_wf(out@, s, origin);
        }
        out
    }
}

} // verus!
