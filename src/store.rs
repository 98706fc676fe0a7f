use vstd::prelude::*;

use crate::table::{
    MetricRow, RowValues, Table, upsert_post, select, keep_from, same_key, row_values, has_values,
    lemma_select_all_match, lemma_upsert_members, sorted_by_time,
};

verus! {

pub const HOUR_SECS: i64 = 3600;
pub const DAY_SECS: i64 = 86400;
/// Width of the buckets that thin out the 24-hour range.
pub const DECIMATION_SECS: i64 = 300;
/// Raw rows live 48 hours.
pub const RAW_RETENTION_SECS: i64 = 172800;
/// Hourly rows live 90 days.
pub const HOURLY_RETENTION_SECS: i64 = 7776000;
/// Daily rows live 730 days.
pub const DAILY_RETENTION_SECS: i64 = 63072000;

/// The figures of one sample that the store reads, as plain values:
/// percentages in hundredths of a percent, latencies in microseconds.
pub struct SampleFigures {
    pub timestamp: i64,
    pub cpu: u64,
    pub memory: u64,
    pub disk_usages: Vec<u64>,
    pub total_rx: u64,
    pub total_tx: u64,
    /// One entry per configured ping target, `None` where it gave no latency;
    /// `None` as a whole where the sample has no ping block.
    pub ping_latencies: Option<Vec<Option<u64>>>,
}

/// The largest value, or 0 for none.
pub open spec fn max_of(s: Seq<u64>) -> u64
    decreases s.len(),
{
    if s.len() == 0 {
        0
    } else {
        let m = max_of(s.drop_last());
        if s.last() > m { s.last() } else { m }
    }
}

pub open spec fn latency_sum(s: Seq<Option<u64>>) -> int
    decreases s.len(),
{
    if s.len() == 0 {
        0
    } else {
        latency_sum(s.drop_last()) + match s.last() {
            Some(v) => v as int,
            None => 0,
        }
    }
}

pub open spec fn latency_count(s: Seq<Option<u64>>) -> int
    decreases s.len(),
{
    if s.len() == 0 {
        0
    } else {
        latency_count(s.drop_last()) + if s.last() is Some { 1int } else { 0 }
    }
}

/// Mean of the latencies present, if any is.
pub open spec fn mean_latency(s: Seq<Option<u64>>) -> Option<u64> {
    if latency_count(s) == 0 {
        None
    } else {
        Some((latency_sum(s) / latency_count(s)) as u64)
    }
}

/// The raw row that a sample gives: disk is the fullest disk, ping the mean
/// latency over the targets that answered.
pub open spec fn raw_row_spec(server_id: String, f: SampleFigures) -> MetricRow {
    MetricRow {
        server_id: server_id,
        time: f.timestamp,
        cpu: f.cpu,
        memory: f.memory,
        disk: max_of(f.disk_usages@),
        net_rx: f.total_rx as i128,
        net_tx: f.total_tx as i128,
        ping: match f.ping_latencies {
            Some(v) => mean_latency(v@),
            None => None,
        },
    }
}

pub open spec fn sum_by(s: Seq<MetricRow>, f: spec_fn(MetricRow) -> int) -> int
    decreases s.len(),
{
    if s.len() == 0 {
        0
    } else {
        sum_by(s.drop_last(), f) + f(s.last())
    }
}

pub open spec fn cpu_of(r: MetricRow) -> int {
    r.cpu as int
}

pub open spec fn memory_of(r: MetricRow) -> int {
    r.memory as int
}

pub open spec fn disk_of(r: MetricRow) -> int {
    r.disk as int
}

pub open spec fn ping_sum(s: Seq<MetricRow>) -> int
    decreases s.len(),
{
    if s.len() == 0 {
        0
    } else {
        ping_sum(s.drop_last()) + match s.last().ping {
            Some(v) => v as int,
            None => 0,
        }
    }
}

pub open spec fn ping_count(s: Seq<MetricRow>) -> int
    decreases s.len(),
{
    if s.len() == 0 {
        0
    } else {
        ping_count(s.drop_last()) + if s.last().ping is Some { 1int } else { 0 }
    }
}

pub open spec fn net_rx_of(r: MetricRow) -> int {
    r.net_rx as int
}

pub open spec fn net_tx_of(r: MetricRow) -> int {
    r.net_tx as int
}

/// The traffic of a bucket: the sum of the rows' totals when they are
/// rollups themselves (`sum_net`), else the counter delta from first to
/// last row.
pub open spec fn net_total(s: Seq<MetricRow>, rx: bool, sum_net: bool) -> int {
    if sum_net {
        if rx { sum_by(s, |r: MetricRow| net_rx_of(r)) } else { sum_by(s, |r: MetricRow| net_tx_of(r)) }
    } else {
        if rx { s.last().net_rx - s[0].net_rx } else { s.last().net_tx - s[0].net_tx }
    }
}

/// The rollup of the non-empty rows `s` of one bucket, in time order: the
/// means of the percentages, the traffic (see `net_total`), and the mean
/// ping over the rows that have one.
pub open spec fn rollup_spec(s: Seq<MetricRow>, server_id: String, start: i64, sum_net: bool) -> MetricRow {
    let n = s.len() as int;
    MetricRow {
        server_id: server_id,
        time: start,
        cpu: (sum_by(s, |r: MetricRow| cpu_of(r)) / n) as u64,
        memory: (sum_by(s, |r: MetricRow| memory_of(r)) / n) as u64,
        disk: (sum_by(s, |r: MetricRow| disk_of(r)) / n) as u64,
        net_rx: net_total(s, true, sum_net) as i128,
        net_tx: net_total(s, false, sum_net) as i128,
        ping: if ping_count(s) == 0 {
            None
        } else {
            Some((ping_sum(s) / ping_count(s)) as u64)
        },
    }
}

/// Counters of raw rows are readings of `u64` counters.
pub open spec fn counters_in_range(s: Seq<MetricRow>) -> bool {
    forall|i: int|
        0 <= i < s.len() ==> 0 <= #[trigger] s[i].net_rx <= u64::MAX && 0 <= s[i].net_tx
            <= u64::MAX
}

/// Traffic totals of rollups are differences of `u64` counters.
pub open spec fn deltas_in_range(s: Seq<MetricRow>) -> bool {
    forall|i: int|
        0 <= i < s.len() ==> -(u64::MAX as int) <= #[trigger] s[i].net_rx <= u64::MAX && -(u64::MAX as int)
            <= s[i].net_tx <= u64::MAX
}

/// Start of the bucket of width `w` that holds `t`.
pub open spec fn bucket_start(t: int, w: int) -> int {
    (t / w) * w
}

pub open spec fn decimation_bucket(t: i64) -> int {
    t as int / DECIMATION_SECS as int
}

/// Keeps the first row of each decimation bucket.
pub open spec fn decimate(s: Seq<MetricRow>) -> Seq<MetricRow>
    decreases s.len(),
{
    if s.len() == 0 {
        Seq::empty()
    } else {
        let prev = decimate(s.drop_last());
        if prev.len() == 0 || decimation_bucket(prev.last().time) != decimation_bucket(s.last().time) {
            prev.push(s.last())
        } else {
            prev
        }
    }
}

/// The ranges a history query can ask for.
pub enum HistoryRange {
    Hour,
    Day,
    Week,
    Month,
    Year,
}

/// A history request's parameters.
pub struct HistoryQuery {
    pub range: String,
}

/// The range asked for when a request names none.
pub fn default_range() -> (r: String)
    ensures
        r@ == "24h"@,
{
    crate::text::string_of(&crate::text::chars_of("24h"))
}

pub open spec fn range_named(name: Seq<char>) -> HistoryRange {
    if name == "1h"@ {
        HistoryRange::Hour
    } else if name == "24h"@ {
        HistoryRange::Day
    } else if name == "7d"@ {
        HistoryRange::Week
    } else if name == "30d"@ {
        HistoryRange::Month
    } else {
        HistoryRange::Year
    }
}

impl HistoryRange {
    /// The range a name stands for; any other name means a year.
    pub fn parse(name: &str) -> (r: HistoryRange)
        ensures
            r == range_named(name@),
    {
        if crate::text::same_text(name, "1h") {
            HistoryRange::Hour
        } else if crate::text::same_text(name, "24h") {
            HistoryRange::Day
        } else if crate::text::same_text(name, "7d") {
            HistoryRange::Week
        } else if crate::text::same_text(name, "30d") {
            HistoryRange::Month
        } else {
            HistoryRange::Year
        }
    }
}

/// The rows that a query over `range` returns at time `now`.
pub open spec fn range_rows(store: MetricsStore, server: Seq<char>, range: HistoryRange, now: int) -> Seq<MetricRow> {
    match range {
        HistoryRange::Hour => select(store.raw.rows@, server, now - HOUR_SECS, now),
        HistoryRange::Day => decimate(select(store.raw.rows@, server, now - DAY_SECS, now)),
        HistoryRange::Week => select(store.hourly.rows@, server, now - 7 * DAY_SECS, now),
        HistoryRange::Month => select(
            store.daily.rows@,
            server,
            bucket_start(now - 30 * DAY_SECS, DAY_SECS as int),
            now,
        ),
        HistoryRange::Year => select(
            store.daily.rows@,
            server,
            bucket_start(now - 365 * DAY_SECS, DAY_SECS as int),
            now,
        ),
    }
}

pub fn floor_div(t: i64, w: i64) -> (r: i64)
    requires
        w > 0,
    ensures
        r == t / w,
{
    if t >= 0 {
        t / w
    } else {
        let u: i64 = -(t + 1);
        let q = u / w;
        assert(t / w == -(u / w) - 1) by (nonlinear_arith)
            requires
                u == -(t + 1),
                w > 0,
                u >= 0,
        ;
        -q - 1
    }
}

/// Start of the bucket of width `w` (a divisor of a day) that holds `t`.
pub fn bucket_start_of(t: i64, w: i64) -> (r: i64)
    requires
        0 < w <= DAY_SECS,
        t >= i64::MIN + DAY_SECS,
    ensures
        r == bucket_start(t as int, w as int),
        r <= t < r + w,
{
    let q = floor_div(t, w);
    assert(q * w <= t < q * w + w) by (nonlinear_arith)
        requires
            q == t / w,
            w > 0,
    ;
    q * w
}

/// `v`, raised to `i64::MIN` if it lies below: the same bound for rows,
/// whose times are `i64` values.
pub open spec fn at_least_min(v: int) -> int {
    if v < i64::MIN { i64::MIN as int } else { v }
}

fn floor_div_wide(t: i128, w: i128) -> (r: i128)
    requires
        w > 0,
        t > i128::MIN,
    ensures
        r == t / w,
{
    if t >= 0 {
        t / w
    } else {
        let u: i128 = -(t + 1);
        let q = u / w;
        assert(t / w == -(u / w) - 1) by (nonlinear_arith)
            requires
                u == -(t + 1),
                w > 0,
                u >= 0,
        ;
        -q - 1
    }
}

/// `now - span`, raised to `i64::MIN` if it lies below.
pub fn window_start(now: i64, span: i64) -> (r: i64)
    requires
        0 <= span,
    ensures
        r == at_least_min(now - span),
{
    let v: i128 = now as i128 - span as i128;
    if v < i64::MIN as i128 {
        i64::MIN
    } else {
        v as i64
    }
}

/// Start of the bucket of width `w` that holds `now - span`, raised to
/// `i64::MIN` if it lies below.
pub fn bucket_floor(now: i64, span: i64, w: i64) -> (r: i64)
    requires
        0 <= span,
        0 < w <= DAY_SECS,
    ensures
        r == at_least_min(bucket_start(now - span, w as int)),
{
    let v: i128 = now as i128 - span as i128;
    let q = floor_div_wide(v, w as i128);
    assert(q * w <= v < q * w + w) by (nonlinear_arith)
        requires
            q == (v as int) / (w as int),
            w > 0,
    ;
    let b: i128 = q * (w as i128);
    if b < i64::MIN as i128 {
        i64::MIN
    } else {
        b as i64
    }
}

/// Start of the bucket of width `w` before the one that holds `now`, or
/// `None` where it lies below `i64::MIN`.
pub fn previous_bucket(now: i64, w: i64) -> (r: Option<i64>)
    requires
        0 < w <= DAY_SECS,
    ensures
        bucket_start(now as int, w as int) <= now,
        match r {
            Some(s) => s == bucket_start(now as int, w as int) - w,
            None => bucket_start(now as int, w as int) - w < i64::MIN,
        },
{
    let q = floor_div(now, w);
    let v: i128 = now as i128;
    assert(q * w <= v < q * w + w) by (nonlinear_arith)
        requires
            q == (v as int) / (w as int),
            w > 0,
    ;
    let b: i128 = (q as i128) * (w as i128) - w as i128;
    if b < i64::MIN as i128 {
        None
    } else {
        Some(b as i64)
    }
}

/// Lower bounds at or below `i64::MIN` select the same rows.
pub proof fn lemma_select_low(s: Seq<MetricRow>, server: Seq<char>, lo1: int, lo2: int, hi: int)
    requires
        lo1 <= i64::MIN,
        lo2 <= i64::MIN,
    ensures
        select(s, server, lo1, hi) == select(s, server, lo2, hi),
    decreases s.len(),
{
    if s.len() > 0 {
        lemma_select_low(s.drop_last(), server, lo1, lo2, hi);
    }
}

/// Cutoffs at or below `i64::MIN` keep the same rows.
pub proof fn lemma_keep_from_low(s: Seq<MetricRow>, c1: int, c2: int)
    requires
        c1 <= i64::MIN,
        c2 <= i64::MIN,
    ensures
        keep_from(s, c1) == keep_from(s, c2),
    decreases s.len(),
{
    if s.len() > 0 {
        lemma_keep_from_low(s.drop_last(), c1, c2);
    }
}

fn max_usage(v: &Vec<u64>) -> (r: u64)
    ensures
        r == max_of(v@),
{
    let mut m: u64 = 0;
    let mut i: usize = 0;
    while i < v.len()
        invariant
            i <= v@.len(),
            m == max_of(v@.take(i as int)),
        decreases v@.len() - i,
    {
        assert(v@.take(i as int + 1).drop_last() == v@.take(i as int));
        if v[i] > m {
            m = v[i];
        }
        i = i + 1;
    }
    assert(v@.take(v@.len() as int) == v@);
    m
}

proof fn lemma_latency_bounds(s: Seq<Option<u64>>)
    ensures
        0 <= latency_count(s) <= s.len(),
        0 <= latency_sum(s) <= latency_count(s) * u64::MAX,
    decreases s.len(),
{
    if s.len() > 0 {
        lemma_latency_bounds(s.drop_last());
    }
}

fn mean_latency_of(v: &Vec<Option<u64>>) -> (r: Option<u64>)
    ensures
        r == mean_latency(v@),
{
    let mut sum: u128 = 0;
    let mut count: u64 = 0;
    let mut i: usize = 0;
    while i < v.len()
        invariant
            i <= v@.len(),
            sum == latency_sum(v@.take(i as int)),
            count == latency_count(v@.take(i as int)),
            count <= i,
        decreases v@.len() - i,
    {
        assert(v@.take(i as int + 1).drop_last() == v@.take(i as int));
        proof {
            lemma_latency_bounds(v@.take(i as int));
            assert(sum <= count * u64::MAX as int);
            assert(count * u64::MAX as int <= u64::MAX as int * u64::MAX as int) by (nonlinear_arith)
                requires count <= u64::MAX;
        }
        match v[i] {
            Some(x) => {
                sum = sum + x as u128;
                count = count + 1;
            },
            None => {},
        }
        i = i + 1;
    }
    assert(v@.take(v@.len() as int) == v@);
    if count == 0 {
        None
    } else {
        proof {
            lemma_latency_bounds(v@);
            assert(sum as int / count as int <= u64::MAX) by (nonlinear_arith)
                requires sum <= count * u64::MAX, count > 0;
        }
        Some((sum / count as u128) as u64)
    }
}

/// The raw row for a sample of `server_id`.
pub fn raw_row(server_id: &String, f: &SampleFigures) -> (r: MetricRow)
    ensures
        r == raw_row_spec(*server_id, *f),
{
    let ping = match &f.ping_latencies {
        Some(v) => mean_latency_of(v),
        None => None,
    };
    MetricRow {
        server_id: server_id.clone(),
        time: f.timestamp,
        cpu: f.cpu,
        memory: f.memory,
        disk: max_usage(&f.disk_usages),
        net_rx: f.total_rx as i128,
        net_tx: f.total_tx as i128,
        ping: ping,
    }
}

proof fn lemma_sum_bound(s: Seq<MetricRow>, f: spec_fn(MetricRow) -> int)
    requires
        forall|r: MetricRow| 0 <= #[trigger] f(r) <= u64::MAX,
    ensures
        0 <= sum_by(s, f) <= s.len() * u64::MAX,
    decreases s.len(),
{
    if s.len() > 0 {
        lemma_sum_bound(s.drop_last(), f);
    }
}

proof fn lemma_ping_bounds(s: Seq<MetricRow>)
    ensures
        0 <= ping_count(s) <= s.len(),
        0 <= ping_sum(s) <= ping_count(s) * u64::MAX,
    decreases s.len(),
{
    if s.len() > 0 {
        lemma_ping_bounds(s.drop_last());
    }
}

proof fn lemma_mean_fits(sum: int, n: int)
    requires
        n > 0,
        0 <= sum <= n * u64::MAX,
    ensures
        0 <= sum / n <= u64::MAX,
{
    assert(sum / n <= u64::MAX) by (nonlinear_arith)
        requires
            n > 0,
            0 <= sum <= n * u64::MAX,
    ;
}

proof fn lemma_net_sum_bound(s: Seq<MetricRow>)
    requires
        deltas_in_range(s),
    ensures
        -(s.len() * u64::MAX) <= sum_by(s, |r: MetricRow| net_rx_of(r)) <= s.len() * u64::MAX,
        -(s.len() * u64::MAX) <= sum_by(s, |r: MetricRow| net_tx_of(r)) <= s.len() * u64::MAX,
    decreases s.len(),
{
    if s.len() > 0 {
        let p = s.drop_last();
        assert forall|i: int| 0 <= i < p.len() implies -(u64::MAX as int) <= #[trigger] p[i].net_rx <= u64::MAX
            && -(u64::MAX as int) <= p[i].net_tx <= u64::MAX by {
            assert(p[i] == s[i]);
        }
        lemma_net_sum_bound(p);
        assert(s[s.len() - 1] == s.last());
    }
}

/// Rows of one server in a time window of a table in time order have
/// distinct times, so there are at most as many as the window has seconds.
proof fn lemma_bucket_rows_count(rows: Seq<MetricRow>, server: Seq<char>, lo: int, hi: int)
    requires
        crate::table::table_wf(rows),
        lo <= hi + 1,
        forall|k: int| 0 <= k < rows.len() ==> {
            let r = #[trigger] rows[k];
            r.server_id@ == server && lo <= r.time <= hi
        },
    ensures
        rows.len() <= hi - lo + 1,
{
    let v = rows.map_values(|r: MetricRow| r.time as int);
    assert forall|k: int| 0 <= k < v.len() implies lo <= #[trigger] v[k] <= hi by {
        assert(v[k] == rows[k].time);
    }
    assert forall|a: int, b: int| 0 <= a < b < v.len() implies #[trigger] v[a] < #[trigger] v[b] by {
        assert(rows[a].time <= rows[b].time);
        assert(!same_key(rows[a], rows[b]));
    }
    lemma_increasing_count(v, lo, hi);
}

/// The rollup of the rows `rows` of one bucket, or `None` if there are none.
pub fn rollup(rows: &Vec<MetricRow>, server_id: &String, start: i64, sum_net: bool) -> (r: Option<MetricRow>)
    requires
        !sum_net ==> counters_in_range(rows@),
        sum_net ==> deltas_in_range(rows@) && rows@.len() <= DAY_SECS,
    ensures
        rows@.len() == 0 ==> r is None,
        rows@.len() > 0 ==> r == Some(rollup_spec(rows@, *server_id, start, sum_net)),
{
    let n = rows.len();
    if n == 0 {
        return None;
    }
    let ghost s = rows@;
    let mut cpu: u128 = 0;
    let mut memory: u128 = 0;
    let mut disk: u128 = 0;
    let mut ping: u128 = 0;
    let mut pings: u64 = 0;
    let mut rx_sum: i128 = 0;
    let mut tx_sum: i128 = 0;
    let mut i: usize = 0;
    while i < n
        invariant
            n == s.len(),
            rows@ == s,
            i <= n,
            sum_net ==> deltas_in_range(s) && s.len() <= DAY_SECS,
            cpu == sum_by(s.take(i as int), |r: MetricRow| cpu_of(r)),
            memory == sum_by(s.take(i as int), |r: MetricRow| memory_of(r)),
            disk == sum_by(s.take(i as int), |r: MetricRow| disk_of(r)),
            ping == ping_sum(s.take(i as int)),
            pings == ping_count(s.take(i as int)),
            pings <= i,
            sum_net ==> rx_sum == sum_by(s.take(i as int), |r: MetricRow| net_rx_of(r)),
            sum_net ==> tx_sum == sum_by(s.take(i as int), |r: MetricRow| net_tx_of(r)),
        decreases n - i,
    {
        let ghost t = s.take(i as int);
        assert(s.take(i as int + 1).drop_last() == t);
        proof {
            lemma_sum_bound(t, |r: MetricRow| cpu_of(r));
            lemma_sum_bound(t, |r: MetricRow| memory_of(r));
            lemma_sum_bound(t, |r: MetricRow| disk_of(r));
            lemma_ping_bounds(t);
            assert(i * u64::MAX as int <= u64::MAX as int * u64::MAX as int) by (nonlinear_arith)
                requires i <= u64::MAX;
            assert(pings * u64::MAX as int <= u64::MAX as int * u64::MAX as int) by (nonlinear_arith)
                requires pings <= u64::MAX;
            if sum_net {
                assert forall|k: int| 0 <= k < t.len() implies -(u64::MAX as int) <= #[trigger] t[k].net_rx
                    <= u64::MAX && -(u64::MAX as int) <= t[k].net_tx <= u64::MAX by {
                    assert(t[k] == s[k]);
                }
                lemma_net_sum_bound(t);
                assert(i * u64::MAX as int <= DAY_SECS * u64::MAX as int) by (nonlinear_arith)
                    requires i <= DAY_SECS;
            }
        }
        let r = &rows[i];
        cpu = cpu + r.cpu as u128;
        memory = memory + r.memory as u128;
        disk = disk + r.disk as u128;
        match r.ping {
            Some(p) => {
                ping = ping + p as u128;
                pings = pings + 1;
            },
            None => {},
        }
        if sum_net {
            rx_sum = rx_sum + r.net_rx;
            tx_sum = tx_sum + r.net_tx;
        }
        i = i + 1;
    }
    assert(s.take(n as int) == s);
    proof {
        lemma_sum_bound(s, |r: MetricRow| cpu_of(r));
        lemma_sum_bound(s, |r: MetricRow| memory_of(r));
        lemma_sum_bound(s, |r: MetricRow| disk_of(r));
        lemma_ping_bounds(s);
        lemma_mean_fits(cpu as int, n as int);
        lemma_mean_fits(memory as int, n as int);
        lemma_mean_fits(disk as int, n as int);
    }
    let avg_ping = if pings == 0 {
        None
    } else {
        proof {
            lemma_mean_fits(ping as int, pings as int);
        }
        Some((ping / pings as u128) as u64)
    };
    let first = &rows[0];
    let last = &rows[n - 1];
    let (net_rx, net_tx) = if sum_net {
        (rx_sum, tx_sum)
    } else {
        (last.net_rx - first.net_rx, last.net_tx - first.net_tx)
    };
    Some(
        MetricRow {
            server_id: server_id.clone(),
            time: start,
            cpu: (cpu / n as u128) as u64,
            memory: (memory / n as u128) as u64,
            disk: (disk / n as u128) as u64,
            net_rx: net_rx,
            net_tx: net_tx,
            ping: avg_ping,
        },
    )
}

/// The values of the rollup of the rows of `server` in `raw` in the bucket
/// of width `width` from `start` (see `rollup_spec` for `sum_net`).
pub open spec fn period_rollup(raw: Seq<MetricRow>, server: Seq<char>, start: i64, width: i64, sum_net: bool) -> RowValues {
    let s = select(raw, server, start as int, start + width - 1);
    let n = s.len() as int;
    (
        server,
        start,
        (sum_by(s, |r: MetricRow| cpu_of(r)) / n) as u64,
        (sum_by(s, |r: MetricRow| memory_of(r)) / n) as u64,
        (sum_by(s, |r: MetricRow| disk_of(r)) / n) as u64,
        net_total(s, true, sum_net) as i128,
        net_total(s, false, sum_net) as i128,
        if ping_count(s) == 0 {
            None
        } else {
            Some((ping_sum(s) / ping_count(s)) as u64)
        },
    )
}

/// Whether `server` has raw rows in the bucket of width `width` from `start`.
pub open spec fn in_window(raw: Seq<MetricRow>, server: Seq<char>, start: i64, width: i64) -> bool {
    exists|j: int| 0 <= j < raw.len() && raw[j].server_id@ == server && start <= raw[j].time <= start + width - 1
}

/// Whether `r` is the row of its server for the bucket from `start`, for a
/// server with raw rows in that bucket.
pub open spec fn in_bucket(r: MetricRow, raw: Seq<MetricRow>, start: i64, width: i64) -> bool {
    r.time == start && in_window(raw, r.server_id@, start, width)
}

pub open spec fn in_done(done: Seq<String>, s: Seq<char>) -> bool {
    exists|d: int| 0 <= d < done.len() && done[d]@ == s
}

pub open spec fn rolled(r: MetricRow, done: Seq<String>, start: i64) -> bool {
    r.time == start && in_done(done, r.server_id@)
}

/// What rolling up the bucket of width `width` from `start` makes of a tier:
/// each server with raw rows in the bucket has its rollup there, that is the
/// only row of the bucket for such a server, and all other rows stay.
pub open spec fn period_post(
    raw: Seq<MetricRow>,
    start: i64,
    width: i64,
    sum_net: bool,
    before: Seq<MetricRow>,
    after: Seq<MetricRow>,
) -> bool {
    &&& crate::table::table_wf(after)
    &&& forall|j: int|
        0 <= j < raw.len() && start <= #[trigger] raw[j].time <= start + width - 1 ==> has_values(
            after,
            period_rollup(raw, raw[j].server_id@, start, width, sum_net),
        )
    &&& forall|k: int|
        0 <= k < after.len() && in_bucket(#[trigger] after[k], raw, start, width) ==> row_values(after[k])
            == period_rollup(raw, after[k].server_id@, start, width, sum_net)
    &&& forall|k: int|
        0 <= k < after.len() && !in_bucket(#[trigger] after[k], raw, start, width) ==> has_values(
            before,
            row_values(after[k]),
        )
    &&& forall|k: int|
        0 <= k < before.len() && !in_bucket(#[trigger] before[k], raw, start, width) ==> has_values(
            after,
            row_values(before[k]),
        )
}

pub open spec fn has_rows_between(s: Seq<MetricRow>, lo: int, hi: int) -> bool {
    exists|k: int| 0 <= k < s.len() && lo <= #[trigger] s[k].time <= hi
}

/// Whether some row's time lies in `[lo, hi]`.
pub fn rows_between(rows: &Vec<MetricRow>, lo: i64, hi: i64) -> (r: bool)
    ensures
        r == has_rows_between(rows@, lo as int, hi as int),
{
    let mut i: usize = 0;
    while i < rows.len()
        invariant
            i <= rows@.len(),
            forall|k: int| 0 <= k < i ==> !(lo <= #[trigger] rows@[k].time <= hi),
        decreases rows@.len() - i,
    {
        if lo <= rows[i].time && rows[i].time <= hi {
            return true;
        }
        i = i + 1;
    }
    false
}

/// The tiered store: raw samples, hourly rollups and daily rollups.
pub struct MetricsStore {
    pub raw: Table,
    pub hourly: Table,
    pub daily: Table,
}

impl MetricsStore {
    pub open spec fn wf(&self) -> bool {
        &&& self.raw.wf()
        &&& self.hourly.wf()
        &&& self.daily.wf()
        &&& counters_in_range(self.raw.rows@)
        &&& deltas_in_range(self.hourly.rows@)
    }

    pub fn new() -> (r: MetricsStore)
        ensures
            r.wf(),
            r.raw.rows@.len() == 0,
            r.hourly.rows@.len() == 0,
            r.daily.rows@.len() == 0,
    {
        MetricsStore { raw: Table::new(), hourly: Table::new(), daily: Table::new() }
    }

    /// Stores the raw row of a sample, replacing the row of the same server
    /// and time if there is one.
    pub fn insert_raw(&mut self, server_id: &String, f: &SampleFigures)
        requires
            old(self).wf(),
        ensures
            final(self).wf(),
            upsert_post(old(self).raw.rows@, raw_row_spec(*server_id, *f), final(self).raw.rows@),
            final(self).hourly == old(self).hourly,
            final(self).daily == old(self).daily,
    {
        let row = raw_row(server_id, f);
        self.raw.upsert(row);
        proof {
            let (o, n) = (old(self).raw.rows@, self.raw.rows@);
            assert forall|i: int| 0 <= i < n.len() implies 0 <= #[trigger] n[i].net_rx
                <= u64::MAX && 0 <= n[i].net_tx <= u64::MAX by {
                if crate::table::has_key(o, row) {
                    let k = choose|k: int| 0 <= k < o.len() && same_key(o[k], row);
                    assert(n == o.update(k, row));
                    if i != k {
                        assert(n[i] == o[i]);
                    }
                } else {
                    let p = choose|p: int|
                        0 <= p <= o.len() && n == o.insert(p, row) && (forall|j: int|
                            0 <= j < p ==> o[j].time <= row.time) && (forall|j: int|
                            p <= j < o.len() ==> o[j].time > row.time);
                    if i < p {
                        assert(n[i] == o[i]);
                    } else if i > p {
                        assert(n[i] == o[i - 1]);
                    }
                }
            }
        }
    }

    /// The rows rollups are made from: the hourly tier or the raw rows.
    pub open spec fn source(&self, from_hourly: bool) -> Seq<MetricRow> {
        if from_hourly { self.hourly.rows@ } else { self.raw.rows@ }
    }

    fn source_table(&self, from_hourly: bool) -> (r: &Table)
        ensures
            *r == if from_hourly { self.hourly } else { self.raw },
    {
        if from_hourly { &self.hourly } else { &self.raw }
    }

    /// Computes the rollup of the rows of `server_id` in the bucket of width
    /// `width` starting at `start`, taken from the hourly tier (if
    /// `from_hourly`, summing their traffic) or the raw rows, and upserts it
    /// into `hourly` (or `daily` when `into_daily`). Returns whether there
    /// were rows to roll up; without any, nothing changes.
    pub fn aggregate_bucket(
        &mut self,
        server_id: &String,
        start: i64,
        width: i64,
        from_hourly: bool,
        into_daily: bool,
    ) -> (r: bool)
        requires
            old(self).wf(),
            0 < width,
            start + width - 1 <= i64::MAX,
            from_hourly ==> into_daily && width <= DAY_SECS,
        ensures
            final(self).wf(),
            final(self).raw == old(self).raw,
            ({
                let rows = select(old(self).source(from_hourly), server_id@, start as int, start + width - 1);
                let row = rollup_spec(rows, *server_id, start, from_hourly);
                &&& r == (rows.len() > 0)
                &&& if !r || into_daily {
                    final(self).hourly == old(self).hourly
                } else {
                    upsert_post(old(self).hourly.rows@, row, final(self).hourly.rows@)
                }
                &&& if !r || !into_daily {
                    final(self).daily == old(self).daily
                } else {
                    upsert_post(old(self).daily.rows@, row, final(self).daily.rows@)
                }
            }),
    {
        let rows = self.source_table(from_hourly).select(server_id, start, start + (width - 1));
        proof {
            let s = self.source(from_hourly);
            lemma_select_all_match(s, server_id@, start as int, start + width - 1);
            lemma_select_from(s, server_id@, start as int, start + width - 1);
            if from_hourly {
                lemma_bucket_rows_count(rows@, server_id@, start as int, start + width - 1);
                assert forall|k: int| 0 <= k < rows@.len() implies -(u64::MAX as int) <= #[trigger] rows@[k].net_rx
                    <= u64::MAX && -(u64::MAX as int) <= rows@[k].net_tx <= u64::MAX by {
                    let i = choose|i: int| 0 <= i < s.len() && s[i] == rows@[k];
                }
            } else {
                assert forall|k: int| 0 <= k < rows@.len() implies 0 <= #[trigger] rows@[k].net_rx <= u64::MAX
                    && 0 <= rows@[k].net_tx <= u64::MAX by {
                    let i = choose|i: int| 0 <= i < s.len() && s[i] == rows@[k];
                }
            }
        }
        match rollup(&rows, server_id, start, from_hourly) {
            Some(row) => {
                if into_daily {
                    self.daily.upsert(row);
                } else {
                    let ghost old_hourly = self.hourly.rows@;
                    self.hourly.upsert(row);
                    proof {
                        lemma_upsert_members(old_hourly, row, self.hourly.rows@);
                        let h = self.hourly.rows@;
                        assert forall|k: int| 0 <= k < h.len() implies -(u64::MAX as int) <= #[trigger] h[k].net_rx
                            <= u64::MAX && -(u64::MAX as int) <= h[k].net_tx <= u64::MAX by {
                            if row_values(h[k]) != row_values(row) {
                                let q = choose|q: int| 0 <= q < old_hourly.len() && row_values(old_hourly[q]) == row_values(h[k]);
                                assert(old_hourly[q].net_rx == h[k].net_rx);
                            }
                        }
                    }
                }
                true
            },
            None => false,
        }
    }

    pub open spec fn tier(&self, daily: bool) -> Seq<MetricRow> {
        if daily { self.daily.rows@ } else { self.hourly.rows@ }
    }

    /// Rolls up, for every server with raw rows in the bucket of width
    /// `width` from `start`, those rows into one row of the daily tier (if
    /// `into_daily`) or the hourly tier, replacing that server's row for the
    /// bucket. Every other row stays as it was.
    pub fn aggregate_period(&mut self, start: i64, width: i64, from_hourly: bool, into_daily: bool)
        requires
            old(self).wf(),
            0 < width,
            start + width - 1 <= i64::MAX,
            from_hourly ==> into_daily && width <= DAY_SECS,
        ensures
            final(self).wf(),
            final(self).raw == old(self).raw,
            final(self).tier(!into_daily) == old(self).tier(!into_daily),
            period_post(
                old(self).source(from_hourly),
                start,
                width,
                from_hourly,
                old(self).tier(into_daily),
                final(self).tier(into_daily),
            ),
    {
        let ghost raw = self.source(from_hourly);
        let ghost t0 = self.tier(into_daily);
        let n = self.source_table(from_hourly).rows.len();
        let mut done: Vec<String> = Vec::new();
        let mut i: usize = 0;
        while i < n
            invariant
                self.wf(),
                self.source(from_hourly) == raw,
                n == raw.len(),
                i <= n,
                0 < width,
                from_hourly ==> into_daily && width <= DAY_SECS,
                start + width - 1 <= i64::MAX,
                self.tier(!into_daily) == old(self).tier(!into_daily),
                t0 == old(self).tier(into_daily),
                raw == old(self).source(from_hourly),
                self.raw == old(self).raw,
                forall|d: int| 0 <= d < done@.len() ==> in_window(raw, (#[trigger] done@[d])@, start, width),
                forall|d: int| 0 <= d < done@.len() ==> has_values(
                    self.tier(into_daily),
                    period_rollup(raw, (#[trigger] done@[d])@, start, width, from_hourly),
                ),
                forall|j: int| 0 <= j < i && start <= #[trigger] raw[j].time <= start + width - 1
                    ==> in_done(done@, raw[j].server_id@),
                forall|k: int| 0 <= k < self.tier(into_daily).len() && rolled(#[trigger] self.tier(into_daily)[k], done@, start)
                    ==> row_values(self.tier(into_daily)[k]) == period_rollup(raw, self.tier(into_daily)[k].server_id@, start, width, from_hourly),
                forall|k: int| 0 <= k < self.tier(into_daily).len() && !rolled(#[trigger] self.tier(into_daily)[k], done@, start)
                    ==> has_values(t0, row_values(self.tier(into_daily)[k])),
                forall|k: int| 0 <= k < t0.len() && !rolled(#[trigger] t0[k], done@, start)
                    ==> has_values(self.tier(into_daily), row_values(t0[k])),
            decreases n - i,
        {
            let t = self.source_table(from_hourly).rows[i].time;
            let ghost done0 = done@;
            if start <= t && t <= start + (width - 1) {
                let mut seen = false;
                let mut d: usize = 0;
                while d < done.len()
                    invariant
                        d <= done@.len(),
                        seen ==> in_done(done@, raw[i as int].server_id@),
                        !seen ==> forall|e: int| 0 <= e < d ==> done@[e]@ != raw[i as int].server_id@,
                        self.source(from_hourly) == raw,
                        i < n,
                        n == raw.len(),
                    decreases done@.len() - d,
                {
                    if done[d] == self.source_table(from_hourly).rows[i].server_id {
                        seen = true;
                    }
                    d = d + 1;
                }
                if !seen {
                    let server = self.source_table(from_hourly).rows[i].server_id.clone();
                    let ghost before = self.tier(into_daily);
                    let ghost sel = select(raw, server@, start as int, start + width - 1);
                    let ghost row = rollup_spec(sel, server, start, from_hourly);
                    proof {
                        crate::table::lemma_select_has(raw, server@, start as int, start + width - 1, i as int);
                    }
                    let found = self.aggregate_bucket(&server, start, width, from_hourly, into_daily);
                    done.push(server);
                    proof {
                        assert(found);
                        let after = self.tier(into_daily);
                        assert(upsert_post(before, row, after));
                        lemma_upsert_members(before, row, after);
                        assert(row_values(row) == period_rollup(raw, server@, start, width, from_hourly));
                        assert(done@.last()@ == raw[i as int].server_id@);
                        assert(forall|e: int| 0 <= e < done0.len() ==> done@[e] == done0[e]);
                        assert forall|s: Seq<char>| #[trigger] in_done(done@, s) == (in_done(done0, s) || s == server@) by {
                            if in_done(done@, s) {
                                let e = choose|e: int| 0 <= e < done@.len() && done@[e]@ == s;
                                if e < done0.len() {
                                    assert(done0[e]@ == s);
                                }
                            }
                            if in_done(done0, s) {
                                let e = choose|e: int| 0 <= e < done0.len() && done0[e]@ == s;
                                assert(done@[e]@ == s);
                            }
                            if s == server@ {
                                assert(done@[done@.len() - 1]@ == s);
                            }
                        }
                        assert forall|e: int| 0 <= e < done@.len() implies in_window(raw, (#[trigger] done@[e])@, start, width) by {
                            if e < done0.len() {
                                assert(done@[e] == done0[e]);
                            } else {
                                assert(raw[i as int].server_id@ == done@[e]@);
                            }
                        }
                        assert forall|e: int| 0 <= e < done@.len() implies has_values(
                            after,
                            period_rollup(raw, (#[trigger] done@[e])@, start, width, from_hourly),
                        ) by {
                            if e < done0.len() {
                                assert(done@[e] == done0[e]);
                                let v = period_rollup(raw, done0[e]@, start, width, from_hourly);
                                let q = choose|q: int| 0 <= q < before.len() && row_values(before[q]) == v;
                                assert(done0[e]@ != server@);
                                assert(!same_key(before[q], row));
                            }
                        }
                        let p = choose|p: int| 0 <= p < after.len() && row_values(after[p]) == row_values(row);
                        assert forall|k: int| 0 <= k < after.len() && rolled(#[trigger] after[k], done@, start)
                            implies row_values(after[k]) == period_rollup(raw, after[k].server_id@, start, width, from_hourly) by {
                            if after[k].server_id@ == server@ {
                                if k != p {
                                    assert(same_key(after[k], after[p]));
                                    if k < p {
                                        assert(!same_key(after[k], after[p]));
                                    } else {
                                        assert(!same_key(after[p], after[k]));
                                    }
                                }
                            } else {
                                if row_values(after[k]) != row_values(row) {
                                    let q = choose|q: int| 0 <= q < before.len() && row_values(before[q]) == row_values(after[k]);
                                    assert(rolled(before[q], done0, start));
                                }
                            }
                        }
                        assert forall|k: int| 0 <= k < after.len() && !rolled(#[trigger] after[k], done@, start)
                            implies has_values(t0, row_values(after[k])) by {
                            if row_values(after[k]) != row_values(row) {
                                let q = choose|q: int| 0 <= q < before.len() && row_values(before[q]) == row_values(after[k]);
                                assert(!rolled(before[q], done0, start));
                            }
                        }
                        assert forall|k: int| 0 <= k < t0.len() && !rolled(#[trigger] t0[k], done@, start)
                            implies has_values(after, row_values(t0[k])) by {
                            assert(!rolled(t0[k], done0, start));
                            let q = choose|q: int| 0 <= q < before.len() && row_values(before[q]) == row_values(t0[k]);
                            assert(!same_key(before[q], row));
                        }
                    }
                }
            }
            proof {
                assert forall|j: int| 0 <= j < i + 1 && start <= #[trigger] raw[j].time <= start + width - 1
                    implies in_done(done@, raw[j].server_id@) by {
                    if j < i {
                        let d = choose|d: int| 0 <= d < done0.len() && done0[d]@ == raw[j].server_id@;
                        assert(done@[d] == done0[d]);
                    }
                }
            }
            i = i + 1;
        }
        proof {
            let after = self.tier(into_daily);
            assert forall|s: Seq<char>| #[trigger] in_done(done@, s) == in_window(raw, s, start, width) by {
                if in_window(raw, s, start, width) {
                    let j = choose|j: int| 0 <= j < raw.len() && raw[j].server_id@ == s && start <= raw[j].time
                        <= start + width - 1;
                    assert(start <= raw[j].time <= start + width - 1);
                }
                if in_done(done@, s) {
                    let d = choose|d: int| 0 <= d < done@.len() && done@[d]@ == s;
                    assert(in_window(raw, done@[d]@, start, width));
                }
            }
            assert forall|j: int| 0 <= j < raw.len() && start <= #[trigger] raw[j].time <= start + width - 1
                implies has_values(after, period_rollup(raw, raw[j].server_id@, start, width, from_hourly)) by {
                let d = choose|d: int| 0 <= d < done@.len() && done@[d]@ == raw[j].server_id@;
                assert(has_values(after, period_rollup(raw, done@[d]@, start, width, from_hourly)));
            }
            assert forall|k: int| 0 <= k < after.len() implies (#[trigger] rolled(after[k], done@, start)) == in_bucket(
                after[k],
                raw,
                start,
                width,
            ) by {
                assert(in_done(done@, after[k].server_id@) == in_window(raw, after[k].server_id@, start, width));
            }
            assert forall|k: int| 0 <= k < t0.len() implies (#[trigger] rolled(t0[k], done@, start)) == in_bucket(
                t0[k],
                raw,
                start,
                width,
            ) by {
                assert(in_done(done@, t0[k].server_id@) == in_window(raw, t0[k].server_id@, start, width));
            }
        }
    }

    /// Rolls up the raw rows of the hour before the one that holds `now`.
    pub fn aggregate_hourly(&mut self, now: i64)
        requires
            old(self).wf(),
        ensures
            final(self).wf(),
            final(self).raw == old(self).raw,
            final(self).daily.rows@ == old(self).daily.rows@,
            ({
                let start = bucket_start(now as int, HOUR_SECS as int) - HOUR_SECS;
                &&& start >= i64::MIN ==> period_post(
                    old(self).raw.rows@,
                    start as i64,
                    HOUR_SECS,
                    false,
                    old(self).hourly.rows@,
                    final(self).hourly.rows@,
                )
                &&& start < i64::MIN ==> final(self).hourly.rows@ == old(self).hourly.rows@
            }),
    {
        match previous_bucket(now, HOUR_SECS) {
            Some(start) => self.aggregate_period(start, HOUR_SECS, false, false),
            None => {},
        }
    }

    /// Rolls up the day before the one that holds `now`: from the hourly
    /// rows of that day, or from its raw rows where there are no hourly rows.
    pub fn aggregate_daily(&mut self, now: i64)
        requires
            old(self).wf(),
        ensures
            final(self).wf(),
            final(self).raw == old(self).raw,
            final(self).hourly.rows@ == old(self).hourly.rows@,
            ({
                let start = bucket_start(now as int, DAY_SECS as int) - DAY_SECS;
                let from_hourly = has_rows_between(old(self).hourly.rows@, start, start + DAY_SECS - 1);
                &&& start >= i64::MIN ==> period_post(
                    if from_hourly { old(self).hourly.rows@ } else { old(self).raw.rows@ },
                    start as i64,
                    DAY_SECS,
                    from_hourly,
                    old(self).daily.rows@,
                    final(self).daily.rows@,
                )
                &&& start < i64::MIN ==> final(self).daily.rows@ == old(self).daily.rows@
            }),
    {
        match previous_bucket(now, DAY_SECS) {
            Some(start) => {
                let from_hourly = rows_between(&self.hourly.rows, start, start + (DAY_SECS - 1));
                self.aggregate_period(start, DAY_SECS, from_hourly, true);
            },
            None => {},
        }
    }

    /// Removes raw rows older than 48 hours, hourly rows older than 90 days
    /// and daily rows older than 730 days, as of `now`.
    pub fn cleanup(&mut self, now: i64)
        requires
            old(self).wf(),
        ensures
            final(self).wf(),
            final(self).raw.rows@ == keep_from(old(self).raw.rows@, now - RAW_RETENTION_SECS),
            final(self).hourly.rows@ == keep_from(old(self).hourly.rows@, now - HOURLY_RETENTION_SECS),
            final(self).daily.rows@ == keep_from(old(self).daily.rows@, now - DAILY_RETENTION_SECS),
    {
        let ghost o = self.raw.rows@;
        let ghost oh = self.hourly.rows@;
        let ghost od = self.daily.rows@;
        let raw_cut = window_start(now, RAW_RETENTION_SECS);
        let hourly_cut = window_start(now, HOURLY_RETENTION_SECS);
        let daily_cut = window_start(now, DAILY_RETENTION_SECS);
        proof {
            if now - RAW_RETENTION_SECS < i64::MIN {
                lemma_keep_from_low(o, raw_cut as int, now - RAW_RETENTION_SECS);
            }
            if now - HOURLY_RETENTION_SECS < i64::MIN {
                lemma_keep_from_low(oh, hourly_cut as int, now - HOURLY_RETENTION_SECS);
            }
            if now - DAILY_RETENTION_SECS < i64::MIN {
                lemma_keep_from_low(od, daily_cut as int, now - DAILY_RETENTION_SECS);
            }
        }
        self.raw.retain_from(raw_cut);
        proof {
            lemma_keep_from_members(o, raw_cut as int);
            let n = self.raw.rows@;
            assert forall|k: int| 0 <= k < n.len() implies 0 <= #[trigger] n[k].net_rx <= u64::MAX
                && 0 <= n[k].net_tx <= u64::MAX by {
                let i = choose|i: int| 0 <= i < o.len() && o[i] == n[k];
            }
        }
        self.hourly.retain_from(hourly_cut);
        proof {
            lemma_keep_from_members(oh, hourly_cut as int);
            let h = self.hourly.rows@;
            assert forall|k: int| 0 <= k < h.len() implies -(u64::MAX as int) <= #[trigger] h[k].net_rx <= u64::MAX
                && -(u64::MAX as int) <= h[k].net_tx <= u64::MAX by {
                let i = choose|i: int| 0 <= i < oh.len() && oh[i] == h[k];
            }
        }
        self.daily.retain_from(daily_cut);
    }

    /// The points of `server_id` for `range` as of `now`, in ascending time order.
    pub fn query_range(&self, server_id: &String, range: HistoryRange, now: i64) -> (r: Vec<MetricRow>)
        requires
            self.wf(),
        ensures
            r@ == range_rows(*self, server_id@, range, now as int),
    {
        let ghost sv = server_id@;
        match range {
            HistoryRange::Hour => {
                let lo = window_start(now, HOUR_SECS);
                proof {
                    if now - HOUR_SECS < i64::MIN {
                        lemma_select_low(self.raw.rows@, sv, lo as int, now - HOUR_SECS, now as int);
                    }
                }
                self.raw.select(server_id, lo, now)
            },
            HistoryRange::Day => {
                let lo = window_start(now, DAY_SECS);
                proof {
                    if now - DAY_SECS < i64::MIN {
                        lemma_select_low(self.raw.rows@, sv, lo as int, now - DAY_SECS, now as int);
                    }
                }
                let rows = self.raw.select(server_id, lo, now);
                decimate_rows(&rows)
            },
            HistoryRange::Week => {
                let lo = window_start(now, 7 * DAY_SECS);
                proof {
                    if now - 7 * DAY_SECS < i64::MIN {
                        lemma_select_low(self.hourly.rows@, sv, lo as int, now - 7 * DAY_SECS, now as int);
                    }
                }
                self.hourly.select(server_id, lo, now)
            },
            HistoryRange::Month => {
                let lo = bucket_floor(now, 30 * DAY_SECS, DAY_SECS);
                proof {
                    let b = bucket_start(now - 30 * DAY_SECS, DAY_SECS as int);
                    if b < i64::MIN {
                        lemma_select_low(self.daily.rows@, sv, lo as int, b, now as int);
                    }
                }
                self.daily.select(server_id, lo, now)
            },
            HistoryRange::Year => {
                let lo = bucket_floor(now, 365 * DAY_SECS, DAY_SECS);
                proof {
                    let b = bucket_start(now - 365 * DAY_SECS, DAY_SECS as int);
                    if b < i64::MIN {
                        lemma_select_low(self.daily.rows@, sv, lo as int, b, now as int);
                    }
                }
                self.daily.select(server_id, lo, now)
            },
        }
    }
}

/// Every row that `select` gives is a row of the table.
pub proof fn lemma_select_from(s: Seq<MetricRow>, server: Seq<char>, lo: int, hi: int)
    ensures
        forall|k: int| 0 <= k < select(s, server, lo, hi).len() ==> exists|i: int|
            0 <= i < s.len() && s[i] == #[trigger] select(s, server, lo, hi)[k],
    decreases s.len(),
{
    if s.len() > 0 {
        lemma_select_from(s.drop_last(), server, lo, hi);
        let p = s.drop_last();
        assert forall|k: int| 0 <= k < select(s, server, lo, hi).len() implies exists|i: int|
            0 <= i < s.len() && s[i] == #[trigger] select(s, server, lo, hi)[k] by {
            if k < select(p, server, lo, hi).len() {
                let i = choose|i: int| 0 <= i < p.len() && p[i] == select(p, server, lo, hi)[k];
                assert(s[i] == p[i]);
            } else {
                assert(s[s.len() - 1] == select(s, server, lo, hi)[k]);
            }
        }
    }
}

/// Every row that `keep_from` keeps is a row of the table, from `cutoff` on.
pub proof fn lemma_keep_from_members(s: Seq<MetricRow>, cutoff: int)
    ensures
        forall|k: int| 0 <= k < keep_from(s, cutoff).len() ==> #[trigger] keep_from(s, cutoff)[k].time >= cutoff,
        forall|k: int| 0 <= k < keep_from(s, cutoff).len() ==> exists|i: int|
            0 <= i < s.len() && s[i] == #[trigger] keep_from(s, cutoff)[k],
    decreases s.len(),
{
    if s.len() > 0 {
        let p = s.drop_last();
        lemma_keep_from_members(p, cutoff);
        assert forall|k: int| 0 <= k < keep_from(s, cutoff).len() implies exists|i: int|
            0 <= i < s.len() && s[i] == #[trigger] keep_from(s, cutoff)[k] by {
            if k < keep_from(p, cutoff).len() {
                let i = choose|i: int| 0 <= i < p.len() && p[i] == keep_from(p, cutoff)[k];
                assert(s[i] == p[i]);
            } else {
                assert(s[s.len() - 1] == keep_from(s, cutoff)[k]);
            }
        }
    }
}

/// Keeps the first row of each decimation bucket of rows in time order.
pub fn decimate_rows(rows: &Vec<MetricRow>) -> (r: Vec<MetricRow>)
    ensures
        r@ == decimate(rows@),
{
    let ghost s = rows@;
    let mut out: Vec<MetricRow> = Vec::new();
    let mut last_bucket: i64 = 0;
    let mut i: usize = 0;
    while i < rows.len()
        invariant
            rows@ == s,
            i <= s.len(),
            out@ == decimate(s.take(i as int)),
            out@.len() > 0 ==> last_bucket == decimation_bucket(out@.last().time),
        decreases s.len() - i,
    {
        assert(s.take(i as int + 1).drop_last() == s.take(i as int));
        let b = floor_div(rows[i].time, DECIMATION_SECS);
        if out.len() == 0 || last_bucket != b {
            out.push(rows[i].copy());
            last_bucket = b;
        }
        i = i + 1;
    }
    assert(s.take(s.len() as int) == s);
    out
}


/// Rows picked by `select` from a table in time order are in time order.
pub proof fn lemma_select_sorted(s: Seq<MetricRow>, server: Seq<char>, lo: int, hi: int)
    requires
        sorted_by_time(s),
    ensures
        sorted_by_time(select(s, server, lo, hi)),
    decreases s.len(),
{
    if s.len() > 0 {
        let p = s.drop_last();
        lemma_select_sorted(p, server, lo, hi);
        lemma_select_from(p, server, lo, hi);
        let sp = select(p, server, lo, hi);
        let ss = select(s, server, lo, hi);
        assert forall|a: int, b: int| 0 <= a < b < ss.len() implies ss[a].time <= ss[b].time by {
            if b == sp.len() && ss.len() > sp.len() {
                let i = choose|i: int| 0 <= i < p.len() && p[i] == sp[a];
                assert(s[i] == p[i]);
            }
        }
    }
}

/// Decimating rows in time order keeps rows of `s` with strictly increasing buckets.
pub proof fn lemma_decimate_increasing(s: Seq<MetricRow>)
    requires
        sorted_by_time(s),
    ensures
        forall|k: int| 0 <= k < decimate(s).len() ==> exists|i: int|
            0 <= i < s.len() && s[i] == #[trigger] decimate(s)[k],
        forall|a: int, b: int| 0 <= a < b < decimate(s).len() ==> decimation_bucket(
            #[trigger] decimate(s)[a].time,
        ) < decimation_bucket(#[trigger] decimate(s)[b].time),
    decreases s.len(),
{
    if s.len() > 0 {
        let p = s.drop_last();
        lemma_decimate_increasing(p);
        let dp = decimate(p);
        let ds = decimate(s);
        assert forall|k: int| 0 <= k < ds.len() implies exists|i: int|
            0 <= i < s.len() && s[i] == #[trigger] ds[k] by {
            if k < dp.len() {
                let i = choose|i: int| 0 <= i < p.len() && p[i] == dp[k];
                assert(s[i] == p[i]);
            } else {
                assert(s[s.len() - 1] == ds[k]);
            }
        }
        if ds.len() > dp.len() && dp.len() > 0 {
            let i = choose|i: int| 0 <= i < p.len() && p[i] == dp[dp.len() - 1];
            assert(s[i] == p[i]);
            assert(dp.last().time <= s.last().time);
            vstd::arithmetic::div_mod::lemma_div_is_ordered(
                dp.last().time as int,
                s.last().time as int,
                DECIMATION_SECS as int,
            );
            assert forall|a: int, b: int| 0 <= a < b < ds.len() implies decimation_bucket(
                #[trigger] ds[a].time,
            ) < decimation_bucket(#[trigger] ds[b].time) by {
                if b == dp.len() && a < dp.len() - 1 {
                    assert(decimation_bucket(dp[a].time) < decimation_bucket(dp[dp.len() - 1].time));
                }
            }
        }
    }
}

/// A strictly increasing sequence of integers in `[lo, hi]` has at most
/// `hi - lo + 1` elements.
pub proof fn lemma_increasing_count(v: Seq<int>, lo: int, hi: int)
    requires
        lo <= hi + 1,
        forall|k: int| 0 <= k < v.len() ==> lo <= #[trigger] v[k] <= hi,
        forall|a: int, b: int| 0 <= a < b < v.len() ==> #[trigger] v[a] < #[trigger] v[b],
    ensures
        v.len() <= hi - lo + 1,
    decreases v.len(),
{
    if v.len() > 0 {
        let p = v.drop_last();
        assert forall|k: int| 0 <= k < p.len() implies lo <= #[trigger] p[k] <= v.last() - 1 by {
            assert(v[k] < v[v.len() - 1]);
        }
        lemma_increasing_count(p, lo, v.last() - 1);
    }
}

/// The 24-hour range returns at most one row per five-minute bucket of the
/// window: at most 24 * 60 / 5 + 1 = 289 rows for a server.
pub proof fn lemma_day_range_bound(store: MetricsStore, server: Seq<char>, now: int)
    requires
        store.wf(),
    ensures
        range_rows(store, server, HistoryRange::Day, now).len() <= 289,
{
    let lo = now - DAY_SECS;
    let sel = select(store.raw.rows@, server, lo, now);
    lemma_select_sorted(store.raw.rows@, server, lo, now);
    lemma_select_all_match(store.raw.rows@, server, lo, now);
    lemma_decimate_increasing(sel);
    let dec = decimate(sel);
    let w = DECIMATION_SECS as int;
    let v = dec.map_values(|r: MetricRow| decimation_bucket(r.time));
    assert forall|k: int| 0 <= k < v.len() implies lo / w <= #[trigger] v[k] <= now / w by {
        let i = choose|i: int| 0 <= i < sel.len() && sel[i] == dec[k];
        assert(lo <= sel[i].time <= now);
        vstd::arithmetic::div_mod::lemma_div_is_ordered(lo, dec[k].time as int, w);
        vstd::arithmetic::div_mod::lemma_div_is_ordered(dec[k].time as int, now, w);
    }
    assert forall|a: int, b: int| 0 <= a < b < v.len() implies #[trigger] v[a] < #[trigger] v[b] by {
        assert(decimation_bucket(dec[a].time) < decimation_bucket(dec[b].time));
    }
    let q = now / w;
    let r = now % w;
    vstd::arithmetic::div_mod::lemma_fundamental_div_mod(now, w);
    vstd::arithmetic::div_mod::lemma_mod_bound(now, w);
    assert(lo == w * (q - 288) + r);
    vstd::arithmetic::div_mod::lemma_div_multiples_vanish_fancy(q - 288, r, w);
    lemma_increasing_count(v, lo / w, now / w);
}

/// After a cleanup at `now` no raw row is older than 48 hours, no hourly row
/// older than 90 days and no daily row older than 730 days.
pub proof fn lemma_retention(store: MetricsStore, now: int)
    ensures
        forall|k: int| 0 <= k < keep_from(store.raw.rows@, now - RAW_RETENTION_SECS).len()
            ==> #[trigger] keep_from(store.raw.rows@, now - RAW_RETENTION_SECS)[k].time >= now
            - RAW_RETENTION_SECS,
        forall|k: int| 0 <= k < keep_from(store.hourly.rows@, now - HOURLY_RETENTION_SECS).len()
            ==> #[trigger] keep_from(store.hourly.rows@, now - HOURLY_RETENTION_SECS)[k].time >= now
            - HOURLY_RETENTION_SECS,
        forall|k: int| 0 <= k < keep_from(store.daily.rows@, now - DAILY_RETENTION_SECS).len()
            ==> #[trigger] keep_from(store.daily.rows@, now - DAILY_RETENTION_SECS)[k].time >= now
            - DAILY_RETENTION_SECS,
{
    lemma_keep_from_members(store.raw.rows@, now - RAW_RETENTION_SECS);
    lemma_keep_from_members(store.hourly.rows@, now - HOURLY_RETENTION_SECS);
    lemma_keep_from_members(store.daily.rows@, now - DAILY_RETENTION_SECS);
}

/// Running the rollup of a period twice over the same raw rows leaves a tier
/// with the same row values as running it once.
pub proof fn lemma_period_rollup_idempotent(
    raw: Seq<MetricRow>,
    start: i64,
    width: i64,
    sum_net: bool,
    t0: Seq<MetricRow>,
    t1: Seq<MetricRow>,
    t2: Seq<MetricRow>,
)
    requires
        period_post(raw, start, width, sum_net, t0, t1),
        period_post(raw, start, width, sum_net, t1, t2),
    ensures
        forall|v: RowValues| has_values(t1, v) <==> has_values(t2, v),
{
    assert forall|v: RowValues| has_values(t1, v) implies has_values(t2, v) by {
        let k = choose|k: int| 0 <= k < t1.len() && row_values(t1[k]) == v;
        if in_bucket(t1[k], raw, start, width) {
            let j = choose|j: int|
                0 <= j < raw.len() && raw[j].server_id@ == t1[k].server_id@ && start <= raw[j].time <= start + width - 1;
            assert(start <= raw[j].time <= start + width - 1);
        }
    }
    assert forall|v: RowValues| has_values(t2, v) implies has_values(t1, v) by {
        let k = choose|k: int| 0 <= k < t2.len() && row_values(t2[k]) == v;
        if in_bucket(t2[k], raw, start, width) {
            let j = choose|j: int|
                0 <= j < raw.len() && raw[j].server_id@ == t2[k].server_id@ && start <= raw[j].time <= start + width - 1;
            assert(start <= raw[j].time <= start + width - 1);
        }
    }
}

/// Rolling up the same bucket twice over the same raw rows leaves the tier
/// exactly as the first rollup left it.
pub proof fn lemma_aggregation_idempotent(
    raw: Seq<MetricRow>,
    server_id: String,
    start: i64,
    width: i64,
    sum_net: bool,
    t0: Seq<MetricRow>,
    t1: Seq<MetricRow>,
    t2: Seq<MetricRow>,
)
    requires
        crate::table::table_wf(t0),
        upsert_post(t0, rollup_spec(select(raw, server_id@, start as int, start + width - 1), server_id, start, sum_net), t1),
        upsert_post(t1, rollup_spec(select(raw, server_id@, start as int, start + width - 1), server_id, start, sum_net), t2),
    ensures
        t2 == t1,
{
    crate::table::lemma_upsert_idempotent(
        t0,
        rollup_spec(select(raw, server_id@, start as int, start + width - 1), server_id, start, sum_net),
        t1,
        t2,
    );
}

} // verus!
