use vstats::store::{
    bucket_start_of, decimate_rows, default_range, floor_div, raw_row, rollup, HistoryRange, MetricsStore,
    SampleFigures,
};
use vstats::table::{MetricRow, Table};

const HOUR: i64 = 3600;
const DAY: i64 = 86400;
// 2023-11-14T22:00:00Z, on an hour boundary.
const T0: i64 = 1_699_999_200;

fn sample(ts: i64, cpu: u64, rx: u64, tx: u64) -> SampleFigures {
    SampleFigures {
        timestamp: ts,
        cpu,
        memory: 5000,
        disk_usages: vec![1000, 3000],
        total_rx: rx,
        total_tx: tx,
        ping_latencies: None,
    }
}

fn id() -> String {
    "srv-1".to_string()
}

#[test]
fn day_range_is_decimated_to_five_minutes() {
    let mut store = MetricsStore::new();
    let now = T0 + DAY;
    for i in 0..1440i64 {
        store.insert_raw(&id(), &sample(now - 1439 * 60 + i * 60, 100, 0, 0));
    }
    assert_eq!(store.raw.rows.len(), 1440);
    let rows = store.query_range(&id(), HistoryRange::Day, now);
    assert!(rows.len() >= 280 && rows.len() <= 300, "got {}", rows.len());
    for w in rows.windows(2) {
        assert!(w[0].time < w[1].time);
    }
}

#[test]
fn hourly_rollup_averages_and_deltas() {
    let mut store = MetricsStore::new();
    for i in 0..60u64 {
        store.insert_raw(&id(), &sample(T0 + (i as i64) * 60, i * 100, 1000 + i * 10, 50 + i));
    }
    store.aggregate_hourly(T0 + HOUR + 5);
    assert_eq!(store.hourly.rows.len(), 1);
    let row = &store.hourly.rows[0];
    assert_eq!(row.time, T0);
    assert_eq!(row.cpu, 2950);
    assert_eq!(row.memory, 5000);
    assert_eq!(row.disk, 3000);
    assert_eq!(row.net_rx, (1000 + 59 * 10) - 1000);
    assert_eq!(row.net_tx, 59);
    assert_eq!(row.ping, None);
}

#[test]
fn hourly_rollup_twice_gives_same_rows() {
    let mut store = MetricsStore::new();
    for i in 0..60u64 {
        store.insert_raw(&id(), &sample(T0 + (i as i64) * 60, i * 100, i, i));
        store.insert_raw(&"srv-2".to_string(), &sample(T0 + (i as i64) * 60 + 1, 100, i, i));
    }
    store.aggregate_hourly(T0 + HOUR);
    let first: Vec<(String, i64, u64, i128)> =
        store.hourly.rows.iter().map(|r| (r.server_id.clone(), r.time, r.cpu, r.net_rx)).collect();
    store.aggregate_hourly(T0 + HOUR);
    let second: Vec<(String, i64, u64, i128)> =
        store.hourly.rows.iter().map(|r| (r.server_id.clone(), r.time, r.cpu, r.net_rx)).collect();
    assert_eq!(first.len(), 2);
    assert_eq!(first, second);
}

#[test]
fn daily_rollup_of_previous_day() {
    let mut store = MetricsStore::new();
    let day0 = (T0 / DAY) * DAY;
    store.insert_raw(&id(), &sample(day0 + 10, 1000, 5, 5));
    store.insert_raw(&id(), &sample(day0 + 20000, 3000, 105, 25));
    store.aggregate_daily(day0 + DAY + 100);
    assert_eq!(store.daily.rows.len(), 1);
    assert_eq!(store.daily.rows[0].time, day0);
    assert_eq!(store.daily.rows[0].cpu, 2000);
    assert_eq!(store.daily.rows[0].net_rx, 100);
    assert_eq!(store.daily.rows[0].net_tx, 20);
}

#[test]
fn cleanup_applies_retention_windows() {
    let mut store = MetricsStore::new();
    let now = T0 + 1000 * DAY;
    store.insert_raw(&id(), &sample(now - 48 * HOUR - 1, 1, 0, 0));
    store.insert_raw(&id(), &sample(now - 48 * HOUR, 2, 0, 0));
    store.hourly.upsert(row(now - 90 * DAY - 1));
    store.hourly.upsert(row(now - 90 * DAY));
    store.daily.upsert(row(now - 730 * DAY - 1));
    store.daily.upsert(row(now - 730 * DAY));
    store.cleanup(now);
    assert_eq!(store.raw.rows.len(), 1);
    assert_eq!(store.raw.rows[0].time, now - 48 * HOUR);
    assert_eq!(store.hourly.rows.len(), 1);
    assert_eq!(store.hourly.rows[0].time, now - 90 * DAY);
    assert_eq!(store.daily.rows.len(), 1);
    assert_eq!(store.daily.rows[0].time, now - 730 * DAY);
}

fn row(time: i64) -> MetricRow {
    MetricRow { server_id: id(), time, cpu: 0, memory: 0, disk: 0, net_rx: 0, net_tx: 0, ping: None }
}

#[test]
fn upsert_replaces_same_key_and_keeps_time_order() {
    let mut t = Table::new();
    t.upsert(row(30));
    t.upsert(row(10));
    t.upsert(row(20));
    let mut r = row(20);
    r.cpu = 7;
    t.upsert(r);
    let times: Vec<i64> = t.rows.iter().map(|r| r.time).collect();
    assert_eq!(times, vec![10, 20, 30]);
    assert_eq!(t.rows[1].cpu, 7);
}

#[test]
fn raw_row_takes_fullest_disk_and_mean_ping() {
    let f = SampleFigures {
        timestamp: 5,
        cpu: 1250,
        memory: 4000,
        disk_usages: vec![2000, 8000, 4000],
        total_rx: 10,
        total_tx: 20,
        ping_latencies: Some(vec![Some(10_000), None, Some(20_000)]),
    };
    let r = raw_row(&id(), &f);
    assert_eq!(r.disk, 8000);
    assert_eq!(r.ping, Some(15_000));
    assert_eq!(r.net_rx, 10);
    let none = SampleFigures { ping_latencies: Some(vec![None]), disk_usages: vec![], ..f };
    let r = raw_row(&id(), &none);
    assert_eq!(r.ping, None);
    assert_eq!(r.disk, 0);
}

#[test]
fn rollup_of_nothing_is_none() {
    assert!(rollup(&Vec::new(), &id(), 0, false).is_none());
    assert!(rollup(&Vec::new(), &id(), 0, true).is_none());
}

#[test]
fn ranges_select_their_tier() {
    let mut store = MetricsStore::new();
    let now = T0 + 10 * DAY;
    store.insert_raw(&id(), &sample(now - 30 * 60, 1, 0, 0));
    store.insert_raw(&id(), &sample(now - 2 * HOUR, 1, 0, 0));
    store.insert_raw(&"other".to_string(), &sample(now - 60, 1, 0, 0));
    store.hourly.upsert(row(now - 3 * DAY));
    store.hourly.upsert(row(now - 8 * DAY));
    store.daily.upsert(row(now - 20 * DAY));
    store.daily.upsert(row(now - 100 * DAY));
    assert_eq!(store.query_range(&id(), HistoryRange::Hour, now).len(), 1);
    assert_eq!(store.query_range(&id(), HistoryRange::Day, now).len(), 2);
    assert_eq!(store.query_range(&id(), HistoryRange::Week, now).len(), 1);
    assert_eq!(store.query_range(&id(), HistoryRange::Month, now).len(), 1);
    assert_eq!(store.query_range(&id(), HistoryRange::Year, now).len(), 2);
}

#[test]
fn range_names() {
    assert!(matches!(HistoryRange::parse("1h"), HistoryRange::Hour));
    assert!(matches!(HistoryRange::parse("24h"), HistoryRange::Day));
    assert!(matches!(HistoryRange::parse("7d"), HistoryRange::Week));
    assert!(matches!(HistoryRange::parse("30d"), HistoryRange::Month));
    assert!(matches!(HistoryRange::parse("1y"), HistoryRange::Year));
    assert!(matches!(HistoryRange::parse("bogus"), HistoryRange::Year));
    assert_eq!(default_range(), "24h");
}

#[test]
fn floor_division_rounds_down() {
    assert_eq!(floor_div(7, 3), 2);
    assert_eq!(floor_div(-7, 3), -3);
    assert_eq!(floor_div(-6, 3), -2);
    assert_eq!(bucket_start_of(T0 + 59, HOUR), T0);
    assert_eq!(bucket_start_of(-1, HOUR), -HOUR);
}

#[test]
fn decimation_keeps_first_of_each_bucket() {
    let rows: Vec<MetricRow> = vec![row(0), row(100), row(299), row(300), row(900)];
    let kept: Vec<i64> = decimate_rows(&rows).iter().map(|r| r.time).collect();
    assert_eq!(kept, vec![0, 300, 900]);
}

#[test]
fn daily_rollup_prefers_hourly_rows() {
    let mut store = MetricsStore::new();
    let day0 = (T0 / DAY) * DAY;
    let mut h1 = row(day0);
    h1.cpu = 1000;
    h1.net_rx = 40;
    h1.ping = Some(2000);
    let mut h2 = row(day0 + 5 * HOUR);
    h2.cpu = 2000;
    h2.net_rx = 60;
    h2.net_tx = -5;
    store.hourly.upsert(h1);
    store.hourly.upsert(h2);
    store.insert_raw(&id(), &sample(day0 + 10, 9000, 0, 0));
    store.aggregate_daily(day0 + DAY + 100);
    assert_eq!(store.daily.rows.len(), 1);
    let d = &store.daily.rows[0];
    assert_eq!(d.time, day0);
    assert_eq!(d.cpu, 1500);
    assert_eq!(d.net_rx, 100);
    assert_eq!(d.net_tx, -5);
    assert_eq!(d.ping, Some(2000));
}

#[test]
fn hourly_rollup_then_daily_from_hourly() {
    let mut store = MetricsStore::new();
    let day0 = (T0 / DAY) * DAY;
    for i in 0..4u64 {
        store.insert_raw(&id(), &sample(day0 + (i as i64) * 600, 1000 + i * 1000, 100 * i, 0));
    }
    store.aggregate_hourly(day0 + HOUR);
    assert_eq!(store.hourly.rows[0].cpu, 2500);
    assert_eq!(store.hourly.rows[0].net_rx, 300);
    store.aggregate_daily(day0 + DAY);
    assert_eq!(store.daily.rows[0].cpu, 2500);
    assert_eq!(store.daily.rows[0].net_rx, 300);
}

#[test]
fn times_near_the_lower_limit_are_handled() {
    let mut store = MetricsStore::new();
    store.insert_raw(&id(), &sample(i64::MIN, 100, 0, 0));
    assert_eq!(store.query_range(&id(), HistoryRange::Year, i64::MIN + 10).len(), 0);
    assert_eq!(store.query_range(&id(), HistoryRange::Hour, i64::MIN + 10).len(), 1);
    store.aggregate_hourly(i64::MIN + 10);
    store.aggregate_daily(i64::MIN + 10);
    store.cleanup(i64::MIN + 10);
    assert_eq!(store.raw.rows.len(), 1);
}
