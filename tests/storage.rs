use std::time::{SystemTime, UNIX_EPOCH};
use usage_tracker::{AppUsageRecord, AppUsageStats, Storage, StorageError, usage_row};

fn now() -> i64 {
    SystemTime::now().duration_since(UNIX_EPOCH).unwrap().as_secs() as i64
}

fn store() -> Storage {
    Storage::new(":memory:").expect("in-memory database")
}

fn rec(name: &str, timestamp: i64, duration: i64) -> AppUsageRecord {
    AppUsageRecord { timestamp, app_name: name.to_string(), duration }
}

fn shape(v: &[AppUsageStats]) -> Vec<(String, u64, Vec<(i64, u64)>)> {
    v.iter()
        .map(|s| (s.name.clone(), s.total_time, s.daily_usage.iter().map(|d| (d.date, d.duration)).collect()))
        .collect()
}

#[test]
fn written_record_comes_back_in_its_day() {
    let s = store();
    let d = now();
    s.record_usage(rec("Editor", d, 120)).unwrap();
    let stats = s.get_usage_stats("weekly").unwrap();
    assert_eq!(stats.len(), 1);
    assert_eq!(stats[0].name, "Editor");
    assert_eq!(stats[0].total_time, 120);
    let midnight = d - d.rem_euclid(86_400);
    assert!(stats[0].daily_usage.iter().any(|u| u.date == midnight && u.duration == 120));
}

#[test]
fn reading_twice_gives_the_same_result() {
    let s = store();
    let d = now();
    s.record_usage(rec("A", d, 10)).unwrap();
    s.record_usage(rec("B", d, 30)).unwrap();
    s.record_usage(rec("A", d, 25)).unwrap();
    let first = s.get_usage_stats("weekly").unwrap();
    let second = s.get_usage_stats("weekly").unwrap();
    assert_eq!(shape(&first), shape(&second));
    assert_eq!(first[0].name, "A");
    assert_eq!(first[0].total_time, 35);
}

#[test]
fn larger_totals_come_first() {
    let s = store();
    let d = now();
    s.record_usage(rec("A", d, 500)).unwrap();
    s.record_usage(rec("B", d, 200)).unwrap();
    s.record_usage(rec("C", d, 500)).unwrap();
    let first = s.get_usage_stats("weekly").unwrap();
    let names: Vec<String> = first.iter().map(|x| x.name.clone()).collect();
    assert_eq!(names.len(), 3);
    assert_eq!(names[2], "B");
    assert!(names[..2].contains(&"A".to_string()) && names[..2].contains(&"C".to_string()));
    let second = s.get_usage_stats("weekly").unwrap();
    assert_eq!(shape(&first), shape(&second));
}

#[test]
fn empty_month_is_an_empty_result() {
    let s = store();
    assert!(s.get_usage_stats("monthly").unwrap().is_empty());
    s.record_usage(rec("Old", now() - 90 * 86_400, 60)).unwrap();
    assert!(s.get_usage_stats("monthly").unwrap().is_empty());
}

#[test]
fn unknown_range_behaves_as_daily() {
    let s = store();
    let d = now();
    s.record_usage(rec("Editor", d, 40)).unwrap();
    s.record_usage(rec("Old", d - 5 * 86_400, 70)).unwrap();
    let bogus = s.get_usage_stats("bogus").unwrap();
    let daily = s.get_usage_stats("daily").unwrap();
    assert_eq!(shape(&bogus), shape(&daily));
    assert!(bogus.iter().all(|x| x.name != "Old"));
}

#[test]
fn negative_duration_is_refused() {
    let s = store();
    assert!(matches!(s.record_usage(rec("A", now(), -5)), Err(StorageError::NegativeDuration(-5))));
    assert!(s.get_usage_stats("monthly").unwrap().is_empty());
}

#[test]
fn unrepresentable_instant_is_refused() {
    let s = store();
    assert!(matches!(
        s.record_usage(rec("A", i64::MAX, 5)),
        Err(StorageError::InvalidTimestamp(i64::MAX))
    ));
}

#[test]
fn three_days_excludes_older_records() {
    let s = store();
    let d = now();
    s.record_usage(rec("Recent", d, 5)).unwrap();
    s.record_usage(rec("Older", d - 10 * 86_400, 5)).unwrap();
    let out = s.get_usage_stats("3days").unwrap();
    assert_eq!(out.len(), 1);
    assert_eq!(out[0].name, "Recent");
}

#[test]
fn record_becomes_its_row() {
    let (text, name, duration) = usage_row(&rec("Editor", 1_704_153_600, 120)).unwrap();
    assert_eq!(text, "2024-01-02T00:00:00+00:00");
    assert_eq!(name, "Editor");
    assert_eq!(duration, 120);
}

#[test]
fn refused_records_make_no_row() {
    assert!(matches!(usage_row(&rec("A", 0, -1)), Err(StorageError::NegativeDuration(-1))));
    assert!(matches!(usage_row(&rec("A", i64::MIN, 1)), Err(StorageError::InvalidTimestamp(i64::MIN))));
    assert!(matches!(usage_row(&rec("A", i64::MIN, -2)), Err(StorageError::NegativeDuration(-2))));
}

#[test]
fn future_records_are_outside_every_window() {
    let s = store();
    s.record_usage(rec("Later", now() + 3 * 86_400, 9)).unwrap();
    assert!(s.get_usage_stats("weekly").unwrap().is_empty());
}
