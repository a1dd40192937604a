use usage_tracker::{
    AppUsageStats, DailyUsage, DayTotal, StorageError, UsageRange, day_totals,
    group_by_application, order_by_total, summarize, usage_stats_from_rows,
};

fn day(name: &str, date: i64, duration: u64) -> DayTotal {
    DayTotal { app_name: name.to_string(), date, duration }
}

fn names(v: &[AppUsageStats]) -> Vec<String> {
    v.iter().map(|s| s.name.clone()).collect()
}

#[test]
fn equal_totals_keep_first_appearance_and_lead_smaller_ones() {
    let days = vec![day("A", 0, 500), day("B", 0, 200), day("C", 0, 500)];
    let out = summarize(&days);
    assert_eq!(names(&out), vec!["A", "C", "B"]);
    assert_eq!(out[0].total_time, 500);
    assert_eq!(out[1].total_time, 500);
    assert_eq!(out[2].total_time, 200);
    let again = summarize(&days);
    assert_eq!(names(&again), names(&out));
}

#[test]
fn days_are_grouped_per_application_and_summed() {
    let days = vec![day("A", 86_400, 30), day("B", 0, 100), day("A", 0, 50)];
    let out = summarize(&days);
    assert_eq!(names(&out), vec!["B", "A"]);
    assert_eq!(out[1].total_time, 80);
    assert_eq!(
        out[1].daily_usage,
        vec![DailyUsage { date: 86_400, duration: 30 }, DailyUsage { date: 0, duration: 50 }]
    );
    assert_eq!(out[0].daily_usage, vec![DailyUsage { date: 0, duration: 100 }]);
}

#[test]
fn grouping_keeps_order_of_first_appearance() {
    let days = vec![day("B", 0, 1), day("A", 0, 9), day("B", 1, 1)];
    let out = group_by_application(&days);
    assert_eq!(names(&out), vec!["B", "A"]);
    assert_eq!(out[0].total_time, 2);
}

#[test]
fn sort_is_stable_and_descending() {
    let mk = |n: &str, t: u64| AppUsageStats { name: n.to_string(), total_time: t, daily_usage: vec![] };
    let out = order_by_total(vec![mk("x", 1), mk("y", 3), mk("z", 1), mk("w", 3), mk("v", 2)]);
    assert_eq!(names(&out), vec!["y", "w", "v", "x", "z"]);
}

#[test]
fn totals_saturate() {
    let days = vec![day("A", 0, u64::MAX - 1), day("A", 1, 5)];
    let out = summarize(&days);
    assert_eq!(out[0].total_time, u64::MAX);
}

#[test]
fn no_days_give_no_statistics() {
    assert!(summarize(&vec![]).is_empty());
    assert!(usage_stats_from_rows(&vec![]).unwrap().is_empty());
}

#[test]
fn row_dates_become_midnight_utc() {
    let rows = vec![("Editor".to_string(), "2024-01-02".to_string(), 120i64)];
    let days = day_totals(&rows).unwrap();
    assert_eq!(days.len(), 1);
    assert_eq!(days[0].app_name, "Editor");
    assert_eq!(days[0].date, 1_704_153_600);
    assert_eq!(days[0].duration, 120);
}

#[test]
fn negative_row_duration_is_refused() {
    let rows = vec![
        ("A".to_string(), "2024-01-02".to_string(), 5i64),
        ("B".to_string(), "2024-01-02".to_string(), -3i64),
    ];
    assert!(matches!(day_totals(&rows), Err(StorageError::NegativeDuration(-3))));
}

#[test]
fn malformed_row_date_is_refused() {
    let rows = vec![("A".to_string(), "yesterday".to_string(), 5i64)];
    match usage_stats_from_rows(&rows) {
        Err(StorageError::MalformedTimestamp(t)) => assert_eq!(t, "yesterday"),
        other => panic!("unexpected: {:?}", other),
    }
}

#[test]
fn rows_to_statistics() {
    let rows = vec![
        ("A".to_string(), "2024-01-01".to_string(), 100i64),
        ("B".to_string(), "2024-01-01".to_string(), 300i64),
        ("A".to_string(), "2024-01-02".to_string(), 250i64),
    ];
    let out = usage_stats_from_rows(&rows).unwrap();
    assert_eq!(names(&out), vec!["A", "B"]);
    assert_eq!(out[0].total_time, 350);
    assert_eq!(out[0].daily_usage[1], DailyUsage { date: 1_704_153_600, duration: 250 });
}

#[test]
fn range_tokens() {
    assert_eq!(UsageRange::from_token("daily"), UsageRange::Daily);
    assert_eq!(UsageRange::from_token("3days"), UsageRange::ThreeDays);
    assert_eq!(UsageRange::from_token("weekly"), UsageRange::Weekly);
    assert_eq!(UsageRange::from_token("monthly"), UsageRange::Monthly);
    assert_eq!(UsageRange::from_token("bogus"), UsageRange::Daily);
    assert_eq!(UsageRange::from_token("Weekly"), UsageRange::Daily);
    assert_eq!(UsageRange::from_token("bogus").query(), UsageRange::Daily.query());
    assert!(UsageRange::Monthly.query().contains("-30 days"));
    assert!(UsageRange::ThreeDays.query().contains("-3 days"));
    assert!(UsageRange::Weekly.query().contains("-7 days"));
}
