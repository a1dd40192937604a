use usage_tracker::{AppState, AppUsage};

fn entry<'a>(snap: &'a [AppUsage], name: &str) -> &'a AppUsage {
    snap.iter().find(|u| u.name == name).expect("entry present")
}

#[test]
fn continuous_ticks_count_one_second_each() {
    let mut state = AppState::new();
    for t in [100u64, 101, 102, 103, 104] {
        state.record("Editor".to_string(), t);
    }
    let snap = state.snapshot();
    assert_eq!(snap.len(), 1);
    assert_eq!(entry(&snap, "Editor").total_time, 5);
    assert_eq!(entry(&snap, "Editor").last_active, 104);
}

#[test]
fn one_missed_tick_is_tolerated() {
    let mut state = AppState::new();
    for t in [10u64, 12, 14, 15, 17] {
        state.record("Editor".to_string(), t);
    }
    assert_eq!(entry(&state.snapshot(), "Editor").total_time, 5);
}

#[test]
fn gap_longer_than_tolerance_adds_nothing() {
    let mut state = AppState::new();
    state.record("Editor".to_string(), 0);
    state.record("Editor".to_string(), 1);
    state.record("Editor".to_string(), 4);
    let snap = state.snapshot();
    assert_eq!(entry(&snap, "Editor").total_time, 2);
    assert_eq!(entry(&snap, "Editor").last_active, 4);
    state.record("Editor".to_string(), 5);
    assert_eq!(entry(&state.snapshot(), "Editor").total_time, 3);
}

#[test]
fn clock_moving_back_adds_nothing() {
    let mut state = AppState::new();
    state.record("Editor".to_string(), 50);
    state.record("Editor".to_string(), 49);
    let snap = state.snapshot();
    assert_eq!(entry(&snap, "Editor").total_time, 1);
    assert_eq!(entry(&snap, "Editor").last_active, 49);
}

#[test]
fn names_are_not_case_folded() {
    let mut state = AppState::new();
    state.record("App".to_string(), 1);
    state.record("app".to_string(), 2);
    state.record("App".to_string(), 3);
    let snap = state.snapshot();
    assert_eq!(snap.len(), 2);
    assert_eq!(snap[0].name, "App");
    assert_eq!(snap[0].total_time, 2);
    assert_eq!(snap[1].name, "app");
    assert_eq!(snap[1].total_time, 1);
}

#[test]
fn snapshot_does_not_alias_the_table() {
    let mut state = AppState::new();
    state.record("Editor".to_string(), 1);
    let before = state.snapshot();
    state.record("Editor".to_string(), 2);
    state.record("Shell".to_string(), 2);
    assert_eq!(before.len(), 1);
    assert_eq!(before[0].total_time, 1);
    assert_eq!(state.snapshot().len(), 2);
}

#[test]
fn empty_tick_is_a_no_op() {
    let mut state = AppState::new();
    state.record("Editor".to_string(), 1);
    assert!(state.on_sample(None, 2).is_none());
    let snap = state.snapshot();
    assert_eq!(snap.len(), 1);
    assert_eq!(snap[0].last_active, 1);
}

#[test]
fn tick_with_a_process_publishes_the_updated_table() {
    let mut state = AppState::new();
    let tick = state.on_sample(Some("Editor".to_string()), 7).expect("published");
    assert_eq!(tick.snapshot.len(), 1);
    assert_eq!(tick.snapshot[0].name, "Editor");
    assert_eq!(tick.snapshot[0].total_time, 1);
    assert_eq!(tick.snapshot[0].last_active, 7);
    let again = state.on_sample(Some("Editor".to_string()), 8).expect("published");
    assert_eq!(again.snapshot[0].total_time, 2);
}

#[test]
fn credited_tick_is_written_through() {
    let mut state = AppState::new();
    let first = state.on_sample(Some("Editor".to_string()), 7).expect("published");
    let rec = first.record.expect("a second was credited");
    assert_eq!(rec.timestamp, 7);
    assert_eq!(rec.app_name, "Editor");
    assert_eq!(rec.duration, 1);
    let next = state.on_sample(Some("Editor".to_string()), 9).expect("published");
    assert_eq!(next.record.expect("still continuous").timestamp, 9);
    let after_gap = state.on_sample(Some("Editor".to_string()), 20).expect("published");
    assert!(after_gap.record.is_none());
    assert_eq!(after_gap.snapshot[0].total_time, 2);
    assert_eq!(after_gap.snapshot[0].last_active, 20);
}

#[test]
fn instant_beyond_record_range_is_not_written() {
    let mut state = AppState::new();
    let tick = state.on_sample(Some("Editor".to_string()), u64::MAX).expect("published");
    assert!(tick.record.is_none());
    assert_eq!(tick.snapshot[0].total_time, 1);
}

#[test]
fn duplicate_is_a_deep_copy() {
    let u = AppUsage { name: "Editor".to_string(), total_time: 3, last_active: 9 };
    let c = u.duplicate();
    assert_eq!(c.name, "Editor");
    assert_eq!(c.total_time, 3);
    assert_eq!(c.last_active, 9);
}
