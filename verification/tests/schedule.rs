use git_navigator::schedule::{RefreshSchedule, RECONCILE_INTERVAL_MS};

#[test]
fn debounces_events_and_rate_limits_refreshes() {
    let start = 0;
    let mut schedule = RefreshSchedule::new(start);
    schedule.note_event(start + 100, Vec::new());
    assert!(!schedule.should_refresh(start + 700));
    assert!(schedule.should_refresh(start + 1_000));

    schedule.mark_refreshed(start + 1_000);
    schedule.note_event(start + 1_100, Vec::new());
    assert!(!schedule.should_refresh(start + 1_800));
    assert!(schedule.should_refresh(start + 2_000));
}

#[test]
fn refreshes_during_a_continuous_event_stream() {
    let start = 0;
    let mut schedule = RefreshSchedule::new(start);
    for millis in [100, 400, 800, 1_200, 1_600, 2_000] {
        schedule.note_event(start + millis, Vec::new());
    }
    assert!(schedule.should_refresh(start + 2_100));
}

#[test]
fn retains_paths_for_the_refresh_that_follows_a_file_event() {
    let start = 0;
    let mut schedule = RefreshSchedule::new(start);
    let path = String::from("src/main.rs");
    schedule.note_event(start + 100, vec![path.clone()]);

    assert!(schedule.should_refresh(start + 1_000));
    assert_eq!(schedule.pending_paths, vec![path]);

    schedule.mark_refreshed(start + 1_000);
    assert!(schedule.pending_paths.is_empty());
}

#[test]
fn reconciles_periodically_without_events() {
    let start = 0;
    let schedule = RefreshSchedule::new(start);
    assert!(!schedule.should_refresh(start + 29_000));
    assert!(schedule.should_refresh(start + RECONCILE_INTERVAL_MS));
}

#[test]
fn an_earlier_clock_reading_never_refreshes_early() {
    let mut schedule = RefreshSchedule::new(5_000);
    schedule.note_event(6_000, vec!["a".into()]);
    schedule.note_event(6_100, vec!["b".into()]);
    assert_eq!(schedule.pending_since, Some(6_000));
    assert_eq!(schedule.pending_paths, vec!["a".to_string(), "b".to_string()]);
    assert!(!schedule.should_refresh(4_000));
    assert!(schedule.should_refresh(6_600));
}
