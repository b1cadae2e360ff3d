use sto_clare::refresh::{auto_refresh_step, skip_refresh, RefreshStep};

#[test]
fn a_refresh_runs_once_its_interval_has_passed() {
    assert_eq!(RefreshStep::RefreshNow, auto_refresh_step(false, Some(5_000), 5_000));
    assert_eq!(RefreshStep::RefreshNow, auto_refresh_step(false, Some(9_000), 5_000));
    assert_eq!(RefreshStep::ScheduleIn(1_500), auto_refresh_step(false, Some(3_500), 5_000));
}

#[test]
fn a_scheduled_refresh_is_not_scheduled_twice() {
    assert_eq!(RefreshStep::Wait, auto_refresh_step(true, Some(9_000), 5_000));
    assert_eq!(RefreshStep::Wait, auto_refresh_step(false, None, 5_000));
}

#[test]
fn only_an_automatic_refresh_of_an_unchanged_log_is_skipped() {
    assert!(skip_refresh(true, Some(100), Some(100)));
    assert!(!skip_refresh(true, Some(120), Some(100)));
    assert!(!skip_refresh(false, Some(100), Some(100)));
    assert!(!skip_refresh(true, None, None));
}
