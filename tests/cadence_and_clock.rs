use ratingupdate::cadence::{checkpoint_text, is_due, plan_cycle, read_checkpoint, CyclePlan, DAY, HOUR, HOURLY_SEED_AGE};

#[test]
fn parses_stored_checkpoints() {
    let now = 2_000_000_000;
    assert_eq!(read_checkpoint(&Some("1970-01-01 00:01:00".to_string()), now, HOURLY_SEED_AGE), Some(60));
    assert_eq!(
        read_checkpoint(&Some("2015-05-15 00:00:00".to_string()), now, HOURLY_SEED_AGE),
        Some(1_431_648_000)
    );
    assert_eq!(
        read_checkpoint(&Some("2024-03-01 12:00:00".to_string()), now, HOURLY_SEED_AGE),
        Some(1_709_294_400)
    );
}

#[test]
fn formats_checkpoints() {
    assert_eq!(checkpoint_text(1_431_648_000), Some("2015-05-15 00:00:00".to_string()));
    assert_eq!(checkpoint_text(60), Some("1970-01-01 00:01:00".to_string()));
    assert_eq!(checkpoint_text(i64::MAX), None);
}

#[test]
fn first_cycle_runs_both_jobs() {
    let now = 1_700_000_000;
    assert_eq!(plan_cycle(&None, &None, now), CyclePlan { run_hourly: true, run_daily: true });
}

#[test]
fn recent_checkpoints_hold_jobs_back() {
    let now = 1_431_648_000;
    let recent = Some("2015-05-14 23:30:00".to_string());
    assert_eq!(plan_cycle(&recent, &recent, now), CyclePlan { run_hourly: false, run_daily: false });
    let old_hour = Some("2015-05-14 22:59:59".to_string());
    assert_eq!(plan_cycle(&old_hour, &recent, now), CyclePlan { run_hourly: true, run_daily: false });
    let old_day = Some("2015-05-13 23:59:59".to_string());
    assert_eq!(plan_cycle(&recent, &old_day, now), CyclePlan { run_hourly: false, run_daily: true });
}

#[test]
fn unreadable_checkpoint_runs_nothing() {
    let now = 1_431_648_000;
    let bad = Some("yesterday".to_string());
    assert_eq!(plan_cycle(&bad, &bad, now), CyclePlan { run_hourly: false, run_daily: false });
    assert_eq!(read_checkpoint(&bad, now, HOURLY_SEED_AGE), None);
    assert_eq!(read_checkpoint(&None, now, HOURLY_SEED_AGE), Some(now - 7200));
}

#[test]
fn due_is_strictly_older_than_period() {
    assert!(!is_due(1000 - HOUR, 1000, HOUR));
    assert!(is_due(999 - HOUR, 1000, HOUR));
    assert!(is_due(0, DAY + 1, DAY));
}
