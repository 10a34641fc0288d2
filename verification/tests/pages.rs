use backup_buddy::config::{Config, ConfigError};
use backup_buddy::durations::{human_readable_duration, relative_time, TimeSpan};
use backup_buddy::forms::{parse_policy_form, FormError};
use backup_buddy::migrations::{pending_migrations, user_version_statement};
use backup_buddy::models::PolicyKind;
use backup_buddy::report::{MissingPolicyReport, MissingPolicyWorkerData};
use backup_buddy::models::Timestamp;
use std::collections::HashMap;

fn span(secs: i64, nanos: u32) -> TimeSpan {
    TimeSpan::new(secs, nanos).unwrap()
}

#[test]
fn durations_are_put_into_unit_words() {
    assert_eq!(human_readable_duration(span(93784, 5_000_999)), "1d 2h 3m 4s 5ms");
    assert_eq!(human_readable_duration(span(3600, 0)), "1h");
    assert_eq!(human_readable_duration(span(59, 0)), "59s");
    assert_eq!(human_readable_duration(span(0, 1_000_000)), "1ms");
    assert_eq!(human_readable_duration(span(90061, 0)), "1d 1h 1m 1s");
    assert_eq!(human_readable_duration(span(172800, 250_000_000)), "2d 250ms");
}

#[test]
fn short_and_negative_durations_have_no_words() {
    assert_eq!(human_readable_duration(span(0, 999_999)), "");
    assert_eq!(human_readable_duration(span(0, 0)), "");
    assert_eq!(human_readable_duration(span(-5, 0)), "");
}

#[test]
fn time_spans_have_the_range_of_time_delta() {
    assert!(TimeSpan::new(0, 1_000_000_000).is_none());
    assert!(TimeSpan::new(i64::MAX / 1000, 807_000_000).is_some());
    assert!(TimeSpan::new(i64::MAX / 1000, 807_000_001).is_none());
    assert!(TimeSpan::new(-i64::MAX / 1000 - 1, 193_000_000).is_some());
    assert!(TimeSpan::new(-i64::MAX / 1000 - 1, 192_999_999).is_none());
    assert_eq!(TimeSpan::new(-2, 500_000_000).unwrap().total_nanos(), -1_500_000_000);
    assert_eq!(
        TimeSpan::from_seconds_and_subsec_nanos(-1, -500_000_000).unwrap().total_nanos(),
        -1_500_000_000
    );
    assert!(TimeSpan::from_seconds_and_subsec_nanos(0, 1_000_000_000).is_none());
}

#[test]
fn elapsed_time_is_said_in_the_largest_whole_unit() {
    assert_eq!(relative_time(span(30, 0)), "just now");
    assert_eq!(relative_time(span(-100, 0)), "just now");
    assert_eq!(relative_time(span(60, 0)), "1 minute ago");
    assert_eq!(relative_time(span(119, 999_999_999)), "1 minute ago");
    assert_eq!(relative_time(span(120, 0)), "2 minutes ago");
    assert_eq!(relative_time(span(3600, 0)), "1 hour ago");
    assert_eq!(relative_time(span(7300, 0)), "2 hours ago");
    assert_eq!(relative_time(span(86400, 0)), "1 day ago");
    assert_eq!(relative_time(span(864000, 0)), "10 days ago");
}

#[test]
fn a_complete_form_makes_a_policy() {
    let f = parse_policy_form(Some("  /home/me  "), Some("60000"), Some("backup"), true).unwrap();
    assert_eq!(f.path, "/home/me");
    assert_eq!(f.max_staleness, 60000);
    assert_eq!(f.kind, PolicyKind::Backup);
    assert!(f.recursive);
    let p = f.clone().into_policy(7);
    assert_eq!(p.id, 7);
    assert_eq!(p.path, "/home/me");
    assert_eq!(p.kind, PolicyKind::Backup);
    let fresh = f.into_new_policy();
    let u = uuid::Uuid::from_u128(fresh.id);
    assert_eq!(u.get_version_num(), 4);
    assert_eq!(u.get_variant(), uuid::Variant::RFC4122);
    assert_eq!(fresh.path, "/home/me");
}

#[test]
fn form_errors_come_in_field_order() {
    assert_eq!(parse_policy_form(None, Some("1"), Some("null"), false).unwrap_err(), FormError::MissingPath);
    assert_eq!(parse_policy_form(Some(" \t"), Some("1"), Some("null"), false).unwrap_err(), FormError::MissingPath);
    assert_eq!(parse_policy_form(Some("/a"), Some("abc"), Some("null"), false).unwrap_err(), FormError::InvalidMaxStaleness);
    assert_eq!(parse_policy_form(Some("/a"), None, Some("null"), false).unwrap_err(), FormError::InvalidMaxStaleness);
    assert_eq!(parse_policy_form(Some("/a"), Some(" 1"), Some("null"), false).unwrap_err(), FormError::InvalidMaxStaleness);
    assert_eq!(parse_policy_form(Some("/a"), Some("1"), Some("Null"), false).unwrap_err(), FormError::InvalidKind);
    assert_eq!(parse_policy_form(Some("/a"), Some("1"), None, false).unwrap_err(), FormError::InvalidKind);
    assert_eq!(parse_policy_form(None, None, None, false).unwrap_err(), FormError::MissingPath);
    let ok = parse_policy_form(Some("/a"), Some("+5"), Some("exclude"), false).unwrap();
    assert_eq!(ok.max_staleness, 5);
    assert!(!ok.recursive);
}

#[test]
fn form_errors_have_their_texts() {
    assert_eq!(FormError::MissingPath.message(), "Path is required");
    assert_eq!(FormError::InvalidMaxStaleness.message(), "Invalid max staleness value");
    assert_eq!(FormError::InvalidKind.message(), "Invalid policy kind");
}

#[test]
fn configuration_needs_a_base_dir() {
    let e = Config::from_env_vars(None, Some("x.db".to_string())).unwrap_err();
    assert_eq!(e, ConfigError::MissingBaseDir);
    assert_eq!(e.message(), "BASE_DIR environment variable not set");
    let c = Config::from_env_vars(Some("/srv".to_string()), None).unwrap();
    assert_eq!(c.base_dir, "/srv");
    assert_eq!(c.db_path, "backup-buddy.db");
    let c = Config::from_env_vars(Some("/srv".to_string()), Some("/var/b.db".to_string())).unwrap();
    assert_eq!(c.db_path, "/var/b.db");
}

#[test]
fn migrations_run_from_the_current_version() {
    assert_eq!(pending_migrations(0, 1), vec![0]);
    assert_eq!(pending_migrations(1, 1), Vec::<usize>::new());
    assert_eq!(pending_migrations(5, 1), Vec::<usize>::new());
    assert_eq!(pending_migrations(1, 4), vec![1, 2, 3]);
    assert_eq!(user_version_statement(0), "PRAGMA user_version = 1");
    assert_eq!(user_version_statement(41), "PRAGMA user_version = 42");
}

#[test]
fn worker_data_records_runs() {
    let mut d = MissingPolicyWorkerData::new();
    assert!(d.report.is_none() && d.last_run_started.is_none() && d.last_run_completed.is_none());
    d.record_run_started(Timestamp { secs: 100, nanos: 0 });
    assert_eq!(d.last_run_started, Some(Timestamp { secs: 100, nanos: 0 }));
    assert!(d.last_run_completed.is_none());
    let report = MissingPolicyReport { missing_paths: vec![], policy_hits: HashMap::new() };
    d.record_run_completed(report, Timestamp { secs: 160, nanos: 5 });
    assert!(d.report.is_some());
    assert_eq!(d.last_run_completed, Some(Timestamp { secs: 160, nanos: 5 }));
    assert_eq!(d.last_run_started, Some(Timestamp { secs: 100, nanos: 0 }));
}

#[test]
fn time_spans_give_milliseconds_and_parts_like_time_delta() {
    for (secs, nanos) in [(0i64, 0u32), (1, 500_000_000), (-2, 500_000_000), (-1, 999_999), (86_400, 1), (i64::MAX / 1000, 807_000_000)] {
        let d = chrono::TimeDelta::new(secs, nanos).unwrap();
        let s = span(secs, nanos);
        assert_eq!(s.num_milliseconds(), d.num_milliseconds());
        assert_eq!(s.seconds_and_nanos(), (secs, nanos));
        assert_eq!(backup_buddy::timetext::iso8601_duration(&s), d.to_string());
    }
    assert_eq!(backup_buddy::timetext::iso8601_duration(&span(3, 500_000_000)), "PT3.5S");
}

#[test]
fn timestamps_print_in_rfc3339() {
    assert_eq!(
        Timestamp { secs: 0, nanos: 0 }.to_rfc3339(),
        Some("1970-01-01T00:00:00+00:00".to_string())
    );
    assert_eq!(
        Timestamp { secs: 1_431_648_000, nanos: 0 }.to_rfc3339(),
        Some("2015-05-15T00:00:00+00:00".to_string())
    );
    assert_eq!(Timestamp { secs: i64::MAX, nanos: 0 }.to_rfc3339(), None);
}
