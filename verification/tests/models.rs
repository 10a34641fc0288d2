use backup_buddy::models::{
    BackupAttempt, BackupAttemptStatus, BackupPolicy, ParsePolicyKindError, PolicyKind, PolicyRow,
    RowError, Timestamp,
};

fn policy(id: u128, path: &str, kind: PolicyKind, recursive: bool) -> BackupPolicy {
    BackupPolicy { id, path: path.to_string(), max_staleness: 86_400_000, kind, recursive }
}

#[test]
fn policy_kinds_read_their_names() {
    assert_eq!(PolicyKind::from_str("backup"), Ok(PolicyKind::Backup));
    assert_eq!(PolicyKind::from_str("exclude"), Ok(PolicyKind::Exclude));
    assert_eq!(PolicyKind::from_str("null"), Ok(PolicyKind::Null));
}

#[test]
fn other_text_is_no_policy_kind() {
    assert_eq!(PolicyKind::from_str("Backup"), Err(ParsePolicyKindError));
    assert_eq!(PolicyKind::from_str(" backup"), Err(ParsePolicyKindError));
    assert_eq!(PolicyKind::from_str(""), Err(ParsePolicyKindError));
    assert_eq!(PolicyKind::from_str("none"), Err(ParsePolicyKindError));
    assert_eq!(ParsePolicyKindError.message(), "invalid policy kind");
}

#[test]
fn policy_kind_names_read_back() {
    for k in [PolicyKind::Backup, PolicyKind::Exclude, PolicyKind::Null] {
        assert_eq!(PolicyKind::from_str(&k.to_string()), Ok(k));
    }
    assert_eq!(PolicyKind::Backup.to_string(), "backup");
    assert_eq!(PolicyKind::Exclude.to_string(), "exclude");
    assert_eq!(PolicyKind::Null.to_string(), "null");
}

#[test]
fn stored_rows_read_back_as_the_same_policy() {
    let p = policy(0x0123456789abcdef0123456789abcdefu128, "/home/me", PolicyKind::Exclude, true);
    let row = p.to_row();
    assert_eq!(row.id, "01234567-89ab-cdef-0123-456789abcdef");
    assert_eq!(row.path, "/home/me");
    assert_eq!(row.max_staleness, 86_400_000);
    assert_eq!(row.kind, "exclude");
    assert!(row.recursive);
    let back = BackupPolicy::from_row(row).unwrap();
    assert_eq!(back.id, p.id);
    assert_eq!(back.path, p.path);
    assert_eq!(back.max_staleness, p.max_staleness);
    assert_eq!(back.kind, p.kind);
    assert_eq!(back.recursive, p.recursive);
}

#[test]
fn rows_with_a_bad_id_or_kind_are_refused() {
    let row = |id: &str, kind: &str| PolicyRow {
        id: id.to_string(),
        path: "/x".to_string(),
        max_staleness: 1,
        kind: kind.to_string(),
        recursive: false,
    };
    assert_eq!(
        BackupPolicy::from_row(row("nope", "backup")).unwrap_err(),
        RowError::InvalidId
    );
    assert_eq!(
        BackupPolicy::from_row(row("01234567-89ab-cdef-0123-456789abcdef", "archive")).unwrap_err(),
        RowError::InvalidKind
    );
    // The identifier is read first.
    assert_eq!(BackupPolicy::from_row(row("nope", "archive")).unwrap_err(), RowError::InvalidId);
    let ok = BackupPolicy::from_row(row("0123456789ABCDEF0123456789ABCDEF", "null")).unwrap();
    assert_eq!(ok.id, 0x0123456789abcdef0123456789abcdefu128);
    assert_eq!(ok.kind, PolicyKind::Null);
}

#[test]
fn backup_attempts_hold_their_fields() {
    let a = BackupAttempt {
        id: 1,
        policy_id: 2,
        started_at: Timestamp { secs: 10, nanos: 0 },
        completed_at: Timestamp { secs: 12, nanos: 500 },
        status: BackupAttemptStatus::Succeeded,
    };
    let b = a;
    assert_eq!(a, b);
    assert_ne!(BackupAttemptStatus::Succeeded, BackupAttemptStatus::Failed);
}
