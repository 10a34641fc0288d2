use backup_buddy::coverage::{
    find_most_specific_policy, normalize_and_sort_policies, potential_relevant_policies,
};
use backup_buddy::models::{BackupPolicy, PolicyKind};
use backup_buddy::paths::{child_path, relative_components, same_path, starts_with};
use backup_buddy::report::{classify_entry, EntryKind, ReportBuilder, ScanStep};
use std::path::Path;

fn path(parts: &[&str]) -> Vec<String> {
    parts.iter().map(|s| s.to_string()).collect()
}

fn policy(id: u128, p: &str, kind: PolicyKind, recursive: bool) -> BackupPolicy {
    BackupPolicy { id, path: p.to_string(), max_staleness: 1000, kind, recursive }
}

fn sample_policies() -> Vec<BackupPolicy> {
    vec![
        policy(1, "/", PolicyKind::Backup, true),
        policy(2, "/tmp", PolicyKind::Exclude, true),
        policy(3, "docs/", PolicyKind::Backup, false),
        policy(4, "//docs/old", PolicyKind::Null, true),
        policy(5, "/", PolicyKind::Exclude, false),
    ]
}

#[test]
fn relative_components_split_like_path_join() {
    assert_eq!(relative_components("/home/user/"), path(&["home", "user"]));
    assert_eq!(relative_components("a//./b/../c"), path(&["a", "b", "..", "c"]));
    assert_eq!(relative_components(""), path(&[]));
    assert_eq!(relative_components("/"), path(&[]));
    assert_eq!(relative_components("./a"), path(&["a"]));
    assert_eq!(relative_components(".hidden/x."), path(&[".hidden", "x."]));
}

#[test]
fn relative_components_agree_with_std_path() {
    for p in ["/home/user/", "a//./b/../c", "", "/", "./a", "x/./y/", "//a//b"] {
        let joined = Path::new("/base").join(p.trim_start_matches('/'));
        let expected: Vec<String> = joined
            .components()
            .skip(2)
            .map(|c| c.as_os_str().to_string_lossy().into_owned())
            .collect();
        assert_eq!(relative_components(p), expected, "input {:?}", p);
    }
}

#[test]
fn paths_compare_by_components() {
    let a = path(&["/", "data", "docs"]);
    assert!(starts_with(&a, &path(&["/", "data"])));
    assert!(starts_with(&a, &a));
    assert!(starts_with(&a, &path(&[])));
    assert!(!starts_with(&a, &path(&["/", "dat"])));
    assert!(!starts_with(&path(&["/", "data"]), &a));
    assert!(same_path(&a, &path(&["/", "data", "docs"])));
    assert!(!same_path(&a, &path(&["/", "data"])));
    assert_eq!(child_path(&a, "x".to_string()), path(&["/", "data", "docs", "x"]));
}

#[test]
fn policies_are_sorted_deepest_first_and_stably() {
    let base = path(&["/", "data"]);
    let sorted = normalize_and_sort_policies(sample_policies(), &base);
    let ids: Vec<u128> = sorted.iter().map(|p| p.id).collect();
    assert_eq!(ids, vec![4, 2, 3, 1, 5]);
    assert_eq!(sorted[0].prefix, path(&["/", "data", "docs", "old"]));
    assert_eq!(sorted[1].prefix, path(&["/", "data", "tmp"]));
    assert_eq!(sorted[2].prefix, path(&["/", "data", "docs"]));
    assert_eq!(sorted[3].prefix, path(&["/", "data"]));
    assert_eq!(sorted[4].prefix, path(&["/", "data"]));
    assert!(!sorted[2].recursive);
    assert_eq!(sorted[1].kind, PolicyKind::Exclude);
}

#[test]
fn the_most_specific_policy_is_chosen() {
    let base = path(&["/", "data"]);
    let sorted = normalize_and_sort_policies(sample_policies(), &base);
    assert_eq!(find_most_specific_policy(&path(&["/", "data", "docs", "old", "f.txt"]), &sorted), Some(0));
    assert_eq!(find_most_specific_policy(&path(&["/", "data", "docs"]), &sorted), Some(2));
    assert_eq!(find_most_specific_policy(&path(&["/", "data", "docs", "x"]), &sorted), Some(3));
    assert_eq!(find_most_specific_policy(&path(&["/", "data"]), &sorted), Some(3));
    assert_eq!(find_most_specific_policy(&path(&["/", "data", "tmp", "a"]), &sorted), Some(1));
    assert_eq!(find_most_specific_policy(&path(&["/", "other"]), &sorted), None);
}

#[test]
fn relevant_policies_lie_above_recursively_or_below() {
    let base = path(&["/", "data"]);
    let sorted = normalize_and_sort_policies(sample_policies(), &base);
    assert_eq!(potential_relevant_policies(&path(&["/", "data", "docs"]), &sorted), vec![0, 2, 3]);
    assert_eq!(potential_relevant_policies(&path(&["/", "data", "tmp", "x"]), &sorted), vec![1, 3]);
    assert_eq!(potential_relevant_policies(&path(&["/"]), &sorted), vec![0, 1, 2, 3, 4]);
    assert_eq!(potential_relevant_policies(&path(&["/", "elsewhere"]), &sorted), Vec::<usize>::new());
}

#[test]
fn entries_are_classified_by_their_policy() {
    let base = path(&["/", "data"]);
    let sorted = normalize_and_sort_policies(sample_policies(), &base);
    let at = |p: &[&str], k: EntryKind| classify_entry(&path(p), k, &sorted);
    assert_eq!(at(&["/", "data", "notes.txt"], EntryKind::File), ScanStep::Hit(1));
    assert_eq!(at(&["/", "data", "tmp"], EntryKind::Dir), ScanStep::Skip);
    assert_eq!(at(&["/", "data", "docs"], EntryKind::Dir), ScanStep::Descend);
    assert_eq!(at(&["/", "data", "docs", "old"], EntryKind::Dir), ScanStep::Descend);
    assert_eq!(at(&["/", "data", "docs", "old", "x"], EntryKind::File), ScanStep::Missing);
    assert_eq!(at(&["/", "data", "link"], EntryKind::Other), ScanStep::Skip);
    assert_eq!(at(&["/", "data", "photos"], EntryKind::Dir), ScanStep::Skip);
}

#[test]
fn a_scan_records_missing_paths_and_counts_hits() {
    let base = path(&["/", "data"]);
    let mut b = ReportBuilder::new(sample_policies(), &base);
    assert_eq!(b.visit_entry(&base, "notes.txt".to_string(), EntryKind::File), None);
    assert_eq!(b.visit_entry(&base, "tmp".to_string(), EntryKind::Dir), None);
    let docs = b.visit_entry(&base, "docs".to_string(), EntryKind::Dir).unwrap();
    assert_eq!(docs, path(&["/", "data", "docs"]));
    assert_eq!(b.visit_entry(&docs, "a.txt".to_string(), EntryKind::File), None);
    let old = b.visit_entry(&docs, "old".to_string(), EntryKind::Dir).unwrap();
    assert_eq!(b.visit_entry(&old, "x.txt".to_string(), EntryKind::File), None);
    assert_eq!(b.visit_entry(&base, "link".to_string(), EntryKind::Other), None);
    assert_eq!(b.files_counted(), 2);
    let report = b.finish();
    assert_eq!(report.missing_paths, vec![path(&["/", "data", "docs", "old", "x.txt"])]);
    assert_eq!(report.policy_hits.len(), 1);
    assert_eq!(report.policy_hits.get(&1), Some(&2));
}

#[test]
fn without_policies_everything_is_missing() {
    let base = path(&["/", "srv"]);
    let mut b = ReportBuilder::new(Vec::new(), &base);
    assert_eq!(b.visit_entry(&base, "dir".to_string(), EntryKind::Dir), None);
    assert_eq!(b.visit_entry(&base, "f".to_string(), EntryKind::File), None);
    assert_eq!(b.visit_entry(&base, "sock".to_string(), EntryKind::Other), None);
    let report = b.finish();
    assert_eq!(report.missing_paths, vec![path(&["/", "srv", "dir"]), path(&["/", "srv", "f"])]);
    assert!(report.policy_hits.is_empty());
}

#[test]
fn a_non_recursive_backup_directory_is_scanned_inside() {
    let base = path(&["/", "b"]);
    let mut b = ReportBuilder::new(vec![policy(9, "/d", PolicyKind::Backup, false)], &base);
    let d = b.visit_entry(&base, "d".to_string(), EntryKind::Dir).unwrap();
    assert_eq!(b.visit_entry(&d, "inner".to_string(), EntryKind::File), None);
    let report = b.finish();
    assert_eq!(report.missing_paths, vec![path(&["/", "b", "d", "inner"])]);
    assert!(report.policy_hits.is_empty());
}

#[test]
fn a_backed_up_directory_holding_an_excluded_one_is_scanned_inside() {
    let base = path(&["/", "b"]);
    let policies = vec![
        policy(1, "/", PolicyKind::Backup, true),
        policy(2, "/x/y", PolicyKind::Exclude, true),
    ];
    let mut b = ReportBuilder::new(policies, &base);
    let x = b.visit_entry(&base, "x".to_string(), EntryKind::Dir).unwrap();
    assert_eq!(b.visit_entry(&x, "y".to_string(), EntryKind::Dir), None);
    assert_eq!(b.visit_entry(&x, "kept.txt".to_string(), EntryKind::File), None);
    // A directory with no policy below it is covered as a whole and not entered.
    assert_eq!(b.visit_entry(&base, "z".to_string(), EntryKind::Dir), None);
    let report = b.finish();
    assert!(report.missing_paths.is_empty());
    assert_eq!(report.policy_hits.get(&1), Some(&1));
}

#[test]
fn hit_counts_grow_by_one_per_covered_file() {
    let base = path(&["/", "h"]);
    let mut b = ReportBuilder::new(vec![policy(3, "/", PolicyKind::Backup, true)], &base);
    for i in 0..5u64 {
        assert_eq!(b.visit_entry(&base, format!("f{}", i), EntryKind::File), None);
        assert_eq!(b.files_counted(), i + 1);
    }
    let report = b.finish();
    assert_eq!(report.policy_hits.get(&3), Some(&5));
}
