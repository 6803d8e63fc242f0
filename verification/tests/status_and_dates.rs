use repo_metrics::dates::{commit_sha_and_date, oldest_first, parse_since_date, walk_continues};
use repo_metrics::status::status_summary;

fn commit(sha: &str, date: &str) -> (String, String) {
    (sha.to_string(), date.to_string())
}

#[test]
fn since_dates() {
    assert_eq!(parse_since_date("2022-01-01").ok(), Some(1_640_995_200));
    assert_eq!(parse_since_date("1970-01-01").ok(), Some(0));
    let err = parse_since_date("2022-13-01").err().unwrap();
    assert_eq!(err.input, "2022-13-01");
    assert!(parse_since_date("yesterday").is_err());
    assert!(parse_since_date("2022/01/01").is_err());
}

#[test]
fn commit_dates_as_text() {
    let (sha, date) = commit_sha_and_date("abc".to_string(), 1_700_000_000);
    assert_eq!(sha, "abc");
    assert_eq!(date, "2023-11-14T22:13:20Z");
    assert_eq!(commit_sha_and_date("x".to_string(), 0).1, "1970-01-01T00:00:00Z");
    assert_eq!(commit_sha_and_date("x".to_string(), i64::MAX).1, "1970-01-01T00:00:00Z");
}

#[test]
fn walk_stops_before_the_cutoff() {
    assert!(walk_continues(None, 5));
    assert!(walk_continues(Some(100), 100));
    assert!(walk_continues(Some(100), 101));
    assert!(!walk_continues(Some(100), 99));
    // out of chrono's range: taken as the epoch
    assert!(!walk_continues(Some(100), i64::MAX));
    assert!(walk_continues(Some(0), i64::MAX));
}

#[test]
fn commits_reversed_to_oldest_first() {
    let walk = vec![commit("c3", "3"), commit("c2", "2"), commit("c1", "1")];
    assert_eq!(oldest_first(walk), vec![commit("c1", "1"), commit("c2", "2"), commit("c3", "3")]);
    assert!(oldest_first(vec![]).is_empty());
}

#[test]
fn status_counts_loaded_and_missing() {
    let commits: Vec<(String, String)> = (0..15).map(|i| commit(&format!("sha{i:02}"), &format!("2024-01-{:02}T00:00:00Z", i + 1))).collect();
    let in_db: Vec<String> = vec!["sha01".to_string(), "sha03".to_string(), "other".to_string()];
    let s = status_summary(&commits, &in_db);
    assert_eq!(s.total, 15);
    assert_eq!(s.loaded, 2);
    assert_eq!(s.missing, 13);
    assert_eq!(s.git_range, Some(("2024-01-01T00:00:00Z".to_string(), "2024-01-15T00:00:00Z".to_string())));
    assert_eq!(s.db_range, Some(("2024-01-02T00:00:00Z".to_string(), "2024-01-04T00:00:00Z".to_string())));
    assert_eq!(s.oldest_missing.len(), 10);
    assert_eq!(s.oldest_missing[0], commit("sha00", "2024-01-01T00:00:00Z"));
    assert_eq!(s.oldest_missing[1].0, "sha02");
    assert_eq!(s.more_missing, 3);
}

#[test]
fn status_of_empty_and_fully_loaded_histories() {
    let s = status_summary(&[], &[]);
    assert_eq!((s.total, s.loaded, s.missing, s.more_missing), (0, 0, 0, 0));
    assert_eq!(s.git_range, None);
    assert_eq!(s.db_range, None);
    let commits = vec![commit("a", "d1"), commit("b", "d2")];
    let s = status_summary(&commits, &["b".to_string(), "a".to_string()]);
    assert_eq!((s.loaded, s.missing), (2, 0));
    assert!(s.oldest_missing.is_empty());
    assert_eq!(s.db_range, Some(("d1".to_string(), "d2".to_string())));
}
