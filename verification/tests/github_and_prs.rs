use repo_metrics::db::pr_store::{needs_fetch, pull_request_row, review_row};
use repo_metrics::digits::{parse_i64_text, parse_u32_text};
use repo_metrics::github::{
    check_response, date_sliceable_check, is_created_before, list_pulls_step, list_reviews_step,
    page_sliceable_check,
    rate_limit_counts, wait_fits_check, GitRef, PullRequest, ResponseCheck, Review, User,
};
use repo_metrics::progress::{title_preview, AnalyzeTally, PrTally};

fn pr(number: i64, created_at: &str) -> PullRequest {
    PullRequest {
        number,
        title: format!("PR {number}"),
        user: User { login: "alice".to_string() },
        state: "open".to_string(),
        draft: None,
        created_at: created_at.to_string(),
        updated_at: created_at.to_string(),
        merged_at: None,
        closed_at: None,
        merged: None,
        additions: None,
        deletions: None,
        changed_files: None,
        base: GitRef { ref_name: "main".to_string() },
        head: GitRef { ref_name: "feature".to_string() },
    }
}

fn is_rate_limited(c: &ResponseCheck, expected_wait: i64) -> bool {
    matches!(c, ResponseCheck::RateLimited { wait } if *wait == expected_wait)
}

#[test]
fn decimal_text_like_str_parse() {
    assert_eq!(parse_u32_text("5000"), Some(5000));
    assert_eq!(parse_u32_text("+7"), Some(7));
    assert_eq!(parse_u32_text("0004"), Some(4));
    assert_eq!(parse_u32_text("4294967295"), Some(u32::MAX));
    assert_eq!(parse_u32_text("4294967296"), None);
    assert_eq!(parse_u32_text(""), None);
    assert_eq!(parse_u32_text("+"), None);
    assert_eq!(parse_u32_text("-1"), None);
    assert_eq!(parse_u32_text(" 1"), None);
    assert_eq!(parse_u32_text("1a"), None);
    for s in ["0", "12", "+3", "99999999999", "x", "-0", ""] {
        assert_eq!(parse_u32_text(s), s.parse::<u32>().ok(), "{s}");
    }
    assert_eq!(parse_i64_text("1700000000"), Some(1_700_000_000));
    assert_eq!(parse_i64_text("-42"), Some(-42));
    assert_eq!(parse_i64_text("-9223372036854775808"), Some(i64::MIN));
    assert_eq!(parse_i64_text("9223372036854775807"), Some(i64::MAX));
    assert_eq!(parse_i64_text("9223372036854775808"), None);
    assert_eq!(parse_i64_text("-"), None);
    for s in ["0", "-0", "+5", "--1", "-+1", "123456789012345678901", "7 "] {
        assert_eq!(parse_i64_text(s), s.parse::<i64>().ok(), "{s}");
    }
}

#[test]
fn cutoff_compares_the_date_part() {
    assert!(is_created_before("2023-12-31T23:59:59Z", "2024-01-01"));
    assert!(!is_created_before("2024-01-01T00:00:00Z", "2024-01-01"));
    assert!(!is_created_before("2024-03-05T00:00:00Z", "2024-01-01"));
    // shorter than ten bytes: never before the cutoff
    assert!(!is_created_before("2023", "2024-01-01"));
    // the date part is a proper prefix of the cutoff
    assert!(is_created_before("2024-01-01T", "2024-01-01x"));
    assert!(date_sliceable_check("2024-01-01T00:00:00Z"));
    assert!(date_sliceable_check("short"));
    assert!(date_sliceable_check("aaaaaaaaé"));
    assert!(!date_sliceable_check("aaaaaaaaaé"));
}

#[test]
fn paging_stops_at_cutoff() {
    let page = vec![pr(3, "2024-05-01T00:00:00Z"), pr(2, "2024-02-01T00:00:00Z"), pr(1, "2023-12-01T00:00:00Z")];
    let o = list_pulls_step(1, &page, Some("2024-01-01"));
    assert_eq!(o.keep, 2);
    assert_eq!(o.next_page, None);
    let o = list_pulls_step(1, &page, Some("2023-01-01"));
    assert_eq!(o.keep, 3);
    assert_eq!(o.next_page, Some(2));
    let o = list_pulls_step(4, &page, None);
    assert_eq!(o.keep, 3);
    assert_eq!(o.next_page, Some(5));
    let o = list_pulls_step(4, &[], None);
    assert_eq!(o.keep, 0);
    assert_eq!(o.next_page, None);
    // only the pull requests that the cutoff test reaches must be sliceable
    let odd = vec![pr(3, "2024-05-01T00:00:00Z"), pr(2, "2023-01-01T00:00:00Z"), pr(1, "aaaaaaaaaé")];
    assert!(page_sliceable_check(&odd, Some("2024-01-01")));
    assert!(!page_sliceable_check(&odd, Some("2022-01-01")));
    assert!(page_sliceable_check(&odd, None));
    assert_eq!(list_pulls_step(1, &odd, Some("2024-01-01")).keep, 1);
    assert_eq!(list_reviews_step(1, 0), None);
    assert_eq!(list_reviews_step(1, 100), Some(2));
}

#[test]
fn responses_and_rate_limits() {
    assert!(matches!(check_response(200, None, None, 0), ResponseCheck::Accept));
    assert!(matches!(check_response(204, Some(Some("0")), Some(Some("9")), 0), ResponseCheck::Accept));
    assert!(matches!(check_response(404, None, None, 0), ResponseCheck::Failed));
    assert!(is_rate_limited(&check_response(403, Some(Some("0")), Some(Some("1700000600")), 1_700_000_000), 600));
    assert!(is_rate_limited(&check_response(429, Some(Some("0")), Some(Some("100")), 1_700_000_000), 0));
    assert!(is_rate_limited(&check_response(403, Some(Some("0")), Some(Some("soon")), -5), 5));
    assert!(is_rate_limited(&check_response(403, Some(Some("0")), Some(None), -5), 5));
    // remaining requests left, unreadable, or no reset header: a plain failure
    assert!(matches!(check_response(403, Some(Some("12")), Some(Some("100")), 0), ResponseCheck::Failed));
    assert!(matches!(check_response(403, Some(None), Some(Some("100")), 0), ResponseCheck::Failed));
    assert!(matches!(check_response(403, Some(Some("0")), None, 0), ResponseCheck::Failed));
    assert!(matches!(check_response(403, None, Some(Some("100")), 0), ResponseCheck::Failed));
    assert!(wait_fits_check(403, Some(Some("0")), Some(Some("100")), 0));
    assert!(!wait_fits_check(403, Some(Some("0")), Some(Some("-9223372036854775808")), 1));
    assert!(wait_fits_check(200, Some(Some("0")), Some(Some("-9223372036854775808")), 1));
    assert_eq!(rate_limit_counts(Some("4999"), Some("5000")), (4999, 5000));
    assert_eq!(rate_limit_counts(None, Some("x")), (0, 0));
}

#[test]
fn pull_request_rows() {
    let mut detail = pr(17, "2024-01-02T03:04:05Z");
    detail.draft = Some(true);
    detail.merged = None;
    detail.additions = Some(10);
    detail.merged_at = Some("2024-01-03T00:00:00Z".to_string());
    let row = pull_request_row("org/repo", detail);
    assert_eq!(row.repo, "org/repo");
    assert_eq!(row.pr_number, 17);
    assert_eq!(row.title, "PR 17");
    assert_eq!(row.author, "alice");
    assert!(row.draft);
    assert!(!row.merged);
    assert_eq!(row.additions, Some(10));
    assert_eq!(row.deletions, None);
    assert_eq!(row.merged_at.as_deref(), Some("2024-01-03T00:00:00Z"));
    assert_eq!(row.base_ref.as_deref(), Some("main"));
    assert_eq!(row.head_ref.as_deref(), Some("feature"));
}

#[test]
fn review_rows_need_reviewer_and_time() {
    let full = Review {
        id: 9,
        user: Some(User { login: "bob".to_string() }),
        state: "APPROVED".to_string(),
        submitted_at: Some("2024-01-01T00:00:00Z".to_string()),
    };
    let row = review_row("org/repo", 5, &full).unwrap();
    assert_eq!((row.pr_number, row.review_id), (5, 9));
    assert_eq!(row.reviewer, "bob");
    assert_eq!(row.state, "APPROVED");
    assert_eq!(row.submitted_at, "2024-01-01T00:00:00Z");
    let pending = Review { id: 10, user: Some(User { login: "bob".to_string() }), state: "PENDING".to_string(), submitted_at: None };
    assert!(review_row("org/repo", 5, &pending).is_none());
    let ghost = Review { id: 11, user: None, state: "COMMENTED".to_string(), submitted_at: Some("t".to_string()) };
    assert!(review_row("org/repo", 5, &ghost).is_none());
}

#[test]
fn unchanged_pull_requests_are_skipped() {
    assert!(!needs_fetch(Some("2024-01-01T00:00:00Z"), "2024-01-01T00:00:00Z"));
    assert!(needs_fetch(Some("2024-01-01T00:00:00Z"), "2024-01-02T00:00:00Z"));
    assert!(needs_fetch(None, "2024-01-01T00:00:00Z"));
}

#[test]
fn tallies_and_batches() {
    let mut t = AnalyzeTally::new();
    t.skip();
    assert!(!t.analyzed_at(0));
    assert!(t.analyzed_at(99));
    assert!(!t.analyzed_at(100));
    assert_eq!((t.analyzed, t.skipped), (3, 1));
    let mut p = PrTally::new();
    p.skip_unchanged();
    let mut commits = 0;
    for _ in 0..250 {
        if p.fetched_one() {
            commits += 1;
        }
    }
    assert_eq!(commits, 2);
    assert_eq!((p.fetched, p.skipped), (250, 1));
}

#[test]
fn title_previews() {
    assert_eq!(title_preview("short"), "short");
    let long = "é".repeat(70);
    assert_eq!(title_preview(&long).chars().count(), 60);
    assert_eq!(title_preview(""), "");
}
