use repo_metrics::aggregator::{aggregate_to_folders, aggregate_to_repo};
use repo_metrics::analysis::build_file_row;
use repo_metrics::analyzers::FileStats;
use repo_metrics::cli::Granularity;
use repo_metrics::db::store::StatRow;
use repo_metrics::git::FileDiff;
use repo_metrics::plan::{
    affected_folders, changed_file_paths, delta_applicable, plan_delta, plan_full_analysis,
    rows_in_folder, BATCH_SIZE, DELTA_FALLBACK_THRESHOLD, delta_step, DeltaEvent, DeltaProgress,
};

fn file(sha: &str, path: &str, nonblank: u32) -> StatRow {
    let stats = FileStats {
        sloc_nonblank: nonblank,
        sloc_noncomment: nonblank,
        file_type: None,
        js_exports_default: None,
        js_exports_named: None,
        js_exports_total: None,
        js_export_matches_filename: false,
    };
    build_file_row("org/repo", sha, "date", path, stats)
}

fn diff(old: Option<&str>, new: Option<&str>) -> FileDiff {
    FileDiff { old_path: old.map(|s| s.to_string()), new_path: new.map(|s| s.to_string()) }
}

#[test]
fn constants() {
    assert_eq!(DELTA_FALLBACK_THRESHOLD, 500);
    assert_eq!(BATCH_SIZE, 100);
    assert!(delta_applicable(0));
    assert!(delta_applicable(500));
    assert!(!delta_applicable(501));
}

#[test]
fn full_analysis_rows_by_granularity() {
    let files = vec![file("c1", "src/a.ts", 3), file("c1", "b.md", 2), file("c1", "src/c.ts", 1)];
    let all = plan_full_analysis("org/repo", "c1", "d1", files.clone(), Granularity::All).unwrap();
    assert_eq!(all.len(), 3 + 2 + 1);
    assert_eq!(all[0].row_type, "file");
    assert_eq!(all[3].row_type, "folder");
    assert_eq!(all[5].row_type, "repo");
    assert_eq!(all[5].sloc_nonblank, 6);
    let folder = plan_full_analysis("org/repo", "c1", "d1", files.clone(), Granularity::Folder).unwrap();
    assert_eq!(folder.len(), 3);
    assert!(folder[..2].iter().all(|r| r.row_type == "folder"));
    let repo = plan_full_analysis("org/repo", "c1", "d1", files, Granularity::Repo).unwrap();
    assert_eq!(repo.len(), 1);
    assert_eq!(repo[0].file_count, 3);
    assert_eq!(repo[0].folder, ".");
}

#[test]
fn full_analysis_refuses_overflowing_sums() {
    let mut a = file("c1", "a.md", 1);
    a.sloc_nonblank = i64::MAX;
    let b = file("c1", "b.md", 1);
    assert!(plan_full_analysis("org/repo", "c1", "d1", vec![a, b], Granularity::Repo).is_none());
}

#[test]
fn affected_folders_each_once() {
    let removed = vec![file("p", "src/a.ts", 1), file("p", "src/b.ts", 1), file("p", "x.md", 1)];
    let added = vec![file("c", "lib/z.ts", 1), file("c", "src/a.ts", 1)];
    let f = affected_folders(&removed, &added);
    assert_eq!(f, vec!["src".to_string(), ".".to_string(), "lib".to_string()]);
    assert!(affected_folders(&[], &[]).is_empty());
}

#[test]
fn changed_paths_each_once() {
    let diffs = vec![
        diff(Some("a.ts"), Some("a.ts")),
        diff(None, Some("new.ts")),
        diff(Some("old.ts"), None),
        diff(Some("from.ts"), Some("to.ts")),
        diff(Some("new.ts"), Some("a.ts")),
    ];
    let paths = changed_file_paths(&diffs);
    assert_eq!(paths, vec!["a.ts", "from.ts", "new.ts", "old.ts", "to.ts"]);
    // sorted as `str` sorts (byte order), duplicates removed
    let odd = vec![diff(Some("é.ts"), Some("z.ts")), diff(Some("Z.ts"), Some("e.ts")), diff(None, Some("é.ts"))];
    let mut expected = vec!["é.ts".to_string(), "z.ts".to_string(), "Z.ts".to_string(), "e.ts".to_string()];
    expected.sort_unstable();
    expected.dedup();
    assert_eq!(changed_file_paths(&odd), expected);
    assert!(changed_file_paths(&[]).is_empty());
}

#[test]
fn rows_of_one_folder() {
    let rows = vec![file("c", "src/a.ts", 1), file("c", "b.md", 2), file("c", "src/c.ts", 3)];
    let src = rows_in_folder(&rows, &"src".to_string());
    assert_eq!(src.len(), 2);
    assert_eq!(src[1].sloc_nonblank, 3);
    assert!(rows_in_folder(&rows, &"lib".to_string()).is_empty());
}

#[test]
fn delta_plan_updates_folders_and_repo() {
    // parent commit: src/a.ts, src/b.ts, lib/c.ts
    let parent_files = vec![file("p", "src/a.ts", 10), file("p", "src/b.ts", 4), file("p", "lib/c.ts", 7)];
    let parent_folders = aggregate_to_folders(&parent_files);
    let parent_repo = aggregate_to_repo("org/repo", "p", "pd", &parent_files);
    // commit: modifies src/a.ts, deletes lib/c.ts, adds docs/d.md
    let removed = vec![file("p", "src/a.ts", 10), file("p", "lib/c.ts", 7)];
    let added = vec![file("c", "src/a.ts", 12), file("c", "docs/d.md", 5)];
    let diffs = vec![diff(Some("src/a.ts"), Some("src/a.ts")), diff(Some("lib/c.ts"), None), diff(None, Some("docs/d.md"))];
    let affected = affected_folders(&removed, &added);
    let changed = changed_file_paths(&diffs);
    let plan = plan_delta(
        Granularity::All,
        "org/repo",
        "p",
        "c",
        "cd",
        parent_repo,
        &parent_folders,
        removed,
        added,
        affected,
        changed,
    )
    .unwrap();
    assert_eq!(plan.repo_row.valid_from_sha, "c");
    assert_eq!(plan.repo_row.file_count, 3);
    assert_eq!(plan.repo_row.sloc_nonblank, 4 + 12 + 5);
    assert_eq!(plan.close_folders, vec!["src".to_string(), "lib".to_string(), "docs".to_string()]);
    // lib is left without files and gets no new row
    assert_eq!(plan.folder_rows.len(), 2);
    let src = plan.folder_rows.iter().find(|r| r.folder == "src").unwrap();
    assert_eq!((src.file_count, src.sloc_nonblank), (2, 16));
    assert_eq!(src.valid_from_sha, "c");
    let docs = plan.folder_rows.iter().find(|r| r.folder == "docs").unwrap();
    assert_eq!((docs.file_count, docs.sloc_nonblank, docs.folder_depth), (1, 5, 1));
    assert_eq!(docs.row_type, "folder");
    assert_eq!(plan.file_rows.len(), 2);
    assert_eq!(plan.close_file_paths, vec!["docs/d.md", "lib/c.ts", "src/a.ts"]);
    // the open folder rows after the writes: one per folder, each counting
    // files, those of affected folders at the new commit
    let mut open: Vec<StatRow> =
        parent_folders.iter().filter(|r| !plan.close_folders.contains(&r.folder)).cloned().collect();
    open.extend(plan.folder_rows.iter().cloned());
    let mut folders: Vec<&str> = open.iter().map(|r| r.folder.as_str()).collect();
    folders.sort();
    assert_eq!(folders, vec!["docs", "src"]);
    assert!(open.iter().all(|r| r.file_count > 0 && r.valid_from_sha == "c"));
}

#[test]
fn delta_plan_by_granularity() {
    let parent_files = vec![file("p", "src/a.ts", 10)];
    let parent_folders = aggregate_to_folders(&parent_files);
    let parent_repo = aggregate_to_repo("org/repo", "p", "pd", &parent_files);
    let removed = vec![file("p", "src/a.ts", 10)];
    let added = vec![file("c", "src/a.ts", 1)];
    let folder = plan_delta(
        Granularity::Folder,
        "org/repo",
        "p",
        "c",
        "cd",
        parent_repo.clone(),
        &parent_folders,
        removed.clone(),
        added.clone(),
        vec!["src".to_string()],
        vec!["src/a.ts".to_string()],
    )
    .unwrap();
    assert!(folder.close_file_paths.is_empty());
    assert!(folder.file_rows.is_empty());
    assert_eq!(folder.folder_rows.len(), 1);
    assert_eq!(folder.folder_rows[0].sloc_nonblank, 1);
    let repo = plan_delta(
        Granularity::Repo,
        "org/repo",
        "p",
        "c",
        "cd",
        parent_repo,
        &parent_folders,
        removed,
        added,
        vec!["src".to_string()],
        vec!["src/a.ts".to_string()],
    )
    .unwrap();
    assert!(repo.close_folders.is_empty());
    assert!(repo.folder_rows.is_empty());
    assert_eq!(repo.repo_row.sloc_nonblank, 1);
}

#[test]
fn delta_plan_refuses_overflow() {
    let mut parent_repo = aggregate_to_repo("org/repo", "p", "pd", &[]);
    parent_repo.sloc_nonblank = i64::MAX;
    let added = vec![file("c", "a.md", 1)];
    let r = plan_delta(
        Granularity::Repo,
        "org/repo",
        "p",
        "c",
        "cd",
        parent_repo,
        &[],
        vec![],
        added,
        vec![".".to_string()],
        vec!["a.md".to_string()],
    );
    assert!(r.is_none());
}

#[test]
fn delta_folder_rows_agree_with_folder_aggregation() {
    let parent_files = vec![file("p", "src/a.ts", 10), file("p", "src/b.ts", 4), file("p", "lib/c.ts", 7)];
    let parent_folders = aggregate_to_folders(&parent_files);
    let parent_repo = aggregate_to_repo("org/repo", "p", "pd", &parent_files);
    let removed = vec![file("p", "src/b.ts", 4)];
    let added = vec![file("c", "src/b.ts", 9), file("c", "lib/d.ts", 2)];
    let affected = affected_folders(&removed, &added);
    let plan = plan_delta(
        Granularity::Folder,
        "org/repo",
        "p",
        "c",
        "cd",
        parent_repo,
        &parent_folders,
        removed,
        added,
        affected,
        vec![],
    )
    .unwrap();
    let new_files = vec![file("c", "src/a.ts", 10), file("c", "lib/c.ts", 7), file("c", "src/b.ts", 9), file("c", "lib/d.ts", 2)];
    let full = aggregate_to_folders(&new_files);
    for row in &plan.folder_rows {
        let expected = full.iter().find(|r| r.folder == row.folder).unwrap();
        assert_eq!(row.file_count, expected.file_count);
        assert_eq!(row.sloc_nonblank, expected.sloc_nonblank);
        assert_eq!(row.sloc_noncomment, expected.sloc_noncomment);
    }
    assert_eq!(plan.folder_rows.len(), 2);
    let full_repo = aggregate_to_repo("org/repo", "c", "cd", &new_files);
    assert_eq!(plan.repo_row.sloc_nonblank, full_repo.sloc_nonblank);
    assert_eq!(plan.repo_row.file_count, full_repo.file_count);
}

#[test]
fn delta_attempt_stages() {
    let s = delta_step(DeltaProgress::AwaitParent, DeltaEvent::ParentFound(true));
    assert!(matches!(s, DeltaProgress::AwaitParentRecorded));
    let s = delta_step(s, DeltaEvent::ParentRecorded(true));
    assert!(matches!(s, DeltaProgress::AwaitDiff));
    let s2 = delta_step(s, DeltaEvent::DiffRead(Some(500)));
    assert!(matches!(s2, DeltaProgress::AwaitOpenRepoRow));
    assert!(matches!(delta_step(s, DeltaEvent::DiffRead(Some(501))), DeltaProgress::FallBack));
    assert!(matches!(delta_step(s, DeltaEvent::DiffRead(None)), DeltaProgress::FallBack));
    assert!(matches!(delta_step(s2, DeltaEvent::OpenRepoRowFound(true)), DeltaProgress::Apply));
    assert!(matches!(delta_step(s2, DeltaEvent::OpenRepoRowFound(false)), DeltaProgress::FallBack));
    assert!(matches!(delta_step(DeltaProgress::AwaitParent, DeltaEvent::ParentFound(false)), DeltaProgress::FallBack));
    assert!(matches!(
        delta_step(DeltaProgress::AwaitParentRecorded, DeltaEvent::ParentRecorded(false)),
        DeltaProgress::FallBack
    ));
    // an event that does not answer the stage leaves it
    assert!(matches!(delta_step(DeltaProgress::AwaitDiff, DeltaEvent::ParentFound(true)), DeltaProgress::AwaitDiff));
}
