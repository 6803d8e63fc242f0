use repo_metrics::aggregator::{add_opt, aggregate_to_folders, aggregate_to_repo, apply_delta, sub_opt};
use repo_metrics::analysis::build_file_row;
use repo_metrics::analyzers::FileStats;
use repo_metrics::db::store::StatRow;
use repo_metrics::git::path_folder;

fn stats(nonblank: u32, noncomment: u32, file_type: Option<&str>, exports: Option<(u32, u32)>, matches: bool) -> FileStats {
    FileStats {
        sloc_nonblank: nonblank,
        sloc_noncomment: noncomment,
        file_type: file_type.map(|s| s.to_string()),
        js_exports_default: exports.map(|e| e.0),
        js_exports_named: exports.map(|e| e.1),
        js_exports_total: exports.map(|e| e.0 + e.1),
        js_export_matches_filename: matches,
    }
}

fn row(path: &str, nonblank: u32, noncomment: u32, file_type: Option<&str>, exports: Option<(u32, u32)>) -> StatRow {
    build_file_row("org/repo", "c1", "2024-01-01T00:00:00Z", path, stats(nonblank, noncomment, file_type, exports, false))
}

fn find<'a>(rows: &'a [StatRow], folder: &str) -> &'a StatRow {
    rows.iter().find(|r| r.folder == folder).expect("folder row")
}

#[test]
fn folder_of_a_path() {
    assert_eq!(path_folder("README.md"), (".".to_string(), 0));
    assert_eq!(path_folder("src/index.ts"), ("src".to_string(), 1));
    assert_eq!(path_folder("src/foo/bar.tsx"), ("src/foo".to_string(), 2));
    assert_eq!(path_folder("a//b.ts"), ("a/".to_string(), 2));
}

#[test]
fn file_row_fields() {
    let r = build_file_row(
        "org/repo",
        "sha1",
        "2024-01-01T00:00:00Z",
        "src/App.test.TS",
        stats(10, 8, Some("test"), Some((1, 2)), true),
    );
    assert_eq!(r.repo, "org/repo");
    assert_eq!(r.valid_from_sha, "sha1");
    assert_eq!(r.valid_from_date, "2024-01-01T00:00:00Z");
    assert_eq!(r.valid_to_sha, None);
    assert_eq!(r.valid_to_date, None);
    assert_eq!(r.row_type, "file");
    assert_eq!(r.folder, "src");
    assert_eq!(r.folder_depth, 1);
    assert_eq!(r.file_name.as_deref(), Some("src/App.test.TS"));
    assert_eq!(r.file_count, 1);
    assert_eq!((r.sloc_nonblank, r.sloc_noncomment), (10, 8));
    assert_eq!(r.file_type.as_deref(), Some("test"));
    assert_eq!((r.source_file_count, r.test_file_count, r.story_file_count, r.config_file_count), (0, 1, 0, 0));
    assert_eq!((r.js_exports_default, r.js_exports_named, r.js_exports_total), (Some(1), Some(2), Some(3)));
    assert_eq!(r.js_export_matches_filename, 1);
    assert_eq!(r.ts_file_count, 1);
    assert_eq!(r.js_file_count + r.jsx_file_count + r.tsx_file_count + r.py_file_count, 0);

    let y = row("ci/build.YML", 3, 3, None, None);
    assert_eq!(y.yaml_file_count, 1);
    assert_eq!(y.js_exports_total, None);
    assert_eq!(y.source_file_count + y.test_file_count + y.story_file_count + y.config_file_count, 0);
    let m = row("docs/page.mdx", 1, 1, None, None);
    assert_eq!(m.md_file_count, 1);
    let c = row("x.cjs", 1, 1, Some("source"), Some((0, 0)));
    assert_eq!((c.js_file_count, c.source_file_count), (1, 1));
}

#[test]
fn optional_counts_add_as_absent_not_zero() {
    let mut d: Option<i64> = None;
    add_opt(&mut d, None);
    assert_eq!(d, None);
    add_opt(&mut d, Some(3));
    assert_eq!(d, Some(3));
    add_opt(&mut d, Some(4));
    assert_eq!(d, Some(7));
    sub_opt(&mut d, None);
    assert_eq!(d, Some(7));
    let mut e: Option<i64> = None;
    sub_opt(&mut e, Some(2));
    assert_eq!(e, Some(-2));
}

#[test]
fn repo_row_sums_every_file() {
    let rows = vec![
        row("src/a.ts", 10, 8, Some("source"), Some((1, 2))),
        row("src/b.test.ts", 5, 5, Some("test"), Some((0, 1))),
        row("README.md", 7, 6, None, None),
    ];
    let r = aggregate_to_repo("org/repo", "c1", "d1", &rows);
    assert_eq!(r.row_type, "repo");
    assert_eq!(r.folder, ".");
    assert_eq!(r.folder_depth, 0);
    assert_eq!(r.file_name, None);
    assert_eq!(r.file_type, None);
    assert_eq!(r.valid_from_sha, "c1");
    assert_eq!(r.valid_from_date, "d1");
    assert_eq!(r.file_count, 3);
    assert_eq!(r.sloc_nonblank, 22);
    assert_eq!(r.sloc_noncomment, 19);
    assert_eq!((r.source_file_count, r.test_file_count), (1, 1));
    assert_eq!((r.js_exports_default, r.js_exports_named, r.js_exports_total), (Some(1), Some(3), Some(4)));
    assert_eq!((r.ts_file_count, r.md_file_count), (2, 1));

    let empty = aggregate_to_repo("org/repo", "c1", "d1", &[]);
    assert_eq!(empty.file_count, 0);
    assert_eq!(empty.js_exports_total, None);
}

#[test]
fn folder_rows_sum_files_directly_in_each_folder() {
    let rows = vec![
        row("src/a.ts", 10, 8, Some("source"), Some((1, 2))),
        row("README.md", 7, 6, None, None),
        row("src/b.ts", 4, 4, Some("source"), Some((0, 0))),
        row("src/ui/c.tsx", 2, 2, Some("source"), Some((1, 0))),
    ];
    let folders = aggregate_to_folders(&rows);
    assert_eq!(folders.len(), 3);
    let src = find(&folders, "src");
    assert_eq!(src.row_type, "folder");
    assert_eq!(src.file_name, None);
    assert_eq!(src.folder_depth, 1);
    assert_eq!(src.file_count, 2);
    assert_eq!(src.sloc_nonblank, 14);
    assert_eq!(src.js_exports_total, Some(3));
    let root = find(&folders, ".");
    assert_eq!(root.file_count, 1);
    assert_eq!(root.js_exports_total, None);
    assert_eq!(root.md_file_count, 1);
    let ui = find(&folders, "src/ui");
    assert_eq!(ui.folder_depth, 2);
    assert_eq!(ui.tsx_file_count, 1);
    assert!(aggregate_to_folders(&[]).is_empty());
}

#[test]
fn folder_rows_add_up_to_repo_row() {
    let rows = vec![
        row("src/a.ts", 10, 8, Some("source"), Some((1, 2))),
        row("README.md", 7, 6, None, None),
        row("lib/x.py", 4, 3, Some("test"), None),
        row("src/ui/c.tsx", 2, 2, Some("story"), Some((1, 0))),
    ];
    let folders = aggregate_to_folders(&rows);
    let repo = aggregate_to_repo("org/repo", "c1", "d1", &rows);
    let sum = |f: fn(&StatRow) -> i64| folders.iter().map(f).sum::<i64>();
    assert_eq!(sum(|r| r.file_count), repo.file_count);
    assert_eq!(sum(|r| r.sloc_nonblank), repo.sloc_nonblank);
    assert_eq!(sum(|r| r.sloc_noncomment), repo.sloc_noncomment);
    assert_eq!(sum(|r| r.test_file_count), repo.test_file_count);
    assert_eq!(sum(|r| r.story_file_count), repo.story_file_count);
    assert_eq!(sum(|r| r.py_file_count), repo.py_file_count);
    assert_eq!(sum(|r| r.tsx_file_count), repo.tsx_file_count);
    let opt_sum = |f: fn(&StatRow) -> Option<i64>| {
        let mut acc: Option<i64> = None;
        for r in &folders {
            add_opt(&mut acc, f(r));
        }
        acc
    };
    assert_eq!(opt_sum(|r| r.js_exports_default), repo.js_exports_default);
    assert_eq!(opt_sum(|r| r.js_exports_named), repo.js_exports_named);
    assert_eq!(opt_sum(|r| r.js_exports_total), repo.js_exports_total);
    assert_eq!(repo.js_exports_total, Some(4));
    let no_js = vec![row("a.md", 1, 1, None, None), row("d/b.md", 1, 1, None, None)];
    let no_js_folders = aggregate_to_folders(&no_js);
    assert!(no_js_folders.iter().all(|r| r.js_exports_total.is_none()));
    assert_eq!(aggregate_to_repo("org/repo", "c1", "d1", &no_js).js_exports_total, None);
}

#[test]
fn delta_moves_validity_start_and_counts() {
    let parent_files = vec![
        row("src/a.ts", 10, 8, Some("source"), Some((1, 2))),
        row("src/b.ts", 4, 4, Some("source"), Some((0, 1))),
    ];
    let base = aggregate_to_repo("org/repo", "p1", "pd", &parent_files);
    let removed = vec![parent_files[1].clone()];
    let added = vec![row("src/b.ts", 6, 5, Some("test"), Some((1, 1)))];
    let r = apply_delta(base, "c2", "d2", &removed, &added);
    assert_eq!(r.valid_from_sha, "c2");
    assert_eq!(r.valid_from_date, "d2");
    assert_eq!(r.row_type, "repo");
    assert_eq!(r.file_count, 2);
    assert_eq!(r.sloc_nonblank, 16);
    assert_eq!(r.sloc_noncomment, 13);
    assert_eq!((r.source_file_count, r.test_file_count), (1, 1));
    assert_eq!((r.js_exports_default, r.js_exports_named, r.js_exports_total), (Some(2), Some(3), Some(5)));
}

#[test]
fn delta_agrees_with_full_aggregation() {
    let kept = row("src/a.ts", 10, 8, Some("source"), Some((1, 2)));
    let old_b = row("src/b.ts", 4, 4, Some("source"), Some((0, 1)));
    let new_b = row("src/b.ts", 9, 7, Some("test"), Some((2, 0)));
    let new_c = row("docs/c.md", 3, 3, None, None);
    let base = aggregate_to_repo("org/repo", "p1", "pd", &[kept.clone(), old_b.clone()]);
    let delta = apply_delta(base, "c2", "d2", &[old_b], &[new_b.clone(), new_c.clone()]);
    let full = aggregate_to_repo("org/repo", "c2", "d2", &[kept, new_b, new_c]);
    assert_eq!(delta.file_count, full.file_count);
    assert_eq!(delta.sloc_nonblank, full.sloc_nonblank);
    assert_eq!(delta.sloc_noncomment, full.sloc_noncomment);
    assert_eq!(delta.source_file_count, full.source_file_count);
    assert_eq!(delta.test_file_count, full.test_file_count);
    assert_eq!(delta.md_file_count, full.md_file_count);
    assert_eq!(delta.js_exports_total, full.js_exports_total);
    assert_eq!(delta.valid_from_sha, full.valid_from_sha);
}

#[test]
fn delta_removing_only_present_optional_keeps_zero() {
    let js = row("src/a.ts", 1, 1, Some("source"), Some((1, 0)));
    let base = aggregate_to_repo("org/repo", "p1", "pd", &[js.clone()]);
    let r = apply_delta(base, "c2", "d2", &[js], &[]);
    assert_eq!(r.file_count, 0);
    assert_eq!(r.js_exports_default, Some(0));
    let full = aggregate_to_repo("org/repo", "c2", "d2", &[]);
    assert_eq!(full.js_exports_default, None);
}

#[test]
fn delta_undone_by_opposite_delta() {
    let a = row("src/a.ts", 10, 8, Some("source"), Some((1, 2)));
    let b = row("lib/b.py", 4, 2, Some("test"), None);
    let base = aggregate_to_repo("org/repo", "p1", "pd", &[a.clone()]);
    let copy = base.clone();
    let there = apply_delta(base, "c2", "d2", &[a.clone()], &[b.clone()]);
    let back = apply_delta(there, "c3", "d3", &[b], &[a]);
    assert_eq!(back.file_count, copy.file_count);
    assert_eq!(back.sloc_nonblank, copy.sloc_nonblank);
    assert_eq!(back.sloc_noncomment, copy.sloc_noncomment);
    assert_eq!(back.test_file_count, copy.test_file_count);
    assert_eq!(back.py_file_count, copy.py_file_count);
    assert_eq!(back.js_exports_total, copy.js_exports_total);
}

#[test]
fn aggregates_do_not_depend_on_row_order() {
    let a = row("src/a.ts", 10, 8, Some("source"), Some((1, 2)));
    let b = row("README.md", 7, 6, None, None);
    let c = row("src/c.ts", 3, 1, Some("test"), Some((0, 4)));
    let r1 = aggregate_to_repo("org/repo", "c1", "d1", &[a.clone(), b.clone(), c.clone()]);
    let r2 = aggregate_to_repo("org/repo", "c1", "d1", &[c.clone(), a.clone(), b.clone()]);
    assert_eq!((r1.file_count, r1.sloc_nonblank, r1.js_exports_total), (r2.file_count, r2.sloc_nonblank, r2.js_exports_total));
    let f1 = aggregate_to_folders(&[a.clone(), b.clone(), c.clone()]);
    let f2 = aggregate_to_folders(&[c, b, a]);
    for g in &f1 {
        let h = find(&f2, &g.folder);
        assert_eq!((g.file_count, g.sloc_noncomment, g.js_exports_named), (h.file_count, h.sloc_noncomment, h.js_exports_named));
    }
    assert_eq!(f1.len(), f2.len());
}

#[test]
fn delta_agrees_when_removed_rows_stand_anywhere() {
    let a = row("src/a.ts", 10, 8, Some("source"), Some((1, 2)));
    let b = row("lib/b.ts", 4, 4, Some("source"), Some((0, 1)));
    let c = row("c.md", 2, 2, None, None);
    let d = row("src/d.ts", 5, 1, Some("test"), Some((2, 2)));
    // the removed row stands first among the parent's file rows
    let base = aggregate_to_repo("org/repo", "p", "pd", &[a.clone(), b.clone(), c.clone()]);
    let delta = apply_delta(base, "c2", "d2", &[a], &[d.clone()]);
    let full = aggregate_to_repo("org/repo", "c2", "d2", &[d, c, b]);
    assert_eq!(delta.file_count, full.file_count);
    assert_eq!(delta.sloc_nonblank, full.sloc_nonblank);
    assert_eq!(delta.sloc_noncomment, full.sloc_noncomment);
    assert_eq!(delta.test_file_count, full.test_file_count);
    assert_eq!(delta.js_exports_total, full.js_exports_total);
    assert_eq!(delta.valid_from_sha, full.valid_from_sha);
}
