//! Statistics rows. A row covers one file, one folder or the whole
//! repository, and is current over a range of commits (its validity range).

use vstd::prelude::*;

verus! {

/// One row of the `stats` table.
pub struct StatRow {
    pub repo: String,
    /// Validity range (SCD Type 2): the commit range where this row is current
    pub valid_from_sha: String,
    pub valid_from_date: String,
    pub valid_to_sha: Option<String>,
    pub valid_to_date: Option<String>,
    /// "file" | "folder" | "repo"
    pub row_type: String,
    /// '.' = repo root, 'src/foo' = folder
    pub folder: String,
    pub folder_depth: i32,
    /// file_name None = aggregate row
    pub file_name: Option<String>,
    pub file_count: i64,
    pub sloc_nonblank: i64,
    pub sloc_noncomment: i64,
    /// JS/TS classification; None on other files and on aggregate rows
    pub file_type: Option<String>,
    pub source_file_count: i64,
    pub test_file_count: i64,
    pub story_file_count: i64,
    pub config_file_count: i64,
    /// JS/TS export stats (None on non-JS files)
    pub js_exports_default: Option<i64>,
    pub js_exports_named: Option<i64>,
    pub js_exports_total: Option<i64>,
    pub js_export_matches_filename: i64,
    /// Per-extension file counts (0/1 on file rows, sums on aggregate rows)
    pub py_file_count: i64,
    pub js_file_count: i64,
    pub jsx_file_count: i64,
    pub ts_file_count: i64,
    pub tsx_file_count: i64,
    pub css_file_count: i64,
    pub html_file_count: i64,
    pub md_file_count: i64,
    pub json_file_count: i64,
    pub yaml_file_count: i64,
}

/// Number of plain counters on a row (see `counter`).
pub open spec fn num_counters() -> int {
    18
}

/// Number of optional counters on a row (see `opt_counter`).
pub open spec fn num_opt_counters() -> int {
    3
}

/// The `k`-th plain counter of a row: file count, the two line counts, the
/// four file-type counts, the export/filename match count, and the ten
/// per-extension counts, in the order the fields are declared.
pub open spec fn counter(r: StatRow, k: int) -> int {
    if k == 0 {
        r.file_count as int
    } else if k == 1 {
        r.sloc_nonblank as int
    } else if k == 2 {
        r.sloc_noncomment as int
    } else if k == 3 {
        r.source_file_count as int
    } else if k == 4 {
        r.test_file_count as int
    } else if k == 5 {
        r.story_file_count as int
    } else if k == 6 {
        r.config_file_count as int
    } else if k == 7 {
        r.js_export_matches_filename as int
    } else if k == 8 {
        r.py_file_count as int
    } else if k == 9 {
        r.js_file_count as int
    } else if k == 10 {
        r.jsx_file_count as int
    } else if k == 11 {
        r.ts_file_count as int
    } else if k == 12 {
        r.tsx_file_count as int
    } else if k == 13 {
        r.css_file_count as int
    } else if k == 14 {
        r.html_file_count as int
    } else if k == 15 {
        r.md_file_count as int
    } else if k == 16 {
        r.json_file_count as int
    } else {
        r.yaml_file_count as int
    }
}

/// The integer view of an optional `i64`.
pub open spec fn opt_int(o: Option<i64>) -> Option<int> {
    match o {
        Some(v) => Some(v as int),
        None => None,
    }
}

/// The `k`-th optional counter of a row: default, named and total export counts.
pub open spec fn opt_counter(r: StatRow, k: int) -> Option<int> {
    if k == 0 {
        opt_int(r.js_exports_default)
    } else if k == 1 {
        opt_int(r.js_exports_named)
    } else {
        opt_int(r.js_exports_total)
    }
}

/// The fields of a row that are not counters are those of `other`.
pub open spec fn same_labels(r: StatRow, other: StatRow) -> bool {
    &&& r.repo == other.repo
    &&& r.valid_from_sha == other.valid_from_sha
    &&& r.valid_from_date == other.valid_from_date
    &&& r.valid_to_sha == other.valid_to_sha
    &&& r.valid_to_date == other.valid_to_date
    &&& r.row_type == other.row_type
    &&& r.folder == other.folder
    &&& r.folder_depth == other.folder_depth
    &&& r.file_name == other.file_name
    &&& r.file_type == other.file_type
}

fn clone_opt_string(o: &Option<String>) -> (r: Option<String>)
    ensures
        r == *o,
{
    match o {
        Some(s) => Some(s.clone()),
        None => None,
    }
}

impl Clone for StatRow {
    fn clone(&self) -> (r: Self)
        ensures
            r == *self,
    {
        StatRow {
            repo: self.repo.clone(),
            valid_from_sha: self.valid_from_sha.clone(),
            valid_from_date: self.valid_from_date.clone(),
            valid_to_sha: clone_opt_string(&self.valid_to_sha),
            valid_to_date: clone_opt_string(&self.valid_to_date),
            row_type: self.row_type.clone(),
            folder: self.folder.clone(),
            folder_depth: self.folder_depth,
            file_name: clone_opt_string(&self.file_name),
            file_count: self.file_count,
            sloc_nonblank: self.sloc_nonblank,
            sloc_noncomment: self.sloc_noncomment,
            file_type: clone_opt_string(&self.file_type),
            source_file_count: self.source_file_count,
            test_file_count: self.test_file_count,
            story_file_count: self.story_file_count,
            config_file_count: self.config_file_count,
            js_exports_default: self.js_exports_default,
            js_exports_named: self.js_exports_named,
            js_exports_total: self.js_exports_total,
            js_export_matches_filename: self.js_export_matches_filename,
            py_file_count: self.py_file_count,
            js_file_count: self.js_file_count,
            jsx_file_count: self.jsx_file_count,
            ts_file_count: self.ts_file_count,
            tsx_file_count: self.tsx_file_count,
            css_file_count: self.css_file_count,
            html_file_count: self.html_file_count,
            md_file_count: self.md_file_count,
            json_file_count: self.json_file_count,
            yaml_file_count: self.yaml_file_count,
        }
    }
}

} // verus!
