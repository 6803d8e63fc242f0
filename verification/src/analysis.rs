//! Analysis of one file: running the analyzers over its content and turning
//! the collected stats into a file row of the `stats` table.

use vstd::prelude::*;
use crate::analyzers::{low32, Analyzer, FileStats};
use crate::analyzers::common::{code_count, CommonAnalyzer};
use crate::analyzers::javascript::{
    default_export_count, export_matches, extension_of, is_js_extension, js_file_type,
    named_export_count, JsAnalyzer,
};
use crate::analyzers::python::PyAnalyzer;
use crate::db::store::StatRow;
use crate::git::{depth_of, folder_of, path_folder};
use crate::text::{
    after_last, after_last_in, chars_of, is_suffix, line_segments, nonblank_count, slice_eq_str,
    str_lowercase, string_from_chars, to_lowercase,
};

verus! {

/// The character view of an optional string.
pub open spec fn opt_view(o: Option<String>) -> Option<Seq<char>> {
    match o {
        Some(s) => Some(s@),
        None => None,
    }
}

/// `1` when `b` holds, else `0`.
pub open spec fn flag(b: bool) -> i64 {
    if b {
        1
    } else {
        0
    }
}

/// An optional `u32` count widened to `i64`.
pub open spec fn widen(o: Option<u32>) -> Option<i64> {
    match o {
        Some(v) => Some(v as i64),
        None => None,
    }
}

/// The stats that the three analyzers give a file: line counts for every
/// file; export counts, the stem match and a file type for JS/TS files;
/// no file type and no export counts for any other file.
pub open spec fn is_file_analysis(path: Seq<char>, content: Seq<char>, s: FileStats) -> bool {
    let js = is_js_extension(extension_of(path));
    &&& s.sloc_nonblank == low32(nonblank_count(line_segments(content)) as int)
    &&& s.sloc_noncomment == low32(code_count(line_segments(content)) as int)
    &&& opt_view(s.file_type) == if js {
        Some(js_file_type(path))
    } else {
        None
    }
    &&& s.js_exports_default == if js {
        Some(low32(default_export_count(content) as int))
    } else {
        None
    }
    &&& s.js_exports_named == if js {
        Some(low32(named_export_count(content) as int))
    } else {
        None
    }
    &&& s.js_exports_total == if js {
        Some(low32((default_export_count(content) + named_export_count(content)) as int))
    } else {
        None
    }
    &&& s.js_export_matches_filename == (js && export_matches(path, content))
}

/// Runs the common, JavaScript and Python analyzers, in that order, over a
/// file, each only where it handles the file.
pub fn analyze_file(js: &JsAnalyzer, path: &str, content: &str) -> (s: FileStats)
    ensures
        is_file_analysis(path@, content@, s),
{
    let mut stats = FileStats::default();
    let common = CommonAnalyzer;
    if common.can_analyze(path) {
        common.analyze(path, content, &mut stats);
    }
    if js.can_analyze(path) {
        js.analyze(path, content, &mut stats);
    }
    let py = PyAnalyzer;
    if py.can_analyze(path) {
        py.analyze(path, content, &mut stats);
    }
    stats
}

/// The lowercased extension of a path is `e`.
pub open spec fn has_extension(path: Seq<char>, e: Seq<char>) -> bool {
    str_lowercase(extension_of(path)) == e
}

/// `r` is the file row for `path` at a commit, built from the file's stats:
/// an open row of type `"file"` in the path's folder, counting one file,
/// with the line counts, file type and export stats of `stats`, a 0/1 count
/// per file type, and a 0/1 count per (lowercased) extension group.
pub open spec fn is_file_row(
    r: StatRow,
    repo: Seq<char>,
    sha: Seq<char>,
    date: Seq<char>,
    path: Seq<char>,
    stats: FileStats,
) -> bool {
    &&& r.repo@ == repo
    &&& r.valid_from_sha@ == sha
    &&& r.valid_from_date@ == date
    &&& r.valid_to_sha is None
    &&& r.valid_to_date is None
    &&& r.row_type@ == "file"@
    &&& r.folder@ == folder_of(path)
    &&& r.folder_depth == #[verifier::truncate] (depth_of(path) as i32)
    &&& opt_view(r.file_name) == Some(path)
    &&& r.file_count == 1
    &&& r.sloc_nonblank == stats.sloc_nonblank as i64
    &&& r.sloc_noncomment == stats.sloc_noncomment as i64
    &&& r.file_type == stats.file_type
    &&& r.source_file_count == flag(opt_view(stats.file_type) == Some("source"@))
    &&& r.test_file_count == flag(opt_view(stats.file_type) == Some("test"@))
    &&& r.story_file_count == flag(opt_view(stats.file_type) == Some("story"@))
    &&& r.config_file_count == flag(opt_view(stats.file_type) == Some("config"@))
    &&& r.js_exports_default == widen(stats.js_exports_default)
    &&& r.js_exports_named == widen(stats.js_exports_named)
    &&& r.js_exports_total == widen(stats.js_exports_total)
    &&& r.js_export_matches_filename == flag(stats.js_export_matches_filename)
    &&& r.py_file_count == flag(has_extension(path, "py"@))
    &&& r.js_file_count == flag(
        has_extension(path, "js"@) || has_extension(path, "mjs"@) || has_extension(path, "cjs"@),
    )
    &&& r.jsx_file_count == flag(has_extension(path, "jsx"@))
    &&& r.ts_file_count == flag(
        has_extension(path, "ts"@) || has_extension(path, "mts"@) || has_extension(path, "cts"@),
    )
    &&& r.tsx_file_count == flag(has_extension(path, "tsx"@))
    &&& r.css_file_count == flag(
        has_extension(path, "css"@) || has_extension(path, "scss"@) || has_extension(path, "sass"@)
            || has_extension(path, "less"@),
    )
    &&& r.html_file_count == flag(has_extension(path, "html"@) || has_extension(path, "htm"@))
    &&& r.md_file_count == flag(has_extension(path, "md"@) || has_extension(path, "mdx"@))
    &&& r.json_file_count == flag(has_extension(path, "json"@))
    &&& r.yaml_file_count == flag(has_extension(path, "yaml"@) || has_extension(path, "yml"@))
}

fn opt_str_is(o: &Option<String>, lit: &str) -> (r: bool)
    ensures
        r == (opt_view(*o) == Some(lit@)),
{
    match o {
        Some(t) => {
            let c = chars_of(t.as_str());
            slice_eq_str(c.as_slice(), lit)
        },
        None => false,
    }
}

fn count_of(b: bool) -> (r: i64)
    ensures
        r == flag(b),
{
    if b {
        1
    } else {
        0
    }
}

fn widen_count(o: Option<u32>) -> (r: Option<i64>)
    ensures
        r == widen(o),
{
    match o {
        Some(v) => Some(v as i64),
        None => None,
    }
}

/// Builds the file row for `path` at a commit from the file's stats.
pub fn build_file_row(
    repo: &str,
    commit_sha: &str,
    commit_date: &str,
    path: &str,
    stats: FileStats,
) -> (r: StatRow)
    ensures
        is_file_row(r, repo@, commit_sha@, commit_date@, path@, stats),
{
    let (folder, folder_depth) = path_folder(path);

    let source_file_count = count_of(opt_str_is(&stats.file_type, "source"));
    let test_file_count = count_of(opt_str_is(&stats.file_type, "test"));
    let story_file_count = count_of(opt_str_is(&stats.file_type, "story"));
    let config_file_count = count_of(opt_str_is(&stats.file_type, "config"));

    let p = chars_of(path);
    let raw_ext = string_from_chars(after_last_in(p.as_slice(), '.').as_slice());
    let lower = to_lowercase(raw_ext.as_str());
    let ext_chars = chars_of(lower.as_str());
    let ext = ext_chars.as_slice();
    let py_file_count = count_of(slice_eq_str(ext, "py"));
    let js_file_count = count_of(
        slice_eq_str(ext, "js") || slice_eq_str(ext, "mjs") || slice_eq_str(ext, "cjs"),
    );
    let jsx_file_count = count_of(slice_eq_str(ext, "jsx"));
    let ts_file_count = count_of(
        slice_eq_str(ext, "ts") || slice_eq_str(ext, "mts") || slice_eq_str(ext, "cts"),
    );
    let tsx_file_count = count_of(slice_eq_str(ext, "tsx"));
    let css_file_count = count_of(
        slice_eq_str(ext, "css") || slice_eq_str(ext, "scss") || slice_eq_str(ext, "sass")
            || slice_eq_str(ext, "less"),
    );
    let html_file_count = count_of(slice_eq_str(ext, "html") || slice_eq_str(ext, "htm"));
    let md_file_count = count_of(slice_eq_str(ext, "md") || slice_eq_str(ext, "mdx"));
    let json_file_count = count_of(slice_eq_str(ext, "json"));
    let yaml_file_count = count_of(slice_eq_str(ext, "yaml") || slice_eq_str(ext, "yml"));

    StatRow {
        repo: repo.to_owned(),
        valid_from_sha: commit_sha.to_owned(),
        valid_from_date: commit_date.to_owned(),
        valid_to_sha: None,
        valid_to_date: None,
        row_type: "file".to_owned(),
        folder,
        folder_depth,
        file_name: Some(path.to_owned()),
        file_count: 1,
        sloc_nonblank: stats.sloc_nonblank as i64,
        sloc_noncomment: stats.sloc_noncomment as i64,
        file_type: stats.file_type,
        source_file_count,
        test_file_count,
        story_file_count,
        config_file_count,
        js_exports_default: widen_count(stats.js_exports_default),
        js_exports_named: widen_count(stats.js_exports_named),
        js_exports_total: widen_count(stats.js_exports_total),
        js_export_matches_filename: count_of(stats.js_export_matches_filename),
        py_file_count,
        js_file_count,
        jsx_file_count,
        ts_file_count,
        tsx_file_count,
        css_file_count,
        html_file_count,
        md_file_count,
        json_file_count,
        yaml_file_count,
    }
}

/// Analyzes a file and builds its row at a commit.
pub fn file_row(
    js: &JsAnalyzer,
    repo: &str,
    commit_sha: &str,
    commit_date: &str,
    path: &str,
    content: &str,
) -> (r: StatRow)
    ensures
        exists|s: FileStats|
            is_file_analysis(path@, content@, s) && is_file_row(
                r,
                repo@,
                commit_sha@,
                commit_date@,
                path@,
                s,
            ),
{
    let stats = analyze_file(js, path, content);
    let ghost s = stats;
    let r = build_file_row(repo, commit_sha, commit_date, path, stats);
    assert(is_file_analysis(path@, content@, s) && is_file_row(r, repo@, commit_sha@, commit_date@, path@, s));
    r
}

/// The JS/TS analysis runs exactly on the paths whose text after the last
/// `.` is one of `js`, `jsx`, `ts`, `tsx`, `mjs`, `cjs`, `mts`, `cts`: those
/// files get export counts and a JS file type, every other file gets
/// neither, and no other file can match its file name by an export.
pub proof fn law_js_analysis_exactly_for_js_extensions(path: Seq<char>, content: Seq<char>, s: FileStats)
    requires
        is_file_analysis(path, content, s),
    ensures
        ({
            let e = after_last(path, '.');
            let js = e == "js"@ || e == "jsx"@ || e == "ts"@ || e == "tsx"@ || e == "mjs"@ || e
                == "cjs"@ || e == "mts"@ || e == "cts"@;
            &&& (s.js_exports_default is Some) == js
            &&& (s.js_exports_named is Some) == js
            &&& (s.js_exports_total is Some) == js
            &&& (s.file_type is Some) == js
            &&& js ==> opt_view(s.file_type) == Some(js_file_type(path))
            &&& s.js_export_matches_filename ==> js
            &&& js ==> s.js_exports_total->0 as int == (s.js_exports_default->0 + s.js_exports_named->0)
                % 0x1_0000_0000
        }),
{
    let e = after_last(path, '.');
    if is_js_extension(e) {
        let d = default_export_count(content) as int;
        let n = named_export_count(content) as int;
        crate::analyzers::javascript::lemma_low32_add(d, n);
    }
}

/// The counts of a file row: one file; a 1 in the count of its file type
/// (`source`, `test`, `story`, `config`), 0 in the others; and a 1 in the
/// count of its lowercased extension's group, 0 in the others: `py`; `js`,
/// `mjs`, `cjs`; `jsx`; `ts`, `mts`, `cts`; `tsx`; `css`, `scss`, `sass`,
/// `less`; `html`, `htm`; `md`, `mdx`; `json`; `yaml`, `yml`. A file is in
/// at most one extension group.
pub proof fn law_file_row_counts(
    r: StatRow,
    repo: Seq<char>,
    sha: Seq<char>,
    date: Seq<char>,
    path: Seq<char>,
    stats: FileStats,
)
    requires
        is_file_row(r, repo, sha, date, path, stats),
    ensures
        ({
            let e = str_lowercase(after_last(path, '.'));
            let t = opt_view(stats.file_type);
            &&& r.file_count == 1
            &&& r.source_file_count == if t == Some("source"@) { 1i64 } else { 0 }
            &&& r.test_file_count == if t == Some("test"@) { 1i64 } else { 0 }
            &&& r.story_file_count == if t == Some("story"@) { 1i64 } else { 0 }
            &&& r.config_file_count == if t == Some("config"@) { 1i64 } else { 0 }
            &&& r.py_file_count == if e == "py"@ { 1i64 } else { 0 }
            &&& r.js_file_count == if e == "js"@ || e == "mjs"@ || e == "cjs"@ { 1i64 } else { 0 }
            &&& r.jsx_file_count == if e == "jsx"@ { 1i64 } else { 0 }
            &&& r.ts_file_count == if e == "ts"@ || e == "mts"@ || e == "cts"@ { 1i64 } else { 0 }
            &&& r.tsx_file_count == if e == "tsx"@ { 1i64 } else { 0 }
            &&& r.css_file_count == if e == "css"@ || e == "scss"@ || e == "sass"@ || e == "less"@ {
                1i64
            } else {
                0
            }
            &&& r.html_file_count == if e == "html"@ || e == "htm"@ { 1i64 } else { 0 }
            &&& r.md_file_count == if e == "md"@ || e == "mdx"@ { 1i64 } else { 0 }
            &&& r.json_file_count == if e == "json"@ { 1i64 } else { 0 }
            &&& r.yaml_file_count == if e == "yaml"@ || e == "yml"@ { 1i64 } else { 0 }
            &&& r.py_file_count + r.js_file_count + r.jsx_file_count + r.ts_file_count + r.tsx_file_count
                + r.css_file_count + r.html_file_count + r.md_file_count + r.json_file_count
                + r.yaml_file_count <= 1
            &&& r.source_file_count + r.test_file_count + r.story_file_count + r.config_file_count <= 1
        }),
{
    reveal_strlit("py");
    reveal_strlit("js");
    reveal_strlit("mjs");
    reveal_strlit("cjs");
    reveal_strlit("jsx");
    reveal_strlit("ts");
    reveal_strlit("mts");
    reveal_strlit("cts");
    reveal_strlit("tsx");
    reveal_strlit("css");
    reveal_strlit("scss");
    reveal_strlit("sass");
    reveal_strlit("less");
    reveal_strlit("html");
    reveal_strlit("htm");
    reveal_strlit("md");
    reveal_strlit("mdx");
    reveal_strlit("json");
    reveal_strlit("yaml");
    reveal_strlit("yml");
    reveal_strlit("source");
    reveal_strlit("test");
    reveal_strlit("story");
    reveal_strlit("config");
    let e = str_lowercase(after_last(path, '.'));
    let names = seq![
        "py"@, "js"@, "mjs"@, "cjs"@, "jsx"@, "ts"@, "mts"@, "cts"@, "tsx"@, "css"@, "scss"@,
        "sass"@, "less"@, "html"@, "htm"@, "md"@, "mdx"@, "json"@, "yaml"@, "yml"@
    ];
    assert forall|a: int, b: int| 0 <= a < b < names.len() implies names[a] != names[b] by {
        if names[a] == names[b] {
            assert(names[a].len() == names[b].len());
            assert(names[a][0] == names[b][0]);
            if names[a].len() > 1 {
                assert(names[a][1] == names[b][1]);
            }
            if names[a].len() > 2 {
                assert(names[a][2] == names[b][2]);
            }
            if names[a].len() > 3 {
                assert(names[a][3] == names[b][3]);
            }
        }
    }
    assert(names[0] == "py"@ && names[1] == "js"@ && names[2] == "mjs"@ && names[3] == "cjs"@);
    assert(names[4] == "jsx"@ && names[5] == "ts"@ && names[6] == "mts"@ && names[7] == "cts"@);
    assert(names[8] == "tsx"@ && names[9] == "css"@ && names[10] == "scss"@ && names[11] == "sass"@);
    assert(names[12] == "less"@ && names[13] == "html"@ && names[14] == "htm"@ && names[15] == "md"@);
    assert(names[16] == "mdx"@ && names[17] == "json"@ && names[18] == "yaml"@ && names[19] == "yml"@);
    let kinds = seq!["source"@, "test"@, "story"@, "config"@];
    assert forall|a: int, b: int| 0 <= a < b < kinds.len() implies kinds[a] != kinds[b] by {
        if kinds[a] == kinds[b] {
            assert(kinds[a].len() == kinds[b].len());
            assert(kinds[a][0] == kinds[b][0]);
        }
    }
    assert(kinds[0] == "source"@ && kinds[1] == "test"@ && kinds[2] == "story"@ && kinds[3] == "config"@);
}

} // verus!
