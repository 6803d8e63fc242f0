//! Python analyzer: recognises `.py` files. File types are recorded for
//! JS/TS files only, so analysing a Python file leaves its stats as they
//! are; `classify_file_type` gives the test/source class of a Python path.

use vstd::prelude::*;
use crate::analyzers::{Analyzer, FileStats};
use crate::text::{
    after_last, after_last_in, chars_of, contains_seq, contains_str, ends_with_str, is_prefix,
    is_suffix, starts_with_str,
};

verus! {

/// The file type of a Python file: `"test"` for pytest-style names
/// (`test_*.py`, `*_test.py`) and for files under a `tests/` or `test/`
/// directory, `"source"` otherwise.
pub open spec fn py_file_type(path: Seq<char>) -> Seq<char> {
    let name = after_last(path, '/');
    if is_prefix("test_"@, name) || is_suffix("_test.py"@, name) || contains_seq(path, "/tests/"@)
        || contains_seq(path, "/test/"@) || is_prefix("tests/"@, path) || is_prefix(
        "test/"@,
        path,
    ) {
        "test"@
    } else {
        "source"@
    }
}

/// Classifies a Python file by its path.
pub fn classify_file_type(file_name: &str) -> (r: &'static str)
    ensures
        r@ == py_file_type(file_name@),
{
    let path = chars_of(file_name);
    let name = after_last_in(path.as_slice(), '/');
    // test_foo.py — pytest convention
    if starts_with_str(name.as_slice(), "test_") {
        return "test";
    }
    // foo_test.py — Go-style, also used in some Python projects
    if ends_with_str(name.as_slice(), "_test.py") {
        return "test";
    }
    // files under tests/ or test/ are tests by convention
    if contains_str(path.as_slice(), "/tests/") || contains_str(path.as_slice(), "/test/")
        || starts_with_str(path.as_slice(), "tests/") || starts_with_str(path.as_slice(), "test/") {
        return "test";
    }
    "source"
}

/// Analyzer for Python files.
pub struct PyAnalyzer;

impl Analyzer for PyAnalyzer {
    fn can_analyze(&self, file_name: &str) -> (r: bool)
        ensures
            r == is_suffix(".py"@, file_name@),
    {
        let path = chars_of(file_name);
        ends_with_str(path.as_slice(), ".py")
    }

    fn analyze(&self, _file_name: &str, _content: &str, stats: &mut FileStats)
        ensures
            final(stats).file_type == old(stats).file_type,
            final(stats).sloc_nonblank == old(stats).sloc_nonblank,
            final(stats).sloc_noncomment == old(stats).sloc_noncomment,
            final(stats).js_exports_default == old(stats).js_exports_default,
            final(stats).js_exports_named == old(stats).js_exports_named,
            final(stats).js_exports_total == old(stats).js_exports_total,
            final(stats).js_export_matches_filename == old(stats).js_export_matches_filename,
    {
    }
}

/// A Python file is a test when its file name follows the pytest naming
/// (`test_*`, `*_test.py`), wherever it stands; otherwise exactly when it
/// lies under a `tests` or `test` directory (at the start of the path or
/// after a `/`); everything else is source.
pub proof fn law_python_file_types(p: Seq<char>)
    ensures
        ({
            let n = after_last(p, '/');
            let test_name = is_prefix("test_"@, n) || is_suffix("_test.py"@, n);
            let in_test_dir = contains_seq(p, "/tests/"@) || contains_seq(p, "/test/"@) || is_prefix(
                "tests/"@,
                p,
            ) || is_prefix("test/"@, p);
            &&& test_name ==> py_file_type(p) == "test"@
            &&& !test_name ==> py_file_type(p) == if in_test_dir { "test"@ } else { "source"@ }
        }),
{
}

} // verus!
