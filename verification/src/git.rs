//! Files and diffs of a commit as plain values, and the folder of a path.

use vstd::prelude::*;
use crate::text::{
    after_last, chars_of, copy_range, count_char, count_in, lemma_after_last, lemma_rfind_char,
    lemma_split_on_len, rfind_char, rfind_in, split_on, string_from_chars,
};

verus! {

/// A text file of a commit: its path and content.
pub struct FileEntry {
    pub path: String,
    pub content: String,
}

/// One entry from a diff between two commits.
/// `old_path` is None for added files; `new_path` is None for deleted files.
pub struct FileDiff {
    pub old_path: Option<String>,
    pub new_path: Option<String>,
}

/// The folder of a path: everything before the last `/`, or `"."` for a
/// path at the repository root.
pub open spec fn folder_of(path: Seq<char>) -> Seq<char> {
    match rfind_char(path, '/') {
        Some(i) => path.subrange(0, i),
        None => "."@,
    }
}

/// The depth of a path's folder: the number of `/`-separated components of
/// the folder, 0 at the repository root.
pub open spec fn depth_of(path: Seq<char>) -> int {
    match rfind_char(path, '/') {
        Some(i) => split_on(path.subrange(0, i), '/').len() as int,
        None => 0,
    }
}

/// Returns `(folder, folder_depth)` for a file path.
///
/// - `"README.md"`        → `(".", 0)`
/// - `"src/index.ts"`     → `("src", 1)`
/// - `"src/foo/bar.tsx"`  → `("src/foo", 2)`
pub fn path_folder(path: &str) -> (r: (String, i32))
    ensures
        r.0@ == folder_of(path@),
        r.1 == #[verifier::truncate] (depth_of(path@) as i32),
{
    let p = chars_of(path);
    match rfind_in(p.as_slice(), '/') {
        Some(idx) => {
            let folder = copy_range(p.as_slice(), 0, idx);
            let slashes = count_in(folder.as_slice(), '/');
            proof {
                lemma_split_on_len(folder@, '/');
            }
            let depth = #[verifier::truncate] ((slashes + 1) as i32);
            (string_from_chars(folder.as_slice()), depth)
        },
        None => (".".to_owned(), 0),
    }
}

/// The folder of a path is `.` at depth 0 when the path holds no `/`;
/// otherwise the path is its folder, a `/` and its file name (which holds
/// no `/`), and the depth is one more than the number of `/` in the folder.
pub proof fn law_folder_and_depth_of_a_path(path: Seq<char>)
    ensures
        (forall|j: int| 0 <= j < path.len() ==> path[j] != '/') ==> folder_of(path) == "."@ && depth_of(path) == 0,
        (exists|j: int| 0 <= j < path.len() && path[j] == '/') ==> {
            &&& path == folder_of(path) + seq!['/'] + after_last(path, '/')
            &&& forall|j: int| 0 <= j < after_last(path, '/').len() ==> after_last(path, '/')[j] != '/'
            &&& depth_of(path) == count_char(folder_of(path), '/') + 1
        },
{
    lemma_rfind_char(path, '/');
    lemma_after_last(path, '/');
    match rfind_char(path, '/') {
        Some(i) => {
            let f = path.subrange(0, i);
            lemma_split_on_len(f, '/');
            assert(path =~= f + seq!['/'] + path.subrange(i + 1, path.len() as int));
        },
        None => {},
    }
}

} // verus!
