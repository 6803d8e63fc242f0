//! Per-file analyzers. Each analyzer decides by path whether it handles a
//! file, and fills its own fields of `FileStats`.

pub mod common;
pub mod javascript;
pub mod patterns;
pub mod python;

use vstd::prelude::*;

verus! {

/// The value of a count kept in a `u32` that wraps on overflow: `n` modulo 2^32.
pub open spec fn low32(n: int) -> u32 {
    (n % 0x1_0000_0000) as u32
}

/// Counting one more keeps a wrapped count in step with `wrapping_add(1)`.
pub proof fn lemma_low32_succ(n: int)
    requires
        n >= 0,
    ensures
        low32(n + 1) == (if low32(n) == u32::MAX {
            0u32
        } else {
            (low32(n) + 1) as u32
        }),
{
}

/// Stats collected for a single file. Populated by one or more `Analyzer`s.
pub struct FileStats {
    /// Lines that are non-empty/non-whitespace
    pub sloc_nonblank: u32,
    /// Non-blank lines that are also not comment lines
    pub sloc_noncomment: u32,
    /// JS/TS only: "source" | "test" | "story" | "config". None for all other files.
    pub file_type: Option<String>,
    /// JS/TS only: counts of each export kind. None for non-JS files.
    pub js_exports_default: Option<u32>,
    pub js_exports_named: Option<u32>,
    pub js_exports_total: Option<u32>,
    /// JS/TS only: true if any export's public name matches the file stem
    /// (case-insensitive, stem = filename up to first dot).
    pub js_export_matches_filename: bool,
}

impl Default for FileStats {
    fn default() -> (s: Self)
        ensures
            s.sloc_nonblank == 0,
            s.sloc_noncomment == 0,
            s.file_type is None,
            s.js_exports_default is None,
            s.js_exports_named is None,
            s.js_exports_total is None,
            !s.js_export_matches_filename,
    {
        FileStats {
            sloc_nonblank: 0,
            sloc_noncomment: 0,
            file_type: None,
            js_exports_default: None,
            js_exports_named: None,
            js_exports_total: None,
            js_export_matches_filename: false,
        }
    }
}

/// A per-file analyzer.
pub trait Analyzer {
    /// Whether this analyzer handles the given file (by path/extension).
    fn can_analyze(&self, file_name: &str) -> bool;

    /// Populate `stats` for the given file. Called only when `can_analyze` returns true.
    /// Multiple analyzers may run on the same file; each writes its own fields.
    fn analyze(&self, file_name: &str, content: &str, stats: &mut FileStats);
}

} // verus!
