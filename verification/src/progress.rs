//! Running counts of the `analyze` and `prs` commands, and when each closes
//! a database transaction.

use vstd::prelude::*;

use crate::plan::BATCH_SIZE;
use crate::text::{chars_of, string_from_chars};

verus! {

/// Counts of an `analyze` run: commits analyzed, and commits skipped
/// (already in the database, or whose tree could not be read).
pub struct AnalyzeTally {
    pub analyzed: usize,
    pub skipped: usize,
}

impl AnalyzeTally {
    /// Nothing counted yet.
    pub fn new() -> (t: AnalyzeTally)
        ensures
            t.analyzed == 0,
            t.skipped == 0,
    {
        AnalyzeTally { analyzed: 0, skipped: 0 }
    }

    /// One more commit skipped.
    pub fn skip(&mut self)
        requires
            old(self).skipped < usize::MAX,
        ensures
            final(self).skipped == old(self).skipped + 1,
            final(self).analyzed == old(self).analyzed,
    {
        self.skipped = self.skipped + 1;
    }

    /// The commit at position `index` (from 0) of the run was analyzed.
    /// Returns whether the transaction is closed after it: after every
    /// `BATCH_SIZE` commits of the run, analyzed or not.
    pub fn analyzed_at(&mut self, index: usize) -> (commit_batch: bool)
        requires
            old(self).analyzed < usize::MAX,
            index < usize::MAX,
        ensures
            final(self).analyzed == old(self).analyzed + 1,
            final(self).skipped == old(self).skipped,
            commit_batch == ((index + 1) % (BATCH_SIZE as int) == 0),
    {
        self.analyzed = self.analyzed + 1;
        (index + 1) % BATCH_SIZE == 0
    }
}

/// Counts of a `prs` run: pull requests fetched, and those skipped because
/// the database holds them unchanged.
pub struct PrTally {
    pub fetched: usize,
    pub skipped: usize,
}

/// Pull requests fetched per database transaction.
pub const PR_BATCH_SIZE: usize = 100;

impl PrTally {
    /// Nothing counted yet.
    pub fn new() -> (t: PrTally)
        ensures
            t.fetched == 0,
            t.skipped == 0,
    {
        PrTally { fetched: 0, skipped: 0 }
    }

    /// One more pull request skipped as unchanged.
    pub fn skip_unchanged(&mut self)
        requires
            old(self).skipped < usize::MAX,
        ensures
            final(self).skipped == old(self).skipped + 1,
            final(self).fetched == old(self).fetched,
    {
        self.skipped = self.skipped + 1;
    }

    /// One more pull request fetched and stored. Returns whether the
    /// transaction is closed after it: after every `PR_BATCH_SIZE` fetched.
    pub fn fetched_one(&mut self) -> (commit_batch: bool)
        requires
            old(self).fetched < usize::MAX,
        ensures
            final(self).fetched == old(self).fetched + 1,
            final(self).skipped == old(self).skipped,
            commit_batch == ((old(self).fetched + 1) % (PR_BATCH_SIZE as int) == 0),
    {
        self.fetched = self.fetched + 1;
        self.fetched % PR_BATCH_SIZE == 0
    }
}

/// The number of characters of a title shown in progress lines.
pub const TITLE_PREVIEW_CHARS: usize = 60;

/// The first `TITLE_PREVIEW_CHARS` characters of `title` (all of it when
/// shorter).
pub fn title_preview(title: &str) -> (r: String)
    ensures
        r@ == title@.take(if title@.len() < 60 { title@.len() as int } else { 60 }),
{
    let cs = chars_of(title);
    let n: usize = if cs.len() < TITLE_PREVIEW_CHARS { cs.len() } else { TITLE_PREVIEW_CHARS };
    let head = crate::text::copy_range(cs.as_slice(), 0, n);
    assert(head@ =~= title@.take(n as int));
    string_from_chars(head.as_slice())
}

} // verus!
