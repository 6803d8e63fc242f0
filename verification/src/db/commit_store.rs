//! Commit identities: one row of the `commits` table per commit.

use vstd::prelude::*;

verus! {

/// One row of the `commits` table.
pub struct CommitRow {
    pub repo: String,
    pub sha: String,
    pub author_date: String,
    pub author_name: String,
    pub author_email: String,
    pub committer_date: String,
    pub committer_name: String,
    pub committer_email: String,
}

} // verus!
