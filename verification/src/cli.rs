//! The command line, as plain values: which command runs and with what arguments.

use vstd::prelude::*;
use std::path::PathBuf;

verus! {

/// `std::path::PathBuf`, carried opaquely.
#[verifier::external_type_specification]
#[verifier::external_body]
pub struct ExPathBuf(std::path::PathBuf);

/// How much detail `analyze` stores per commit.
#[derive(Clone, Copy, Debug)]
pub enum Granularity {
    /// Store file, folder, and repo rows
    All,
    /// Store only folder and repo rows (file rows are computed but not saved)
    Folder,
    /// Store only the single repo-wide row per commit
    Repo,
}

impl Default for Granularity {
    fn default() -> (g: Self)
        ensures
            g is All,
    {
        Granularity::All
    }
}

/// The command line.
pub struct Cli {
    pub command: Commands,
}

/// The commands.
pub enum Commands {
    /// Analyze a git repository at a given commit and store stats in SQLite
    Analyze(AnalyzeArgs),
    /// Fetch pull request data (authors, reviews) from the GitHub API
    Prs(PrsArgs),
    /// Show a summary of commits loaded vs missing in the database
    Status(StatusArgs),
}

/// Arguments of `analyze`.
pub struct AnalyzeArgs {
    /// Path to the git repository on disk
    pub repo_path: PathBuf,
    /// Repository identity in org/repo format (e.g. "getsentry/sentry")
    pub repo: String,
    /// Tip of the commit walk: branch name, tag, or SHA (all ancestors are analyzed)
    pub commit: String,
    /// Oldest commit date to include, in YYYY-MM-DD format (e.g. 2022-01-01).
    pub since: Option<String>,
    /// Path to the SQLite database file (created if it doesn't exist)
    pub db: PathBuf,
    /// How much detail to store per commit.
    pub granularity: Granularity,
}

/// Arguments of `status`.
pub struct StatusArgs {
    /// Path to the git repository on disk
    pub repo_path: PathBuf,
    /// Repository identity in org/repo format
    pub repo: String,
    /// Tip of the commit walk: branch name, tag, or SHA
    pub commit: String,
    /// Oldest commit date to include, in YYYY-MM-DD format.
    pub since: Option<String>,
    /// Path to the SQLite database file
    pub db: PathBuf,
}

/// Arguments of `prs`.
pub struct PrsArgs {
    /// Repository identity in org/repo format
    pub repo: String,
    /// GitHub personal access token
    pub token: String,
    /// Path to the SQLite database file (created if it doesn't exist)
    pub db: PathBuf,
    /// Only fetch PRs created on or after this date (YYYY-MM-DD)
    pub since: Option<String>,
}

} // verus!
