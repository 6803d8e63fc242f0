# repo_metrics

Collects git repository statistics into SQLite: per-file line counts, file
types and JS/TS export counts, folder and repository aggregates stored with a
validity range (a row stays current until a later commit changes it), and
pull-request data from the GitHub API.

The library under `src/` is written in Verus. Verus checks every function
in it against its contract, except a few small wrappers around `std`, regex
and chrono calls, whose contracts are trusted:

- `analyzers/`, `analysis.rs`: what one file contributes (line counts, file
  type, exports) and its row.
- `aggregator.rs`: folder and repository aggregates, and delta updates of an
  aggregate; every sum is proved to stay within `i64` or refused.
- `consistency.rs`: laws relating them (folder rows add up to the repository
  row; aggregates do not depend on the order of the file rows; a delta update
  agrees with aggregating the changed file set; a delta undone by the
  opposite delta gives back the counts it started from; a delta analysis
  keeps the open folder rows sound).
- `plan.rs`: what a full or a delta analysis of a commit writes.
- `github.rs`, `digits.rs`, `db/pr_store.rs`, `progress.rs`: paging, response
  checks, rate-limit headers, pull-request rows and run counters.
- `status.rs`, `dates.rs`: the `status` report and the date handling.

`app/` is the command-line program around it: git (git2), SQLite (rusqlite),
HTTP (reqwest) and the terminal.
