//! The `status` report: how much of a repository's history the database
//! holds.

use vstd::prelude::*;

use crate::plan::{contains_string, strings_view};

verus! {

/// A commit as `(sha, date)` text.
pub open spec fn pair_view(p: (String, String)) -> (Seq<char>, Seq<char>) {
    (p.0@, p.1@)
}

/// The commits of `s` as text.
pub open spec fn pairs_view(s: Seq<(String, String)>) -> Seq<(Seq<char>, Seq<char>)> {
    s.map_values(|p: (String, String)| pair_view(p))
}

/// The commits of `cs`, in order, whose sha the database holds (`loaded`
/// true) or does not hold (`loaded` false).
pub open spec fn commits_where(
    cs: Seq<(Seq<char>, Seq<char>)>,
    db: Seq<Seq<char>>,
    loaded: bool,
) -> Seq<(Seq<char>, Seq<char>)>
    decreases cs.len(),
{
    if cs.len() == 0 {
        Seq::empty()
    } else {
        let rest = commits_where(cs.drop_last(), db, loaded);
        if db.contains(cs.last().0) == loaded {
            rest.push(cs.last())
        } else {
            rest
        }
    }
}

/// The dates of the first and the last commit of `cs`, where there is one.
pub open spec fn date_range(cs: Seq<(Seq<char>, Seq<char>)>) -> Option<(Seq<char>, Seq<char>)> {
    if cs.len() == 0 {
        None
    } else {
        Some((cs[0].1, cs.last().1))
    }
}

/// The number of missing commits that the report lists.
pub const MISSING_SHOWN: usize = 10;

/// The `status` report.
pub struct StatusSummary {
    /// Commits in the git history.
    pub total: usize,
    /// Of those, commits that the database holds.
    pub loaded: usize,
    /// Of those, commits that the database does not hold.
    pub missing: usize,
    /// Dates of the oldest and the newest commit of the history.
    pub git_range: Option<(String, String)>,
    /// Dates of the oldest and the newest commit that the database holds.
    pub db_range: Option<(String, String)>,
    /// The oldest missing commits, at most `MISSING_SHOWN` of them.
    pub oldest_missing: Vec<(String, String)>,
    /// How many more commits are missing beyond those listed.
    pub more_missing: usize,
}

/// A pair of strings as text, where there is one.
pub open spec fn opt_pair_view(p: Option<(String, String)>) -> Option<(Seq<char>, Seq<char>)> {
    match p {
        Some(q) => Some(pair_view(q)),
        None => None,
    }
}

/// Copies a commit pair.
fn copy_pair(p: &(String, String)) -> (r: (String, String))
    ensures
        pair_view(r) == pair_view(*p),
{
    (p.0.clone(), p.1.clone())
}

/// Summarizes the history `commits` (oldest first, as `(sha, date)`) against
/// the shas that the database holds.
pub fn status_summary(commits: &[(String, String)], in_db: &[String]) -> (r: StatusSummary)
    ensures
        ({
            let cs = pairs_view(commits@);
            let db = strings_view(in_db@);
            let loaded = commits_where(cs, db, true);
            let missing = commits_where(cs, db, false);
            let shown = if missing.len() < 10 { missing.len() as int } else { 10 };
            &&& r.total == commits@.len()
            &&& r.loaded == loaded.len()
            &&& r.missing == missing.len()
            &&& r.loaded + r.missing == r.total
            &&& opt_pair_view(r.git_range) == date_range(cs)
            &&& opt_pair_view(r.db_range) == date_range(loaded)
            &&& pairs_view(r.oldest_missing@) == missing.take(shown)
            &&& r.more_missing == missing.len() - shown
        }),
{
    let ghost cs = pairs_view(commits@);
    let ghost db = strings_view(in_db@);
    let mut loaded: usize = 0;
    let mut missing: usize = 0;
    let mut first_loaded: Option<(String, String)> = None;
    let mut last_loaded: Option<(String, String)> = None;
    let mut shown: Vec<(String, String)> = Vec::new();
    let mut i: usize = 0;
    while i < commits.len()
        invariant
            i <= commits.len(),
            cs == pairs_view(commits@),
            db == strings_view(in_db@),
            loaded + missing == i,
            loaded == commits_where(cs.take(i as int), db, true).len(),
            missing == commits_where(cs.take(i as int), db, false).len(),
            commits_where(cs.take(i as int), db, true).len() == 0 ==> first_loaded is None && last_loaded is None,
            commits_where(cs.take(i as int), db, true).len() > 0 ==> {
                &&& opt_pair_view(first_loaded) == Some(commits_where(cs.take(i as int), db, true)[0])
                &&& opt_pair_view(last_loaded) == Some(commits_where(cs.take(i as int), db, true).last())
            },
            pairs_view(shown@) == commits_where(cs.take(i as int), db, false).take(
                if missing < 10 { missing as int } else { 10 },
            ),
        decreases commits.len() - i,
    {
        let ghost t = cs.take(i as int);
        let ghost t1 = cs.take(i + 1);
        proof {
            assert(t1.drop_last() =~= t);
            assert(t1.last() == cs[i as int]);
            assert(cs[i as int] == pair_view(commits@[i as int]));
        }
        let p = &commits[i];
        if contains_string(in_db, &p.0) {
            if first_loaded.is_none() {
                first_loaded = Some(copy_pair(p));
            }
            last_loaded = Some(copy_pair(p));
            loaded += 1;
        } else {
            if shown.len() < MISSING_SHOWN {
                let ghost before = shown@;
                shown.push(copy_pair(p));
                proof {
                    assert(pairs_view(shown@) =~= pairs_view(before).push(pair_view(*p)));
                }
            }
            missing += 1;
            proof {
                let m0 = commits_where(t, db, false);
                let m1 = commits_where(t1, db, false);
                assert(m1 =~= m0.push(cs[i as int]));
                if missing - 1 < 10 {
                    assert(m1.take(missing as int) =~= m0.take(missing - 1).push(cs[i as int]));
                } else {
                    assert(m1.take(10) =~= m0.take(10));
                }
            }
        }
        i += 1;
    }
    proof {
        assert(cs.take(commits@.len() as int) =~= cs);
    }
    let n = if missing < MISSING_SHOWN { missing } else { MISSING_SHOWN };
    let git_range = if commits.len() == 0 {
        None
    } else {
        let first = &commits[0];
        let last = &commits[commits.len() - 1];
        proof {
            assert(cs[0] == pair_view(commits@[0]));
            assert(cs.last() == pair_view(commits@[commits@.len() - 1]));
        }
        Some((first.1.clone(), last.1.clone()))
    };
    let db_range = match (first_loaded, last_loaded) {
        (Some(a), Some(b)) => Some((a.1, b.1)),
        _ => None,
    };
    StatusSummary {
        total: commits.len(),
        loaded,
        missing,
        git_range,
        db_range,
        oldest_missing: shown,
        more_missing: missing - n,
    }
}

} // verus!
