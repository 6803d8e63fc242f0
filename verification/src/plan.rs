//! What `analyze` writes for a commit. A full analysis writes fresh rows
//! for the whole tree; a delta analysis updates the parent commit's open
//! rows by the files that the commit changed. Both are decided here from
//! plain values; reading git and the database, and writing, happen elsewhere.

use vstd::prelude::*;
use crate::aggregator::{
    delta_fits, folder_totals_fit, has_folder, is_delta_of, is_empty_aggregate,
    is_folder_aggregation, is_repo_aggregation, totals_fit, try_aggregate_to_folders,
    try_aggregate_to_repo, try_apply_delta, empty_aggregate, lemma_index_of_folder,
    fits_i64, opt_value, total, opt_add_all, opt_sub_all,
};
use crate::cli::Granularity;
use crate::db::store::{counter, num_counters, num_opt_counters, opt_counter, StatRow};
use crate::git::FileDiff;
use crate::text::{
    chars_of, count_nonempty, lemma_text_less_irreflexive, lemma_text_less_total,
    lemma_text_less_transitive, pieces_view, split_on, split_pieces, str_less, text_less,
};

verus! {

/// If a commit changes more files than this, fall back to full tree analysis.
pub const DELTA_FALLBACK_THRESHOLD: usize = 500;

/// Number of commits per database transaction.
pub const BATCH_SIZE: usize = 100;

// ---------------------------------------------------------------------------
// Full analysis
// ---------------------------------------------------------------------------

/// The rows that a full analysis writes, by granularity: file, folder and
/// repository rows; folder and repository rows; or the repository row alone.
pub open spec fn full_rows(
    granularity: Granularity,
    files: Seq<StatRow>,
    folders: Seq<StatRow>,
    repo_row: StatRow,
) -> Seq<StatRow> {
    match granularity {
        Granularity::All => files + folders + seq![repo_row],
        Granularity::Folder => folders + seq![repo_row],
        Granularity::Repo => seq![repo_row],
    }
}

/// The rows that a full analysis of a commit writes: its file rows, their
/// folder rows and their repository row, as far as the granularity keeps
/// them; `None` when some running sum would leave `i64`.
pub fn plan_full_analysis(
    repo: &str,
    commit_sha: &str,
    commit_date: &str,
    file_rows: Vec<StatRow>,
    granularity: Granularity,
) -> (r: Option<Vec<StatRow>>)
    ensures
        r is Some <==> (folder_totals_fit(file_rows@) && totals_fit(file_rows@)),
        r matches Some(rows) ==> exists|folders: Seq<StatRow>, repo_row: StatRow|
            #[trigger] is_folder_aggregation(file_rows@, folders) && #[trigger] is_repo_aggregation(
                file_rows@,
                repo_row,
                repo@,
                commit_sha@,
                commit_date@,
            ) && rows@ == full_rows(granularity, file_rows@, folders, repo_row),
{
    let ghost files = file_rows@;
    let mut folder_rows = match try_aggregate_to_folders(file_rows.as_slice()) {
        Some(f) => f,
        None => return None,
    };
    let repo_row = match try_aggregate_to_repo(repo, commit_sha, commit_date, file_rows.as_slice()) {
        Some(r) => r,
        None => return None,
    };
    let ghost folders = folder_rows@;
    let ghost rr = repo_row;
    let mut out: Vec<StatRow> = match granularity {
        Granularity::All => {
            let mut v = file_rows;
            v.append(&mut folder_rows);
            v
        },
        Granularity::Folder => folder_rows,
        Granularity::Repo => Vec::new(),
    };
    out.push(repo_row);
    assert(out@ =~= full_rows(granularity, files, folders, rr));
    Some(out)
}

// ---------------------------------------------------------------------------
// Delta analysis
// ---------------------------------------------------------------------------

/// Whether a commit with this many changed files is analyzed by delta.
pub fn delta_applicable(changed_files: usize) -> (r: bool)
    ensures
        r == (changed_files <= 500),
{
    changed_files <= DELTA_FALLBACK_THRESHOLD
}

/// Where the attempt at a delta analysis of a commit stands.
#[derive(Clone, Copy, Debug)]
pub enum DeltaProgress {
    /// The commit's first parent is looked up.
    AwaitParent,
    /// Whether the database records the parent is looked up.
    AwaitParentRecorded,
    /// The diff between the parent and the commit is read.
    AwaitDiff,
    /// The open repository row is looked up.
    AwaitOpenRepoRow,
    /// The delta is applied.
    Apply,
    /// The commit is analyzed in full instead.
    FallBack,
}

/// What the outside work of one stage reported.
#[derive(Clone, Copy, Debug)]
pub enum DeltaEvent {
    /// Whether the commit has a readable first parent (not a root commit).
    ParentFound(bool),
    /// Whether the database records the parent commit.
    ParentRecorded(bool),
    /// The number of changed files, or `None` where the diff could not be read.
    DiffRead(Option<usize>),
    /// Whether the database holds an open repository row.
    OpenRepoRowFound(bool),
}

/// The next stage of a delta attempt: each check that fails falls back to
/// full analysis (a root commit or an unreadable parent, a parent the
/// database does not record, an unreadable diff or one of more than
/// `DELTA_FALLBACK_THRESHOLD` files, no open repository row); the delta is
/// applied once all have passed. An event that does not answer the current
/// stage leaves it as it is.
pub open spec fn delta_next(p: DeltaProgress, e: DeltaEvent) -> DeltaProgress {
    match (p, e) {
        (DeltaProgress::AwaitParent, DeltaEvent::ParentFound(found)) => if found {
            DeltaProgress::AwaitParentRecorded
        } else {
            DeltaProgress::FallBack
        },
        (DeltaProgress::AwaitParentRecorded, DeltaEvent::ParentRecorded(recorded)) => if recorded {
            DeltaProgress::AwaitDiff
        } else {
            DeltaProgress::FallBack
        },
        (DeltaProgress::AwaitDiff, DeltaEvent::DiffRead(n)) => match n {
            Some(count) => if count <= 500 {
                DeltaProgress::AwaitOpenRepoRow
            } else {
                DeltaProgress::FallBack
            },
            None => DeltaProgress::FallBack,
        },
        (DeltaProgress::AwaitOpenRepoRow, DeltaEvent::OpenRepoRowFound(found)) => if found {
            DeltaProgress::Apply
        } else {
            DeltaProgress::FallBack
        },
        _ => p,
    }
}

/// One step of a delta attempt.
pub fn delta_step(p: DeltaProgress, e: DeltaEvent) -> (r: DeltaProgress)
    ensures
        r == delta_next(p, e),
{
    match (p, e) {
        (DeltaProgress::AwaitParent, DeltaEvent::ParentFound(found)) => if found {
            DeltaProgress::AwaitParentRecorded
        } else {
            DeltaProgress::FallBack
        },
        (DeltaProgress::AwaitParentRecorded, DeltaEvent::ParentRecorded(recorded)) => if recorded {
            DeltaProgress::AwaitDiff
        } else {
            DeltaProgress::FallBack
        },
        (DeltaProgress::AwaitDiff, DeltaEvent::DiffRead(n)) => match n {
            Some(count) => if delta_applicable(count) {
                DeltaProgress::AwaitOpenRepoRow
            } else {
                DeltaProgress::FallBack
            },
            None => DeltaProgress::FallBack,
        },
        (DeltaProgress::AwaitOpenRepoRow, DeltaEvent::OpenRepoRowFound(found)) => if found {
            DeltaProgress::Apply
        } else {
            DeltaProgress::FallBack
        },
        (p, _) => p,
    }
}

/// The character views of a list of strings.
pub open spec fn strings_view(v: Seq<String>) -> Seq<Seq<char>> {
    v.map_values(|s: String| s@)
}

/// No string occurs twice.
pub open spec fn all_distinct(v: Seq<Seq<char>>) -> bool {
    forall|a: int, b: int| 0 <= a < b < v.len() ==> v[a] != v[b]
}

/// The rows of `rows` in folder `f`, in order.
pub open spec fn rows_in(rows: Seq<StatRow>, f: Seq<char>) -> Seq<StatRow>
    decreases rows.len(),
{
    if rows.len() == 0 {
        Seq::empty()
    } else if rows.last().folder@ == f {
        rows_in(rows.drop_last(), f).push(rows.last())
    } else {
        rows_in(rows.drop_last(), f)
    }
}

/// Index of the last row in folder `f`, or -1.
pub open spec fn last_index_of_folder(rows: Seq<StatRow>, f: Seq<char>) -> int
    decreases rows.len(),
{
    if rows.len() == 0 {
        -1
    } else if rows.last().folder@ == f {
        rows.len() - 1
    } else {
        last_index_of_folder(rows.drop_last(), f)
    }
}

/// Depth of a folder that has no parent row: its non-empty `/`-separated components.
pub open spec fn placeholder_depth(f: Seq<char>) -> i32 {
    #[verifier::truncate] (count_nonempty(split_on(f, '/')) as i32)
}

/// The row that the update of folder `f` starts from: the parent commit's
/// open row for `f` (the last one given, when several are), or an empty
/// folder row for `f` when the parent has none.
pub open spec fn is_folder_base(
    b: StatRow,
    parent_folders: Seq<StatRow>,
    f: Seq<char>,
    repo_name: Seq<char>,
    parent_sha: Seq<char>,
) -> bool {
    if has_folder(parent_folders, f) {
        b == parent_folders[last_index_of_folder(parent_folders, f)]
    } else {
        is_empty_aggregate(b, repo_name, parent_sha, Seq::empty(), "folder"@, f, placeholder_depth(f))
    }
}

/// `u` is the updated row of folder `f`: its base with the delta of the
/// removed and added file rows in `f`.
pub open spec fn is_folder_update(
    u: StatRow,
    parent_folders: Seq<StatRow>,
    f: Seq<char>,
    repo_name: Seq<char>,
    parent_sha: Seq<char>,
    sha: Seq<char>,
    date: Seq<char>,
    removed: Seq<StatRow>,
    added: Seq<StatRow>,
) -> bool {
    exists|b: StatRow|
        #[trigger] is_folder_base(b, parent_folders, f, repo_name, parent_sha) && is_delta_of(
            u,
            b,
            sha,
            date,
            rows_in(removed, f),
            rows_in(added, f),
        )
}

/// The update of folder `f` stays within `i64`.
pub open spec fn folder_update_fits(
    parent_folders: Seq<StatRow>,
    f: Seq<char>,
    repo_name: Seq<char>,
    parent_sha: Seq<char>,
    removed: Seq<StatRow>,
    added: Seq<StatRow>,
) -> bool {
    forall|b: StatRow|
        #[trigger] is_folder_base(b, parent_folders, f, repo_name, parent_sha) ==> delta_fits(
            b,
            rows_in(removed, f),
            rows_in(added, f),
        )
}

/// The rows of `us` that still count files.
pub open spec fn nonempty_rows(us: Seq<StatRow>) -> Seq<StatRow>
    decreases us.len(),
{
    if us.len() == 0 {
        Seq::empty()
    } else if us.last().file_count > 0 {
        nonempty_rows(us.drop_last()).push(us.last())
    } else {
        nonempty_rows(us.drop_last())
    }
}

/// `us` holds, for each affected folder in turn, its updated row.
pub open spec fn is_folder_updates(
    us: Seq<StatRow>,
    affected: Seq<Seq<char>>,
    parent_folders: Seq<StatRow>,
    repo_name: Seq<char>,
    parent_sha: Seq<char>,
    sha: Seq<char>,
    date: Seq<char>,
    removed: Seq<StatRow>,
    added: Seq<StatRow>,
) -> bool {
    &&& us.len() == affected.len()
    &&& forall|i: int|
        0 <= i < us.len() ==> is_folder_update(
            #[trigger] us[i],
            parent_folders,
            affected[i],
            repo_name,
            parent_sha,
            sha,
            date,
            removed,
            added,
        )
}

/// Every update of a delta analysis stays within `i64`: the repository row's
/// and, unless only the repository row is kept, every affected folder's.
pub open spec fn delta_plan_fits(
    granularity: Granularity,
    parent_repo: StatRow,
    parent_folders: Seq<StatRow>,
    affected: Seq<Seq<char>>,
    repo_name: Seq<char>,
    parent_sha: Seq<char>,
    removed: Seq<StatRow>,
    added: Seq<StatRow>,
) -> bool {
    &&& delta_fits(parent_repo, removed, added)
    &&& !(granularity is Repo) ==> forall|i: int|
        0 <= i < affected.len() ==> folder_update_fits(
            parent_folders,
            #[trigger] affected[i],
            repo_name,
            parent_sha,
            removed,
            added,
        )
}

/// The writes of a delta analysis, in the order they happen: close the open
/// rows of the changed files and insert the new file rows; close the open
/// rows of the affected folders and insert their updated rows; close the
/// open repository row and insert the updated one.
pub struct DeltaPlan {
    pub close_file_paths: Vec<String>,
    pub file_rows: Vec<StatRow>,
    pub close_folders: Vec<String>,
    pub folder_rows: Vec<StatRow>,
    pub repo_row: StatRow,
}

/// `p` is the delta analysis of a commit: the repository row updated by
/// the removed and added file rows; with folder detail, the affected folders
/// closed and their updated rows that still count files inserted; with file
/// detail, the changed paths closed and the added file rows inserted.
pub open spec fn is_delta_plan(
    p: DeltaPlan,
    granularity: Granularity,
    repo_name: Seq<char>,
    parent_sha: Seq<char>,
    sha: Seq<char>,
    date: Seq<char>,
    parent_repo: StatRow,
    parent_folders: Seq<StatRow>,
    removed: Seq<StatRow>,
    added: Seq<StatRow>,
    affected: Seq<Seq<char>>,
    changed_paths: Seq<Seq<char>>,
) -> bool {
    &&& is_delta_of(p.repo_row, parent_repo, sha, date, removed, added)
    &&& if granularity is All {
        strings_view(p.close_file_paths@) == changed_paths && p.file_rows@ == added
    } else {
        p.close_file_paths@.len() == 0 && p.file_rows@.len() == 0
    }
    &&& if granularity is Repo {
        p.close_folders@.len() == 0 && p.folder_rows@.len() == 0
    } else {
        &&& strings_view(p.close_folders@) == affected
        &&& exists|us: Seq<StatRow>|
            #[trigger] is_folder_updates(
                us,
                affected,
                parent_folders,
                repo_name,
                parent_sha,
                sha,
                date,
                removed,
                added,
            ) && p.folder_rows@ == nonempty_rows(us)
    }
}

/// Characterizes `last_index_of_folder`.
pub proof fn lemma_last_index_of_folder(rows: Seq<StatRow>, f: Seq<char>)
    ensures
        last_index_of_folder(rows, f) == -1 <==> !has_folder(rows, f),
        last_index_of_folder(rows, f) != -1 ==> {
            let p = last_index_of_folder(rows, f);
            &&& 0 <= p < rows.len()
            &&& rows[p].folder@ == f
            &&& forall|a: int| p < a < rows.len() ==> rows[a].folder@ != f
        },
    decreases rows.len(),
{
    lemma_index_of_folder(rows, f);
    if rows.len() > 0 && rows.last().folder@ != f {
        lemma_last_index_of_folder(rows.drop_last(), f);
        lemma_index_of_folder(rows.drop_last(), f);
        assert forall|a: int| 0 <= a < rows.len() - 1 implies rows.drop_last()[a] == rows[a] by {}
        if has_folder(rows, f) && !has_folder(rows.drop_last(), f) {
            let a = choose|a: int| 0 <= a < rows.len() && (#[trigger] rows[a]).folder@ == f;
            assert(a < rows.len() - 1);
            assert(rows.drop_last()[a].folder@ == f);
        }
    }
}

/// `delta_fits` depends on the base row only through its counters.
proof fn lemma_delta_fits_same_counters(
    b1: StatRow,
    b2: StatRow,
    removed: Seq<StatRow>,
    added: Seq<StatRow>,
)
    requires
        forall|k: int| 0 <= k < num_counters() ==> #[trigger] counter(b1, k) == counter(b2, k),
        forall|k: int|
            0 <= k < num_opt_counters() ==> #[trigger] opt_counter(b1, k) == opt_counter(b2, k),
    ensures
        delta_fits(b1, removed, added) == delta_fits(b2, removed, added),
{
    if delta_fits(b1, removed, added) {
        assert forall|n: int, k: int|
            0 <= n <= removed.len() && 0 <= k < num_counters() implies fits_i64(
            counter(b2, k) - #[trigger] total(removed.take(n), k),
        ) by {
            assert(counter(b1, k) == counter(b2, k));
        }
        assert forall|n: int, k: int|
            0 <= n <= added.len() && 0 <= k < num_counters() implies fits_i64(
            counter(b2, k) - total(removed, k) + #[trigger] total(added.take(n), k),
        ) by {
            assert(counter(b1, k) == counter(b2, k));
        }
        assert forall|n: int, k: int|
            0 <= n <= removed.len() && 0 <= k < num_opt_counters() implies fits_i64(
            opt_value(#[trigger] opt_sub_all(opt_counter(b2, k), removed.take(n), k)),
        ) by {
            assert(opt_counter(b1, k) == opt_counter(b2, k));
        }
        assert forall|n: int, k: int|
            0 <= n <= added.len() && 0 <= k < num_opt_counters() implies fits_i64(
            opt_value(
                #[trigger] opt_add_all(opt_sub_all(opt_counter(b2, k), removed, k), added.take(n), k),
            ),
        ) by {
            assert(opt_counter(b1, k) == opt_counter(b2, k));
        }
    }
    if delta_fits(b2, removed, added) {
        assert forall|n: int, k: int|
            0 <= n <= removed.len() && 0 <= k < num_counters() implies fits_i64(
            counter(b1, k) - #[trigger] total(removed.take(n), k),
        ) by {
            assert(counter(b1, k) == counter(b2, k));
        }
        assert forall|n: int, k: int|
            0 <= n <= added.len() && 0 <= k < num_counters() implies fits_i64(
            counter(b1, k) - total(removed, k) + #[trigger] total(added.take(n), k),
        ) by {
            assert(counter(b1, k) == counter(b2, k));
        }
        assert forall|n: int, k: int|
            0 <= n <= removed.len() && 0 <= k < num_opt_counters() implies fits_i64(
            opt_value(#[trigger] opt_sub_all(opt_counter(b1, k), removed.take(n), k)),
        ) by {
            assert(opt_counter(b1, k) == opt_counter(b2, k));
        }
        assert forall|n: int, k: int|
            0 <= n <= added.len() && 0 <= k < num_opt_counters() implies fits_i64(
            opt_value(
                #[trigger] opt_add_all(opt_sub_all(opt_counter(b1, k), removed, k), added.take(n), k),
            ),
        ) by {
            assert(opt_counter(b1, k) == opt_counter(b2, k));
        }
    }
}

/// The rows of `rows` in folder `f`, in order.
pub fn rows_in_folder(rows: &[StatRow], f: &String) -> (r: Vec<StatRow>)
    ensures
        r@ == rows_in(rows@, f@),
{
    let mut out: Vec<StatRow> = Vec::new();
    let mut i: usize = 0;
    assert(rows@.take(0) =~= Seq::<StatRow>::empty());
    while i < rows.len()
        invariant
            i <= rows.len(),
            out@ == rows_in(rows@.take(i as int), f@),
        decreases rows.len() - i,
    {
        assert(rows@.take(i + 1).drop_last() =~= rows@.take(i as int));
        if rows[i].folder == *f {
            out.push(rows[i].clone());
        }
        i += 1;
    }
    assert(rows@.take(rows@.len() as int) =~= rows@);
    out
}

/// Depth of a folder that has no parent row.
fn folder_depth_of(f: &String) -> (d: i32)
    ensures
        d == placeholder_depth(f@),
{
    let chars = chars_of(f.as_str());
    let pieces = split_pieces(chars.as_slice(), '/');
    let ghost parts = split_on(f@, '/');
    let mut n: usize = 0;
    let mut i: usize = 0;
    assert(pieces_view(pieces@).take(0) =~= Seq::<Seq<char>>::empty());
    while i < pieces.len()
        invariant
            i <= pieces.len(),
            pieces_view(pieces@) == parts,
            n == count_nonempty(parts.take(i as int)),
            n <= i,
        decreases pieces.len() - i,
    {
        assert(parts.take(i + 1).drop_last() =~= parts.take(i as int));
        assert(parts[i as int] == pieces@[i as int]@);
        if pieces[i].len() > 0 {
            n += 1;
        }
        i += 1;
    }
    assert(parts.take(parts.len() as int) =~= parts);
    #[verifier::truncate] (n as i32)
}

/// The row that the update of folder `f` starts from.
fn folder_base(
    parent_folders: &[StatRow],
    f: &String,
    repo_name: &str,
    parent_sha: &str,
) -> (b: StatRow)
    ensures
        is_folder_base(b, parent_folders@, f@, repo_name@, parent_sha@),
{
    proof {
        lemma_last_index_of_folder(parent_folders@, f@);
    }
    let mut j: usize = parent_folders.len();
    while j > 0
        invariant
            j <= parent_folders.len(),
            forall|a: int| j <= a < parent_folders@.len() ==> (#[trigger] parent_folders@[a]).folder@ != f@,
        decreases j,
    {
        if parent_folders[j - 1].folder == *f {
            proof {
                lemma_last_index_of_folder(parent_folders@, f@);
                let p = last_index_of_folder(parent_folders@, f@);
                assert(has_folder(parent_folders@, f@));
                assert(p == j - 1) by {
                    if p < j - 1 {
                        assert(parent_folders@[j - 1].folder@ != f@);
                    }
                }
            }
            return parent_folders[j - 1].clone();
        }
        j -= 1;
    }
    proof {
        if has_folder(parent_folders@, f@) {
            let a = choose|a: int| 0 <= a < parent_folders@.len() && (#[trigger] parent_folders@[a]).folder@ == f@;
        }
    }
    let depth = folder_depth_of(f);
    empty_aggregate(repo_name.to_owned(), parent_sha.to_owned(), String::new(), "folder", f.clone(), depth)
}

/// The writes of a delta analysis of a commit, from the parent commit's
/// open repository row and the open rows of the affected folders, the file
/// rows of the changed files before (`removed`) and after (`added`), the
/// affected folders and the changed paths; `None` when some update would
/// leave `i64`.
pub fn plan_delta(
    granularity: Granularity,
    repo_name: &str,
    parent_sha: &str,
    commit_sha: &str,
    commit_date: &str,
    parent_repo: StatRow,
    parent_folders: &[StatRow],
    removed: Vec<StatRow>,
    added: Vec<StatRow>,
    affected: Vec<String>,
    changed_paths: Vec<String>,
) -> (r: Option<DeltaPlan>)
    ensures
        r is Some <==> delta_plan_fits(
            granularity,
            parent_repo,
            parent_folders@,
            strings_view(affected@),
            repo_name@,
            parent_sha@,
            removed@,
            added@,
        ),
        r matches Some(p) ==> is_delta_plan(
            p,
            granularity,
            repo_name@,
            parent_sha@,
            commit_sha@,
            commit_date@,
            parent_repo,
            parent_folders@,
            removed@,
            added@,
            strings_view(affected@),
            strings_view(changed_paths@),
        ),
{
    let ghost aff = strings_view(affected@);
    assert(aff.len() == affected@.len());
    let ghost pf = parent_folders@;
    let mut folder_rows: Vec<StatRow> = Vec::new();
    let ghost mut us: Seq<StatRow> = Seq::empty();
    let keep_folders = match granularity {
        Granularity::Repo => false,
        _ => true,
    };
    if keep_folders {
        let mut i: usize = 0;
        while i < affected.len()
            invariant
                i <= affected.len(),
                aff == strings_view(affected@),
                aff.len() == affected@.len(),
                pf == parent_folders@,
                !(granularity is Repo),
                us.len() == i,
                forall|a: int|
                    0 <= a < i ==> is_folder_update(
                        #[trigger] us[a],
                        pf,
                        aff[a],
                        repo_name@,
                        parent_sha@,
                        commit_sha@,
                        commit_date@,
                        removed@,
                        added@,
                    ),
                forall|a: int|
                    0 <= a < i ==> folder_update_fits(
                        pf,
                        #[trigger] aff[a],
                        repo_name@,
                        parent_sha@,
                        removed@,
                        added@,
                    ),
                folder_rows@ == nonempty_rows(us),
            decreases affected.len() - i,
        {
            let f = &affected[i];
            assert(aff[i as int] == f@);
            let base = folder_base(parent_folders, f, repo_name, parent_sha);
            let ghost b = base;
            let folder_removed = rows_in_folder(removed.as_slice(), f);
            let folder_added = rows_in_folder(added.as_slice(), f);
            let updated = match try_apply_delta(
                base,
                commit_sha,
                commit_date,
                folder_removed.as_slice(),
                folder_added.as_slice(),
            ) {
                Some(u) => u,
                None => {
                    proof {
                        assert(!folder_update_fits(pf, aff[i as int], repo_name@, parent_sha@, removed@, added@)) by {
                            assert(is_folder_base(b, pf, f@, repo_name@, parent_sha@));
                        }
                    }
                    return None;
                },
            };
            proof {
                assert(is_folder_base(b, pf, f@, repo_name@, parent_sha@));
                assert(is_folder_update(updated, pf, aff[i as int], repo_name@, parent_sha@, commit_sha@, commit_date@, removed@, added@));
                assert forall|b2: StatRow| #[trigger] is_folder_base(b2, pf, f@, repo_name@, parent_sha@) implies delta_fits(
                    b2,
                    rows_in(removed@, f@),
                    rows_in(added@, f@),
                ) by {
                    if !has_folder(pf, f@) {
                        assert forall|k: int| 0 <= k < num_counters() implies #[trigger] counter(b, k) == counter(b2, k) by {
                            assert(counter(b, k) == 0);
                            assert(counter(b2, k) == 0);
                        }
                        assert forall|k: int| 0 <= k < num_opt_counters() implies #[trigger] opt_counter(b, k) == opt_counter(b2, k) by {
                            assert(opt_counter(b, k) is None);
                            assert(opt_counter(b2, k) is None);
                        }
                        lemma_delta_fits_same_counters(b, b2, rows_in(removed@, f@), rows_in(added@, f@));
                    }
                }
            }
            let ghost u = updated;
            if updated.file_count > 0 {
                folder_rows.push(updated);
            }
            proof {
                let old_us = us;
                us = us.push(u);
                assert(us.drop_last() =~= old_us);
            }
            i += 1;
        }
    }
    let repo_row = match try_apply_delta(parent_repo, commit_sha, commit_date, removed.as_slice(), added.as_slice()) {
        Some(r) => r,
        None => return None,
    };
    let ghost removed_v = removed@;
    let ghost added_v = added@;
    let (close_file_paths, file_rows) = match granularity {
        Granularity::All => (changed_paths, added),
        _ => (Vec::new(), Vec::new()),
    };
    let close_folders = match granularity {
        Granularity::Repo => Vec::new(),
        _ => affected,
    };
    let plan = DeltaPlan { close_file_paths, file_rows, close_folders, folder_rows, repo_row };
    proof {
        if !(granularity is Repo) {
            assert(is_folder_updates(us, aff, pf, repo_name@, parent_sha@, commit_sha@, commit_date@, removed_v, added_v));
        }
    }
    Some(plan)
}

/// Whether `v` holds a string equal to `s`.
pub(crate) fn contains_string(v: &[String], s: &String) -> (r: bool)
    ensures
        r == strings_view(v@).contains(s@),
{
    let mut i: usize = 0;
    while i < v.len()
        invariant
            i <= v.len(),
            forall|a: int| 0 <= a < i ==> v@[a]@ != s@,
        decreases v.len() - i,
    {
        if v[i] == *s {
            assert(strings_view(v@)[i as int] == s@);
            return true;
        }
        i += 1;
    }
    proof {
        if strings_view(v@).contains(s@) {
            let a = choose|a: int| 0 <= a < strings_view(v@).len() && strings_view(v@)[a] == s@;
            assert(v@[a]@ == s@);
        }
    }
    false
}

/// Appends `s` to `v` unless `v` already holds it.
fn push_unique(v: &mut Vec<String>, s: &String)
    ensures
        strings_view(final(v)@) == if strings_view(old(v)@).contains(s@) {
            strings_view(old(v)@)
        } else {
            strings_view(old(v)@).push(s@)
        },
        all_distinct(strings_view(old(v)@)) ==> all_distinct(strings_view(final(v)@)),
        forall|y: Seq<char>|
            #[trigger] strings_view(final(v)@).contains(y) <==> (strings_view(old(v)@).contains(y) || y == s@),
{
    let ghost before = strings_view(v@);
    if !contains_string(v.as_slice(), s) {
        v.push(s.clone());
        assert(strings_view(v@) =~= before.push(s@));
    }
    proof {
        let after = strings_view(v@);
        if !before.contains(s@) {
            assert forall|a: int, b: int| all_distinct(before) && 0 <= a < b < after.len() implies after[a] != after[b] by {
                if b == before.len() {
                    assert(after[a] == before[a]);
                    assert(before.contains(before[a]));
                } else {
                    assert(after[a] == before[a]);
                    assert(after[b] == before[b]);
                }
            }
        }
        assert forall|y: Seq<char>| after.contains(y) <==> (before.contains(y) || y == s@) by {
            if before.contains(y) {
                let a = choose|a: int| 0 <= a < before.len() && before[a] == y;
                if !before.contains(s@) {
                    assert(after[a] == y);
                }
            }
            if y == s@ && !before.contains(s@) {
                assert(after[before.len() as int] == y);
            }
            if after.contains(y) && !before.contains(s@) {
                let a = choose|a: int| 0 <= a < after.len() && after[a] == y;
                if a < before.len() {
                    assert(before[a] == y);
                }
            }
        }
    }
}

/// Some row of `removed` or `added` is in folder `f`.
pub open spec fn is_affected(removed: Seq<StatRow>, added: Seq<StatRow>, f: Seq<char>) -> bool {
    has_folder(removed, f) || has_folder(added, f)
}

/// The folders of the removed and added file rows, each once; no order is
/// promised.
pub fn affected_folders(removed: &[StatRow], added: &[StatRow]) -> (r: Vec<String>)
    ensures
        all_distinct(strings_view(r@)),
        forall|f: Seq<char>| strings_view(r@).contains(f) <==> is_affected(removed@, added@, f),
{
    let mut out: Vec<String> = Vec::new();
    let mut i: usize = 0;
    while i < removed.len()
        invariant
            i <= removed.len(),
            all_distinct(strings_view(out@)),
            forall|f: Seq<char>|
                #[trigger] strings_view(out@).contains(f) <==> has_folder(removed@.take(i as int), f),
        decreases removed.len() - i,
    {
        let ghost before = strings_view(out@);
        push_unique(&mut out, &removed[i].folder);
        proof {
            lemma_has_folder_step(removed@, i as int);
            assert forall|f: Seq<char>|
                #[trigger] strings_view(out@).contains(f) <==> has_folder(removed@.take(i + 1), f) by {
                assert(strings_view(out@).contains(f) <==> (before.contains(f) || f == removed@[i as int].folder@));
                assert(before.contains(f) <==> has_folder(removed@.take(i as int), f));
            }
        }
        i += 1;
    }
    assert(removed@.take(removed@.len() as int) =~= removed@);
    let mut j: usize = 0;
    while j < added.len()
        invariant
            j <= added.len(),
            all_distinct(strings_view(out@)),
            forall|f: Seq<char>|
                #[trigger] strings_view(out@).contains(f) <==> (has_folder(removed@, f) || has_folder(
                    added@.take(j as int),
                    f,
                )),
        decreases added.len() - j,
    {
        let ghost before = strings_view(out@);
        push_unique(&mut out, &added[j].folder);
        proof {
            lemma_has_folder_step(added@, j as int);
            assert forall|f: Seq<char>|
                #[trigger] strings_view(out@).contains(f) <==> (has_folder(removed@, f) || has_folder(
                    added@.take(j + 1),
                    f,
                )) by {
                assert(strings_view(out@).contains(f) <==> (before.contains(f) || f == added@[j as int].folder@));
                assert(before.contains(f) <==> (has_folder(removed@, f) || has_folder(added@.take(j as int), f)));
            }
        }
        j += 1;
    }
    assert(added@.take(added@.len() as int) =~= added@);
    assert forall|f: Seq<char>| #[trigger] strings_view(out@).contains(f) <==> is_affected(removed@, added@, f) by {
        assert(strings_view(out@).contains(f) <==> (has_folder(removed@, f) || has_folder(added@.take(added@.len() as int), f)));
    }
    out
}

/// A prefix one row longer holds the folders of the shorter one and the new row's.
proof fn lemma_has_folder_step(rows: Seq<StatRow>, n: int)
    requires
        0 <= n < rows.len(),
    ensures
        forall|f: Seq<char>|
            has_folder(rows.take(n + 1), f) <==> (has_folder(rows.take(n), f) || rows[n].folder@ == f),
{
    assert forall|f: Seq<char>|
        has_folder(rows.take(n + 1), f) <==> (has_folder(rows.take(n), f) || rows[n].folder@ == f) by {
        if has_folder(rows.take(n), f) {
            let a = choose|a: int| 0 <= a < rows.take(n).len() && (#[trigger] rows.take(n)[a]).folder@ == f;
            assert(rows.take(n + 1)[a] == rows.take(n)[a]);
        }
        if rows[n].folder@ == f {
            assert(rows.take(n + 1)[n] == rows[n]);
        }
        if has_folder(rows.take(n + 1), f) {
            let a = choose|a: int| 0 <= a < rows.take(n + 1).len() && (#[trigger] rows.take(n + 1)[a]).folder@ == f;
            if a < n {
                assert(rows.take(n)[a] == rows.take(n + 1)[a]);
            }
        }
    }
}

/// Each string comes before the next, in the order of `str`.
pub open spec fn strictly_sorted(v: Seq<Seq<char>>) -> bool {
    forall|a: int, b: int| 0 <= a < b < v.len() ==> text_less(v[a], v[b])
}

/// Inserts `s` into the sorted `v` at its place, unless `v` already holds it.
fn insert_sorted_unique(v: &mut Vec<String>, s: &String)
    requires
        strictly_sorted(strings_view(old(v)@)),
    ensures
        strictly_sorted(strings_view(final(v)@)),
        forall|y: Seq<char>|
            #[trigger] strings_view(final(v)@).contains(y) <==> (strings_view(old(v)@).contains(y) || y == s@),
{
    let ghost before = strings_view(v@);
    let mut i: usize = 0;
    while i < v.len() && str_less(v[i].as_str(), s.as_str())
        invariant
            i <= v.len(),
            strings_view(v@) == before,
            strictly_sorted(before),
            forall|j: int| 0 <= j < i ==> text_less(#[trigger] before[j], s@),
        decreases v.len() - i,
    {
        i += 1;
    }
    if i < v.len() && v[i] == *s {
        assert(before[i as int] == s@);
        assert forall|y: Seq<char>| #[trigger] before.contains(y) <==> (before.contains(y) || y == s@) by {
            if y == s@ {
                assert(before[i as int] == y);
            }
        }
        return;
    }
    proof {
        if i < v.len() {
            lemma_text_less_total(before[i as int], s@);
            assert(before[i as int] != s@);
            assert(text_less(s@, before[i as int]));
        }
    }
    v.insert(i, s.clone());
    proof {
        let after = strings_view(v@);
        assert(after =~= before.insert(i as int, s@));
        assert forall|a: int, b: int| 0 <= a < b < after.len() implies text_less(after[a], after[b]) by {
            if b < i {
                assert(after[a] == before[a] && after[b] == before[b]);
            } else if b == i {
                assert(after[a] == before[a]);
            } else if a == i {
                assert(after[b] == before[b - 1]);
                if b - 1 > i {
                    lemma_text_less_transitive(s@, before[i as int], before[b - 1]);
                }
            } else if a < i {
                assert(after[a] == before[a] && after[b] == before[b - 1]);
            } else {
                assert(after[a] == before[a - 1] && after[b] == before[b - 1]);
            }
        }
        assert forall|y: Seq<char>| #[trigger] after.contains(y) <==> (before.contains(y) || y == s@) by {
            if before.contains(y) {
                let a = choose|a: int| 0 <= a < before.len() && before[a] == y;
                if a < i {
                    assert(after[a] == y);
                } else {
                    assert(after[a + 1] == y);
                }
            }
            if y == s@ {
                assert(after[i as int] == y);
            }
            if after.contains(y) {
                let a = choose|a: int| 0 <= a < after.len() && after[a] == y;
                if a < i {
                    assert(before[a] == y);
                } else if a > i {
                    assert(before[a - 1] == y);
                }
            }
        }
    }
}

/// Strictly sorted strings are distinct.
proof fn lemma_sorted_distinct(v: Seq<Seq<char>>)
    requires
        strictly_sorted(v),
    ensures
        all_distinct(v),
{
    assert forall|a: int, b: int| 0 <= a < b < v.len() implies v[a] != v[b] by {
        lemma_text_less_irreflexive(v[a]);
    }
}

/// The path `p` is the old or the new path of the diff entry `d`.
pub open spec fn diff_touches(d: FileDiff, p: Seq<char>) -> bool {
    (d.old_path matches Some(o) && o@ == p) || (d.new_path matches Some(n) && n@ == p)
}

/// Some entry of `diffs` touches the path `p`.
pub open spec fn touched(diffs: Seq<FileDiff>, p: Seq<char>) -> bool {
    exists|i: int| 0 <= i < diffs.len() && #[trigger] diff_touches(diffs[i], p)
}

/// The paths that a diff touches, old and new, each once, sorted.
pub fn changed_file_paths(diffs: &[FileDiff]) -> (r: Vec<String>)
    ensures
        strictly_sorted(strings_view(r@)),
        all_distinct(strings_view(r@)),
        forall|p: Seq<char>| strings_view(r@).contains(p) <==> touched(diffs@, p),
{
    let mut out: Vec<String> = Vec::new();
    let mut i: usize = 0;
    while i < diffs.len()
        invariant
            i <= diffs.len(),
            strictly_sorted(strings_view(out@)),
            forall|p: Seq<char>| #[trigger] strings_view(out@).contains(p) <==> touched(diffs@.take(i as int), p),
        decreases diffs.len() - i,
    {
        let ghost before = strings_view(out@);
        let d = &diffs[i];
        if let Some(o) = &d.old_path {
            insert_sorted_unique(&mut out, o);
        }
        let ghost mid = strings_view(out@);
        if let Some(n) = &d.new_path {
            insert_sorted_unique(&mut out, n);
        }
        proof {
            let t = diffs@.take(i + 1);
            let t0 = diffs@.take(i as int);
            assert(t[i as int] == diffs@[i as int]);
            assert forall|p: Seq<char>| #[trigger] strings_view(out@).contains(p) <==> touched(t, p) by {
                assert(mid.contains(p) <==> (before.contains(p) || (d.old_path matches Some(o) && o@ == p)));
                assert(strings_view(out@).contains(p) <==> (mid.contains(p) || (d.new_path matches Some(n) && n@ == p)));
                assert(before.contains(p) <==> touched(t0, p));
                if touched(t0, p) {
                    let a = choose|a: int| 0 <= a < t0.len() && #[trigger] diff_touches(t0[a], p);
                    assert(t[a] == t0[a]);
                    assert(diff_touches(t[a], p));
                }
                if diff_touches(diffs@[i as int], p) {
                    assert(diff_touches(t[i as int], p));
                }
                if touched(t, p) {
                    let a = choose|a: int| 0 <= a < t.len() && #[trigger] diff_touches(t[a], p);
                    if a < i {
                        assert(t0[a] == t[a]);
                        assert(diff_touches(t0[a], p));
                    }
                }
            }
        }
        i += 1;
    }
    assert(diffs@.take(diffs@.len() as int) =~= diffs@);
    proof {
        lemma_sorted_distinct(strings_view(out@));
    }
    out
}

} // verus!
