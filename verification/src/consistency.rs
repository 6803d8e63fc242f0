//! How full aggregation and incremental (delta) updates agree: folder rows
//! add up to the repository row, a delta update of an aggregate gives what
//! aggregating the changed file set gives, and a delta undone by the
//! opposite delta gives back the counts it started from.

use vstd::prelude::*;
use crate::aggregator::{
    is_delta_of, is_folder_aggregation, is_folder_group, is_repo_aggregation, lemma_total_concat,
    lemma_opt_add_all_concat, opt_add_all, opt_plus, opt_minus, opt_sub_all, opt_total, opt_value,
    total, total_in, has_folder, opt_total_in, index_of_folder, lemma_index_of_folder,
};
use crate::db::store::{counter, num_counters, num_opt_counters, opt_counter, StatRow};
use crate::cli::Granularity;
use crate::plan::{
    all_distinct, is_delta_plan, is_folder_base, is_folder_update, is_folder_updates,
    lemma_last_index_of_folder, nonempty_rows, rows_in, strings_view, DeltaPlan,
};

verus! {

// ---------------------------------------------------------------------------
// Folding optional counts
// ---------------------------------------------------------------------------

/// Adding rows' optional counts onto `acc` adds their sum, and is present
/// when `acc` or some row's count is.
pub proof fn lemma_opt_add_all_value(acc: Option<int>, rows: Seq<StatRow>, k: int)
    ensures
        opt_value(opt_add_all(acc, rows, k)) == opt_value(acc) + opt_value(opt_total(rows, k)),
        (opt_add_all(acc, rows, k) is Some) == (acc is Some || opt_total(rows, k) is Some),
    decreases rows.len(),
{
    if rows.len() > 0 {
        lemma_opt_add_all_value(acc, rows.drop_last(), k);
        lemma_opt_add_all_value(None, rows.drop_last(), k);
    }
}

/// Subtracting rows' optional counts from `acc` subtracts their sum, and is
/// present when `acc` or some row's count is.
pub proof fn lemma_opt_sub_all_value(acc: Option<int>, rows: Seq<StatRow>, k: int)
    ensures
        opt_value(opt_sub_all(acc, rows, k)) == opt_value(acc) - opt_value(opt_total(rows, k)),
        (opt_sub_all(acc, rows, k) is Some) == (acc is Some || opt_total(rows, k) is Some),
    decreases rows.len(),
{
    if rows.len() > 0 {
        lemma_opt_sub_all_value(acc, rows.drop_last(), k);
        lemma_opt_add_all_value(None, rows.drop_last(), k);
    }
}

/// Optional sums over a concatenation add up, and are present when either part's is.
pub proof fn lemma_opt_total_concat(a: Seq<StatRow>, b: Seq<StatRow>, k: int)
    ensures
        opt_value(opt_total(a + b, k)) == opt_value(opt_total(a, k)) + opt_value(opt_total(b, k)),
        (opt_total(a + b, k) is Some) == (opt_total(a, k) is Some || opt_total(b, k) is Some),
{
    lemma_opt_add_all_concat(None, a, b, k);
    lemma_opt_add_all_value(opt_total(a, k), b, k);
}

// ---------------------------------------------------------------------------
// Delta against full aggregation
// ---------------------------------------------------------------------------

/// Incremental update agrees with full aggregation. Let `base` be the
/// repository row aggregated over the files of a parent commit, `kept`
/// followed by `removed`, and let `result` be `base` updated by the delta
/// that removes `removed` and adds `added`. Then every plain counter of
/// `result` is the sum over `kept` followed by `added`, the value of every
/// optional counter is that sum too, and `result` is exactly the repository
/// row of `kept` followed by `added` at the new commit unless some optional
/// count was present only in `removed` (then the delta keeps `Some(0)`
/// where full aggregation gives `None`).
pub proof fn law_delta_agrees_with_full_aggregation(
    kept: Seq<StatRow>,
    removed: Seq<StatRow>,
    added: Seq<StatRow>,
    base: StatRow,
    result: StatRow,
    repo: Seq<char>,
    parent_sha: Seq<char>,
    parent_date: Seq<char>,
    sha: Seq<char>,
    date: Seq<char>,
)
    requires
        is_repo_aggregation(kept + removed, base, repo, parent_sha, parent_date),
        is_delta_of(result, base, sha, date, removed, added),
    ensures
        forall|k: int|
            0 <= k < num_counters() ==> #[trigger] counter(result, k) == total(kept + added, k),
        forall|k: int|
            0 <= k < num_opt_counters() ==> opt_value(#[trigger] opt_counter(result, k)) == opt_value(
                opt_total(kept + added, k),
            ),
        (forall|k: int|
            0 <= k < num_opt_counters() ==> opt_total(removed, k) is None || #[trigger] opt_total(
                kept + added,
                k,
            ) is Some) ==> is_repo_aggregation(kept + added, result, repo, sha, date),
{
    assert forall|k: int| 0 <= k < num_counters() implies #[trigger] counter(result, k) == total(
        kept + added,
        k,
    ) by {
        lemma_total_concat(kept, removed, k);
        lemma_total_concat(kept, added, k);
    }
    assert forall|k: int| 0 <= k < num_opt_counters() implies {
        &&& opt_value(#[trigger] opt_counter(result, k)) == opt_value(opt_total(kept + added, k))
        &&& (opt_counter(result, k) is Some) == (opt_total(kept, k) is Some || opt_total(
            removed,
            k,
        ) is Some || opt_total(added, k) is Some)
    } by {
        lemma_opt_total_concat(kept, removed, k);
        lemma_opt_total_concat(kept, added, k);
        lemma_opt_sub_all_value(opt_counter(base, k), removed, k);
        lemma_opt_add_all_value(opt_sub_all(opt_counter(base, k), removed, k), added, k);
    }
    if forall|k: int|
        0 <= k < num_opt_counters() ==> opt_total(removed, k) is None || #[trigger] opt_total(
            kept + added,
            k,
        ) is Some {
        assert forall|k: int| 0 <= k < num_opt_counters() implies #[trigger] opt_counter(result, k)
            == opt_total(kept + added, k) by {
            lemma_opt_total_concat(kept, added, k);
            let a = opt_counter(result, k);
            let b = opt_total(kept + added, k);
            assert(opt_value(a) == opt_value(b));
            assert((a is Some) == (b is Some));
        }
    }
}

/// A delta undone by the opposite delta gives back the counts it started
/// from: updating `base` by removing `removed` and adding `added`, then
/// updating the result by removing `added` and adding `removed`, yields the
/// plain counters of `base` and the values of its optional counters.
pub proof fn law_delta_undone_by_opposite_delta(
    base: StatRow,
    middle: StatRow,
    back: StatRow,
    removed: Seq<StatRow>,
    added: Seq<StatRow>,
    sha1: Seq<char>,
    date1: Seq<char>,
    sha2: Seq<char>,
    date2: Seq<char>,
)
    requires
        is_delta_of(middle, base, sha1, date1, removed, added),
        is_delta_of(back, middle, sha2, date2, added, removed),
    ensures
        forall|k: int| 0 <= k < num_counters() ==> #[trigger] counter(back, k) == counter(base, k),
        forall|k: int|
            0 <= k < num_opt_counters() ==> opt_value(#[trigger] opt_counter(back, k)) == opt_value(
                opt_counter(base, k),
            ),
        back.repo == base.repo,
        back.row_type == base.row_type,
        back.folder == base.folder,
        back.file_name == base.file_name,
{
    assert forall|k: int| 0 <= k < num_counters() implies #[trigger] counter(back, k) == counter(
        base,
        k,
    ) by {
        assert(counter(middle, k) == counter(base, k) - total(removed, k) + total(added, k));
    }
    assert forall|k: int| 0 <= k < num_opt_counters() implies opt_value(
        #[trigger] opt_counter(back, k),
    ) == opt_value(opt_counter(base, k)) by {
        lemma_opt_sub_all_value(opt_counter(base, k), removed, k);
        lemma_opt_add_all_value(opt_sub_all(opt_counter(base, k), removed, k), added, k);
        lemma_opt_sub_all_value(opt_counter(middle, k), added, k);
        lemma_opt_add_all_value(opt_sub_all(opt_counter(middle, k), added, k), removed, k);
    }
}

// ---------------------------------------------------------------------------
// Folder rows against the repository row
// ---------------------------------------------------------------------------

/// Sum, over the folders `fs`, of the per-folder sums of the `k`-th counter over `rows`.
pub open spec fn sum_over_folders(rows: Seq<StatRow>, fs: Seq<Seq<char>>, k: int) -> int
    decreases fs.len(),
{
    if fs.len() == 0 {
        0
    } else {
        sum_over_folders(rows, fs.drop_last(), k) + total_in(rows, fs.last(), k)
    }
}

/// Number of times `x` occurs in `fs`.
pub open spec fn occurrences(fs: Seq<Seq<char>>, x: Seq<char>) -> nat
    decreases fs.len(),
{
    if fs.len() == 0 {
        0
    } else {
        occurrences(fs.drop_last(), x) + if fs.last() == x {
            1nat
        } else {
            0nat
        }
    }
}

/// The folders of `groups`, in order.
pub open spec fn folders_of(groups: Seq<StatRow>) -> Seq<Seq<char>> {
    Seq::new(groups.len(), |a: int| groups[a].folder@)
}

proof fn lemma_total_in_push(rows: Seq<StatRow>, r: StatRow, f: Seq<char>, k: int)
    ensures
        total_in(rows.push(r), f, k) == total_in(rows, f, k) + if r.folder@ == f {
            counter(r, k)
        } else {
            0
        },
{
    assert(rows.push(r).drop_last() =~= rows);
}

/// Folders that do not name the row's folder do not see the row.
proof fn lemma_sum_over_folders_absent(rows: Seq<StatRow>, r: StatRow, fs: Seq<Seq<char>>, k: int)
    requires
        occurrences(fs, r.folder@) == 0,
    ensures
        sum_over_folders(rows.push(r), fs, k) == sum_over_folders(rows, fs, k),
    decreases fs.len(),
{
    if fs.len() > 0 {
        lemma_sum_over_folders_absent(rows, r, fs.drop_last(), k);
        lemma_total_in_push(rows, r, fs.last(), k);
    }
}

/// When the row's folder occurs once among the folders, the row counts once.
proof fn lemma_sum_over_folders_once(rows: Seq<StatRow>, r: StatRow, fs: Seq<Seq<char>>, k: int)
    requires
        occurrences(fs, r.folder@) == 1,
    ensures
        sum_over_folders(rows.push(r), fs, k) == sum_over_folders(rows, fs, k) + counter(r, k),
    decreases fs.len(),
{
    if fs.len() > 0 {
        lemma_total_in_push(rows, r, fs.last(), k);
        if fs.last() == r.folder@ {
            lemma_sum_over_folders_absent(rows, r, fs.drop_last(), k);
        } else {
            lemma_sum_over_folders_once(rows, r, fs.drop_last(), k);
        }
    }
}

/// A folder that is not among `fs` occurs there zero times.
proof fn lemma_occurrences_absent(fs: Seq<Seq<char>>, x: Seq<char>)
    requires
        forall|a: int| 0 <= a < fs.len() ==> fs[a] != x,
    ensures
        occurrences(fs, x) == 0,
    decreases fs.len(),
{
    if fs.len() > 0 {
        assert(fs.last() == fs[fs.len() - 1]);
        lemma_occurrences_absent(fs.drop_last(), x);
    }
}

/// A folder among distinct folders occurs exactly once.
proof fn lemma_occurrences_once(fs: Seq<Seq<char>>, x: Seq<char>, at: int)
    requires
        0 <= at < fs.len(),
        fs[at] == x,
        forall|a: int, b: int| 0 <= a < b < fs.len() ==> fs[a] != fs[b],
    ensures
        occurrences(fs, x) == 1,
    decreases fs.len(),
{
    let d = fs.drop_last();
    if at == fs.len() - 1 {
        assert forall|a: int| 0 <= a < d.len() implies d[a] != x by {
            assert(fs[a] != fs[fs.len() - 1]);
        }
        lemma_occurrences_absent(d, x);
    } else {
        assert(fs.last() != x) by {
            assert(fs[at] != fs[fs.len() - 1]);
        }
        assert forall|a: int, b: int| 0 <= a < b < d.len() implies d[a] != d[b] by {
            assert(fs[a] != fs[b]);
        }
        lemma_occurrences_once(d, x, at);
    }
}

/// Per-folder sums over distinct folders that cover every row add up to the sum over all rows.
proof fn lemma_partition_sum(rows: Seq<StatRow>, fs: Seq<Seq<char>>, k: int)
    requires
        forall|a: int, b: int| 0 <= a < b < fs.len() ==> fs[a] != fs[b],
        forall|j: int|
            0 <= j < rows.len() ==> exists|a: int| 0 <= a < fs.len() && fs[a] == (
            #[trigger] rows[j]).folder@,
    ensures
        sum_over_folders(rows, fs, k) == total(rows, k),
    decreases rows.len(),
{
    if rows.len() == 0 {
        lemma_sum_over_folders_empty(fs, k);
        assert(rows =~= Seq::<StatRow>::empty());
    } else {
        let d = rows.drop_last();
        let r = rows.last();
        assert forall|j: int| 0 <= j < d.len() implies exists|a: int|
            0 <= a < fs.len() && fs[a] == (#[trigger] d[j]).folder@ by {
            assert(d[j] == rows[j]);
        }
        lemma_partition_sum(d, fs, k);
        assert(rows[rows.len() - 1] == r);
        let at = choose|a: int| 0 <= a < fs.len() && fs[a] == r.folder@;
        lemma_occurrences_once(fs, r.folder@, at);
        assert(d.push(r) =~= rows);
        lemma_sum_over_folders_once(d, r, fs, k);
        assert(sum_over_folders(rows, fs, k) == sum_over_folders(d.push(r), fs, k));
        assert(total(rows, k) == total(d, k) + counter(r, k));
    }
}

/// Over no rows, every per-folder sum is zero.
proof fn lemma_sum_over_folders_empty(fs: Seq<Seq<char>>, k: int)
    ensures
        sum_over_folders(Seq::<StatRow>::empty(), fs, k) == 0,
    decreases fs.len(),
{
    if fs.len() > 0 {
        lemma_sum_over_folders_empty(fs.drop_last(), k);
    }
}

/// Summing folder rows that each hold their folder's sum is summing the per-folder sums.
proof fn lemma_groups_sum(rows: Seq<StatRow>, groups: Seq<StatRow>, k: int)
    requires
        0 <= k < num_counters(),
        forall|a: int|
            0 <= a < groups.len() ==> counter(#[trigger] groups[a], k) == total_in(
                rows,
                groups[a].folder@,
                k,
            ),
    ensures
        total(groups, k) == sum_over_folders(rows, folders_of(groups), k),
    decreases groups.len(),
{
    if groups.len() > 0 {
        let d = groups.drop_last();
        assert forall|a: int| 0 <= a < d.len() implies counter(#[trigger] d[a], k) == total_in(
            rows,
            d[a].folder@,
            k,
        ) by {
            assert(d[a] == groups[a]);
        }
        lemma_groups_sum(rows, d, k);
        assert(folders_of(groups).drop_last() =~= folders_of(d));
        assert(groups[groups.len() - 1] == groups.last());
    }
}

/// The folder rows of a commit add up to its repository row: when `groups`
/// aggregates the file rows `rows` by folder and `repo_row` aggregates them
/// for the whole repository, the sum of every plain counter over the folder
/// rows is the repository row's counter.
pub proof fn law_folder_rows_add_up_to_repo_row(
    rows: Seq<StatRow>,
    groups: Seq<StatRow>,
    repo_row: StatRow,
    repo: Seq<char>,
    sha: Seq<char>,
    date: Seq<char>,
)
    requires
        is_folder_aggregation(rows, groups),
        is_repo_aggregation(rows, repo_row, repo, sha, date),
    ensures
        forall|k: int|
            0 <= k < num_counters() ==> #[trigger] total(groups, k) == counter(repo_row, k),
{
    let fs = folders_of(groups);
    assert forall|a: int, b: int| 0 <= a < b < fs.len() implies fs[a] != fs[b] by {
        assert(groups[a].folder@ != groups[b].folder@);
    }
    assert forall|j: int| 0 <= j < rows.len() implies exists|a: int|
        0 <= a < fs.len() && fs[a] == (#[trigger] rows[j]).folder@ by {
        assert(has_folder(groups, rows[j].folder@));
        let a = choose|a: int| 0 <= a < groups.len() && (#[trigger] groups[a]).folder@ == rows[j].folder@;
        assert(fs[a] == groups[a].folder@);
    }
    assert forall|k: int| 0 <= k < num_counters() implies #[trigger] total(groups, k) == counter(
        repo_row,
        k,
    ) by {
        assert forall|a: int| 0 <= a < groups.len() implies counter(#[trigger] groups[a], k)
            == total_in(rows, groups[a].folder@, k) by {
            assert(is_folder_group(rows, groups[a]));
        }
        lemma_groups_sum(rows, groups, k);
        lemma_partition_sum(rows, fs, k);
    }
}

// ---------------------------------------------------------------------------
// Optional counters of folder rows against the repository row
// ---------------------------------------------------------------------------

/// The `k`-th optional counter of a row as an `i64` field.
pub open spec fn opt_field(r: StatRow, k: int) -> Option<i64> {
    if k == 0 {
        r.js_exports_default
    } else if k == 1 {
        r.js_exports_named
    } else {
        r.js_exports_total
    }
}

/// `r` with its file count replaced by the value of its `k`-th optional
/// counter (0 where absent), so that plain sums of the file count are sums
/// of that optional counter's values.
pub open spec fn value_row(r: StatRow, k: int) -> StatRow {
    StatRow {
        file_count: match opt_field(r, k) {
            Some(v) => v,
            None => 0,
        },
        ..r
    }
}

/// Every row of `rows` made a `value_row`.
pub open spec fn value_rows(rows: Seq<StatRow>, k: int) -> Seq<StatRow> {
    Seq::new(rows.len(), |j: int| value_row(rows[j], k))
}

proof fn lemma_value_rows_drop_last(rows: Seq<StatRow>, k: int)
    requires
        rows.len() > 0,
    ensures
        value_rows(rows, k).drop_last() == value_rows(rows.drop_last(), k),
        value_rows(rows, k).last() == value_row(rows.last(), k),
{
    assert(value_rows(rows, k).drop_last() =~= value_rows(rows.drop_last(), k));
}

/// Per folder, the plain sum over value rows is the optional sum's value.
proof fn lemma_value_rows_total_in(rows: Seq<StatRow>, f: Seq<char>, k: int)
    ensures
        total_in(value_rows(rows, k), f, 0) == opt_value(opt_total_in(rows, f, k)),
    decreases rows.len(),
{
    if rows.len() > 0 {
        lemma_value_rows_drop_last(rows, k);
        lemma_value_rows_total_in(rows.drop_last(), f, k);
    }
}

/// Over all rows, the plain sum over value rows is the optional sum's value.
proof fn lemma_value_rows_total(rows: Seq<StatRow>, k: int)
    ensures
        total(value_rows(rows, k), 0) == opt_value(opt_total(rows, k)),
    decreases rows.len(),
{
    if rows.len() > 0 {
        lemma_value_rows_drop_last(rows, k);
        lemma_value_rows_total(rows.drop_last(), k);
    }
}

/// An optional sum is present exactly when some row's counter is.
proof fn lemma_opt_total_present(rows: Seq<StatRow>, k: int)
    ensures
        (opt_total(rows, k) is Some) == (exists|j: int| 0 <= j < rows.len() && (#[trigger] opt_counter(rows[j], k)) is Some),
    decreases rows.len(),
{
    if rows.len() > 0 {
        let d = rows.drop_last();
        lemma_opt_total_present(d, k);
        if exists|j: int| 0 <= j < d.len() && (#[trigger] opt_counter(d[j], k)) is Some {
            let j = choose|j: int| 0 <= j < d.len() && (#[trigger] opt_counter(d[j], k)) is Some;
            assert(rows[j] == d[j]);
        }
        if exists|j: int| 0 <= j < rows.len() && (#[trigger] opt_counter(rows[j], k)) is Some {
            let j = choose|j: int| 0 <= j < rows.len() && (#[trigger] opt_counter(rows[j], k)) is Some;
            if j < rows.len() - 1 {
                assert(d[j] == rows[j]);
            }
        }
    }
}

/// A per-folder optional sum is present exactly when some row of the folder
/// has the counter.
proof fn lemma_opt_total_in_present(rows: Seq<StatRow>, f: Seq<char>, k: int)
    ensures
        (opt_total_in(rows, f, k) is Some) == (exists|j: int|
            0 <= j < rows.len() && rows[j].folder@ == f && (#[trigger] opt_counter(rows[j], k)) is Some),
    decreases rows.len(),
{
    if rows.len() > 0 {
        let d = rows.drop_last();
        lemma_opt_total_in_present(d, f, k);
        if exists|j: int| 0 <= j < d.len() && d[j].folder@ == f && (#[trigger] opt_counter(d[j], k)) is Some {
            let j = choose|j: int| 0 <= j < d.len() && d[j].folder@ == f && (#[trigger] opt_counter(d[j], k)) is Some;
            assert(rows[j] == d[j]);
        }
        if exists|j: int| 0 <= j < rows.len() && rows[j].folder@ == f && (#[trigger] opt_counter(rows[j], k)) is Some {
            let j = choose|j: int| 0 <= j < rows.len() && rows[j].folder@ == f && (#[trigger] opt_counter(rows[j], k)) is Some;
            if j < rows.len() - 1 {
                assert(d[j] == rows[j]);
            }
        }
    }
}

/// The optional counters of the folder rows of a commit add up to those of
/// its repository row: when `groups` aggregates the file rows `rows` by
/// folder and `repo_row` aggregates them for the whole repository, summing
/// each optional counter over the folder rows the way aggregation sums it
/// (absent where no folder row has it) gives the repository row's counter.
pub proof fn law_folder_optional_counts_add_up_to_repo_row(
    rows: Seq<StatRow>,
    groups: Seq<StatRow>,
    repo_row: StatRow,
    repo: Seq<char>,
    sha: Seq<char>,
    date: Seq<char>,
)
    requires
        is_folder_aggregation(rows, groups),
        is_repo_aggregation(rows, repo_row, repo, sha, date),
    ensures
        forall|k: int|
            0 <= k < num_opt_counters() ==> #[trigger] opt_total(groups, k) == opt_counter(repo_row, k),
{
    let fs = folders_of(groups);
    assert forall|a: int, b: int| 0 <= a < b < fs.len() implies fs[a] != fs[b] by {
        assert(groups[a].folder@ != groups[b].folder@);
    }
    assert forall|k: int| 0 <= k < num_opt_counters() implies #[trigger] opt_total(groups, k) == opt_counter(
        repo_row,
        k,
    ) by {
        let vr = value_rows(rows, k);
        let vg = value_rows(groups, k);
        // values
        assert forall|j: int| 0 <= j < vr.len() implies exists|a: int|
            0 <= a < fs.len() && fs[a] == (#[trigger] vr[j]).folder@ by {
            assert(vr[j].folder == rows[j].folder);
            assert(has_folder(groups, rows[j].folder@));
            let a = choose|a: int| 0 <= a < groups.len() && (#[trigger] groups[a]).folder@ == rows[j].folder@;
            assert(fs[a] == groups[a].folder@);
        }
        assert forall|a: int| 0 <= a < vg.len() implies counter(#[trigger] vg[a], 0) == total_in(
            vr,
            vg[a].folder@,
            0,
        ) by {
            assert(is_folder_group(rows, groups[a]));
            assert(vg[a] == value_row(groups[a], k));
            assert(opt_counter(groups[a], k) == opt_total_in(rows, groups[a].folder@, k));
            assert(counter(vg[a], 0) == opt_value(opt_counter(groups[a], k)));
            assert(vg[a].folder == groups[a].folder);
            lemma_value_rows_total_in(rows, groups[a].folder@, k);
        }
        lemma_groups_sum(vr, vg, 0);
        assert(folders_of(vg) =~= fs);
        lemma_partition_sum(vr, fs, 0);
        lemma_value_rows_total(rows, k);
        lemma_value_rows_total(groups, k);
        assert(opt_value(opt_total(groups, k)) == opt_value(opt_counter(repo_row, k)));
        // presence
        lemma_opt_total_present(groups, k);
        lemma_opt_total_present(rows, k);
        if opt_total(groups, k) is Some {
            let a = choose|a: int| 0 <= a < groups.len() && (#[trigger] opt_counter(groups[a], k)) is Some;
            assert(is_folder_group(rows, groups[a]));
            lemma_opt_total_in_present(rows, groups[a].folder@, k);
            let j = choose|j: int|
                0 <= j < rows.len() && rows[j].folder@ == groups[a].folder@ && (#[trigger] opt_counter(rows[j], k)) is Some;
            assert(opt_total(rows, k) is Some);
        }
        if opt_total(rows, k) is Some {
            let j = choose|j: int| 0 <= j < rows.len() && (#[trigger] opt_counter(rows[j], k)) is Some;
            assert(has_folder(groups, rows[j].folder@));
            let a = choose|a: int| 0 <= a < groups.len() && (#[trigger] groups[a]).folder@ == rows[j].folder@;
            assert(is_folder_group(rows, groups[a]));
            lemma_opt_total_in_present(rows, groups[a].folder@, k);
            assert(opt_counter(groups[a], k) is Some);
            assert(opt_total(groups, k) is Some);
        }
    }
}

// ---------------------------------------------------------------------------
// Delta updates of folder rows against folder aggregation
// ---------------------------------------------------------------------------

/// Per-folder sums over a concatenation add up.
proof fn lemma_total_in_concat(a: Seq<StatRow>, b: Seq<StatRow>, f: Seq<char>, k: int)
    ensures
        total_in(a + b, f, k) == total_in(a, f, k) + total_in(b, f, k),
        opt_value(opt_total_in(a + b, f, k)) == opt_value(opt_total_in(a, f, k)) + opt_value(
            opt_total_in(b, f, k),
        ),
    decreases b.len(),
{
    if b.len() == 0 {
        assert(a + b =~= a);
    } else {
        lemma_total_in_concat(a, b.drop_last(), f, k);
        assert((a + b).drop_last() =~= a + b.drop_last());
        assert((a + b).last() == b.last());
    }
}

/// Summing the rows of one folder is the per-folder sum.
proof fn lemma_total_rows_in(rows: Seq<StatRow>, f: Seq<char>, k: int)
    ensures
        total(rows_in(rows, f), k) == total_in(rows, f, k),
        opt_value(opt_total(rows_in(rows, f), k)) == opt_value(opt_total_in(rows, f, k)),
    decreases rows.len(),
{
    if rows.len() > 0 {
        lemma_total_rows_in(rows.drop_last(), f, k);
        if rows.last().folder@ == f {
            let d = rows_in(rows.drop_last(), f);
            assert(d.push(rows.last()).drop_last() =~= d);
            lemma_opt_add_all_value(None, d, k);
        }
    }
}

/// Incremental update of a folder row agrees with aggregating the folder.
/// Let `group` be the row of folder `f` aggregated over the files of a
/// parent commit, `kept` followed by `removed`, and let `result` be `group`
/// updated by the delta that removes the rows of `removed` in `f` and adds
/// those of `added` in `f`. Then every plain counter of `result`, and the
/// value of every optional counter, is the sum over the rows of `kept`
/// followed by `added` in folder `f`.
pub proof fn law_folder_delta_agrees_with_folder_aggregation(
    kept: Seq<StatRow>,
    removed: Seq<StatRow>,
    added: Seq<StatRow>,
    group: StatRow,
    result: StatRow,
    sha: Seq<char>,
    date: Seq<char>,
)
    requires
        is_folder_group(kept + removed, group),
        is_delta_of(result, group, sha, date, rows_in(removed, group.folder@), rows_in(added, group.folder@)),
    ensures
        forall|k: int|
            0 <= k < num_counters() ==> #[trigger] counter(result, k) == total_in(kept + added, group.folder@, k),
        forall|k: int|
            0 <= k < num_opt_counters() ==> opt_value(#[trigger] opt_counter(result, k)) == opt_value(
                opt_total_in(kept + added, group.folder@, k),
            ),
        result.folder == group.folder,
        result.row_type == group.row_type,
{
    let f = group.folder@;
    assert forall|k: int| 0 <= k < num_counters() implies #[trigger] counter(result, k) == total_in(
        kept + added,
        f,
        k,
    ) by {
        lemma_total_in_concat(kept, removed, f, k);
        lemma_total_in_concat(kept, added, f, k);
        lemma_total_rows_in(removed, f, k);
        lemma_total_rows_in(added, f, k);
    }
    assert forall|k: int| 0 <= k < num_opt_counters() implies opt_value(#[trigger] opt_counter(result, k))
        == opt_value(opt_total_in(kept + added, f, k)) by {
        lemma_total_in_concat(kept, removed, f, k);
        lemma_total_in_concat(kept, added, f, k);
        lemma_total_rows_in(removed, f, k);
        lemma_total_rows_in(added, f, k);
        lemma_opt_sub_all_value(opt_counter(group, k), rows_in(removed, f), k);
        lemma_opt_add_all_value(opt_sub_all(opt_counter(group, k), rows_in(removed, f), k), rows_in(added, f), k);
    }
}

// ---------------------------------------------------------------------------
// Aggregates do not depend on the order of the file rows
// ---------------------------------------------------------------------------

/// The sums over a single row are that row's counters.
proof fn lemma_sums_single(x: StatRow, f: Seq<char>, k: int)
    ensures
        total(seq![x], k) == counter(x, k),
        opt_value(opt_total(seq![x], k)) == opt_value(opt_counter(x, k)),
        total_in(seq![x], f, k) == if x.folder@ == f { counter(x, k) } else { 0 },
        opt_value(opt_total_in(seq![x], f, k)) == if x.folder@ == f {
            opt_value(opt_counter(x, k))
        } else {
            0
        },
{
    let e = Seq::<StatRow>::empty();
    assert(seq![x].drop_last() =~= e);
    assert(seq![x].last() == x);
    assert(total(e, k) == 0);
    assert(opt_add_all(None, e, k) is None);
    assert(total_in(e, f, k) == 0);
    assert(opt_total_in(e, f, k) is None);
    assert(total(seq![x], k) == total(e, k) + counter(x, k));
    assert(opt_total(seq![x], k) == opt_plus(opt_add_all(None, e, k), opt_counter(x, k)));
}

/// Taking one row out of a sequence takes its counters out of every sum.
proof fn lemma_sums_remove(t: Seq<StatRow>, j: int, f: Seq<char>, k: int)
    requires
        0 <= j < t.len(),
    ensures
        total(t, k) == total(t.remove(j), k) + counter(t[j], k),
        opt_value(opt_total(t, k)) == opt_value(opt_total(t.remove(j), k)) + opt_value(
            opt_counter(t[j], k),
        ),
        total_in(t, f, k) == total_in(t.remove(j), f, k) + if t[j].folder@ == f {
            counter(t[j], k)
        } else {
            0
        },
        opt_value(opt_total_in(t, f, k)) == opt_value(opt_total_in(t.remove(j), f, k)) + if t[j].folder@
            == f {
            opt_value(opt_counter(t[j], k))
        } else {
            0
        },
{
    let a = t.take(j);
    let one = seq![t[j]];
    let b = t.skip(j + 1);
    assert(t =~= a + (one + b));
    assert(t.remove(j) =~= a + b);
    lemma_total_concat(a, one + b, k);
    lemma_total_concat(one, b, k);
    lemma_total_concat(a, b, k);
    lemma_opt_total_concat(a, one + b, k);
    lemma_opt_total_concat(one, b, k);
    lemma_opt_total_concat(a, b, k);
    lemma_total_in_concat(a, one + b, f, k);
    lemma_total_in_concat(one, b, f, k);
    lemma_total_in_concat(a, b, f, k);
    lemma_sums_single(t[j], f, k);
}

/// Sequences of file rows with the same rows, counted with multiplicity,
/// have the same sums.
pub proof fn lemma_sums_of_same_rows(s: Seq<StatRow>, t: Seq<StatRow>, f: Seq<char>, k: int)
    requires
        s.to_multiset() == t.to_multiset(),
    ensures
        total(s, k) == total(t, k),
        opt_value(opt_total(s, k)) == opt_value(opt_total(t, k)),
        total_in(s, f, k) == total_in(t, f, k),
        opt_value(opt_total_in(s, f, k)) == opt_value(opt_total_in(t, f, k)),
    decreases s.len(),
{
    broadcast use vstd::seq_lib::group_to_multiset_ensures, vstd::multiset::group_multiset_axioms;

    if s.len() == 0 {
        assert(t.to_multiset().len() == 0);
        assert(t =~= s);
    } else {
        let d = s.drop_last();
        let x = s.last();
        assert(d.push(x) =~= s);
        assert(s.to_multiset() =~= d.to_multiset().insert(x));
        assert(t.to_multiset().count(x) > 0);
        assert(t.contains(x));
        let j = choose|j: int| 0 <= j < t.len() && t[j] == x;
        assert(t.remove(j).to_multiset() =~= t.to_multiset().remove(x));
        assert(t.remove(j).to_multiset() =~= d.to_multiset());
        lemma_sums_of_same_rows(d, t.remove(j), f, k);
        lemma_sums_remove(t, j, f, k);
        lemma_sums_remove(s, s.len() - 1, f, k);
        assert(s.remove(s.len() - 1) =~= d);
    }
}

/// Sequences with the same rows have a row with a present `k`-th optional
/// counter (in folder `f`, for the second clause) alike.
proof fn lemma_presence_of_same_rows(s: Seq<StatRow>, t: Seq<StatRow>, f: Seq<char>, k: int)
    requires
        s.to_multiset() == t.to_multiset(),
    ensures
        (opt_total(s, k) is Some) == (opt_total(t, k) is Some),
        (opt_total_in(s, f, k) is Some) == (opt_total_in(t, f, k) is Some),
{
    broadcast use vstd::seq_lib::group_to_multiset_ensures;

    lemma_opt_total_present(s, k);
    lemma_opt_total_present(t, k);
    lemma_opt_total_in_present(s, f, k);
    lemma_opt_total_in_present(t, f, k);
    assert forall|x: StatRow| s.contains(x) <==> t.contains(x) by {
        assert(s.contains(x) <==> s.to_multiset().count(x) > 0);
        assert(t.contains(x) <==> t.to_multiset().count(x) > 0);
    }
    if opt_total(s, k) is Some {
        let j = choose|j: int| 0 <= j < s.len() && (#[trigger] opt_counter(s[j], k)) is Some;
        assert(s.contains(s[j]));
        let i = choose|i: int| 0 <= i < t.len() && t[i] == s[j];
        assert(opt_counter(t[i], k) is Some);
    }
    if opt_total(t, k) is Some {
        let j = choose|j: int| 0 <= j < t.len() && (#[trigger] opt_counter(t[j], k)) is Some;
        assert(t.contains(t[j]));
        let i = choose|i: int| 0 <= i < s.len() && s[i] == t[j];
        assert(opt_counter(s[i], k) is Some);
    }
    if opt_total_in(s, f, k) is Some {
        let j = choose|j: int|
            0 <= j < s.len() && s[j].folder@ == f && (#[trigger] opt_counter(s[j], k)) is Some;
        assert(s.contains(s[j]));
        let i = choose|i: int| 0 <= i < t.len() && t[i] == s[j];
        assert(t[i].folder@ == f && opt_counter(t[i], k) is Some);
    }
    if opt_total_in(t, f, k) is Some {
        let j = choose|j: int|
            0 <= j < t.len() && t[j].folder@ == f && (#[trigger] opt_counter(t[j], k)) is Some;
        assert(t.contains(t[j]));
        let i = choose|i: int| 0 <= i < s.len() && s[i] == t[j];
        assert(s[i].folder@ == f && opt_counter(s[i], k) is Some);
    }
}

/// An optional sum is fixed by its value and whether it is present.
proof fn lemma_opt_eq(a: Option<int>, b: Option<int>)
    requires
        opt_value(a) == opt_value(b),
        (a is Some) == (b is Some),
    ensures
        a == b,
{
}

/// The repository row does not depend on the order of the file rows: two
/// repository rows aggregated over the same file rows, in any order, have
/// the same counters, plain and optional.
pub proof fn law_repo_row_unchanged_by_permutation(
    rows1: Seq<StatRow>,
    rows2: Seq<StatRow>,
    r1: StatRow,
    r2: StatRow,
    repo: Seq<char>,
    sha: Seq<char>,
    date: Seq<char>,
)
    requires
        rows1.to_multiset() == rows2.to_multiset(),
        is_repo_aggregation(rows1, r1, repo, sha, date),
        is_repo_aggregation(rows2, r2, repo, sha, date),
    ensures
        forall|k: int| 0 <= k < num_counters() ==> #[trigger] counter(r1, k) == counter(r2, k),
        forall|k: int| 0 <= k < num_opt_counters() ==> #[trigger] opt_counter(r1, k) == opt_counter(r2, k),
{
    assert forall|k: int| 0 <= k < num_counters() implies #[trigger] counter(r1, k) == counter(r2, k) by {
        lemma_sums_of_same_rows(rows1, rows2, "."@, k);
    }
    assert forall|k: int| 0 <= k < num_opt_counters() implies #[trigger] opt_counter(r1, k)
        == opt_counter(r2, k) by {
        lemma_sums_of_same_rows(rows1, rows2, "."@, k);
        lemma_presence_of_same_rows(rows1, rows2, "."@, k);
        lemma_opt_eq(opt_total(rows1, k), opt_total(rows2, k));
    }
}

/// The folder rows do not depend on the order of the file rows: folder
/// rows aggregated over the same file rows, in any order, cover the same
/// folders, and the rows of one folder have the same counters, plain and
/// optional.
pub proof fn law_folder_rows_unchanged_by_permutation(
    rows1: Seq<StatRow>,
    rows2: Seq<StatRow>,
    groups1: Seq<StatRow>,
    groups2: Seq<StatRow>,
)
    requires
        rows1.to_multiset() == rows2.to_multiset(),
        is_folder_aggregation(rows1, groups1),
        is_folder_aggregation(rows2, groups2),
    ensures
        forall|f: Seq<char>| #[trigger] has_folder(groups1, f) == has_folder(groups2, f),
        forall|a: int, b: int, k: int|
            0 <= a < groups1.len() && 0 <= b < groups2.len() && groups1[a].folder@ == groups2[b].folder@
                && 0 <= k < num_counters() ==> #[trigger] counter(groups1[a], k) == #[trigger] counter(
                groups2[b],
                k,
            ),
        forall|a: int, b: int, k: int|
            0 <= a < groups1.len() && 0 <= b < groups2.len() && groups1[a].folder@ == groups2[b].folder@
                && 0 <= k < num_opt_counters() ==> #[trigger] opt_counter(groups1[a], k)
                == #[trigger] opt_counter(groups2[b], k),
{
    broadcast use vstd::seq_lib::group_to_multiset_ensures;

    assert forall|x: StatRow| rows1.contains(x) <==> rows2.contains(x) by {
        assert(rows1.contains(x) <==> rows1.to_multiset().count(x) > 0);
        assert(rows2.contains(x) <==> rows2.to_multiset().count(x) > 0);
    }
    assert forall|f: Seq<char>| #[trigger] has_folder(groups1, f) == has_folder(groups2, f) by {
        lemma_groups_cover(rows1, groups1, f);
        lemma_groups_cover(rows2, groups2, f);
        if has_folder(rows1, f) {
            let j = choose|j: int| 0 <= j < rows1.len() && (#[trigger] rows1[j]).folder@ == f;
            assert(rows1.contains(rows1[j]));
            let i = choose|i: int| 0 <= i < rows2.len() && rows2[i] == rows1[j];
            assert(rows2[i].folder@ == f);
        }
        if has_folder(rows2, f) {
            let j = choose|j: int| 0 <= j < rows2.len() && (#[trigger] rows2[j]).folder@ == f;
            assert(rows2.contains(rows2[j]));
            let i = choose|i: int| 0 <= i < rows1.len() && rows1[i] == rows2[j];
            assert(rows1[i].folder@ == f);
        }
    }
    assert forall|a: int, b: int, k: int|
        0 <= a < groups1.len() && 0 <= b < groups2.len() && groups1[a].folder@ == groups2[b].folder@
            && 0 <= k < num_counters() implies #[trigger] counter(groups1[a], k) == #[trigger] counter(
        groups2[b],
        k,
    ) by {
        assert(is_folder_group(rows1, groups1[a]));
        assert(is_folder_group(rows2, groups2[b]));
        lemma_sums_of_same_rows(rows1, rows2, groups1[a].folder@, k);
    }
    assert forall|a: int, b: int, k: int|
        0 <= a < groups1.len() && 0 <= b < groups2.len() && groups1[a].folder@ == groups2[b].folder@
            && 0 <= k < num_opt_counters() implies #[trigger] opt_counter(groups1[a], k)
        == #[trigger] opt_counter(groups2[b], k) by {
        let f = groups1[a].folder@;
        assert(is_folder_group(rows1, groups1[a]));
        assert(is_folder_group(rows2, groups2[b]));
        lemma_sums_of_same_rows(rows1, rows2, f, k);
        lemma_presence_of_same_rows(rows1, rows2, f, k);
        lemma_opt_eq(opt_total_in(rows1, f, k), opt_total_in(rows2, f, k));
    }
}

/// A folder has a folder row exactly when some file row is in it.
proof fn lemma_groups_cover(rows: Seq<StatRow>, groups: Seq<StatRow>, f: Seq<char>)
    requires
        is_folder_aggregation(rows, groups),
    ensures
        has_folder(groups, f) == has_folder(rows, f),
{
    if has_folder(groups, f) {
        let a = choose|a: int| 0 <= a < groups.len() && (#[trigger] groups[a]).folder@ == f;
        assert(is_folder_group(rows, groups[a]));
        let p = index_of_folder(rows, f);
        lemma_index_of_folder(rows, f);
        assert(rows[p].folder@ == f);
    }
    if has_folder(rows, f) {
        let j = choose|j: int| 0 <= j < rows.len() && (#[trigger] rows[j]).folder@ == f;
        assert(has_folder(groups, rows[j].folder@));
    }
}

/// Incremental update agrees with full aggregation, wherever the removed
/// rows stand. Let `base` be the repository row aggregated over the file
/// rows `file_rows` of a parent commit, `removed` some of those rows (each
/// at most as often as it occurs there), and `rows` the file rows of the
/// new commit: `file_rows` with `removed` taken out and `added` put in, in
/// any order. Then the delta update of `base` that removes `removed` and
/// adds `added` has every plain counter, and the value of every optional
/// counter, of the repository row aggregated over `rows`, and it is the
/// repository row at the new commit.
pub proof fn law_delta_agrees_with_full_aggregation_anywhere(
    file_rows: Seq<StatRow>,
    removed: Seq<StatRow>,
    added: Seq<StatRow>,
    rows: Seq<StatRow>,
    base: StatRow,
    result: StatRow,
    repo: Seq<char>,
    parent_sha: Seq<char>,
    parent_date: Seq<char>,
    sha: Seq<char>,
    date: Seq<char>,
)
    requires
        removed.to_multiset().subset_of(file_rows.to_multiset()),
        rows.to_multiset() == file_rows.to_multiset().sub(removed.to_multiset()).add(added.to_multiset()),
        is_repo_aggregation(file_rows, base, repo, parent_sha, parent_date),
        is_delta_of(result, base, sha, date, removed, added),
    ensures
        forall|k: int| 0 <= k < num_counters() ==> #[trigger] counter(result, k) == total(rows, k),
        forall|k: int|
            0 <= k < num_opt_counters() ==> opt_value(#[trigger] opt_counter(result, k)) == opt_value(
                opt_total(rows, k),
            ),
        result.valid_from_sha@ == sha,
        result.valid_from_date@ == date,
        result.repo@ == repo,
        result.row_type@ == "repo"@,
        result.folder@ == "."@,
        result.file_name is None,
{
    broadcast use vstd::multiset::group_multiset_axioms;

    vstd::seq_lib::lemma_multiset_commutative(rows, removed);
    vstd::seq_lib::lemma_multiset_commutative(file_rows, added);
    assert((rows + removed).to_multiset() =~= (file_rows + added).to_multiset());
    assert forall|k: int| 0 <= k < num_counters() implies #[trigger] counter(result, k) == total(rows, k) by {
        lemma_sums_of_same_rows(rows + removed, file_rows + added, "."@, k);
        lemma_total_concat(rows, removed, k);
        lemma_total_concat(file_rows, added, k);
    }
    assert forall|k: int| 0 <= k < num_opt_counters() implies opt_value(#[trigger] opt_counter(result, k))
        == opt_value(opt_total(rows, k)) by {
        lemma_sums_of_same_rows(rows + removed, file_rows + added, "."@, k);
        lemma_opt_total_concat(rows, removed, k);
        lemma_opt_total_concat(file_rows, added, k);
        lemma_opt_sub_all_value(opt_counter(base, k), removed, k);
        lemma_opt_add_all_value(opt_sub_all(opt_counter(base, k), removed, k), added, k);
    }
}

// ---------------------------------------------------------------------------
// Open folder rows stay sound under a delta analysis
// ---------------------------------------------------------------------------

/// Open folder rows are sound: no folder has two, and each counts files.
pub open spec fn open_folders_sound(open: Seq<StatRow>) -> bool {
    &&& forall|i: int, j: int| 0 <= i < j < open.len() ==> (#[trigger] open[i]).folder@ != (#[trigger] open[j]).folder@
    &&& forall|i: int| 0 <= i < open.len() ==> (#[trigger] open[i]).file_count > 0
}

/// The open rows of `open` whose folder is not among `closed`, in order.
pub open spec fn rows_not_closed(open: Seq<StatRow>, closed: Seq<Seq<char>>) -> Seq<StatRow>
    decreases open.len(),
{
    if open.len() == 0 {
        Seq::empty()
    } else if closed.contains(open.last().folder@) {
        rows_not_closed(open.drop_last(), closed)
    } else {
        rows_not_closed(open.drop_last(), closed).push(open.last())
    }
}

/// The open folder rows after a delta analysis writes its folder rows:
/// those of the closed folders are closed, and the inserted rows are open.
pub open spec fn open_after(open: Seq<StatRow>, closed: Seq<Seq<char>>, inserted: Seq<StatRow>) -> Seq<StatRow> {
    rows_not_closed(open, closed) + inserted
}

/// Membership and soundness of the rows that stay open.
proof fn lemma_rows_not_closed(open: Seq<StatRow>, closed: Seq<Seq<char>>)
    requires
        open_folders_sound(open),
    ensures
        open_folders_sound(rows_not_closed(open, closed)),
        forall|x: StatRow| #[trigger] rows_not_closed(open, closed).contains(x) ==> open.contains(x) && !closed.contains(x.folder@),
    decreases open.len(),
{
    if open.len() > 0 {
        let d = open.drop_last();
        assert(open_folders_sound(d)) by {
            assert forall|i: int, j: int| 0 <= i < j < d.len() implies (#[trigger] d[i]).folder@ != (#[trigger] d[j]).folder@ by {
                assert(d[i] == open[i] && d[j] == open[j]);
            }
            assert forall|i: int| 0 <= i < d.len() implies (#[trigger] d[i]).file_count > 0 by {
                assert(d[i] == open[i]);
            }
        }
        lemma_rows_not_closed(d, closed);
        let r = rows_not_closed(d, closed);
        assert forall|x: StatRow| d.contains(x) implies open.contains(x) by {
            let i = choose|i: int| 0 <= i < d.len() && d[i] == x;
            assert(open[i] == x);
        }
        if !closed.contains(open.last().folder@) {
            let q = r.push(open.last());
            assert(open.contains(open.last())) by {
                assert(open[open.len() - 1] == open.last());
            }
            assert forall|x: StatRow| #[trigger] q.contains(x) implies open.contains(x) && !closed.contains(x.folder@) by {
                let i = choose|i: int| 0 <= i < q.len() && q[i] == x;
                if i < r.len() {
                    assert(r[i] == x);
                    assert(r.contains(x));
                }
            }
            assert forall|i: int, j: int| 0 <= i < j < q.len() implies (#[trigger] q[i]).folder@ != (#[trigger] q[j]).folder@ by {
                if j == r.len() {
                    assert(q[i] == r[i]);
                    assert(r.contains(r[i]));
                    let a = choose|a: int| 0 <= a < d.len() && d[a] == r[i];
                    assert(open[a] == d[a]);
                    assert(open[a].folder@ != open[open.len() - 1].folder@);
                } else {
                    assert(q[i] == r[i] && q[j] == r[j]);
                }
            }
            assert forall|i: int| 0 <= i < q.len() implies (#[trigger] q[i]).file_count > 0 by {
                if i < r.len() {
                    assert(q[i] == r[i]);
                } else {
                    assert(open[open.len() - 1].file_count > 0);
                }
            }
        }
    }
}

/// The rows of `us` that still count files are rows of `us` that count files.
proof fn lemma_nonempty_rows(us: Seq<StatRow>)
    ensures
        forall|x: StatRow| #[trigger] nonempty_rows(us).contains(x) <==> (us.contains(x) && x.file_count > 0),
        forall|i: int| 0 <= i < nonempty_rows(us).len() ==> exists|a: int| 0 <= a < us.len() && us[a] == #[trigger] nonempty_rows(us)[i] && a >= 0,
    decreases us.len(),
{
    if us.len() > 0 {
        let d = us.drop_last();
        lemma_nonempty_rows(d);
        let n = nonempty_rows(d);
        assert forall|x: StatRow| d.contains(x) implies us.contains(x) by {
            let i = choose|i: int| 0 <= i < d.len() && d[i] == x;
            assert(us[i] == x);
        }
        assert forall|x: StatRow| us.contains(x) implies d.contains(x) || x == us.last() by {
            let i = choose|i: int| 0 <= i < us.len() && us[i] == x;
            if i < d.len() {
                assert(d[i] == x);
            }
        }
        assert(us.contains(us.last())) by {
            assert(us[us.len() - 1] == us.last());
        }
        if us.last().file_count > 0 {
            let q = n.push(us.last());
            assert forall|x: StatRow| #[trigger] q.contains(x) <==> (us.contains(x) && x.file_count > 0) by {
                if q.contains(x) {
                    let i = choose|i: int| 0 <= i < q.len() && q[i] == x;
                    if i < n.len() {
                        assert(n[i] == x);
                        assert(n.contains(x));
                    }
                }
                if us.contains(x) && x.file_count > 0 {
                    if x == us.last() {
                        assert(q[n.len() as int] == x);
                    } else {
                        assert(n.contains(x));
                        let i = choose|i: int| 0 <= i < n.len() && n[i] == x;
                        assert(q[i] == x);
                    }
                }
            }
            assert forall|i: int| 0 <= i < q.len() implies exists|a: int| 0 <= a < us.len() && us[a] == #[trigger] q[i] && a >= 0 by {
                if i < n.len() {
                    assert(q[i] == n[i]);
                    let a = choose|a: int| 0 <= a < d.len() && d[a] == n[i] && a >= 0;
                    assert(us[a] == d[a]);
                } else {
                    assert(us[us.len() - 1] == q[i]);
                }
            }
        } else {
            assert forall|i: int| 0 <= i < n.len() implies exists|a: int| 0 <= a < us.len() && us[a] == #[trigger] n[i] && a >= 0 by {
                let a = choose|a: int| 0 <= a < d.len() && d[a] == n[i] && a >= 0;
                assert(us[a] == d[a]);
            }
        }
    }
}

/// The updated row of folder `f` is in folder `f` and starts at the new commit.
proof fn lemma_folder_update_labels(
    u: StatRow,
    parent_folders: Seq<StatRow>,
    f: Seq<char>,
    repo_name: Seq<char>,
    parent_sha: Seq<char>,
    sha: Seq<char>,
    date: Seq<char>,
    removed: Seq<StatRow>,
    added: Seq<StatRow>,
)
    requires
        is_folder_update(u, parent_folders, f, repo_name, parent_sha, sha, date, removed, added),
    ensures
        u.folder@ == f,
        u.valid_from_sha@ == sha,
{
    let b = choose|b: StatRow|
        #[trigger] is_folder_base(b, parent_folders, f, repo_name, parent_sha) && is_delta_of(
            u,
            b,
            sha,
            date,
            rows_in(removed, f),
            rows_in(added, f),
        );
    lemma_last_index_of_folder(parent_folders, f);
}

/// A delta analysis keeps the open folder rows sound. Let `open` be the open
/// folder rows before the commit, sound (no folder twice, each counting
/// files), and `p` the delta plan of the commit with folder detail over
/// distinct affected folders. After its folder writes (the affected folders'
/// open rows closed, the plan's folder rows inserted) the open folder rows
/// are still sound; every open row of an affected folder starts at the new
/// commit; and an affected folder has an open row exactly when its updated
/// row still counts files.
pub proof fn law_delta_plan_keeps_open_folder_rows_sound(
    p: DeltaPlan,
    granularity: Granularity,
    repo_name: Seq<char>,
    parent_sha: Seq<char>,
    sha: Seq<char>,
    date: Seq<char>,
    parent_repo: StatRow,
    parent_folders: Seq<StatRow>,
    removed: Seq<StatRow>,
    added: Seq<StatRow>,
    affected: Seq<Seq<char>>,
    changed_paths: Seq<Seq<char>>,
    open: Seq<StatRow>,
)
    requires
        is_delta_plan(p, granularity, repo_name, parent_sha, sha, date, parent_repo, parent_folders, removed, added, affected, changed_paths),
        !(granularity is Repo),
        all_distinct(affected),
        open_folders_sound(open),
    ensures
        ({
            let after = open_after(open, strings_view(p.close_folders@), p.folder_rows@);
            &&& open_folders_sound(after)
            &&& forall|i: int|
                0 <= i < after.len() && affected.contains((#[trigger] after[i]).folder@) ==> after[i].valid_from_sha@ == sha
            &&& exists|us: Seq<StatRow>|
                #[trigger] is_folder_updates(us, affected, parent_folders, repo_name, parent_sha, sha, date, removed, added)
                && forall|a: int| 0 <= a < affected.len() ==> (has_folder(after, #[trigger] affected[a]) <==> us[a].file_count > 0)
        }),
{
    let closed = strings_view(p.close_folders@);
    assert(closed == affected);
    let us = choose|us: Seq<StatRow>|
        #[trigger] is_folder_updates(us, affected, parent_folders, repo_name, parent_sha, sha, date, removed, added)
            && p.folder_rows@ == nonempty_rows(us);
    let ins = p.folder_rows@;
    let kept = rows_not_closed(open, closed);
    let after = kept + ins;
    lemma_rows_not_closed(open, closed);
    lemma_nonempty_rows(us);
    assert forall|a: int| 0 <= a < us.len() implies (#[trigger] us[a]).folder@ == affected[a] && us[a].valid_from_sha@ == sha by {
        lemma_folder_update_labels(us[a], parent_folders, affected[a], repo_name, parent_sha, sha, date, removed, added);
    }
    // facts on the inserted rows
    assert forall|i: int| 0 <= i < ins.len() implies {
        &&& affected.contains((#[trigger] ins[i]).folder@)
        &&& ins[i].valid_from_sha@ == sha
        &&& ins[i].file_count > 0
    } by {
        let a = choose|a: int| 0 <= a < us.len() && us[a] == #[trigger] ins[i] && a >= 0;
        assert(ins.contains(ins[i]));
        assert(affected[a] == ins[i].folder@);
    }
    assert forall|i: int, j: int| 0 <= i < j < ins.len() implies (#[trigger] ins[i]).folder@ != (#[trigger] ins[j]).folder@ by {
        let a = choose|a: int| 0 <= a < us.len() && us[a] == #[trigger] ins[i] && a >= 0;
        let b = choose|b: int| 0 <= b < us.len() && us[b] == #[trigger] ins[j] && b >= 0;
        if a == b {
            lemma_nonempty_rows_increasing(us, i, j);
        }
    }
    // soundness of the concatenation
    assert forall|i: int, j: int| 0 <= i < j < after.len() implies (#[trigger] after[i]).folder@ != (#[trigger] after[j]).folder@ by {
        if j < kept.len() {
            assert(after[i] == kept[i] && after[j] == kept[j]);
        } else if i >= kept.len() {
            assert(after[i] == ins[i - kept.len()] && after[j] == ins[j - kept.len()]);
        } else {
            assert(after[i] == kept[i] && after[j] == ins[j - kept.len()]);
            assert(kept.contains(kept[i]));
            assert(affected.contains(ins[j - kept.len()].folder@));
        }
    }
    assert forall|i: int| 0 <= i < after.len() implies (#[trigger] after[i]).file_count > 0 by {
        if i < kept.len() {
            assert(after[i] == kept[i]);
        } else {
            assert(after[i] == ins[i - kept.len()]);
        }
    }
    assert forall|i: int|
        0 <= i < after.len() && affected.contains((#[trigger] after[i]).folder@) implies after[i].valid_from_sha@ == sha by {
        if i < kept.len() {
            assert(after[i] == kept[i]);
            assert(kept.contains(kept[i]));
        } else {
            assert(after[i] == ins[i - kept.len()]);
        }
    }
    assert forall|a: int| 0 <= a < affected.len() implies (has_folder(after, #[trigger] affected[a]) <==> us[a].file_count > 0) by {
        let f = affected[a];
        if us[a].file_count > 0 {
            assert(us.contains(us[a]));
            assert(ins.contains(us[a]));
            let i = choose|i: int| 0 <= i < ins.len() && ins[i] == us[a];
            assert(after[kept.len() + i] == ins[i]);
        }
        if has_folder(after, f) {
            let i = choose|i: int| 0 <= i < after.len() && (#[trigger] after[i]).folder@ == f;
            if i < kept.len() {
                assert(after[i] == kept[i]);
                assert(kept.contains(kept[i]));
                assert(affected.contains(f));
            } else {
                let x = ins[i - kept.len()];
                assert(after[i] == x);
                assert(ins.contains(x));
                let b = choose|b: int| 0 <= b < us.len() && us[b] == x && b >= 0;
                assert(affected[b] == f);
                assert(b == a);
            }
        }
    }
}

/// Two rows of `nonempty_rows(us)` at different places come from different
/// places of `us`.
proof fn lemma_nonempty_rows_increasing(us: Seq<StatRow>, i: int, j: int)
    requires
        0 <= i < j < nonempty_rows(us).len(),
        forall|a: int, b: int| 0 <= a < b < us.len() ==> (#[trigger] us[a]).folder@ != (#[trigger] us[b]).folder@,
    ensures
        nonempty_rows(us)[i].folder@ != nonempty_rows(us)[j].folder@,
    decreases us.len(),
{
    let d = us.drop_last();
    lemma_nonempty_rows(d);
    assert forall|a: int, b: int| 0 <= a < b < d.len() implies (#[trigger] d[a]).folder@ != (#[trigger] d[b]).folder@ by {
        assert(d[a] == us[a] && d[b] == us[b]);
    }
    if us.last().file_count > 0 {
        let n = nonempty_rows(d);
        if j < n.len() {
            lemma_nonempty_rows_increasing(d, i, j);
        } else {
            assert(nonempty_rows(us)[j] == us.last());
            assert(nonempty_rows(us)[i] == n[i]);
            let a = choose|a: int| 0 <= a < d.len() && d[a] == #[trigger] n[i] && a >= 0;
            assert(us[a] == d[a]);
            assert(us[a].folder@ != us[us.len() - 1].folder@);
        }
    } else {
        lemma_nonempty_rows_increasing(d, i, j);
    }
}

} // verus!
