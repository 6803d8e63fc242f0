//! Aggregation of file rows into folder and repository rows, and the
//! arithmetic delta that updates an aggregate row when files change.

use vstd::prelude::*;
use crate::db::store::{
    counter, num_counters, num_opt_counters, opt_counter, opt_int, same_labels, StatRow,
};

verus! {

// ---------------------------------------------------------------------------
// Specifications
// ---------------------------------------------------------------------------

/// `x` fits in an `i64`.
pub open spec fn fits_i64(x: int) -> bool {
    i64::MIN <= x <= i64::MAX
}

/// The value of an optional count, absent counting as zero.
pub open spec fn opt_value(o: Option<int>) -> int {
    match o {
        Some(v) => v,
        None => 0,
    }
}

/// Adding an optional value to an optional running sum: an absent value
/// leaves the sum as it is (absent is not zero); a present one makes it present.
pub open spec fn opt_plus(acc: Option<int>, v: Option<int>) -> Option<int> {
    match v {
        Some(x) => Some(opt_value(acc) + x),
        None => acc,
    }
}

/// Subtracting an optional value from an optional running sum, in the same way.
pub open spec fn opt_minus(acc: Option<int>, v: Option<int>) -> Option<int> {
    match v {
        Some(x) => Some(opt_value(acc) - x),
        None => acc,
    }
}

/// Sum of the `k`-th counter over `rows`.
pub open spec fn total(rows: Seq<StatRow>, k: int) -> int
    decreases rows.len(),
{
    if rows.len() == 0 {
        0
    } else {
        total(rows.drop_last(), k) + counter(rows.last(), k)
    }
}

/// `acc` with the `k`-th optional counter of every row of `rows` added in turn.
pub open spec fn opt_add_all(acc: Option<int>, rows: Seq<StatRow>, k: int) -> Option<int>
    decreases rows.len(),
{
    if rows.len() == 0 {
        acc
    } else {
        opt_plus(opt_add_all(acc, rows.drop_last(), k), opt_counter(rows.last(), k))
    }
}

/// `acc` with the `k`-th optional counter of every row of `rows` subtracted in turn.
pub open spec fn opt_sub_all(acc: Option<int>, rows: Seq<StatRow>, k: int) -> Option<int>
    decreases rows.len(),
{
    if rows.len() == 0 {
        acc
    } else {
        opt_minus(opt_sub_all(acc, rows.drop_last(), k), opt_counter(rows.last(), k))
    }
}

/// Sum of the `k`-th optional counter over `rows`: `None` when no row has one.
pub open spec fn opt_total(rows: Seq<StatRow>, k: int) -> Option<int> {
    opt_add_all(None, rows, k)
}

/// Every running sum over `rows`, of every counter, fits in an `i64`.
pub open spec fn totals_fit(rows: Seq<StatRow>) -> bool {
    &&& forall|n: int, k: int|
        0 <= n <= rows.len() && 0 <= k < num_counters() ==> fits_i64(
            #[trigger] total(rows.take(n), k),
        )
    &&& forall|n: int, k: int|
        0 <= n <= rows.len() && 0 <= k < num_opt_counters() ==> fits_i64(
            opt_value(#[trigger] opt_total(rows.take(n), k)),
        )
}

/// Adding the counters of `b` to those of `a` stays within `i64`.
pub open spec fn can_add(a: StatRow, b: StatRow) -> bool {
    &&& forall|k: int|
        0 <= k < num_counters() ==> fits_i64(#[trigger] counter(a, k) + counter(b, k))
    &&& forall|k: int|
        0 <= k < num_opt_counters() ==> fits_i64(
            opt_value(#[trigger] opt_plus(opt_counter(a, k), opt_counter(b, k))),
        )
}

/// Subtracting the counters of `b` from those of `a` stays within `i64`.
pub open spec fn can_sub(a: StatRow, b: StatRow) -> bool {
    &&& forall|k: int|
        0 <= k < num_counters() ==> fits_i64(#[trigger] counter(a, k) - counter(b, k))
    &&& forall|k: int|
        0 <= k < num_opt_counters() ==> fits_i64(
            opt_value(#[trigger] opt_minus(opt_counter(a, k), opt_counter(b, k))),
        )
}

/// An aggregate row with the given labels and every counter zero or absent.
pub open spec fn is_empty_aggregate(
    r: StatRow,
    repo: Seq<char>,
    sha: Seq<char>,
    date: Seq<char>,
    row_type: Seq<char>,
    folder: Seq<char>,
    depth: i32,
) -> bool {
    &&& r.repo@ == repo
    &&& r.valid_from_sha@ == sha
    &&& r.valid_from_date@ == date
    &&& r.valid_to_sha is None
    &&& r.valid_to_date is None
    &&& r.row_type@ == row_type
    &&& r.folder@ == folder
    &&& r.folder_depth == depth
    &&& r.file_name is None
    &&& r.file_type is None
    &&& forall|k: int| 0 <= k < num_counters() ==> #[trigger] counter(r, k) == 0
    &&& forall|k: int| 0 <= k < num_opt_counters() ==> #[trigger] opt_counter(r, k) is None
}

/// `r` is the repository row for `rows`: labelled for the repository at the
/// given commit, with every counter the sum over `rows`.
pub open spec fn is_repo_aggregation(
    rows: Seq<StatRow>,
    r: StatRow,
    repo: Seq<char>,
    sha: Seq<char>,
    date: Seq<char>,
) -> bool {
    &&& r.repo@ == repo
    &&& r.valid_from_sha@ == sha
    &&& r.valid_from_date@ == date
    &&& r.valid_to_sha is None
    &&& r.valid_to_date is None
    &&& r.row_type@ == "repo"@
    &&& r.folder@ == "."@
    &&& r.folder_depth == 0
    &&& r.file_name is None
    &&& r.file_type is None
    &&& forall|k: int| 0 <= k < num_counters() ==> #[trigger] counter(r, k) == total(rows, k)
    &&& forall|k: int|
        0 <= k < num_opt_counters() ==> #[trigger] opt_counter(r, k) == opt_total(rows, k)
}

// ---------------------------------------------------------------------------
// Lemmas on sums
// ---------------------------------------------------------------------------

/// A running sum one row further.
pub proof fn lemma_total_step(rows: Seq<StatRow>, n: int, k: int)
    requires
        0 <= n < rows.len(),
    ensures
        total(rows.take(n + 1), k) == total(rows.take(n), k) + counter(rows[n], k),
        opt_total(rows.take(n + 1), k) == opt_plus(opt_total(rows.take(n), k), opt_counter(rows[n], k)),
{
    assert(rows.take(n + 1).drop_last() =~= rows.take(n));
}

/// Folding one row further.
pub proof fn lemma_fold_step(acc: Option<int>, rows: Seq<StatRow>, n: int, k: int)
    requires
        0 <= n < rows.len(),
    ensures
        opt_add_all(acc, rows.take(n + 1), k) == opt_plus(
            opt_add_all(acc, rows.take(n), k),
            opt_counter(rows[n], k),
        ),
        opt_sub_all(acc, rows.take(n + 1), k) == opt_minus(
            opt_sub_all(acc, rows.take(n), k),
            opt_counter(rows[n], k),
        ),
        total(rows.take(n + 1), k) == total(rows.take(n), k) + counter(rows[n], k),
{
    assert(rows.take(n + 1).drop_last() =~= rows.take(n));
}

/// Sums over a concatenation add up.
pub proof fn lemma_total_concat(a: Seq<StatRow>, b: Seq<StatRow>, k: int)
    ensures
        total(a + b, k) == total(a, k) + total(b, k),
    decreases b.len(),
{
    if b.len() == 0 {
        assert(a + b =~= a);
    } else {
        lemma_total_concat(a, b.drop_last(), k);
        assert((a + b).drop_last() =~= a + b.drop_last());
    }
}

/// Folding optional counts over a concatenation folds over each part in turn.
pub proof fn lemma_opt_add_all_concat(acc: Option<int>, a: Seq<StatRow>, b: Seq<StatRow>, k: int)
    ensures
        opt_add_all(acc, a + b, k) == opt_add_all(opt_add_all(acc, a, k), b, k),
    decreases b.len(),
{
    if b.len() == 0 {
        assert(a + b =~= a);
    } else {
        lemma_opt_add_all_concat(acc, a, b.drop_last(), k);
        assert((a + b).drop_last() =~= a + b.drop_last());
    }
}

// ---------------------------------------------------------------------------
// Counter arithmetic
// ---------------------------------------------------------------------------

/// Adds `src` into `dst`, treating `None` as absent (not as zero).
/// Once any JS file contributes a value, the field becomes `Some`.
pub fn add_opt(dst: &mut Option<i64>, src: Option<i64>)
    requires
        fits_i64(opt_value(opt_plus(opt_int(*old(dst)), opt_int(src)))),
    ensures
        opt_int(*final(dst)) == opt_plus(opt_int(*old(dst)), opt_int(src)),
{
    if let Some(v) = src {
        let base: i64 = match *dst {
            Some(d) => d,
            None => 0,
        };
        *dst = Some(base + v);
    }
}

/// Subtracts `src` from `dst`, treating `None` as absent (not as zero).
pub fn sub_opt(dst: &mut Option<i64>, src: Option<i64>)
    requires
        fits_i64(opt_value(opt_minus(opt_int(*old(dst)), opt_int(src)))),
    ensures
        opt_int(*final(dst)) == opt_minus(opt_int(*old(dst)), opt_int(src)),
{
    if let Some(v) = src {
        let base: i64 = match *dst {
            Some(d) => d,
            None => 0,
        };
        *dst = Some(base - v);
    }
}

/// Adds every counter of `r` into `acc`.
pub fn add_stats(acc: &mut StatRow, r: &StatRow)
    requires
        can_add(*old(acc), *r),
    ensures
        same_labels(*final(acc), *old(acc)),
        forall|k: int|
            0 <= k < num_counters() ==> #[trigger] counter(*final(acc), k) == counter(*old(acc), k)
                + counter(*r, k),
        forall|k: int|
            0 <= k < num_opt_counters() ==> #[trigger] opt_counter(*final(acc), k) == opt_plus(
                opt_counter(*old(acc), k),
                opt_counter(*r, k),
            ),
{
    let ghost a0 = *acc;
    proof {
        assert(fits_i64(counter(a0, 0) + counter(*r, 0)));
        assert(fits_i64(counter(a0, 1) + counter(*r, 1)));
        assert(fits_i64(counter(a0, 2) + counter(*r, 2)));
        assert(fits_i64(counter(a0, 3) + counter(*r, 3)));
        assert(fits_i64(counter(a0, 4) + counter(*r, 4)));
        assert(fits_i64(counter(a0, 5) + counter(*r, 5)));
        assert(fits_i64(counter(a0, 6) + counter(*r, 6)));
        assert(fits_i64(counter(a0, 7) + counter(*r, 7)));
        assert(fits_i64(counter(a0, 8) + counter(*r, 8)));
        assert(fits_i64(counter(a0, 9) + counter(*r, 9)));
        assert(fits_i64(counter(a0, 10) + counter(*r, 10)));
        assert(fits_i64(counter(a0, 11) + counter(*r, 11)));
        assert(fits_i64(counter(a0, 12) + counter(*r, 12)));
        assert(fits_i64(counter(a0, 13) + counter(*r, 13)));
        assert(fits_i64(counter(a0, 14) + counter(*r, 14)));
        assert(fits_i64(counter(a0, 15) + counter(*r, 15)));
        assert(fits_i64(counter(a0, 16) + counter(*r, 16)));
        assert(fits_i64(counter(a0, 17) + counter(*r, 17)));
        assert(fits_i64(opt_value(opt_plus(opt_counter(a0, 0), opt_counter(*r, 0)))));
        assert(fits_i64(opt_value(opt_plus(opt_counter(a0, 1), opt_counter(*r, 1)))));
        assert(fits_i64(opt_value(opt_plus(opt_counter(a0, 2), opt_counter(*r, 2)))));
    }
    acc.file_count = acc.file_count + r.file_count;
    acc.sloc_nonblank = acc.sloc_nonblank + r.sloc_nonblank;
    acc.sloc_noncomment = acc.sloc_noncomment + r.sloc_noncomment;
    acc.source_file_count = acc.source_file_count + r.source_file_count;
    acc.test_file_count = acc.test_file_count + r.test_file_count;
    acc.story_file_count = acc.story_file_count + r.story_file_count;
    acc.config_file_count = acc.config_file_count + r.config_file_count;
    add_opt(&mut acc.js_exports_default, r.js_exports_default);
    add_opt(&mut acc.js_exports_named, r.js_exports_named);
    add_opt(&mut acc.js_exports_total, r.js_exports_total);
    acc.js_export_matches_filename = acc.js_export_matches_filename + r.js_export_matches_filename;
    acc.py_file_count = acc.py_file_count + r.py_file_count;
    acc.js_file_count = acc.js_file_count + r.js_file_count;
    acc.jsx_file_count = acc.jsx_file_count + r.jsx_file_count;
    acc.ts_file_count = acc.ts_file_count + r.ts_file_count;
    acc.tsx_file_count = acc.tsx_file_count + r.tsx_file_count;
    acc.css_file_count = acc.css_file_count + r.css_file_count;
    acc.html_file_count = acc.html_file_count + r.html_file_count;
    acc.md_file_count = acc.md_file_count + r.md_file_count;
    acc.json_file_count = acc.json_file_count + r.json_file_count;
    acc.yaml_file_count = acc.yaml_file_count + r.yaml_file_count;
}

/// Subtracts every counter of `r` from `acc`.
pub fn sub_stats(acc: &mut StatRow, r: &StatRow)
    requires
        can_sub(*old(acc), *r),
    ensures
        same_labels(*final(acc), *old(acc)),
        forall|k: int|
            0 <= k < num_counters() ==> #[trigger] counter(*final(acc), k) == counter(*old(acc), k)
                - counter(*r, k),
        forall|k: int|
            0 <= k < num_opt_counters() ==> #[trigger] opt_counter(*final(acc), k) == opt_minus(
                opt_counter(*old(acc), k),
                opt_counter(*r, k),
            ),
{
    let ghost a0 = *acc;
    proof {
        assert(fits_i64(counter(a0, 0) - counter(*r, 0)));
        assert(fits_i64(counter(a0, 1) - counter(*r, 1)));
        assert(fits_i64(counter(a0, 2) - counter(*r, 2)));
        assert(fits_i64(counter(a0, 3) - counter(*r, 3)));
        assert(fits_i64(counter(a0, 4) - counter(*r, 4)));
        assert(fits_i64(counter(a0, 5) - counter(*r, 5)));
        assert(fits_i64(counter(a0, 6) - counter(*r, 6)));
        assert(fits_i64(counter(a0, 7) - counter(*r, 7)));
        assert(fits_i64(counter(a0, 8) - counter(*r, 8)));
        assert(fits_i64(counter(a0, 9) - counter(*r, 9)));
        assert(fits_i64(counter(a0, 10) - counter(*r, 10)));
        assert(fits_i64(counter(a0, 11) - counter(*r, 11)));
        assert(fits_i64(counter(a0, 12) - counter(*r, 12)));
        assert(fits_i64(counter(a0, 13) - counter(*r, 13)));
        assert(fits_i64(counter(a0, 14) - counter(*r, 14)));
        assert(fits_i64(counter(a0, 15) - counter(*r, 15)));
        assert(fits_i64(counter(a0, 16) - counter(*r, 16)));
        assert(fits_i64(counter(a0, 17) - counter(*r, 17)));
        assert(fits_i64(opt_value(opt_minus(opt_counter(a0, 0), opt_counter(*r, 0)))));
        assert(fits_i64(opt_value(opt_minus(opt_counter(a0, 1), opt_counter(*r, 1)))));
        assert(fits_i64(opt_value(opt_minus(opt_counter(a0, 2), opt_counter(*r, 2)))));
    }
    acc.file_count = acc.file_count - r.file_count;
    acc.sloc_nonblank = acc.sloc_nonblank - r.sloc_nonblank;
    acc.sloc_noncomment = acc.sloc_noncomment - r.sloc_noncomment;
    acc.source_file_count = acc.source_file_count - r.source_file_count;
    acc.test_file_count = acc.test_file_count - r.test_file_count;
    acc.story_file_count = acc.story_file_count - r.story_file_count;
    acc.config_file_count = acc.config_file_count - r.config_file_count;
    sub_opt(&mut acc.js_exports_default, r.js_exports_default);
    sub_opt(&mut acc.js_exports_named, r.js_exports_named);
    sub_opt(&mut acc.js_exports_total, r.js_exports_total);
    acc.js_export_matches_filename = acc.js_export_matches_filename - r.js_export_matches_filename;
    acc.py_file_count = acc.py_file_count - r.py_file_count;
    acc.js_file_count = acc.js_file_count - r.js_file_count;
    acc.jsx_file_count = acc.jsx_file_count - r.jsx_file_count;
    acc.ts_file_count = acc.ts_file_count - r.ts_file_count;
    acc.tsx_file_count = acc.tsx_file_count - r.tsx_file_count;
    acc.css_file_count = acc.css_file_count - r.css_file_count;
    acc.html_file_count = acc.html_file_count - r.html_file_count;
    acc.md_file_count = acc.md_file_count - r.md_file_count;
    acc.json_file_count = acc.json_file_count - r.json_file_count;
    acc.yaml_file_count = acc.yaml_file_count - r.yaml_file_count;
}

/// Whether `x + y` fits in an `i64`.
fn sum_fits(x: i64, y: i64) -> (r: bool)
    ensures
        r == fits_i64(x + y),
{
    let t = x as i128 + y as i128;
    t >= -0x8000_0000_0000_0000i128 && t <= 0x7fff_ffff_ffff_ffffi128
}

/// Whether `x - y` fits in an `i64`.
fn diff_fits(x: i64, y: i64) -> (r: bool)
    ensures
        r == fits_i64(x - y),
{
    let t = x as i128 - y as i128;
    t >= -0x8000_0000_0000_0000i128 && t <= 0x7fff_ffff_ffff_ffffi128
}

/// Whether adding an optional value to an optional running sum fits in an `i64`.
fn opt_sum_fits(acc: Option<i64>, v: Option<i64>) -> (r: bool)
    ensures
        r == fits_i64(opt_value(opt_plus(opt_int(acc), opt_int(v)))),
{
    match v {
        Some(x) => {
            let base: i64 = match acc {
                Some(d) => d,
                None => 0,
            };
            sum_fits(base, x)
        },
        None => true,
    }
}

/// Whether subtracting an optional value from an optional running sum fits in an `i64`.
fn opt_diff_fits(acc: Option<i64>, v: Option<i64>) -> (r: bool)
    ensures
        r == fits_i64(opt_value(opt_minus(opt_int(acc), opt_int(v)))),
{
    match v {
        Some(x) => {
            let base: i64 = match acc {
                Some(d) => d,
                None => 0,
            };
            diff_fits(base, x)
        },
        None => true,
    }
}

/// Whether `adding` the counters of `b` to those of `a` stays within `i64`.
pub fn can_add_check(a: &StatRow, b: &StatRow) -> (r: bool)
    ensures
        r == can_add(*a, *b),
{
    let c0 = sum_fits(a.file_count, b.file_count);
    let c1 = sum_fits(a.sloc_nonblank, b.sloc_nonblank);
    let c2 = sum_fits(a.sloc_noncomment, b.sloc_noncomment);
    let c3 = sum_fits(a.source_file_count, b.source_file_count);
    let c4 = sum_fits(a.test_file_count, b.test_file_count);
    let c5 = sum_fits(a.story_file_count, b.story_file_count);
    let c6 = sum_fits(a.config_file_count, b.config_file_count);
    let c7 = sum_fits(a.js_export_matches_filename, b.js_export_matches_filename);
    let c8 = sum_fits(a.py_file_count, b.py_file_count);
    let c9 = sum_fits(a.js_file_count, b.js_file_count);
    let c10 = sum_fits(a.jsx_file_count, b.jsx_file_count);
    let c11 = sum_fits(a.ts_file_count, b.ts_file_count);
    let c12 = sum_fits(a.tsx_file_count, b.tsx_file_count);
    let c13 = sum_fits(a.css_file_count, b.css_file_count);
    let c14 = sum_fits(a.html_file_count, b.html_file_count);
    let c15 = sum_fits(a.md_file_count, b.md_file_count);
    let c16 = sum_fits(a.json_file_count, b.json_file_count);
    let c17 = sum_fits(a.yaml_file_count, b.yaml_file_count);
    let o0 = opt_sum_fits(a.js_exports_default, b.js_exports_default);
    let o1 = opt_sum_fits(a.js_exports_named, b.js_exports_named);
    let o2 = opt_sum_fits(a.js_exports_total, b.js_exports_total);
    proof {
        assert(c0 == fits_i64(counter(*a, 0) + counter(*b, 0)));
        assert(c1 == fits_i64(counter(*a, 1) + counter(*b, 1)));
        assert(c2 == fits_i64(counter(*a, 2) + counter(*b, 2)));
        assert(c3 == fits_i64(counter(*a, 3) + counter(*b, 3)));
        assert(c4 == fits_i64(counter(*a, 4) + counter(*b, 4)));
        assert(c5 == fits_i64(counter(*a, 5) + counter(*b, 5)));
        assert(c6 == fits_i64(counter(*a, 6) + counter(*b, 6)));
        assert(c7 == fits_i64(counter(*a, 7) + counter(*b, 7)));
        assert(c8 == fits_i64(counter(*a, 8) + counter(*b, 8)));
        assert(c9 == fits_i64(counter(*a, 9) + counter(*b, 9)));
        assert(c10 == fits_i64(counter(*a, 10) + counter(*b, 10)));
        assert(c11 == fits_i64(counter(*a, 11) + counter(*b, 11)));
        assert(c12 == fits_i64(counter(*a, 12) + counter(*b, 12)));
        assert(c13 == fits_i64(counter(*a, 13) + counter(*b, 13)));
        assert(c14 == fits_i64(counter(*a, 14) + counter(*b, 14)));
        assert(c15 == fits_i64(counter(*a, 15) + counter(*b, 15)));
        assert(c16 == fits_i64(counter(*a, 16) + counter(*b, 16)));
        assert(c17 == fits_i64(counter(*a, 17) + counter(*b, 17)));
        assert(o0 == fits_i64(opt_value(opt_plus(opt_counter(*a, 0), opt_counter(*b, 0)))));
        assert(o1 == fits_i64(opt_value(opt_plus(opt_counter(*a, 1), opt_counter(*b, 1)))));
        assert(o2 == fits_i64(opt_value(opt_plus(opt_counter(*a, 2), opt_counter(*b, 2)))));
    }
    c0 && c1 && c2 && c3 && c4 && c5 && c6 && c7 && c8 && c9 && c10 && c11 && c12 && c13 && c14 && c15 && c16 && c17 && o0 && o1 && o2
}

/// Whether `subtracting` the counters of `b` from those of `a` stays within `i64`.
pub fn can_sub_check(a: &StatRow, b: &StatRow) -> (r: bool)
    ensures
        r == can_sub(*a, *b),
{
    let c0 = diff_fits(a.file_count, b.file_count);
    let c1 = diff_fits(a.sloc_nonblank, b.sloc_nonblank);
    let c2 = diff_fits(a.sloc_noncomment, b.sloc_noncomment);
    let c3 = diff_fits(a.source_file_count, b.source_file_count);
    let c4 = diff_fits(a.test_file_count, b.test_file_count);
    let c5 = diff_fits(a.story_file_count, b.story_file_count);
    let c6 = diff_fits(a.config_file_count, b.config_file_count);
    let c7 = diff_fits(a.js_export_matches_filename, b.js_export_matches_filename);
    let c8 = diff_fits(a.py_file_count, b.py_file_count);
    let c9 = diff_fits(a.js_file_count, b.js_file_count);
    let c10 = diff_fits(a.jsx_file_count, b.jsx_file_count);
    let c11 = diff_fits(a.ts_file_count, b.ts_file_count);
    let c12 = diff_fits(a.tsx_file_count, b.tsx_file_count);
    let c13 = diff_fits(a.css_file_count, b.css_file_count);
    let c14 = diff_fits(a.html_file_count, b.html_file_count);
    let c15 = diff_fits(a.md_file_count, b.md_file_count);
    let c16 = diff_fits(a.json_file_count, b.json_file_count);
    let c17 = diff_fits(a.yaml_file_count, b.yaml_file_count);
    let o0 = opt_diff_fits(a.js_exports_default, b.js_exports_default);
    let o1 = opt_diff_fits(a.js_exports_named, b.js_exports_named);
    let o2 = opt_diff_fits(a.js_exports_total, b.js_exports_total);
    proof {
        assert(c0 == fits_i64(counter(*a, 0) - counter(*b, 0)));
        assert(c1 == fits_i64(counter(*a, 1) - counter(*b, 1)));
        assert(c2 == fits_i64(counter(*a, 2) - counter(*b, 2)));
        assert(c3 == fits_i64(counter(*a, 3) - counter(*b, 3)));
        assert(c4 == fits_i64(counter(*a, 4) - counter(*b, 4)));
        assert(c5 == fits_i64(counter(*a, 5) - counter(*b, 5)));
        assert(c6 == fits_i64(counter(*a, 6) - counter(*b, 6)));
        assert(c7 == fits_i64(counter(*a, 7) - counter(*b, 7)));
        assert(c8 == fits_i64(counter(*a, 8) - counter(*b, 8)));
        assert(c9 == fits_i64(counter(*a, 9) - counter(*b, 9)));
        assert(c10 == fits_i64(counter(*a, 10) - counter(*b, 10)));
        assert(c11 == fits_i64(counter(*a, 11) - counter(*b, 11)));
        assert(c12 == fits_i64(counter(*a, 12) - counter(*b, 12)));
        assert(c13 == fits_i64(counter(*a, 13) - counter(*b, 13)));
        assert(c14 == fits_i64(counter(*a, 14) - counter(*b, 14)));
        assert(c15 == fits_i64(counter(*a, 15) - counter(*b, 15)));
        assert(c16 == fits_i64(counter(*a, 16) - counter(*b, 16)));
        assert(c17 == fits_i64(counter(*a, 17) - counter(*b, 17)));
        assert(o0 == fits_i64(opt_value(opt_minus(opt_counter(*a, 0), opt_counter(*b, 0)))));
        assert(o1 == fits_i64(opt_value(opt_minus(opt_counter(*a, 1), opt_counter(*b, 1)))));
        assert(o2 == fits_i64(opt_value(opt_minus(opt_counter(*a, 2), opt_counter(*b, 2)))));
    }
    c0 && c1 && c2 && c3 && c4 && c5 && c6 && c7 && c8 && c9 && c10 && c11 && c12 && c13 && c14 && c15 && c16 && c17 && o0 && o1 && o2
}

/// A row with the given labels and every counter zero or absent.
pub fn empty_aggregate(
    repo: String,
    sha: String,
    date: String,
    row_type: &str,
    folder: String,
    depth: i32,
) -> (r: StatRow)
    ensures
        is_empty_aggregate(r, repo@, sha@, date@, row_type@, folder@, depth),
        r.repo == repo,
        r.valid_from_sha == sha,
        r.valid_from_date == date,
        r.folder == folder,
{
    StatRow {
        repo,
        valid_from_sha: sha,
        valid_from_date: date,
        valid_to_sha: None,
        valid_to_date: None,
        row_type: row_type.to_owned(),
        folder,
        folder_depth: depth,
        file_name: None,
        file_count: 0,
        sloc_nonblank: 0,
        sloc_noncomment: 0,
        file_type: None,
        source_file_count: 0,
        test_file_count: 0,
        story_file_count: 0,
        config_file_count: 0,
        js_exports_default: None,
        js_exports_named: None,
        js_exports_total: None,
        js_export_matches_filename: 0,
        py_file_count: 0,
        js_file_count: 0,
        jsx_file_count: 0,
        ts_file_count: 0,
        tsx_file_count: 0,
        css_file_count: 0,
        html_file_count: 0,
        md_file_count: 0,
        json_file_count: 0,
        yaml_file_count: 0,
    }
}

// ---------------------------------------------------------------------------
// Aggregation
// ---------------------------------------------------------------------------

/// Aggregates all file-level rows into a single repo-wide row (`folder = "."`,
/// `file_name = None`), or returns `None` when some running sum would leave `i64`.
pub fn try_aggregate_to_repo(
    repo: &str,
    commit_sha: &str,
    commit_date: &str,
    file_rows: &[StatRow],
) -> (result: Option<StatRow>)
    ensures
        result is Some <==> totals_fit(file_rows@),
        result matches Some(r) ==> is_repo_aggregation(
            file_rows@,
            r,
            repo@,
            commit_sha@,
            commit_date@,
        ),
{
    let ghost rows = file_rows@;
    let mut result = empty_aggregate(
        repo.to_owned(),
        commit_sha.to_owned(),
        commit_date.to_owned(),
        "repo",
        ".".to_owned(),
        0,
    );
    assert(rows.take(0) =~= Seq::<StatRow>::empty());
    let mut i: usize = 0;
    while i < file_rows.len()
        invariant
            rows == file_rows@,
            i <= rows.len(),
            result.repo@ == repo@,
            result.valid_from_sha@ == commit_sha@,
            result.valid_from_date@ == commit_date@,
            result.valid_to_sha is None,
            result.valid_to_date is None,
            result.row_type@ == "repo"@,
            result.folder@ == "."@,
            result.folder_depth == 0,
            result.file_name is None,
            result.file_type is None,
            forall|k: int|
                0 <= k < num_counters() ==> #[trigger] counter(result, k) == total(
                    rows.take(i as int),
                    k,
                ),
            forall|k: int|
                0 <= k < num_opt_counters() ==> #[trigger] opt_counter(result, k) == opt_total(
                    rows.take(i as int),
                    k,
                ),
            forall|n: int, k: int|
                0 <= n <= i && 0 <= k < num_counters() ==> fits_i64(
                    #[trigger] total(rows.take(n), k),
                ),
            forall|n: int, k: int|
                0 <= n <= i && 0 <= k < num_opt_counters() ==> fits_i64(
                    opt_value(#[trigger] opt_total(rows.take(n), k)),
                ),
        decreases rows.len() - i,
    {
        if !can_add_check(&result, &file_rows[i]) {
            proof {
                if totals_fit(rows) {
                    assert forall|k: int| 0 <= k < num_counters() implies fits_i64(
                        #[trigger] counter(result, k) + counter(rows[i as int], k),
                    ) by {
                        lemma_total_step(rows, i as int, k);
                        assert(fits_i64(total(rows.take(i + 1), k)));
                    }
                    assert forall|k: int| 0 <= k < num_opt_counters() implies fits_i64(
                        opt_value(#[trigger] opt_plus(opt_counter(result, k), opt_counter(rows[i as int], k))),
                    ) by {
                        lemma_total_step(rows, i as int, k);
                        assert(fits_i64(opt_value(opt_total(rows.take(i + 1), k))));
                    }
                    assert(false);
                }
            }
            return None;
        }
        add_stats(&mut result, &file_rows[i]);
        proof {
            lemma_counters_fit(result);
            assert forall|k: int| 0 <= k < num_counters() implies #[trigger] counter(result, k)
                == total(rows.take(i + 1), k) by {
                lemma_total_step(rows, i as int, k);
            }
            assert forall|k: int| 0 <= k < num_opt_counters() implies #[trigger] opt_counter(
                result,
                k,
            ) == opt_total(rows.take(i + 1), k) by {
                lemma_total_step(rows, i as int, k);
            }
            assert forall|n: int, k: int| 0 <= n <= i + 1 && 0 <= k < num_counters() implies fits_i64(
                #[trigger] total(rows.take(n), k),
            ) by {
                if n == i + 1 {
                    assert(fits_i64(counter(result, k)));
                }
            }
            assert forall|n: int, k: int| 0 <= n <= i + 1 && 0 <= k < num_opt_counters() implies fits_i64(
                opt_value(#[trigger] opt_total(rows.take(n), k)),
            ) by {
                if n == i + 1 {
                    assert(fits_i64(opt_value(opt_counter(result, k))));
                }
            }
        }
        i += 1;
    }
    assert(rows.take(rows.len() as int) =~= rows);
    Some(result)
}

/// Aggregates all file-level rows into a single repo-wide row (`folder = "."`, `file_name = None`).
pub fn aggregate_to_repo(
    repo: &str,
    commit_sha: &str,
    commit_date: &str,
    file_rows: &[StatRow],
) -> (result: StatRow)
    requires
        totals_fit(file_rows@),
    ensures
        is_repo_aggregation(file_rows@, result, repo@, commit_sha@, commit_date@),
{
    match try_aggregate_to_repo(repo, commit_sha, commit_date, file_rows) {
        Some(r) => r,
        None => {
            assert(false);
            empty_aggregate(String::new(), String::new(), String::new(), "repo", String::new(), 0)
        },
    }
}

// ---------------------------------------------------------------------------
// Delta
// ---------------------------------------------------------------------------

/// Every running value of `apply_delta` fits in an `i64`: the base minus
/// each prefix of `removed`, then that minus all of `removed` plus each
/// prefix of `added`.
pub open spec fn delta_fits(base: StatRow, removed: Seq<StatRow>, added: Seq<StatRow>) -> bool {
    &&& forall|n: int, k: int|
        0 <= n <= removed.len() && 0 <= k < num_counters() ==> fits_i64(
            counter(base, k) - #[trigger] total(removed.take(n), k),
        )
    &&& forall|n: int, k: int|
        0 <= n <= added.len() && 0 <= k < num_counters() ==> fits_i64(
            counter(base, k) - total(removed, k) + #[trigger] total(added.take(n), k),
        )
    &&& forall|n: int, k: int|
        0 <= n <= removed.len() && 0 <= k < num_opt_counters() ==> fits_i64(
            opt_value(#[trigger] opt_sub_all(opt_counter(base, k), removed.take(n), k)),
        )
    &&& forall|n: int, k: int|
        0 <= n <= added.len() && 0 <= k < num_opt_counters() ==> fits_i64(
            opt_value(
                #[trigger] opt_add_all(
                    opt_sub_all(opt_counter(base, k), removed, k),
                    added.take(n),
                    k,
                ),
            ),
        )
}

/// `result` is `base` moved to a new commit, with the counters of `removed`
/// subtracted and those of `added` added; its other labels are `base`'s.
pub open spec fn is_delta_of(
    result: StatRow,
    base: StatRow,
    sha: Seq<char>,
    date: Seq<char>,
    removed: Seq<StatRow>,
    added: Seq<StatRow>,
) -> bool {
    &&& result.valid_from_sha@ == sha
    &&& result.valid_from_date@ == date
    &&& result.repo == base.repo
    &&& result.valid_to_sha == base.valid_to_sha
    &&& result.valid_to_date == base.valid_to_date
    &&& result.row_type == base.row_type
    &&& result.folder == base.folder
    &&& result.folder_depth == base.folder_depth
    &&& result.file_name == base.file_name
    &&& result.file_type == base.file_type
    &&& forall|k: int|
        0 <= k < num_counters() ==> #[trigger] counter(result, k) == counter(base, k) - total(
            removed,
            k,
        ) + total(added, k)
    &&& forall|k: int|
        0 <= k < num_opt_counters() ==> #[trigger] opt_counter(result, k) == opt_add_all(
            opt_sub_all(opt_counter(base, k), removed, k),
            added,
            k,
        )
}

/// The counters of any row fit in an `i64`.
pub proof fn lemma_counters_fit(r: StatRow)
    ensures
        forall|k: int| 0 <= k < num_counters() ==> fits_i64(#[trigger] counter(r, k)),
        forall|k: int| 0 <= k < num_opt_counters() ==> fits_i64(opt_value(#[trigger] opt_counter(r, k))),
{
}

/// Applies an arithmetic delta to an aggregate row (folder or repo), or
/// returns `None` when some running value would leave `i64`.
///
/// Subtracts the stats from `removed` file rows and adds the stats from `added` file rows.
/// Moves the row's validity start to `commit_sha` / `commit_date`.
pub fn try_apply_delta(
    start: StatRow,
    commit_sha: &str,
    commit_date: &str,
    removed: &[StatRow],
    added: &[StatRow],
) -> (result: Option<StatRow>)
    ensures
        result is Some <==> delta_fits(start, removed@, added@),
        result matches Some(r) ==> is_delta_of(r, start, commit_sha@, commit_date@, removed@, added@),
{
    let ghost b0 = start;
    let mut base = start;
    base.valid_from_sha = commit_sha.to_owned();
    base.valid_from_date = commit_date.to_owned();
    assert(removed@.take(0) =~= Seq::<StatRow>::empty());
    proof {
        lemma_counters_fit(b0);
    }
    let mut i: usize = 0;
    while i < removed.len()
        invariant
            i <= removed.len(),
            b0 == start,
            base.valid_from_sha@ == commit_sha@,
            base.valid_from_date@ == commit_date@,
            base.repo == b0.repo,
            base.valid_to_sha == b0.valid_to_sha,
            base.valid_to_date == b0.valid_to_date,
            base.row_type == b0.row_type,
            base.folder == b0.folder,
            base.folder_depth == b0.folder_depth,
            base.file_name == b0.file_name,
            base.file_type == b0.file_type,
            forall|k: int|
                0 <= k < num_counters() ==> #[trigger] counter(base, k) == counter(b0, k) - total(
                    removed@.take(i as int),
                    k,
                ),
            forall|k: int|
                0 <= k < num_opt_counters() ==> #[trigger] opt_counter(base, k) == opt_sub_all(
                    opt_counter(b0, k),
                    removed@.take(i as int),
                    k,
                ),
            forall|n: int, k: int|
                0 <= n <= i && 0 <= k < num_counters() ==> fits_i64(
                    counter(b0, k) - #[trigger] total(removed@.take(n), k),
                ),
            forall|n: int, k: int|
                0 <= n <= i && 0 <= k < num_opt_counters() ==> fits_i64(
                    opt_value(#[trigger] opt_sub_all(opt_counter(b0, k), removed@.take(n), k)),
                ),
        decreases removed.len() - i,
    {
        if !can_sub_check(&base, &removed[i]) {
            proof {
                if delta_fits(b0, removed@, added@) {
                    assert forall|k: int| 0 <= k < num_counters() implies fits_i64(
                        #[trigger] counter(base, k) - counter(removed@[i as int], k),
                    ) by {
                        lemma_fold_step(None, removed@, i as int, k);
                        assert(fits_i64(counter(b0, k) - total(removed@.take(i + 1), k)));
                    }
                    assert forall|k: int| 0 <= k < num_opt_counters() implies fits_i64(
                        opt_value(#[trigger] opt_minus(opt_counter(base, k), opt_counter(removed@[i as int], k))),
                    ) by {
                        lemma_fold_step(opt_counter(b0, k), removed@, i as int, k);
                        assert(fits_i64(opt_value(opt_sub_all(opt_counter(b0, k), removed@.take(i + 1), k))));
                    }
                    assert(false);
                }
            }
            return None;
        }
        sub_stats(&mut base, &removed[i]);
        proof {
            lemma_counters_fit(base);
            assert forall|k: int| 0 <= k < num_counters() implies #[trigger] counter(base, k)
                == counter(b0, k) - total(removed@.take(i + 1), k) by {
                lemma_fold_step(None, removed@, i as int, k);
            }
            assert forall|k: int| 0 <= k < num_opt_counters() implies #[trigger] opt_counter(
                base,
                k,
            ) == opt_sub_all(opt_counter(b0, k), removed@.take(i + 1), k) by {
                lemma_fold_step(opt_counter(b0, k), removed@, i as int, k);
            }
            assert forall|n: int, k: int| 0 <= n <= i + 1 && 0 <= k < num_counters() implies fits_i64(
                counter(b0, k) - #[trigger] total(removed@.take(n), k),
            ) by {
                if n == i + 1 {
                    assert(fits_i64(counter(base, k)));
                }
            }
            assert forall|n: int, k: int| 0 <= n <= i + 1 && 0 <= k < num_opt_counters() implies fits_i64(
                opt_value(#[trigger] opt_sub_all(opt_counter(b0, k), removed@.take(n), k)),
            ) by {
                if n == i + 1 {
                    assert(fits_i64(opt_value(opt_counter(base, k))));
                }
            }
        }
        i += 1;
    }
    assert(removed@.take(removed@.len() as int) =~= removed@);
    assert(added@.take(0) =~= Seq::<StatRow>::empty());
    let mut j: usize = 0;
    while j < added.len()
        invariant
            j <= added.len(),
            b0 == start,
            base.valid_from_sha@ == commit_sha@,
            base.valid_from_date@ == commit_date@,
            base.repo == b0.repo,
            base.valid_to_sha == b0.valid_to_sha,
            base.valid_to_date == b0.valid_to_date,
            base.row_type == b0.row_type,
            base.folder == b0.folder,
            base.folder_depth == b0.folder_depth,
            base.file_name == b0.file_name,
            base.file_type == b0.file_type,
            forall|k: int|
                0 <= k < num_counters() ==> #[trigger] counter(base, k) == counter(b0, k) - total(
                    removed@,
                    k,
                ) + total(added@.take(j as int), k),
            forall|k: int|
                0 <= k < num_opt_counters() ==> #[trigger] opt_counter(base, k) == opt_add_all(
                    opt_sub_all(opt_counter(b0, k), removed@, k),
                    added@.take(j as int),
                    k,
                ),
            forall|n: int, k: int|
                0 <= n <= removed@.len() && 0 <= k < num_counters() ==> fits_i64(
                    counter(b0, k) - #[trigger] total(removed@.take(n), k),
                ),
            forall|n: int, k: int|
                0 <= n <= removed@.len() && 0 <= k < num_opt_counters() ==> fits_i64(
                    opt_value(#[trigger] opt_sub_all(opt_counter(b0, k), removed@.take(n), k)),
                ),
            forall|n: int, k: int|
                0 <= n <= j && 0 <= k < num_counters() ==> fits_i64(
                    counter(b0, k) - total(removed@, k) + #[trigger] total(added@.take(n), k),
                ),
            forall|n: int, k: int|
                0 <= n <= j && 0 <= k < num_opt_counters() ==> fits_i64(
                    opt_value(
                        #[trigger] opt_add_all(
                            opt_sub_all(opt_counter(b0, k), removed@, k),
                            added@.take(n),
                            k,
                        ),
                    ),
                ),
        decreases added.len() - j,
    {
        if !can_add_check(&base, &added[j]) {
            proof {
                if delta_fits(b0, removed@, added@) {
                    assert forall|k: int| 0 <= k < num_counters() implies fits_i64(
                        #[trigger] counter(base, k) + counter(added@[j as int], k),
                    ) by {
                        lemma_fold_step(None, added@, j as int, k);
                        assert(fits_i64(counter(b0, k) - total(removed@, k) + total(added@.take(j + 1), k)));
                    }
                    assert forall|k: int| 0 <= k < num_opt_counters() implies fits_i64(
                        opt_value(#[trigger] opt_plus(opt_counter(base, k), opt_counter(added@[j as int], k))),
                    ) by {
                        lemma_fold_step(opt_sub_all(opt_counter(b0, k), removed@, k), added@, j as int, k);
                        assert(fits_i64(
                            opt_value(
                                opt_add_all(
                                    opt_sub_all(opt_counter(b0, k), removed@, k),
                                    added@.take(j + 1),
                                    k,
                                ),
                            ),
                        ));
                    }
                    assert(false);
                }
            }
            return None;
        }
        add_stats(&mut base, &added[j]);
        proof {
            lemma_counters_fit(base);
            assert forall|k: int| 0 <= k < num_counters() implies #[trigger] counter(base, k)
                == counter(b0, k) - total(removed@, k) + total(added@.take(j + 1), k) by {
                lemma_fold_step(None, added@, j as int, k);
            }
            assert forall|k: int| 0 <= k < num_opt_counters() implies #[trigger] opt_counter(
                base,
                k,
            ) == opt_add_all(opt_sub_all(opt_counter(b0, k), removed@, k), added@.take(j + 1), k) by {
                lemma_fold_step(opt_sub_all(opt_counter(b0, k), removed@, k), added@, j as int, k);
            }
            assert forall|n: int, k: int| 0 <= n <= j + 1 && 0 <= k < num_counters() implies fits_i64(
                counter(b0, k) - total(removed@, k) + #[trigger] total(added@.take(n), k),
            ) by {
                if n == j + 1 {
                    assert(fits_i64(counter(base, k)));
                }
            }
            assert forall|n: int, k: int| 0 <= n <= j + 1 && 0 <= k < num_opt_counters() implies fits_i64(
                opt_value(
                    #[trigger] opt_add_all(
                        opt_sub_all(opt_counter(b0, k), removed@, k),
                        added@.take(n),
                        k,
                    ),
                ),
            ) by {
                if n == j + 1 {
                    assert(fits_i64(opt_value(opt_counter(base, k))));
                }
            }
        }
        j += 1;
    }
    assert(added@.take(added@.len() as int) =~= added@);
    Some(base)
}

/// Applies an arithmetic delta to an aggregate row (folder or repo).
///
/// Subtracts the stats from `removed` file rows and adds the stats from `added` file rows.
/// Moves the row's validity start to `commit_sha` / `commit_date`.
pub fn apply_delta(
    base: StatRow,
    commit_sha: &str,
    commit_date: &str,
    removed: &[StatRow],
    added: &[StatRow],
) -> (result: StatRow)
    requires
        delta_fits(base, removed@, added@),
    ensures
        is_delta_of(result, base, commit_sha@, commit_date@, removed@, added@),
{
    let ghost b0 = base;
    let fallback = base.clone();
    match try_apply_delta(base, commit_sha, commit_date, removed, added) {
        Some(r) => r,
        None => {
            assert(false);
            fallback
        },
    }
}

// ---------------------------------------------------------------------------
// Folder aggregation
// ---------------------------------------------------------------------------

/// Index of the first row whose folder is `f`, or -1 when there is none.
pub open spec fn index_of_folder(rows: Seq<StatRow>, f: Seq<char>) -> int
    decreases rows.len(),
{
    if rows.len() == 0 {
        -1
    } else {
        let p = index_of_folder(rows.drop_last(), f);
        if p >= 0 {
            p
        } else if rows.last().folder@ == f {
            rows.len() - 1
        } else {
            -1
        }
    }
}

/// Some row of `rows` is in folder `f`.
pub open spec fn has_folder(rows: Seq<StatRow>, f: Seq<char>) -> bool {
    exists|a: int| 0 <= a < rows.len() && (#[trigger] rows[a]).folder@ == f
}

/// Sum of the `k`-th counter over the rows of `rows` in folder `f`.
pub open spec fn total_in(rows: Seq<StatRow>, f: Seq<char>, k: int) -> int
    decreases rows.len(),
{
    if rows.len() == 0 {
        0
    } else {
        total_in(rows.drop_last(), f, k) + if rows.last().folder@ == f {
            counter(rows.last(), k)
        } else {
            0
        }
    }
}

/// Sum of the `k`-th optional counter over the rows of `rows` in folder `f`.
pub open spec fn opt_total_in(rows: Seq<StatRow>, f: Seq<char>, k: int) -> Option<int>
    decreases rows.len(),
{
    if rows.len() == 0 {
        None
    } else if rows.last().folder@ == f {
        opt_plus(opt_total_in(rows.drop_last(), f, k), opt_counter(rows.last(), k))
    } else {
        opt_total_in(rows.drop_last(), f, k)
    }
}

/// Every running per-folder sum over `rows` fits in an `i64`.
pub open spec fn folder_totals_fit(rows: Seq<StatRow>) -> bool {
    &&& forall|n: int, f: Seq<char>, k: int|
        0 <= n <= rows.len() && 0 <= k < num_counters() ==> fits_i64(
            #[trigger] total_in(rows.take(n), f, k),
        )
    &&& forall|n: int, f: Seq<char>, k: int|
        0 <= n <= rows.len() && 0 <= k < num_opt_counters() ==> fits_i64(
            opt_value(#[trigger] opt_total_in(rows.take(n), f, k)),
        )
}

/// `g` is the folder row for its folder over `rows`: it takes the repository,
/// validity start, folder and depth of the first row in that folder, is
/// labelled as an open folder row, and sums the counters of the rows in that folder.
pub open spec fn is_folder_group(rows: Seq<StatRow>, g: StatRow) -> bool {
    let f = g.folder@;
    let p = index_of_folder(rows, f);
    &&& 0 <= p < rows.len()
    &&& g.repo == rows[p].repo
    &&& g.valid_from_sha == rows[p].valid_from_sha
    &&& g.valid_from_date == rows[p].valid_from_date
    &&& g.folder == rows[p].folder
    &&& g.folder_depth == rows[p].folder_depth
    &&& g.valid_to_sha is None
    &&& g.valid_to_date is None
    &&& g.row_type@ == "folder"@
    &&& g.file_name is None
    &&& g.file_type is None
    &&& forall|k: int| 0 <= k < num_counters() ==> #[trigger] counter(g, k) == total_in(rows, f, k)
    &&& forall|k: int|
        0 <= k < num_opt_counters() ==> #[trigger] opt_counter(g, k) == opt_total_in(rows, f, k)
}

/// `groups` aggregates `rows` by folder: one row per folder that occurs in
/// `rows`, and nothing else.
pub open spec fn is_folder_aggregation(rows: Seq<StatRow>, groups: Seq<StatRow>) -> bool {
    &&& forall|a: int, b: int|
        0 <= a < b < groups.len() ==> (#[trigger] groups[a]).folder@ != (#[trigger] groups[b]).folder@
    &&& forall|j: int| 0 <= j < rows.len() ==> has_folder(groups, (#[trigger] rows[j]).folder@)
    &&& forall|a: int| 0 <= a < groups.len() ==> is_folder_group(rows, #[trigger] groups[a])
}

/// Characterizes `index_of_folder`.
pub proof fn lemma_index_of_folder(rows: Seq<StatRow>, f: Seq<char>)
    ensures
        index_of_folder(rows, f) == -1 <==> !has_folder(rows, f),
        index_of_folder(rows, f) != -1 ==> {
            let p = index_of_folder(rows, f);
            &&& 0 <= p < rows.len()
            &&& rows[p].folder@ == f
        },
    decreases rows.len(),
{
    if rows.len() > 0 {
        lemma_index_of_folder(rows.drop_last(), f);
        if has_folder(rows.drop_last(), f) {
            let a = choose|a: int| 0 <= a < rows.drop_last().len() && (#[trigger] rows.drop_last()[a]).folder@ == f;
            assert(rows[a].folder@ == f);
        }
        if has_folder(rows, f) && !has_folder(rows.drop_last(), f) {
            let a = choose|a: int| 0 <= a < rows.len() && (#[trigger] rows[a]).folder@ == f;
            if a < rows.len() - 1 {
                assert(rows.drop_last()[a] == rows[a]);
            }
        }
        if rows.last().folder@ == f {
            assert(rows[rows.len() - 1].folder@ == f);
        }
    }
}

/// Per-folder sums one row further.
proof fn lemma_in_step(rows: Seq<StatRow>, n: int, f: Seq<char>, k: int)
    requires
        0 <= n < rows.len(),
    ensures
        total_in(rows.take(n + 1), f, k) == total_in(rows.take(n), f, k) + if rows[n].folder@
            == f {
            counter(rows[n], k)
        } else {
            0
        },
        opt_total_in(rows.take(n + 1), f, k) == if rows[n].folder@ == f {
            opt_plus(opt_total_in(rows.take(n), f, k), opt_counter(rows[n], k))
        } else {
            opt_total_in(rows.take(n), f, k)
        },
        index_of_folder(rows.take(n + 1), f) == if index_of_folder(rows.take(n), f) >= 0 {
            index_of_folder(rows.take(n), f)
        } else if rows[n].folder@ == f {
            n
        } else {
            -1
        },
{
    assert(rows.take(n + 1).drop_last() =~= rows.take(n));
}

/// Rows of no folder `f` sum to nothing in `f`.
proof fn lemma_in_absent(rows: Seq<StatRow>, f: Seq<char>, k: int)
    requires
        !has_folder(rows, f),
    ensures
        total_in(rows, f, k) == 0,
        opt_total_in(rows, f, k) is None,
    decreases rows.len(),
{
    if rows.len() > 0 {
        assert(!has_folder(rows.drop_last(), f)) by {
            if has_folder(rows.drop_last(), f) {
                let a = choose|a: int| 0 <= a < rows.drop_last().len() && (#[trigger] rows.drop_last()[a]).folder@ == f;
                assert(rows[a].folder@ == f);
            }
        }
        assert(rows[rows.len() - 1].folder@ != f);
        lemma_in_absent(rows.drop_last(), f, k);
    }
}

/// A folder row stays the folder row for its folder when a row of another folder is added.
proof fn lemma_group_unchanged(rows: Seq<StatRow>, n: int, g: StatRow)
    requires
        0 <= n < rows.len(),
        is_folder_group(rows.take(n), g),
        rows[n].folder@ != g.folder@,
    ensures
        is_folder_group(rows.take(n + 1), g),
{
    let f = g.folder@;
    lemma_in_step(rows, n, f, 0);
    let p = index_of_folder(rows.take(n), f);
    assert(rows.take(n + 1)[p] == rows.take(n)[p]);
    assert forall|k: int| 0 <= k < num_counters() implies #[trigger] counter(g, k) == total_in(
        rows.take(n + 1),
        f,
        k,
    ) by {
        lemma_in_step(rows, n, f, k);
    }
    assert forall|k: int| 0 <= k < num_opt_counters() implies #[trigger] opt_counter(g, k)
        == opt_total_in(rows.take(n + 1), f, k) by {
        lemma_in_step(rows, n, f, k);
    }
}

/// A folder row with the counters of a new row of its folder added is the
/// folder row over the longer prefix.
proof fn lemma_group_extended(rows: Seq<StatRow>, n: int, g: StatRow, g2: StatRow)
    requires
        0 <= n < rows.len(),
        is_folder_group(rows.take(n), g),
        rows[n].folder@ == g.folder@,
        same_labels(g2, g),
        forall|k: int|
            0 <= k < num_counters() ==> #[trigger] counter(g2, k) == counter(g, k) + counter(
                rows[n],
                k,
            ),
        forall|k: int|
            0 <= k < num_opt_counters() ==> #[trigger] opt_counter(g2, k) == opt_plus(
                opt_counter(g, k),
                opt_counter(rows[n], k),
            ),
    ensures
        is_folder_group(rows.take(n + 1), g2),
{
    let f = g.folder@;
    lemma_in_step(rows, n, f, 0);
    let p = index_of_folder(rows.take(n), f);
    assert(rows.take(n + 1)[p] == rows.take(n)[p]);
    assert forall|k: int| 0 <= k < num_counters() implies #[trigger] counter(g2, k) == total_in(
        rows.take(n + 1),
        f,
        k,
    ) by {
        lemma_in_step(rows, n, f, k);
    }
    assert forall|k: int| 0 <= k < num_opt_counters() implies #[trigger] opt_counter(g2, k)
        == opt_total_in(rows.take(n + 1), f, k) by {
        lemma_in_step(rows, n, f, k);
    }
}

/// A new folder row made from the first row of its folder.
proof fn lemma_group_new(rows: Seq<StatRow>, n: int, g2: StatRow)
    requires
        0 <= n < rows.len(),
        !has_folder(rows.take(n), rows[n].folder@),
        g2.repo == rows[n].repo,
        g2.valid_from_sha == rows[n].valid_from_sha,
        g2.valid_from_date == rows[n].valid_from_date,
        g2.folder == rows[n].folder,
        g2.folder_depth == rows[n].folder_depth,
        g2.valid_to_sha is None,
        g2.valid_to_date is None,
        g2.row_type@ == "folder"@,
        g2.file_name is None,
        g2.file_type is None,
        forall|k: int|
            0 <= k < num_counters() ==> #[trigger] counter(g2, k) == 0 + counter(rows[n], k),
        forall|k: int|
            0 <= k < num_opt_counters() ==> #[trigger] opt_counter(g2, k) == opt_plus(
                None,
                opt_counter(rows[n], k),
            ),
    ensures
        is_folder_group(rows.take(n + 1), g2),
{
    let f = g2.folder@;
    lemma_index_of_folder(rows.take(n), f);
    lemma_in_step(rows, n, f, 0);
    assert(rows.take(n + 1)[n] == rows[n]);
    assert forall|k: int| 0 <= k < num_counters() implies #[trigger] counter(g2, k) == total_in(
        rows.take(n + 1),
        f,
        k,
    ) by {
        lemma_in_step(rows, n, f, k);
        lemma_in_absent(rows.take(n), f, k);
    }
    assert forall|k: int| 0 <= k < num_opt_counters() implies #[trigger] opt_counter(g2, k)
        == opt_total_in(rows.take(n + 1), f, k) by {
        lemma_in_step(rows, n, f, k);
        lemma_in_absent(rows.take(n), f, k);
    }
}

/// Position of the row for folder `folder` among `groups`, searching from the end.
fn find_group(groups: &Vec<StatRow>, folder: &String) -> (r: Option<usize>)
    ensures
        match r {
            Some(j) => j < groups.len() && groups@[j as int].folder@ == folder@,
            None => !has_folder(groups@, folder@),
        },
{
    let mut j: usize = groups.len();
    while j > 0
        invariant
            j <= groups.len(),
            forall|a: int| j <= a < groups.len() ==> (#[trigger] groups@[a]).folder@ != folder@,
        decreases j,
    {
        if groups[j - 1].folder == *folder {
            return Some(j - 1);
        }
        j -= 1;
    }
    None
}

/// After a row is added to its folder row, every per-folder running sum over
/// one more row fits, given that those over fewer rows did.
proof fn lemma_step_fits(rows: Seq<StatRow>, n: int, g: StatRow)
    requires
        0 <= n < rows.len(),
        is_folder_group(rows.take(n + 1), g),
        g.folder@ == rows[n].folder@,
        forall|m: int, h: Seq<char>, k: int|
            0 <= m <= n && 0 <= k < num_counters() ==> fits_i64(
                #[trigger] total_in(rows.take(m), h, k),
            ),
        forall|m: int, h: Seq<char>, k: int|
            0 <= m <= n && 0 <= k < num_opt_counters() ==> fits_i64(
                opt_value(#[trigger] opt_total_in(rows.take(m), h, k)),
            ),
    ensures
        forall|m: int, h: Seq<char>, k: int|
            0 <= m <= n + 1 && 0 <= k < num_counters() ==> fits_i64(
                #[trigger] total_in(rows.take(m), h, k),
            ),
        forall|m: int, h: Seq<char>, k: int|
            0 <= m <= n + 1 && 0 <= k < num_opt_counters() ==> fits_i64(
                opt_value(#[trigger] opt_total_in(rows.take(m), h, k)),
            ),
{
    lemma_counters_fit(g);
    assert forall|m: int, h: Seq<char>, k: int|
        0 <= m <= n + 1 && 0 <= k < num_counters() implies fits_i64(
            #[trigger] total_in(rows.take(m), h, k),
        ) by {
        if m == n + 1 {
            lemma_in_step(rows, n, h, k);
            if h == g.folder@ {
                assert(fits_i64(counter(g, k)));
            } else {
                assert(fits_i64(total_in(rows.take(n), h, k)));
            }
        }
    }
    assert forall|m: int, h: Seq<char>, k: int|
        0 <= m <= n + 1 && 0 <= k < num_opt_counters() implies fits_i64(
            opt_value(#[trigger] opt_total_in(rows.take(m), h, k)),
        ) by {
        if m == n + 1 {
            lemma_in_step(rows, n, h, k);
            if h == g.folder@ {
                assert(fits_i64(opt_value(opt_counter(g, k))));
            } else {
                assert(fits_i64(opt_value(opt_total_in(rows.take(n), h, k))));
            }
        }
    }
}

/// Groups file-level rows by their folder and sums all stats, or returns
/// `None` when some running per-folder sum would leave `i64`.
/// Each resulting row has `file_name = None` and represents one folder;
/// no order of the folder rows is promised.
pub fn try_aggregate_to_folders(file_rows: &[StatRow]) -> (result: Option<Vec<StatRow>>)
    ensures
        result is Some <==> folder_totals_fit(file_rows@),
        result matches Some(groups) ==> is_folder_aggregation(file_rows@, groups@),
{
    let ghost rows = file_rows@;
    let mut groups: Vec<StatRow> = Vec::new();
    let mut i: usize = 0;
    assert(rows.take(0) =~= Seq::<StatRow>::empty());
    while i < file_rows.len()
        invariant
            rows == file_rows@,
            i <= rows.len(),
            is_folder_aggregation(rows.take(i as int), groups@),
            forall|m: int, g: Seq<char>, k: int|
                0 <= m <= i && 0 <= k < num_counters() ==> fits_i64(
                    #[trigger] total_in(rows.take(m), g, k),
                ),
            forall|m: int, g: Seq<char>, k: int|
                0 <= m <= i && 0 <= k < num_opt_counters() ==> fits_i64(
                    opt_value(#[trigger] opt_total_in(rows.take(m), g, k)),
                ),
        decreases rows.len() - i,
    {
        let ghost before = groups@;
        let ghost n = i as int;
        let ghost f = rows[n].folder@;
        let row = &file_rows[i];
        match find_group(&groups, &row.folder) {
            Some(j) => {
                let mut g = groups[j].clone();
                proof {
                    assert(is_folder_group(rows.take(n), g));
                }
                if !can_add_check(&g, row) {
                    proof {
                        if folder_totals_fit(rows) {
                            assert forall|k: int| 0 <= k < num_counters() implies fits_i64(
                                #[trigger] counter(g, k) + counter(rows[n], k),
                            ) by {
                                lemma_in_step(rows, n, f, k);
                                assert(fits_i64(total_in(rows.take(n + 1), f, k)));
                            }
                            assert forall|k: int| 0 <= k < num_opt_counters() implies fits_i64(
                                opt_value(#[trigger] opt_plus(opt_counter(g, k), opt_counter(rows[n], k))),
                            ) by {
                                lemma_in_step(rows, n, f, k);
                                assert(fits_i64(opt_value(opt_total_in(rows.take(n + 1), f, k))));
                            }
                            assert(false);
                        }
                    }
                    return None;
                }
                let ghost g0 = g;
                add_stats(&mut g, row);
                proof {
                    lemma_group_extended(rows, n, g0, g);
                    lemma_step_fits(rows, n, g);
                }
                groups.set(j, g);
                proof {
                    let after = groups@;
                    assert forall|a: int| 0 <= a < after.len() implies is_folder_group(
                        rows.take(n + 1),
                        #[trigger] after[a],
                    ) by {
                        if a != j {
                            assert(after[a] == before[a]);
                            lemma_group_unchanged(rows, n, before[a]);
                        }
                    }
                    assert forall|a: int, b: int| 0 <= a < b < after.len() implies (
                    #[trigger] after[a]).folder@ != (#[trigger] after[b]).folder@ by {
                        assert(before[a].folder@ != before[b].folder@);
                    }
                    assert forall|m: int| 0 <= m < n + 1 implies has_folder(
                        after,
                        (#[trigger] rows.take(n + 1)[m]).folder@,
                    ) by {
                        if m < n {
                            assert(rows.take(n + 1)[m] == rows.take(n)[m]);
                            assert(has_folder(before, rows.take(n)[m].folder@));
                            let a = choose|a: int| 0 <= a < before.len() && (#[trigger] before[a]).folder@ == rows.take(n)[m].folder@;
                            assert(after[a].folder@ == before[a].folder@);
                        } else {
                            assert(after[j as int].folder@ == f);
                        }
                    }
                }
            },
            None => {
                let mut g = empty_aggregate(
                    row.repo.clone(),
                    row.valid_from_sha.clone(),
                    row.valid_from_date.clone(),
                    "folder",
                    row.folder.clone(),
                    row.folder_depth,
                );
                proof {
                    assert(!has_folder(rows.take(n), f)) by {
                        if has_folder(rows.take(n), f) {
                            let m = choose|m: int| 0 <= m < rows.take(n).len() && (#[trigger] rows.take(n)[m]).folder@ == f;
                            assert(has_folder(before, rows.take(n)[m].folder@));
                        }
                    }
                }
                if !can_add_check(&g, row) {
                    proof {
                        if folder_totals_fit(rows) {
                            assert forall|k: int| 0 <= k < num_counters() implies fits_i64(
                                #[trigger] counter(g, k) + counter(rows[n], k),
                            ) by {
                                lemma_in_step(rows, n, f, k);
                                lemma_in_absent(rows.take(n), f, k);
                                assert(fits_i64(total_in(rows.take(n + 1), f, k)));
                            }
                            assert forall|k: int| 0 <= k < num_opt_counters() implies fits_i64(
                                opt_value(#[trigger] opt_plus(opt_counter(g, k), opt_counter(rows[n], k))),
                            ) by {
                                lemma_in_step(rows, n, f, k);
                                lemma_in_absent(rows.take(n), f, k);
                                assert(fits_i64(opt_value(opt_total_in(rows.take(n + 1), f, k))));
                            }
                            assert(false);
                        }
                    }
                    return None;
                }
                let ghost g0 = g;
                add_stats(&mut g, row);
                proof {
                    assert forall|k: int| 0 <= k < num_counters() implies #[trigger] counter(g, k)
                        == 0 + counter(rows[n], k) by {
                        assert(counter(g0, k) == 0);
                    }
                    assert forall|k: int| 0 <= k < num_opt_counters() implies #[trigger] opt_counter(
                        g,
                        k,
                    ) == opt_plus(None, opt_counter(rows[n], k)) by {
                        assert(opt_counter(g0, k) is None);
                    }
                    lemma_group_new(rows, n, g);
                    lemma_step_fits(rows, n, g);
                }
                groups.push(g);
                proof {
                    let after = groups@;
                    assert forall|a: int| 0 <= a < after.len() implies is_folder_group(
                        rows.take(n + 1),
                        #[trigger] after[a],
                    ) by {
                        if a < before.len() {
                            assert(after[a] == before[a]);
                            lemma_group_unchanged(rows, n, before[a]);
                        }
                    }
                    assert forall|a: int, b: int| 0 <= a < b < after.len() implies (
                    #[trigger] after[a]).folder@ != (#[trigger] after[b]).folder@ by {
                        if b < before.len() {
                            assert(before[a].folder@ != before[b].folder@);
                        } else {
                            assert(after[a] == before[a]);
                        }
                    }
                    assert forall|m: int| 0 <= m < n + 1 implies has_folder(
                        after,
                        (#[trigger] rows.take(n + 1)[m]).folder@,
                    ) by {
                        if m < n {
                            assert(rows.take(n + 1)[m] == rows.take(n)[m]);
                            assert(has_folder(before, rows.take(n)[m].folder@));
                            let a = choose|a: int| 0 <= a < before.len() && (#[trigger] before[a]).folder@ == rows.take(n)[m].folder@;
                            assert(after[a] == before[a]);
                        } else {
                            assert(after[before.len() as int].folder@ == f);
                        }
                    }
                }
            },
        }
        i += 1;
    }
    assert(rows.take(rows.len() as int) =~= rows);
    Some(groups)
}

/// Groups file-level rows by their folder and sums all stats.
/// Each resulting row has `file_name = None` and represents one folder;
/// no order of the folder rows is promised.
pub fn aggregate_to_folders(file_rows: &[StatRow]) -> (result: Vec<StatRow>)
    requires
        folder_totals_fit(file_rows@),
    ensures
        is_folder_aggregation(file_rows@, result@),
{
    match try_aggregate_to_folders(file_rows) {
        Some(groups) => groups,
        None => {
            assert(false);
            Vec::new()
        },
    }
}

} // verus!
