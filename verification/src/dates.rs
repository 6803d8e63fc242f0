//! Dates: the `--since` cutoff, commit dates as text, and which commits of a
//! history walk fall before the cutoff. The calendar arithmetic itself is
//! chrono's.

use chrono::TimeZone;
use vstd::prelude::*;

verus! {

/// What chrono makes of `s` read with the format `%Y-%m-%d`: the UNIX time
/// of that day's midnight UTC, or `None` where `s` is not such a date.
pub uninterp spec fn midnight_utc_of(s: Seq<char>) -> Option<i64>;

/// The text that chrono writes for the UNIX time `secs` with the format
/// `%Y-%m-%dT%H:%M:%SZ`, taking the UNIX epoch for a time out of its range.
pub uninterp spec fn utc_stamp_text(secs: i64) -> Seq<char>;

/// The UNIX time of chrono's `DateTime<Utc>` for `secs`, taking the UNIX
/// epoch for a time out of its range.
pub uninterp spec fn utc_seconds(secs: i64) -> i64;

/// `chrono::NaiveDate::parse_from_str(s, "%Y-%m-%d")`, then midnight of that
/// day in UTC as a UNIX time (`and_hms_opt(0, 0, 0)`, which is always
/// `Some`, `and_utc`, `timestamp`). The result is named `midnight_utc_of`;
/// which texts chrono accepts (signs, digit counts, padding) is not spelled
/// out here.
#[verifier::external_body]
fn parse_ymd_midnight(s: &str) -> (r: Option<i64>)
    ensures
        r == midnight_utc_of(s@),
{
    match chrono::NaiveDate::parse_from_str(s, "%Y-%m-%d") {
        Ok(d) => d.and_hms_opt(0, 0, 0).map(|t| t.and_utc().timestamp()),
        Err(_) => None,
    }
}

/// `chrono::Utc.timestamp_opt(secs, 0).single().unwrap_or_default()`,
/// formatted with `%Y-%m-%dT%H:%M:%SZ`. The text is named `utc_stamp_text`.
#[verifier::external_body]
fn format_utc_seconds(secs: i64) -> (r: String)
    ensures
        r@ == utc_stamp_text(secs),
{
    chrono::Utc.timestamp_opt(secs, 0).single().unwrap_or_default().format("%Y-%m-%dT%H:%M:%SZ").to_string()
}

/// `chrono::Utc.timestamp_opt(secs, 0).single().unwrap_or_default()` as a
/// UNIX time: `secs` itself where chrono can represent it (the conversion
/// round-trips), the epoch 0 otherwise. Chrono represents the dates from
/// January 1, 262143 BCE to December 31, 262142 CE; the contract states the
/// round trip for times within 8 * 10^12 seconds of the epoch (some 253,000
/// years), well inside that range, and not the exact edges.
#[verifier::external_body]
fn normalize_utc_seconds(secs: i64) -> (r: i64)
    ensures
        r == utc_seconds(secs),
        r == secs || r == 0,
        -8_000_000_000_000 <= secs <= 8_000_000_000_000 ==> r == secs,
{
    chrono::Utc.timestamp_opt(secs, 0).single().unwrap_or_default().timestamp()
}

/// A `--since` value that is not a date `YYYY-MM-DD`.
pub struct SinceDateError {
    /// The text given.
    pub input: String,
}

/// Reads a `--since` value: midnight UTC of the day `YYYY-MM-DD`, as a UNIX
/// time; an error naming the text where it is not such a date.
pub fn parse_since_date(s: &str) -> (r: Result<i64, SinceDateError>)
    ensures
        match midnight_utc_of(s@) {
            Some(t) => r == Ok::<i64, SinceDateError>(t),
            None => r matches Err(e) && e.input@ == s@,
        },
{
    match parse_ymd_midnight(s) {
        Some(t) => Ok(t),
        None => Err(SinceDateError { input: s.to_owned() }),
    }
}

/// A time of a commit (UNIX seconds) as the text stored for it.
pub fn date_text(secs: i64) -> (r: String)
    ensures
        r@ == utc_stamp_text(secs),
{
    format_utc_seconds(secs)
}

/// A commit as the history walk reports it: its sha and its date as text.
pub fn commit_sha_and_date(sha: String, secs: i64) -> (r: (String, String))
    ensures
        r.0 == sha,
        r.1@ == utc_stamp_text(secs),
{
    (sha, date_text(secs))
}

/// Whether the history walk, going from newer to older commits, goes on
/// past a commit made at `secs`: always without a cutoff, else while the
/// commit is not older than the cutoff.
pub fn walk_continues(since: Option<i64>, secs: i64) -> (r: bool)
    ensures
        r == match since {
            None => true,
            Some(cutoff) => !(utc_seconds(secs) < cutoff),
        },
        -8_000_000_000_000 <= secs <= 8_000_000_000_000 ==> r == match since {
            None => true,
            Some(cutoff) => !(secs < cutoff),
        },
{
    match since {
        None => true,
        Some(cutoff) => {
            let t = normalize_utc_seconds(secs);
            !(t < cutoff)
        },
    }
}

/// The commits of a newest-first walk, oldest first.
pub fn oldest_first(newest_first: Vec<(String, String)>) -> (r: Vec<(String, String)>)
    ensures
        r@ == newest_first@.reverse(),
{
    let mut out: Vec<(String, String)> = Vec::new();
    let mut rest = newest_first;
    let ghost orig = rest@;
    while rest.len() > 0
        invariant
            rest@ == orig.take(rest@.len() as int),
            out@ == orig.skip(rest@.len() as int).reverse(),
            rest@.len() <= orig.len(),
        decreases rest.len(),
    {
        let ghost n = rest@.len() as int;
        let p = rest.pop().unwrap();
        proof {
            assert(p == orig[n - 1]);
        }
        out.push(p);
        proof {
            assert(rest@ =~= orig.take(n - 1));
            assert(orig.skip(n - 1) =~= seq![orig[n - 1]] + orig.skip(n));
            assert(out@ =~= orig.skip(n - 1).reverse()) by {
                assert forall|j: int| 0 <= j < out@.len() implies out@[j] == orig.skip(n - 1).reverse()[j] by {
                    if j < out@.len() - 1 {
                        assert(out@[j] == orig.skip(n).reverse()[j]);
                    }
                }
            }
        }
    }
    proof {
        assert(orig.skip(0) =~= orig);
    }
    out
}

} // verus!
