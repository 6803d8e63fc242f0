//! Pull requests and reviews as the GitHub REST API describes them, and the
//! decisions the client makes on what it receives: where paging stops, when
//! a response is refused, and what the rate-limit headers say.

use vstd::prelude::*;

use crate::digits::{parse_i64, parse_i64_text, parse_u32, parse_u32_text};
use crate::text::{chars_of, chars_less_from, text_less};

verus! {

/// An account, as the API names it.
pub struct User {
    pub login: String,
}

/// A branch reference of a pull request (`ref` in the API).
pub struct GitRef {
    pub ref_name: String,
}

/// A pull request, as listed or fetched one by one.
pub struct PullRequest {
    pub number: i64,
    pub title: String,
    pub user: User,
    pub state: String,
    pub draft: Option<bool>,
    pub created_at: String,
    pub updated_at: String,
    pub merged_at: Option<String>,
    pub closed_at: Option<String>,
    pub merged: Option<bool>,
    pub additions: Option<i64>,
    pub deletions: Option<i64>,
    pub changed_files: Option<i64>,
    pub base: GitRef,
    pub head: GitRef,
}

/// A review of a pull request.
pub struct Review {
    pub id: i64,
    pub user: Option<User>,
    pub state: String,
    pub submitted_at: Option<String>,
}

/// Pull requests come in pages of this many.
pub const PAGE_SIZE: u32 = 100;

// ---------------------------------------------------------------------------
// Byte prefixes of UTF-8 text and their order
// ---------------------------------------------------------------------------

/// The number of bytes that UTF-8 takes for `c`.
pub open spec fn utf8_width(c: char) -> nat {
    if (c as u32) < 0x80 {
        1
    } else if (c as u32) < 0x800 {
        2
    } else if (c as u32) < 0x10000 {
        3
    } else {
        4
    }
}

/// The number of bytes of `s` in UTF-8 (`str::len`).
pub open spec fn utf8_len(s: Seq<char>) -> nat
    decreases s.len(),
{
    if s.len() == 0 {
        0
    } else {
        utf8_len(s.drop_last()) + utf8_width(s.last())
    }
}

/// The first `n` bytes of `s` end on a character boundary: some prefix of
/// `s` takes exactly `n` bytes.
pub open spec fn ends_on_boundary(s: Seq<char>, n: nat) -> bool {
    exists|k: int| 0 <= k <= s.len() && #[trigger] utf8_len(s.take(k)) == n
}

/// The characters in the first `n` bytes of `s`, where those bytes end on a
/// character boundary.
pub open spec fn byte_prefix(s: Seq<char>, n: nat) -> Seq<char> {
    s.take(choose|k: int| 0 <= k <= s.len() && #[trigger] utf8_len(s.take(k)) == n)
}

/// The date part of a timestamp: its first ten bytes.
pub open spec fn date_part(created_at: Seq<char>) -> Seq<char> {
    byte_prefix(created_at, 10)
}

/// Slicing the first ten bytes of `created_at` does not panic: it is shorter
/// than ten bytes, or its tenth byte ends a character.
pub open spec fn date_sliceable(created_at: Seq<char>) -> bool {
    utf8_len(created_at) < 10 || ends_on_boundary(created_at, 10)
}

/// A pull request created at `created_at` lies before the cutoff date
/// `since`: it has a ten-byte date part, and that part comes before `since`.
pub open spec fn created_before(created_at: Seq<char>, since: Seq<char>) -> bool {
    utf8_len(created_at) >= 10 && text_less(date_part(created_at), since)
}

/// The byte lengths of the prefixes of `s` grow with the prefix.
proof fn lemma_utf8_len_prefix(s: Seq<char>, i: int)
    requires
        0 <= i < s.len(),
    ensures
        utf8_len(s.take(i + 1)) == utf8_len(s.take(i)) + utf8_width(s[i]),
{
    let t = s.take(i + 1);
    assert(t.drop_last() =~= s.take(i));
}

/// Prefixes take more bytes the longer they are.
proof fn lemma_utf8_len_mono(s: Seq<char>, i: int, j: int)
    requires
        0 <= i <= j <= s.len(),
    ensures
        utf8_len(s.take(i)) + (j - i) <= utf8_len(s.take(j)),
    decreases j - i,
{
    if i < j {
        lemma_utf8_len_mono(s, i, j - 1);
        lemma_utf8_len_prefix(s, j - 1);
    }
}

/// Where the first ten bytes of `s` end: the number of characters in them,
/// when `s` has ten bytes and they end on a character boundary.
fn ten_byte_prefix(s: &[char]) -> (r: Option<usize>)
    ensures
        match r {
            Some(k) => k <= s.len() && utf8_len(s@.take(k as int)) == 10,
            None => !ends_on_boundary(s@, 10),
        },
{
    let mut bytes: usize = 0;
    let mut k: usize = 0;
    while k < s.len() && bytes < 10
        invariant
            k <= s.len(),
            bytes == utf8_len(s@.take(k as int)),
            bytes <= 13,
            k > 0 ==> utf8_len(s@.take(k - 1)) < 10,
        decreases s.len() - k,
    {
        proof {
            lemma_utf8_len_prefix(s@, k as int);
        }
        let c = s[k] as u32;
        let w: usize = if c < 0x80 {
            1
        } else if c < 0x800 {
            2
        } else if c < 0x10000 {
            3
        } else {
            4
        };
        bytes = bytes + w;
        k = k + 1;
    }
    if bytes == 10 {
        Some(k)
    } else {
        proof {
            assert forall|j: int| 0 <= j <= s@.len() implies #[trigger] utf8_len(s@.take(j)) != 10 by {
                if j <= k {
                    if j < k {
                        lemma_utf8_len_mono(s@, j, k - 1);
                        lemma_utf8_len_prefix(s@, k - 1);
                    }
                } else {
                    lemma_utf8_len_mono(s@, k as int, j);
                    if bytes < 10 {
                        assert(k == s.len());
                    }
                }
            }
        }
        None
    }
}

/// Whether the first ten bytes of `created_at` can be sliced off as `str`
/// (slicing inside a character panics).
pub fn date_sliceable_check(created_at: &str) -> (r: bool)
    ensures
        r == date_sliceable(created_at@),
{
    let cs = chars_of(created_at);
    match ten_byte_prefix(cs.as_slice()) {
        Some(_) => true,
        None => {
            let n = utf8_length(cs.as_slice());
            n < 10
        },
    }
}

/// The number of bytes of `s` in UTF-8, capped at eleven.
fn utf8_length(s: &[char]) -> (r: usize)
    ensures
        r < 10 <==> utf8_len(s@) < 10,
{
    let mut bytes: usize = 0;
    let mut k: usize = 0;
    while k < s.len() && bytes < 10
        invariant
            k <= s.len(),
            bytes == utf8_len(s@.take(k as int)),
            bytes <= 13,
        decreases s.len() - k,
    {
        proof {
            lemma_utf8_len_prefix(s@, k as int);
        }
        let c = s[k] as u32;
        let w: usize = if c < 0x80 {
            1
        } else if c < 0x800 {
            2
        } else if c < 0x10000 {
            3
        } else {
            4
        };
        bytes = bytes + w;
        k = k + 1;
    }
    proof {
        lemma_utf8_len_mono(s@, k as int, s@.len() as int);
        assert(s@.take(s@.len() as int) =~= s@);
    }
    bytes
}

/// Whether a pull request created at `created_at` lies before the cutoff
/// date `since` (`created_at.len() >= 10 && &created_at[..10] < since`).
pub fn is_created_before(created_at: &str, since: &str) -> (r: bool)
    requires
        date_sliceable(created_at@),
    ensures
        r == created_before(created_at@, since@),
{
    let cs = chars_of(created_at);
    let ss = chars_of(since);
    match ten_byte_prefix(cs.as_slice()) {
        Some(k) => {
            let ghost w = choose|j: int| 0 <= j <= cs@.len() && #[trigger] utf8_len(cs@.take(j)) == 10;
            proof {
                // the prefix with ten bytes is unique
                if w != k {
                    if w < k {
                        lemma_utf8_len_mono(cs@, w, k as int);
                    } else {
                        lemma_utf8_len_mono(cs@, k as int, w);
                    }
                }
                lemma_utf8_len_mono(cs@, k as int, cs@.len() as int);
                assert(cs@.take(cs@.len() as int) =~= cs@);
            }
            let head: Vec<char> = crate::text::copy_range(cs.as_slice(), 0, k);
            proof {
                assert(head@ =~= date_part(created_at@));
                assert(head@.skip(0) =~= head@);
                assert(ss@.skip(0) =~= ss@);
            }
            chars_less_from(head.as_slice(), ss.as_slice(), 0)
        },
        None => {
            proof {
                lemma_utf8_len_mono(cs@, 0, cs@.len() as int);
                assert(cs@.take(cs@.len() as int) =~= cs@);
            }
            false
        },
    }
}

// ---------------------------------------------------------------------------
// Paging through the pull requests
// ---------------------------------------------------------------------------

/// The index of the first pull request of `page` created before `since`, or
/// the page's length when there is none.
pub open spec fn cutoff_index(page: Seq<PullRequest>, since: Seq<char>) -> int
    decreases page.len(),
{
    if page.len() == 0 {
        0
    } else if created_before(page[0].created_at@, since) {
        0
    } else {
        1 + cutoff_index(page.drop_first(), since)
    }
}

/// Every pull request that the cutoff test reaches can have its date sliced:
/// those up to and including the first one created before `since`.
pub open spec fn page_sliceable(page: Seq<PullRequest>, since: Option<Seq<char>>) -> bool {
    match since {
        None => true,
        Some(s) => forall|i: int|
            0 <= i < page.len() && i <= cutoff_index(page, s) ==> date_sliceable(
                #[trigger] page[i].created_at@,
            ),
    }
}

/// The cutoff date's characters, where there is one.
pub open spec fn since_view(since: Option<&str>) -> Option<Seq<char>> {
    match since {
        Some(s) => Some(s@),
        None => None,
    }
}

/// How many pull requests of a page are kept: all of them without a cutoff,
/// else those before the first one created before the cutoff.
pub open spec fn kept_count(page: Seq<PullRequest>, since: Option<Seq<char>>) -> int {
    match since {
        None => page.len() as int,
        Some(s) => cutoff_index(page, s),
    }
}

/// Facts on the cutoff index: within the page; every pull request before
/// it is not before the cutoff; the one at it is.
proof fn lemma_cutoff_index(page: Seq<PullRequest>, since: Seq<char>)
    ensures
        0 <= cutoff_index(page, since) <= page.len(),
        forall|i: int|
            0 <= i < cutoff_index(page, since) ==> !created_before(#[trigger] page[i].created_at@, since),
        cutoff_index(page, since) < page.len() ==> created_before(
            page[cutoff_index(page, since)].created_at@,
            since,
        ),
    decreases page.len(),
{
    if page.len() > 0 && !created_before(page[0].created_at@, since) {
        let rest = page.drop_first();
        lemma_cutoff_index(rest, since);
        assert forall|i: int| 0 <= i < cutoff_index(page, since) implies !created_before(
            #[trigger] page[i].created_at@,
            since,
        ) by {
            if i > 0 {
                assert(page[i] == rest[i - 1]);
            }
        }
        if cutoff_index(page, since) < page.len() {
            assert(page[cutoff_index(page, since)] == rest[cutoff_index(rest, since)]);
        }
    }
}

/// What to do after one page of pull requests arrived.
pub struct PageOutcome {
    /// How many pull requests of the page, from its start, are kept.
    pub keep: usize,
    /// The next page to ask for; `None` where paging stops.
    pub next_page: Option<u32>,
}

/// One step of listing the pull requests, newest first: of page `page_no`,
/// keep those before the first one created before the cutoff date `since`;
/// stop on an empty page or at the cutoff, else ask for the next page.
pub fn list_pulls_step(page_no: u32, page: &[PullRequest], since: Option<&str>) -> (r: PageOutcome)
    requires
        page_sliceable(page@, since_view(since)),
        page_no < u32::MAX,
    ensures
        r.keep == kept_count(page@, since_view(since)),
        r.next_page == (if page.len() == 0 || r.keep < page.len() {
            None::<u32>
        } else {
            Some((page_no + 1) as u32)
        }),
{
    let mut keep: usize = 0;
    match since {
        None => {
            keep = page.len();
        },
        Some(s) => {
            proof {
                lemma_cutoff_index(page@, s@);
            }
            let ghost cut = cutoff_index(page@, s@);
            while keep < page.len()
                invariant
                    keep <= page.len(),
                    keep <= cut,
                    cut == cutoff_index(page@, s@),
                    0 <= cut <= page@.len(),
                    forall|i: int| 0 <= i < cut ==> !created_before(#[trigger] page@[i].created_at@, s@),
                    cut < page@.len() ==> created_before(page@[cut].created_at@, s@),
                    forall|i: int|
                        0 <= i < page@.len() && i <= cut ==> date_sliceable(
                            #[trigger] page@[i].created_at@,
                        ),
                ensures
                    keep == cut,
                decreases page.len() - keep,
            {
                if is_created_before(&page[keep].created_at, s) {
                    break;
                }
                keep += 1;
            }
        },
    }
    let next_page = if page.len() == 0 || keep < page.len() {
        None
    } else {
        Some(page_no + 1)
    };
    PageOutcome { keep, next_page }
}

/// Whether `page_sliceable` holds: every pull request that the cutoff test
/// reaches can have its date sliced. Callers that cannot know it test it
/// before `list_pulls_step`.
pub fn page_sliceable_check(page: &[PullRequest], since: Option<&str>) -> (r: bool)
    ensures
        r == page_sliceable(page@, since_view(since)),
{
    match since {
        None => true,
        Some(s) => {
            proof {
                lemma_cutoff_index(page@, s@);
            }
            let ghost cut = cutoff_index(page@, s@);
            let mut i: usize = 0;
            while i < page.len()
                invariant
                    i <= page.len(),
                    i <= cut,
                    since == Some(s),
                    cut == cutoff_index(page@, s@),
                    0 <= cut <= page@.len(),
                    forall|j: int| 0 <= j < cut ==> !created_before(#[trigger] page@[j].created_at@, s@),
                    cut < page@.len() ==> created_before(page@[cut].created_at@, s@),
                    forall|j: int| 0 <= j < i ==> date_sliceable(#[trigger] page@[j].created_at@),
                decreases page.len() - i,
            {
                if !date_sliceable_check(&page[i].created_at) {
                    assert(!date_sliceable(page@[i as int].created_at@));
                    assert(since_view(since) == Some(s@));
                    return false;
                }
                assert(date_sliceable(page@[i as int].created_at@));
                if is_created_before(&page[i].created_at, s) {
                    assert(i == cut) by {
                        if i < cut {
                            assert(!created_before(page@[i as int].created_at@, s@));
                        }
                    }
                    assert forall|j: int| 0 <= j < page@.len() && j <= cut implies date_sliceable(
                        #[trigger] page@[j].created_at@,
                    ) by {
                        if j < i {
                        }
                    }
                    assert(since_view(since) == Some(s@));
                    return true;
                }
                i += 1;
            }
            assert(since_view(since) == Some(s@));
            true
        },
    }
}

/// One step of listing the reviews of a pull request: an empty page ends the
/// listing, any other asks for the next one.
pub fn list_reviews_step(page_no: u32, page_len: usize) -> (r: Option<u32>)
    requires
        page_no < u32::MAX,
    ensures
        r == (if page_len == 0 {
            None::<u32>
        } else {
            Some((page_no + 1) as u32)
        }),
{
    if page_len == 0 {
        None
    } else {
        Some(page_no + 1)
    }
}

// ---------------------------------------------------------------------------
// Responses and rate limits
// ---------------------------------------------------------------------------

/// A header's text: absent (`None`), present but not visible ASCII
/// (`Some(None)`), or present with its text.
pub open spec fn header_text(h: Option<Option<&str>>, fallback: Seq<char>) -> Option<Seq<char>> {
    match h {
        None => None,
        Some(None) => Some(fallback),
        Some(Some(t)) => Some(t@),
    }
}

/// A numeric header, read as `u32`; 0 where it is absent or not a number.
pub open spec fn header_u32(h: Option<&str>) -> u32 {
    match h {
        Some(t) => match parse_u32(t@) {
            Some(v) => v,
            None => 0,
        },
        None => 0,
    }
}

/// The status code of a successful response (2xx).
pub open spec fn is_success(status: u16) -> bool {
    200 <= status <= 299
}

/// The rate limit is exhausted: the response is refused (403 or 429) and
/// says that no request remains.
pub open spec fn limit_exhausted(status: u16, remaining: Option<Option<&str>>) -> bool {
    (status == 403 || status == 429) && header_text(remaining, "1"@) == Some("0"@)
}

/// The time at which the limit resets, as the reset header gives it (0 where
/// the header is not a number).
pub open spec fn reset_time(reset: Option<&str>) -> int {
    match parse_i64(match reset {
        Some(t) => t@,
        None => "0"@,
    }) {
        Some(v) => v as int,
        None => 0,
    }
}

/// The wait until the limit resets can be computed in `i64`.
pub open spec fn wait_fits(status: u16, remaining: Option<Option<&str>>, reset: Option<Option<&str>>, now: i64) -> bool {
    (limit_exhausted(status, remaining) && reset is Some) ==> i64::MIN <= reset_time(reset->0) - now <= i64::MAX
}

/// What the client makes of a response.
pub enum ResponseCheck {
    /// The response is used.
    Accept,
    /// The rate limit is exhausted; it resets in `wait` seconds.
    RateLimited { wait: i64 },
    /// The response is an error.
    Failed,
}

/// Reads a response's status and rate-limit headers: refused with an
/// exhausted limit and a reset time, the wait until the reset (never below
/// zero); else accepted exactly when the status is 2xx.
pub fn check_response(
    status: u16,
    remaining: Option<Option<&str>>,
    reset: Option<Option<&str>>,
    now: i64,
) -> (r: ResponseCheck)
    requires
        wait_fits(status, remaining, reset, now),
    ensures
        (limit_exhausted(status, remaining) && reset is Some) ==> r == (ResponseCheck::RateLimited {
            wait: if reset_time(reset->0) - now > 0 {
                (reset_time(reset->0) - now) as i64
            } else {
                0i64
            },
        }),
        !(limit_exhausted(status, remaining) && reset is Some) ==> r == (if is_success(status) {
            ResponseCheck::Accept
        } else {
            ResponseCheck::Failed
        }),
{
    if status == 403 || status == 429 {
        if let Some(rem) = remaining {
            let text: &str = match rem {
                Some(t) => t,
                None => "1",
            };
            let exhausted = text_is_zero(text);
            proof {
                reveal_strlit("1");
                reveal_strlit("0");
            }
            if exhausted {
                if let Some(rs) = reset {
                    let rtext: &str = match rs {
                        Some(t) => t,
                        None => "0",
                    };
                    let reset_ts: i64 = match parse_i64_text(rtext) {
                        Some(v) => v,
                        None => 0,
                    };
                    let diff = reset_ts - now;
                    let wait = if diff > 0 { diff } else { 0 };
                    return ResponseCheck::RateLimited { wait };
                }
            }
        }
    }
    if 200 <= status && status <= 299 {
        ResponseCheck::Accept
    } else {
        ResponseCheck::Failed
    }
}

/// Whether the wait that `check_response` computes fits in `i64`; callers
/// that cannot know it test it first.
pub fn wait_fits_check(
    status: u16,
    remaining: Option<Option<&str>>,
    reset: Option<Option<&str>>,
    now: i64,
) -> (r: bool)
    ensures
        r == wait_fits(status, remaining, reset, now),
{
    if status == 403 || status == 429 {
        if let Some(rem) = remaining {
            let text: &str = match rem {
                Some(t) => t,
                None => "1",
            };
            let exhausted = text_is_zero(text);
            proof {
                reveal_strlit("1");
                reveal_strlit("0");
            }
            if exhausted {
                if let Some(rs) = reset {
                    let rtext: &str = match rs {
                        Some(t) => t,
                        None => "0",
                    };
                    let reset_ts: i64 = match parse_i64_text(rtext) {
                        Some(v) => v,
                        None => 0,
                    };
                    return (now >= 0 && reset_ts >= i64::MIN + now) || (now < 0 && reset_ts <= i64::MAX + now);
                }
            }
        }
    }
    true
}

/// Whether `t` is the text `0`.
fn text_is_zero(t: &str) -> (r: bool)
    ensures
        r == (t@ == "0"@),
{
    let cs = chars_of(t);
    proof {
        reveal_strlit("0");
    }
    let r = cs.len() == 1 && cs[0] == '0';
    proof {
        if r {
            assert(t@ =~= "0"@);
        }
    }
    r
}

/// The rate-limit headers of the `rate_limit` endpoint: the requests that
/// remain and the limit, each 0 where its header is absent or not a number.
pub fn rate_limit_counts(remaining: Option<&str>, limit: Option<&str>) -> (r: (u32, u32))
    ensures
        r == (header_u32(remaining), header_u32(limit)),
{
    (read_u32_header(remaining), read_u32_header(limit))
}

/// A numeric header, read as `u32`; 0 where absent or not a number.
fn read_u32_header(h: Option<&str>) -> (r: u32)
    ensures
        r == header_u32(h),
{
    match h {
        Some(t) => match parse_u32_text(t) {
            Some(v) => v,
            None => 0,
        },
        None => 0,
    }
}

} // verus!
