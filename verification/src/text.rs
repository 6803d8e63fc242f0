//! Character-level helpers over the `Seq<char>` view of strings: prefixes,
//! suffixes, substring search, splitting on a separator, trimming Unicode
//! white space, and building `String`s back from characters.

use vstd::prelude::*;

verus! {

// ---------------------------------------------------------------------------
// Specifications
// ---------------------------------------------------------------------------

/// `p` is a prefix of `s`.
pub open spec fn is_prefix(p: Seq<char>, s: Seq<char>) -> bool {
    p.len() <= s.len() && s.subrange(0, p.len() as int) == p
}

/// `p` is a suffix of `s`.
pub open spec fn is_suffix(p: Seq<char>, s: Seq<char>) -> bool {
    p.len() <= s.len() && s.subrange(s.len() - p.len(), s.len() as int) == p
}

/// `pat` occurs in `s` starting at index `i`.
pub open spec fn occurs_at(s: Seq<char>, pat: Seq<char>, i: int) -> bool {
    0 <= i && i + pat.len() <= s.len() && s.subrange(i, i + pat.len()) == pat
}

/// `pat` occurs somewhere in `s` (the empty pattern occurs everywhere).
pub open spec fn contains_seq(s: Seq<char>, pat: Seq<char>) -> bool {
    exists|i: int| occurs_at(s, pat, i)
}

/// Index of the first occurrence of `c` in `s`.
pub open spec fn find_char(s: Seq<char>, c: char) -> Option<int>
    decreases s.len(),
{
    if s.len() == 0 {
        None
    } else if s[0] == c {
        Some(0)
    } else {
        match find_char(s.drop_first(), c) {
            Some(i) => Some(i + 1),
            None => None,
        }
    }
}

/// Index of the last occurrence of `c` in `s`.
pub open spec fn rfind_char(s: Seq<char>, c: char) -> Option<int>
    decreases s.len(),
{
    if s.len() == 0 {
        None
    } else if s.last() == c {
        Some(s.len() - 1)
    } else {
        rfind_char(s.drop_last(), c)
    }
}

/// The part of `s` after the last `c`, or all of `s` when there is none
/// (what `s.rsplit(c).next()` yields).
pub open spec fn after_last(s: Seq<char>, c: char) -> Seq<char> {
    match rfind_char(s, c) {
        Some(i) => s.subrange(i + 1, s.len() as int),
        None => s,
    }
}

/// The part of `s` before the first `c`, or all of `s` when there is none
/// (what `s.split(c).next()` yields).
pub open spec fn before_first(s: Seq<char>, c: char) -> Seq<char> {
    match find_char(s, c) {
        Some(i) => s.subrange(0, i),
        None => s,
    }
}

/// The pieces of `s` between occurrences of `sep`, as `str::split` yields
/// them: one more piece than there are separators, empty pieces included.
pub open spec fn split_on(s: Seq<char>, sep: char) -> Seq<Seq<char>>
    decreases s.len(),
{
    if s.len() == 0 {
        seq![Seq::<char>::empty()]
    } else {
        let prev = split_on(s.drop_last(), sep);
        if s.last() == sep {
            prev.push(Seq::<char>::empty())
        } else {
            prev.update(prev.len() - 1, prev.last().push(s.last()))
        }
    }
}

/// Number of occurrences of `c` in `s`.
pub open spec fn count_char(s: Seq<char>, c: char) -> nat
    decreases s.len(),
{
    if s.len() == 0 {
        0
    } else {
        count_char(s.drop_last(), c) + if s.last() == c {
            1nat
        } else {
            0nat
        }
    }
}

/// Number of non-empty sequences in `parts`.
pub open spec fn count_nonempty(parts: Seq<Seq<char>>) -> nat
    decreases parts.len(),
{
    if parts.len() == 0 {
        0
    } else {
        count_nonempty(parts.drop_last()) + if parts.last().len() > 0 {
            1nat
        } else {
            0nat
        }
    }
}

/// The Unicode `White_Space` property, which `char::is_whitespace` tests.
pub open spec fn is_ws(c: char) -> bool {
    let u = c as u32;
    (0x9 <= u && u <= 0xd) || u == 0x20 || u == 0x85 || u == 0xa0 || u == 0x1680 || (0x2000 <= u
        && u <= 0x200a) || u == 0x2028 || u == 0x2029 || u == 0x202f || u == 0x205f || u == 0x3000
}

/// `s` without its leading white space.
pub open spec fn trim_start(s: Seq<char>) -> Seq<char>
    decreases s.len(),
{
    if s.len() > 0 && is_ws(s[0]) {
        trim_start(s.drop_first())
    } else {
        s
    }
}

/// `s` without its trailing white space.
pub open spec fn trim_end(s: Seq<char>) -> Seq<char>
    decreases s.len(),
{
    if s.len() > 0 && is_ws(s.last()) {
        trim_end(s.drop_last())
    } else {
        s
    }
}

/// `s` without leading and trailing white space (`str::trim`).
pub open spec fn trim(s: Seq<char>) -> Seq<char> {
    trim_end(trim_start(s))
}

/// The lines of `s` as `str::lines` yields them, except that a `'\r'` before
/// a `'\n'` stays on its line: pieces between `'\n'`s, where a final
/// line ending adds no empty line.
pub open spec fn line_segments(s: Seq<char>) -> Seq<Seq<char>> {
    let parts = split_on(s, '\n');
    if parts.last().len() == 0 {
        parts.drop_last()
    } else {
        parts
    }
}

/// A piece of text that holds nothing but white space.
pub open spec fn is_blank(piece: Seq<char>) -> bool {
    trim(piece).len() == 0
}

/// Number of pieces that are not blank.
pub open spec fn nonblank_count(pieces: Seq<Seq<char>>) -> nat
    decreases pieces.len(),
{
    if pieces.len() == 0 {
        0
    } else {
        nonblank_count(pieces.drop_last()) + if is_blank(pieces.last()) {
            0nat
        } else {
            1nat
        }
    }
}

/// Index of the first occurrence of `pat` in `s` at or after `from`.
pub open spec fn find_seq_from(s: Seq<char>, pat: Seq<char>, from: int) -> Option<int>
    decreases s.len() + 1 - from,
{
    if from < 0 || from + pat.len() > s.len() {
        None
    } else if occurs_at(s, pat, from) {
        Some(from)
    } else {
        find_seq_from(s, pat, from + 1)
    }
}

/// What `s.split_once(pat)` splits off after the first `pat`: `Some` of the
/// text after it, or `None` when `pat` does not occur.
pub open spec fn after_first_seq(s: Seq<char>, pat: Seq<char>) -> Option<Seq<char>> {
    match find_seq_from(s, pat, 0) {
        Some(i) => Some(s.subrange(i + pat.len(), s.len() as int)),
        None => None,
    }
}

/// Name for what `str::to_lowercase` returns for a string.
pub uninterp spec fn str_lowercase(s: Seq<char>) -> Seq<char>;

// ---------------------------------------------------------------------------
// Lemmas
// ---------------------------------------------------------------------------

/// `split_on` always yields at least one piece, and exactly one more piece
/// than there are separators.
pub proof fn lemma_split_on_len(s: Seq<char>, sep: char)
    ensures
        split_on(s, sep).len() == count_char(s, sep) + 1,
    decreases s.len(),
{
    if s.len() > 0 {
        lemma_split_on_len(s.drop_last(), sep);
    }
}

/// Characterizes `find_char`.
pub proof fn lemma_find_char(s: Seq<char>, c: char)
    ensures
        match find_char(s, c) {
            Some(i) => 0 <= i < s.len() && s[i] == c && forall|j: int| 0 <= j < i ==> s[j] != c,
            None => forall|j: int| 0 <= j < s.len() ==> s[j] != c,
        },
    decreases s.len(),
{
    if s.len() > 0 && s[0] != c {
        lemma_find_char(s.drop_first(), c);
        assert forall|j: int| 0 < j < s.len() implies s[j] == s.drop_first()[j - 1] by {}
    }
}

/// What follows the last `c` of `s` holds no `c`, ends `s`, and is all of
/// `s` exactly when `s` holds no `c`; otherwise a `c` stands just before it.
pub proof fn lemma_after_last(s: Seq<char>, c: char)
    ensures
        ({
            let t = after_last(s, c);
            &&& t.len() <= s.len()
            &&& forall|j: int| 0 <= j < t.len() ==> t[j] != c
            &&& s.subrange(s.len() - t.len(), s.len() as int) == t
            &&& (t.len() == s.len()) == (forall|j: int| 0 <= j < s.len() ==> s[j] != c)
            &&& t.len() < s.len() ==> s[s.len() - t.len() - 1] == c
        }),
{
    lemma_rfind_char(s, c);
    let t = after_last(s, c);
    match rfind_char(s, c) {
        Some(i) => {
            assert forall|j: int| 0 <= j < t.len() implies t[j] != c by {
                assert(t[j] == s[i + 1 + j]);
            }
            assert(s.subrange(s.len() - t.len(), s.len() as int) =~= t);
        },
        None => {
            assert(s.subrange(0, s.len() as int) =~= s);
        },
    }
}

/// What precedes the first `c` of `s` holds no `c`, begins `s`, and is all
/// of `s` exactly when `s` holds no `c`; otherwise a `c` follows it.
pub proof fn lemma_before_first(s: Seq<char>, c: char)
    ensures
        ({
            let t = before_first(s, c);
            &&& t.len() <= s.len()
            &&& forall|j: int| 0 <= j < t.len() ==> t[j] != c
            &&& s.subrange(0, t.len() as int) == t
            &&& (t.len() == s.len()) == (forall|j: int| 0 <= j < s.len() ==> s[j] != c)
            &&& t.len() < s.len() ==> s[t.len() as int] == c
        }),
{
    lemma_find_char(s, c);
    let t = before_first(s, c);
    match find_char(s, c) {
        Some(i) => {
            assert(s.subrange(0, t.len() as int) =~= t);
        },
        None => {
            assert(s.subrange(0, s.len() as int) =~= s);
        },
    }
}

/// Characterizes `rfind_char`.
pub proof fn lemma_rfind_char(s: Seq<char>, c: char)
    ensures
        match rfind_char(s, c) {
            Some(i) => 0 <= i < s.len() && s[i] == c && forall|j: int| i < j < s.len() ==> s[j]
                != c,
            None => forall|j: int| 0 <= j < s.len() ==> s[j] != c,
        },
    decreases s.len(),
{
    if s.len() > 0 && s.last() != c {
        lemma_rfind_char(s.drop_last(), c);
        assert forall|j: int| 0 <= j < s.len() - 1 implies s[j] == s.drop_last()[j] by {}
    }
}

/// `trim_start` of a suffix that starts with white space skips that character.
proof fn lemma_trim_start_step(s: Seq<char>, i: int)
    requires
        0 <= i < s.len(),
        is_ws(s[i]),
    ensures
        trim_start(s.subrange(i, s.len() as int)) == trim_start(s.subrange(i + 1, s.len() as int)),
{
    let t = s.subrange(i, s.len() as int);
    assert(t.drop_first() =~= s.subrange(i + 1, s.len() as int));
}

/// `trim_end` of a prefix that ends with white space drops that character.
proof fn lemma_trim_end_step(s: Seq<char>, lo: int, hi: int)
    requires
        0 <= lo < hi <= s.len(),
        is_ws(s[hi - 1]),
    ensures
        trim_end(s.subrange(lo, hi)) == trim_end(s.subrange(lo, hi - 1)),
{
    let t = s.subrange(lo, hi);
    assert(t.drop_last() =~= s.subrange(lo, hi - 1));
}

// ---------------------------------------------------------------------------
// Executable helpers
// ---------------------------------------------------------------------------

/// Collects the characters of `s` in order.
pub fn chars_of(s: &str) -> (v: Vec<char>)
    ensures
        v@ == s@,
{
    let mut v: Vec<char> = Vec::new();
    for c in it: s.chars()
        invariant
            v@ == it.seq().take(it.index() as int),
            it.seq() == s@,
    {
        v.push(c);
    }
    v
}

/// Builds a `String` from characters (`FromIterator<&char> for String`):
/// the string holds exactly the given characters, in order.
#[verifier::external_body]
pub fn string_from_chars(v: &[char]) -> (s: String)
    ensures
        s@ == v@,
{
    v.iter().collect()
}

/// Tests one character for white space, as `char::is_whitespace` does:
/// true exactly for the characters with the Unicode `White_Space`
/// property, the list that `is_ws` spells out.
pub fn char_is_whitespace(c: char) -> (r: bool)
    ensures
        r == is_ws(c),
{
    let u = c as u32;
    (0x9 <= u && u <= 0xd) || u == 0x20 || u == 0x85 || u == 0xa0 || u == 0x1680 || (0x2000 <= u
        && u <= 0x200a) || u == 0x2028 || u == 0x2029 || u == 0x202f || u == 0x205f || u == 0x3000
}

/// Lowercases a string (`str::to_lowercase`); the result is named
/// `str_lowercase` and depends on the characters of `s` alone. Nothing more
/// is stated of it: the Unicode case mapping is not spelled out here.
#[verifier::external_body]
pub fn to_lowercase(s: &str) -> (r: String)
    ensures
        r@ == str_lowercase(s@),
{
    s.to_lowercase()
}

/// Whether `p` is a prefix of `s`.
pub fn slice_starts_with(s: &[char], p: &[char]) -> (r: bool)
    ensures
        r == is_prefix(p@, s@),
{
    if p.len() > s.len() {
        return false;
    }
    let mut i: usize = 0;
    while i < p.len()
        invariant
            i <= p.len() <= s.len(),
            forall|j: int| 0 <= j < i ==> s@[j] == p@[j],
        decreases p.len() - i,
    {
        if s[i] != p[i] {
            assert(s@.subrange(0, p@.len() as int)[i as int] != p@[i as int]);
            return false;
        }
        i += 1;
    }
    assert(s@.subrange(0, p@.len() as int) =~= p@);
    true
}

/// Whether `pat` occurs in `s` at index `at`.
pub fn slice_matches_at(s: &[char], pat: &[char], at: usize) -> (r: bool)
    ensures
        r == occurs_at(s@, pat@, at as int),
{
    if at > s.len() || pat.len() > s.len() - at {
        return false;
    }
    let mut i: usize = 0;
    while i < pat.len()
        invariant
            at + pat.len() <= s.len(),
            i <= pat.len(),
            forall|j: int| 0 <= j < i ==> s@[at + j] == pat@[j],
        decreases pat.len() - i,
    {
        if s[at + i] != pat[i] {
            assert(s@.subrange(at as int, at + pat@.len())[i as int] != pat@[i as int]);
            return false;
        }
        i += 1;
    }
    assert(s@.subrange(at as int, at + pat@.len()) =~= pat@);
    true
}

/// Whether `p` is a suffix of `s`.
pub fn slice_ends_with(s: &[char], p: &[char]) -> (r: bool)
    ensures
        r == is_suffix(p@, s@),
{
    if p.len() > s.len() {
        return false;
    }
    slice_matches_at(s, p, s.len() - p.len())
}

/// Whether `pat` occurs anywhere in `s`.
pub fn slice_contains(s: &[char], pat: &[char]) -> (r: bool)
    ensures
        r == contains_seq(s@, pat@),
{
    if pat.len() > s.len() {
        assert forall|i: int| !occurs_at(s@, pat@, i) by {}
        return false;
    }
    let last = s.len() - pat.len();
    let mut i: usize = 0;
    loop
        invariant
            last == s.len() - pat.len(),
            i <= last,
            forall|j: int| 0 <= j < i ==> !occurs_at(s@, pat@, j),
        ensures
            forall|j: int| 0 <= j <= last ==> !occurs_at(s@, pat@, j),
        decreases last - i,
    {
        if slice_matches_at(s, pat, i) {
            return true;
        }
        if i == last {
            break;
        }
        i += 1;
    }
    assert forall|j: int| !occurs_at(s@, pat@, j) by {
        if occurs_at(s@, pat@, j) {
            assert(j <= last);
        }
    }
    false
}

/// Whether the characters `s` spell the literal `lit`.
pub fn slice_eq_str(s: &[char], lit: &str) -> (r: bool)
    ensures
        r == (s@ == lit@),
{
    let p = chars_of(lit);
    if s.len() != p.len() {
        return false;
    }
    assert(s@.subrange(0, s@.len() as int) =~= s@);
    let r = slice_starts_with(s, p.as_slice());
    if r {
        assert(s@ =~= p@);
    }
    r
}

/// Whether the literal `lit` is a prefix of `s`.
pub fn starts_with_str(s: &[char], lit: &str) -> (r: bool)
    ensures
        r == is_prefix(lit@, s@),
{
    let p = chars_of(lit);
    slice_starts_with(s, p.as_slice())
}

/// Whether the literal `lit` is a suffix of `s`.
pub fn ends_with_str(s: &[char], lit: &str) -> (r: bool)
    ensures
        r == is_suffix(lit@, s@),
{
    let p = chars_of(lit);
    slice_ends_with(s, p.as_slice())
}

/// Whether the literal `lit` occurs in `s`.
pub fn contains_str(s: &[char], lit: &str) -> (r: bool)
    ensures
        r == contains_seq(s@, lit@),
{
    let p = chars_of(lit);
    slice_contains(s, p.as_slice())
}

/// Index of the first `c` in `s`.
pub fn find_in(s: &[char], c: char) -> (r: Option<usize>)
    ensures
        match r {
            Some(i) => i < s.len() && find_char(s@, c) == Some(i as int),
            None => find_char(s@, c) is None,
        },
{
    proof {
        lemma_find_char(s@, c);
    }
    let mut i: usize = 0;
    while i < s.len()
        invariant
            i <= s.len(),
            forall|j: int| 0 <= j < i ==> s@[j] != c,
            match find_char(s@, c) {
                Some(k) => 0 <= k < s@.len() && s@[k] == c && forall|j: int| 0 <= j < k ==> s@[j]
                    != c,
                None => forall|j: int| 0 <= j < s@.len() ==> s@[j] != c,
            },
        decreases s.len() - i,
    {
        if s[i] == c {
            return Some(i);
        }
        i += 1;
    }
    None
}

/// Index of the last `c` in `s`.
pub fn rfind_in(s: &[char], c: char) -> (r: Option<usize>)
    ensures
        match r {
            Some(i) => i < s.len() && rfind_char(s@, c) == Some(i as int),
            None => rfind_char(s@, c) is None,
        },
{
    proof {
        lemma_rfind_char(s@, c);
    }
    let mut i: usize = s.len();
    while i > 0
        invariant
            i <= s.len(),
            forall|j: int| i <= j < s@.len() ==> s@[j] != c,
            match rfind_char(s@, c) {
                Some(k) => 0 <= k < s@.len() && s@[k] == c && forall|j: int| k < j < s@.len()
                    ==> s@[j] != c,
                None => forall|j: int| 0 <= j < s@.len() ==> s@[j] != c,
            },
        decreases i,
    {
        if s[i - 1] == c {
            return Some(i - 1);
        }
        i -= 1;
    }
    None
}

/// The characters `s[lo..hi]`.
pub fn copy_range(s: &[char], lo: usize, hi: usize) -> (r: Vec<char>)
    requires
        lo <= hi <= s.len(),
    ensures
        r@ == s@.subrange(lo as int, hi as int),
{
    let mut out: Vec<char> = Vec::new();
    let mut k = lo;
    while k < hi
        invariant
            lo <= k <= hi <= s.len(),
            out@ == s@.subrange(lo as int, k as int),
        decreases hi - k,
    {
        out.push(s[k]);
        assert(out@ =~= s@.subrange(lo as int, k + 1));
        k += 1;
    }
    out
}

/// The characters of `s` after its last `c`, or all of `s` when there is none.
pub fn after_last_in(s: &[char], c: char) -> (r: Vec<char>)
    ensures
        r@ == after_last(s@, c),
{
    match rfind_in(s, c) {
        Some(i) => copy_range(s, i + 1, s.len()),
        None => {
            let r = copy_range(s, 0, s.len());
            assert(s@.subrange(0, s@.len() as int) =~= s@);
            r
        },
    }
}

/// The characters of `s` before its first `c`, or all of `s` when there is none.
pub fn before_first_in(s: &[char], c: char) -> (r: Vec<char>)
    ensures
        r@ == before_first(s@, c),
{
    let end = match find_in(s, c) {
        Some(i) => i,
        None => s.len(),
    };
    assert(s@.subrange(0, s@.len() as int) =~= s@);
    copy_range(s, 0, end)
}

/// The bounds `(lo, hi)` of `s` without leading and trailing white space.
pub fn trim_bounds(s: &[char]) -> (r: (usize, usize))
    ensures
        r.0 <= r.1 <= s.len(),
        s@.subrange(r.0 as int, r.1 as int) == trim(s@),
{
    let n = s.len();
    let mut lo: usize = 0;
    assert(s@.subrange(0, n as int) =~= s@);
    while lo < n && char_is_whitespace(s[lo])
        invariant
            lo <= n == s.len(),
            trim_start(s@) == trim_start(s@.subrange(lo as int, n as int)),
        decreases n - lo,
    {
        proof {
            lemma_trim_start_step(s@, lo as int);
        }
        lo += 1;
    }
    let ghost ts = s@.subrange(lo as int, n as int);
    assert(trim_start(ts) == ts) by {
        if ts.len() > 0 {
            assert(ts[0] == s@[lo as int]);
        }
    }
    let mut hi: usize = n;
    while hi > lo && char_is_whitespace(s[hi - 1])
        invariant
            lo <= hi <= n == s.len(),
            trim_end(ts) == trim_end(s@.subrange(lo as int, hi as int)),
        decreases hi,
    {
        proof {
            lemma_trim_end_step(s@, lo as int, hi as int);
        }
        hi -= 1;
    }
    let ghost te = s@.subrange(lo as int, hi as int);
    assert(trim_end(te) == te) by {
        if te.len() > 0 {
            assert(te.last() == s@[hi - 1]);
        }
    }
    (lo, hi)
}

/// `s` without leading and trailing white space.
pub fn trimmed(s: &[char]) -> (r: Vec<char>)
    ensures
        r@ == trim(s@),
{
    let (lo, hi) = trim_bounds(s);
    copy_range(s, lo, hi)
}

/// Index of the first occurrence of the literal `lit` in `s`.
pub fn find_str(s: &[char], lit: &str) -> (r: Option<usize>)
    ensures
        match r {
            Some(i) => i + lit@.len() <= s.len() && find_seq_from(s@, lit@, 0) == Some(i as int),
            None => find_seq_from(s@, lit@, 0) is None,
        },
{
    let p = chars_of(lit);
    if p.len() > s.len() {
        return None;
    }
    let last = s.len() - p.len();
    let mut i: usize = 0;
    loop
        invariant
            p@ == lit@,
            last == s.len() - p.len(),
            i <= last,
            find_seq_from(s@, lit@, 0) == find_seq_from(s@, lit@, i as int),
        ensures
            find_seq_from(s@, lit@, 0) is None,
        decreases last - i,
    {
        if slice_matches_at(s, p.as_slice(), i) {
            return Some(i);
        }
        if i == last {
            assert(find_seq_from(s@, lit@, i + 1) is None);
            break;
        }
        i += 1;
    }
    None
}

/// Counts the pieces of `s` between occurrences of `sep` that are not blank
/// (as `s.split(sep).map(str::trim).filter(|p| !p.is_empty()).count()`).
pub fn count_nonblank_pieces(s: &[char], sep: char) -> (r: usize)
    ensures
        r == nonblank_count(split_on(s@, sep)),
{
    let mut count: usize = 0;
    let mut cur: Vec<char> = Vec::new();
    let mut i: usize = 0;
    assert(s@.take(0) =~= Seq::<char>::empty());
    while i < s.len()
        invariant
            i <= s.len(),
            cur@ == split_on(s@.take(i as int), sep).last(),
            split_on(s@.take(i as int), sep).len() >= 1,
            count == nonblank_count(split_on(s@.take(i as int), sep).drop_last()),
            count + cur@.len() <= i,
        decreases s.len() - i,
    {
        let c = s[i];
        let ghost before = split_on(s@.take(i as int), sep);
        assert(s@.take(i + 1).drop_last() =~= s@.take(i as int));
        assert(s@.take(i + 1).last() == c);
        if c == sep {
            let t = trimmed(cur.as_slice());
            if t.len() > 0 {
                count = count + 1;
            }
            cur = Vec::new();
            proof {
                let after = split_on(s@.take(i + 1), sep);
                assert(after.drop_last() =~= before);
                assert(before.drop_last().push(before.last()) =~= before);
            }
        } else {
            cur.push(c);
            proof {
                let after = split_on(s@.take(i + 1), sep);
                assert(after.drop_last() =~= before.drop_last());
            }
        }
        i += 1;
    }
    assert(s@.take(s@.len() as int) =~= s@);
    let ghost parts = split_on(s@, sep);
    assert(parts.drop_last().push(parts.last()) =~= parts);
    let t = trimmed(cur.as_slice());
    if t.len() > 0 {
        count = count + 1;
    }
    count
}

/// The text after the first occurrence of the literal `lit` in `s`
/// (the second half of `split_once`), or `None` when `lit` does not occur.
pub fn after_first_str(s: &[char], lit: &str) -> (r: Option<Vec<char>>)
    ensures
        match r {
            Some(v) => after_first_seq(s@, lit@) == Some(v@),
            None => after_first_seq(s@, lit@) is None,
        },
{
    match find_str(s, lit) {
        Some(i) => {
            let n = chars_of(lit).len();
            Some(copy_range(s, i + n, s.len()))
        },
        None => None,
    }
}

/// The character views of a list of character vectors.
pub open spec fn pieces_view(v: Seq<Vec<char>>) -> Seq<Seq<char>> {
    v.map_values(|p: Vec<char>| p@)
}

/// Splits `s` into the pieces between occurrences of `sep` (`str::split`).
pub fn split_pieces(s: &[char], sep: char) -> (r: Vec<Vec<char>>)
    ensures
        pieces_view(r@) == split_on(s@, sep),
{
    let mut out: Vec<Vec<char>> = Vec::new();
    let mut cur: Vec<char> = Vec::new();
    let mut i: usize = 0;
    assert(s@.take(0) =~= Seq::<char>::empty());
    assert(pieces_view(out@).push(cur@) =~= split_on(s@.take(0), sep));
    while i < s.len()
        invariant
            i <= s.len(),
            pieces_view(out@).push(cur@) == split_on(s@.take(i as int), sep),
        decreases s.len() - i,
    {
        let c = s[i];
        let ghost before = split_on(s@.take(i as int), sep);
        assert(s@.take(i + 1).drop_last() =~= s@.take(i as int));
        assert(s@.take(i + 1).last() == c);
        if c == sep {
            let done = cur;
            out.push(done);
            cur = Vec::new();
            assert(pieces_view(out@).push(cur@) =~= before.push(Seq::<char>::empty()));
        } else {
            cur.push(c);
            assert(pieces_view(out@).push(cur@) =~= before.update(
                before.len() - 1,
                before.last().push(c),
            ));
        }
        i += 1;
    }
    assert(s@.take(s@.len() as int) =~= s@);
    out.push(cur);
    assert(pieces_view(out@) =~= split_on(s@, sep));
    out
}

/// Number of occurrences of `c` in `s`.
pub fn count_in(s: &[char], c: char) -> (r: usize)
    ensures
        r == count_char(s@, c),
        r <= s.len(),
{
    let mut n: usize = 0;
    let mut i: usize = 0;
    assert(s@.take(0) =~= Seq::<char>::empty());
    while i < s.len()
        invariant
            i <= s.len(),
            n == count_char(s@.take(i as int), c),
            n <= i,
        decreases s.len() - i,
    {
        assert(s@.take(i + 1).drop_last() =~= s@.take(i as int));
        if s[i] == c {
            n += 1;
        }
        i += 1;
    }
    assert(s@.take(s@.len() as int) =~= s@);
    n
}

/// Whether `a` and `b` hold the same characters.
pub fn same_text(a: &str, b: &str) -> (r: bool)
    ensures
        r == (a@ == b@),
{
    let x = chars_of(a);
    let y = chars_of(b);
    if x.len() != y.len() {
        return false;
    }
    let mut i: usize = 0;
    while i < x.len()
        invariant
            i <= x.len(),
            x.len() == y.len(),
            x@ == a@,
            y@ == b@,
            forall|j: int| 0 <= j < i ==> x@[j] == y@[j],
        decreases x.len() - i,
    {
        if x[i] != y[i] {
            return false;
        }
        i += 1;
    }
    assert(x@ =~= y@);
    true
}

/// `a` comes before `b` in the order of `str` (code point by code point,
/// which is the order of their UTF-8 bytes; a proper prefix comes first).
pub open spec fn text_less(a: Seq<char>, b: Seq<char>) -> bool
    decreases a.len(),
{
    if a.len() == 0 {
        b.len() > 0
    } else if b.len() == 0 {
        false
    } else if a[0] != b[0] {
        a[0] < b[0]
    } else {
        text_less(a.drop_first(), b.drop_first())
    }
}

/// No text comes before itself.
pub proof fn lemma_text_less_irreflexive(a: Seq<char>)
    ensures
        !text_less(a, a),
    decreases a.len(),
{
    if a.len() > 0 {
        lemma_text_less_irreflexive(a.drop_first());
    }
}

/// Of two different texts exactly one comes first.
pub proof fn lemma_text_less_total(a: Seq<char>, b: Seq<char>)
    ensures
        a != b ==> (text_less(a, b) || text_less(b, a)),
        !(text_less(a, b) && text_less(b, a)),
    decreases a.len(),
{
    if a.len() > 0 && b.len() > 0 && a[0] == b[0] {
        lemma_text_less_total(a.drop_first(), b.drop_first());
        if a != b {
            assert(a.drop_first() != b.drop_first()) by {
                if a.drop_first() == b.drop_first() {
                    assert(a =~= seq![a[0]] + a.drop_first());
                    assert(b =~= seq![b[0]] + b.drop_first());
                }
            }
        }
    } else if a.len() == 0 && b.len() == 0 {
        assert(a =~= b);
    }
}

/// The order of texts is transitive.
pub proof fn lemma_text_less_transitive(a: Seq<char>, b: Seq<char>, c: Seq<char>)
    requires
        text_less(a, b),
        text_less(b, c),
    ensures
        text_less(a, c),
    decreases a.len(),
{
    if a.len() > 0 && b.len() > 0 && c.len() > 0 && a[0] == b[0] && b[0] == c[0] {
        lemma_text_less_transitive(a.drop_first(), b.drop_first(), c.drop_first());
    }
}

/// Whether `a` comes before `b` in the order of `str`.
pub fn str_less(a: &str, b: &str) -> (r: bool)
    ensures
        r == text_less(a@, b@),
{
    let x = chars_of(a);
    let y = chars_of(b);
    assert(x@.skip(0) =~= x@);
    assert(y@.skip(0) =~= y@);
    chars_less_from(x.as_slice(), y.as_slice(), 0)
}

/// Code-point order of `a` and `b`, compared from position `i` on, where
/// the first `i` characters agree.
pub fn chars_less_from(a: &[char], b: &[char], i: usize) -> (r: bool)
    requires
        i <= a.len(),
        i <= b.len(),
    ensures
        r == text_less(a@.skip(i as int), b@.skip(i as int)),
    decreases a.len() - i,
{
    let ghost sa = a@.skip(i as int);
    let ghost sb = b@.skip(i as int);
    if i == a.len() {
        return i < b.len();
    }
    if i == b.len() {
        return false;
    }
    assert(sa[0] == a@[i as int]);
    assert(sb[0] == b@[i as int]);
    if a[i] != b[i] {
        return a[i] < b[i];
    }
    assert(sa.drop_first() =~= a@.skip(i + 1));
    assert(sb.drop_first() =~= b@.skip(i + 1));
    chars_less_from(a, b, i + 1)
}

} // verus!
