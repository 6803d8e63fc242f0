//! Compiled regular expressions (the `regex` crate), held together with the
//! pattern text they were compiled from, so that contracts can speak of what
//! a search returns as a function of the pattern text and the haystack.

use vstd::prelude::*;

verus! {

/// `regex::Regex`, carried opaquely.
#[verifier::external_type_specification]
#[verifier::external_body]
pub struct ExRegex(regex::Regex);

/// Name for whether `regex::Regex::new` accepts a pattern.
pub uninterp spec fn regex_compiles(pattern: Seq<char>) -> bool;

/// Name for the number of matches that `Regex::find_iter` yields for a
/// pattern on a haystack.
pub uninterp spec fn regex_match_count(pattern: Seq<char>, haystack: Seq<char>) -> nat;

/// Name for the text of capture group `group` in each match that
/// `Regex::captures_iter` yields for a pattern on a haystack (`None` where the
/// group did not take part in that match).
pub uninterp spec fn regex_group_captures(
    pattern: Seq<char>,
    haystack: Seq<char>,
    group: nat,
) -> Seq<Option<Seq<char>>>;

/// The character views of optional strings.
pub open spec fn opt_strings_view(v: Seq<Option<String>>) -> Seq<Option<Seq<char>>> {
    v.map_values(
        |o: Option<String>|
            match o {
                Some(s) => Some(s@),
                None => None,
            },
    )
}

/// A compiled regular expression together with its pattern text.
pub struct Pattern {
    source: String,
    compiled: regex::Regex,
}

impl Pattern {
    /// The pattern text that this regular expression was compiled from.
    pub closed spec fn source(&self) -> Seq<char> {
        self.source@
    }

    /// Compiles `source` with `regex::Regex::new`. The result is `Some` exactly
    /// when the crate accepts the pattern (named `regex_compiles`), and then
    /// it remembers `source` as its pattern text.
    #[verifier::external_body]
    pub(crate) fn new(source: &str) -> (r: Option<Pattern>)
        ensures
            r is Some <==> regex_compiles(source@),
            r matches Some(p) ==> p.source() == source@,
    {
        match regex::Regex::new(source) {
            Ok(compiled) => Some(Pattern { source: source.to_string(), compiled }),
            Err(_) => None,
        }
    }

    /// Counts the matches that `Regex::find_iter` yields on `haystack`; the
    /// count is named `regex_match_count` of the pattern text and the
    /// haystack. That the compiled regex belongs to the remembered text holds
    /// because `new` is the only constructor and the fields are private.
    #[verifier::external_body]
    pub(crate) fn count_matches(&self, haystack: &str) -> (n: usize)
        ensures
            n == regex_match_count(self.source(), haystack@),
    {
        self.compiled.find_iter(haystack).count()
    }

    /// The text of capture group `group` in each match of
    /// `Regex::captures_iter` on `haystack`, in order (via `Captures::get`);
    /// named `regex_group_captures` of the pattern text, the haystack and the
    /// group index.
    #[verifier::external_body]
    pub(crate) fn group_captures(&self, haystack: &str, group: usize) -> (r: Vec<Option<String>>)
        ensures
            opt_strings_view(r@) == regex_group_captures(self.source(), haystack@, group as nat),
    {
        self.compiled.captures_iter(haystack).map(|caps| caps.get(group).map(|m| m.as_str().to_string())).collect()
    }
}

} // verus!
