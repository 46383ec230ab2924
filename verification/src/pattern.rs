//! Regular-expression matching, delegated to the `regex` crate.
//!
//! Nothing in this module is proved. Each item records, as a contract, what the `regex`
//! crate does; the rest of the library reasons from these contracts. What a pattern matches
//! is not written out here: it has a name, and the contracts say which call gives it.

use regex::Regex;
use vstd::prelude::*;

verus! {

/// A compiled regular expression of the `regex` crate.
#[verifier::external_type_specification]
#[verifier::external_body]
pub struct ExRegex(regex::Regex);

/// The error with which the `regex` crate refuses a pattern.
#[verifier::external_type_specification]
#[verifier::external_body]
pub struct ExRegexError(regex::Error);

/// Whether `Regex::new` accepts `pattern`: whether it is well formed and compiles to a
/// program within the crate's default size limit.
pub uninterp spec fn regex_compiles(pattern: Seq<char>) -> bool;

/// The pattern that a compiled expression was built from, as `Regex::as_str` reports it,
/// where the expression was built with the crate's default options, as `Regex::new` builds
/// it. `None` where it was built with other options: they change what a pattern matches.
pub uninterp spec fn regex_pattern(re: Regex) -> Option<Seq<char>>;

/// What `Regex::captures` finds for `pattern` in `text`: `None` when the pattern matches
/// nowhere; otherwise the leftmost match, given as the text of capture group `group` in it,
/// or as `None` when that group took no part in the match.
pub uninterp spec fn regex_capture(pattern: Seq<char>, group: usize, text: Seq<char>) -> Option<
    Option<Seq<char>>,
>;

/// What `Regex::captures_iter` finds for `pattern` in `text`: the successive non-overlapping
/// matches from left to right, each given as `regex_capture` gives the leftmost one.
pub uninterp spec fn regex_captures_all(pattern: Seq<char>, group: usize, text: Seq<char>) -> Seq<
    Option<Seq<char>>,
>;

/// Taken on trust of `Regex::new`: it compiles a pattern with the crate's default options,
/// whether it succeeds depends on the pattern alone, and the compiled expression keeps the
/// pattern it was built from.
pub assume_specification[ Regex::new ](re: &str) -> (r: Result<Regex, regex::Error>)
    ensures
        r is Ok <==> regex_compiles(re@),
        r matches Ok(compiled) ==> regex_pattern(compiled) == Some(re@),
;

/// Calls `Regex::captures`, then `Captures::get` and `Match::as_str` on what it found: the
/// leftmost match of `re` in `text`, reduced to the text of one capture group. Taken on
/// trust: the result depends on the pattern, the group and the text alone. None of the three
/// calls panics, whatever the group.
#[verifier::external_body]
pub(crate) fn capture(re: &Regex, group: usize, text: &str) -> (r: Option<Option<String>>)
    ensures
        regex_pattern(*re) matches Some(pattern) ==> capture_view(r) == regex_capture(
            pattern,
            group,
            text@,
        ),
{
    re.captures(text).map(|found| found.get(group).map(|m| m.as_str().to_owned()))
}

/// Calls `Regex::captures_iter`, then `Captures::get` and `Match::as_str` on each item:
/// every non-overlapping match of `re` in `text`, from left to right, each reduced to the
/// text of one capture group. Taken on trust: the result depends on the pattern, the group
/// and the text alone.
#[verifier::external_body]
pub(crate) fn captures_all(re: &Regex, group: usize, text: &str) -> (r: Vec<Option<String>>)
    ensures
        regex_pattern(*re) matches Some(pattern) ==> captures_view(r@) == regex_captures_all(
            pattern,
            group,
            text@,
        ),
{
    re.captures_iter(text).map(|found| found.get(group).map(|m| m.as_str().to_owned())).collect()
}

/// The text of an optional string.
pub open spec fn text_view(s: Option<String>) -> Option<Seq<char>> {
    match s {
        Some(t) => Some(t@),
        None => None,
    }
}

/// The mathematical value of what `capture` returns.
pub open spec fn capture_view(found: Option<Option<String>>) -> Option<Option<Seq<char>>> {
    match found {
        Some(group) => Some(text_view(group)),
        None => None,
    }
}

/// The mathematical value of what `captures_all` returns.
pub open spec fn captures_view(found: Seq<Option<String>>) -> Seq<Option<Seq<char>>> {
    found.map_values(|group: Option<String>| text_view(group))
}

} // verus!
