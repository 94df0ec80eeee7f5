//! Regular expressions, by the `regex` crate.
use vstd::prelude::*;

use crate::text::texts;

verus! {

/// A compiled regular expression.
#[verifier::external_type_specification]
#[verifier::external_body]
pub struct CompiledRegex(regex::Regex);

/// Why a pattern cannot be compiled.
#[verifier::external_type_specification]
#[verifier::external_body]
pub struct RegexFault(regex::Error);

/// The pattern that `Regex::as_str` gives back.
pub uninterp spec fn pattern_of(re: regex::Regex) -> Seq<char>;

/// `Regex::new` compiles the pattern.
pub uninterp spec fn compiles(pattern: Seq<char>) -> bool;

/// The texts that `Regex::find_iter` finds.
pub uninterp spec fn matches_in(pattern: Seq<char>, text: Seq<char>) -> Seq<Seq<char>>;

/// The text of the first group in the match that `Regex::captures` finds.
pub uninterp spec fn first_group(pattern: Seq<char>, text: Seq<char>) -> Option<Seq<char>>;

/// `Regex::new`: whether a pattern compiles depends on the pattern alone, and
/// what it compiles to keeps the pattern.
#[verifier::external_body]
pub(crate) fn compile(pattern: &str) -> (r: Result<regex::Regex, regex::Error>)
    ensures
        r is Ok <==> compiles(pattern@),
        r matches Ok(re) ==> pattern_of(re) == pattern@,
{
    regex::Regex::new(pattern)
}

/// `Regex::find_iter`: the matches that follow one another without overlap, each
/// as its text.
#[verifier::external_body]
pub(crate) fn find_all(re: &regex::Regex, text: &str) -> (r: Vec<String>)
    ensures
        texts(r@) == matches_in(pattern_of(*re), text@),
{
    re.find_iter(text).map(|m| m.as_str().to_owned()).collect()
}

/// `Regex::is_match`: there is a match exactly where `Regex::find_iter` finds one.
#[verifier::external_body]
pub(crate) fn is_match(re: &regex::Regex, text: &str) -> (r: bool)
    ensures
        r == (matches_in(pattern_of(*re), text@).len() > 0),
{
    re.is_match(text)
}

/// `Regex::captures`: the text of the first group, where there is a match and
/// the group takes part in it.
#[verifier::external_body]
pub(crate) fn capture_first(re: &regex::Regex, text: &str) -> (r: Option<String>)
    ensures
        match r {
            Some(group) => first_group(pattern_of(*re), text@) == Some(group@),
            None => first_group(pattern_of(*re), text@) is None,
        },
{
    re.captures(text).and_then(|c| c.get(1)).map(|m| m.as_str().to_owned())
}

} // verus!
