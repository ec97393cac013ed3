//! The one place where this library calls the `regex` crate.
//!
//! What the items here state is taken on trust from that crate: Verus does
//! not see its code.

use vstd::prelude::*;

verus! {

/// `regex::Error`, the reason for which the engine refuses a pattern. Nothing
/// is said of what it holds.
#[verifier::external_type_specification]
#[verifier::external_body]
pub struct ExPatternError(regex::Error);

/// The successive non-overlapping matches of `pattern` in `haystack`, from
/// left to right, as the `regex` crate defines them for a pattern that it
/// compiles. Each match is the list of its capture groups in the order of
/// their opening parentheses, the whole match first; a group is the text it
/// matched, or `None` where it took no part in the match.
pub uninterp spec fn regex_captures(pattern: Seq<char>, haystack: Seq<char>) -> Seq<
    Seq<Option<Seq<char>>>,
>;

/// Compiles `pattern` with `regex::Regex::new` and walks
/// `Regex::captures_iter` over `haystack`, copying out the text of every
/// group of every match (`Captures::iter`, `Match::as_str`).
///
/// Trusted: where the engine compiles the pattern, what comes back is
/// `regex_captures` of the two texts. Whether it compiles is left open, since
/// the engine's size limit is measured in bytes of the running machine.
#[verifier::external_body]
pub(crate) fn capture_all(pattern: &str, haystack: &str) -> (r: Result<
    Vec<Vec<Option<String>>>,
    regex::Error,
>)
    ensures
        r matches Ok(found) ==> found.deep_view() == regex_captures(pattern@, haystack@),
{
    let compiled = regex::Regex::new(pattern)?;
    let mut found = Vec::new();
    for caps in compiled.captures_iter(haystack) {
        found.push(caps.iter().map(|group| group.map(|m| m.as_str().to_owned())).collect());
    }
    Ok(found)
}

} // verus!
