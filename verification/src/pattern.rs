//! Regular-expression search, done by the `regex` crate.

use vstd::prelude::*;

verus! {

/// Whether `regex::Regex::new` accepts `pattern`, with the limits that the
/// crate sets by itself.
pub uninterp spec fn pattern_accepted(pattern: Seq<char>) -> bool;

/// What `regex::Regex::is_match` answers for `text`, asked of the expression
/// that `regex::Regex::new` compiled from `pattern`.
pub uninterp spec fn pattern_found(pattern: Seq<char>, text: Seq<char>) -> bool;

/// Compiles `pattern` with `regex::Regex::new` and searches `text` with
/// `regex::Regex::is_match`. Nothing is proved of either: the contract only
/// names their answers, `None` standing for a pattern that was refused, and
/// claims that both depend on the two arguments alone.
#[verifier::external_body]
pub(crate) fn search(pattern: &str, text: &str) -> (r: Option<bool>)
    ensures
        r is Some == pattern_accepted(pattern@),
        r matches Some(found) ==> found == pattern_found(pattern@, text@),
{
    match regex::Regex::new(pattern) {
        Ok(re) => Some(re.is_match(text)),
        Err(_) => None,
    }
}

} // verus!
