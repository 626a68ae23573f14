//! The boundary to the regex library, used for the runner's ignore
//! patterns.
//!
//! A compiled pattern set is opaque; the engine reasons about it through
//! the name [`regex_set_match`], a function of the patterns and the text
//! alone.

use vstd::prelude::*;

verus! {

#[verifier::external_type_specification]
#[verifier::external_body]
pub struct ExRegexSet(regex::RegexSet);

/// The patterns a compiled set was built from.
pub uninterp spec fn regex_set_patterns(rs: regex::RegexSet) -> Seq<Seq<char>>;

/// Whether any of `patterns` matches somewhere in `text`, under the
/// regex library's syntax and semantics.
pub uninterp spec fn regex_set_match(patterns: Seq<Seq<char>>, text: Seq<char>) -> bool;

/// Relies on `regex::RegexSet::new`: on success the set holds exactly
/// the given patterns; on failure the library's message comes back.
#[verifier::external_body]
pub fn regex_set_new(patterns: &Vec<String>) -> (r: Result<regex::RegexSet, String>)
    ensures
        r matches Ok(rs) ==> regex_set_patterns(rs) == patterns@.map_values(|s: String| s@),
{
    regex::RegexSet::new(patterns).map_err(|e| e.to_string())
}

/// Relies on `regex::RegexSet::is_match`: `true` iff at least one of the
/// set's patterns matches somewhere in `text`; a set built from no
/// patterns matches nothing.
#[verifier::external_body]
pub(crate) fn regex_set_is_match(rs: &regex::RegexSet, text: &str) -> (r: bool)
    ensures
        r == regex_set_match(regex_set_patterns(*rs), text@),
        regex_set_patterns(*rs).len() == 0 ==> !r,
{
    rs.is_match(text)
}

} // verus!
