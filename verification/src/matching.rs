//! Contracts for the searches that the `bstr` and `regex` crates perform.
//!
//! Neither search is verified here. Substring search is small enough to say
//! what it finds. What a regular expression matches is not, so its results
//! only get a name: the same pattern on the same text always yields the same
//! matches.

use bstr::ByteSlice;
use regex::bytes::Regex;
use vstd::prelude::*;

verus! {

#[verifier::external_type_specification]
#[verifier::external_body]
pub struct ExRegexError(regex::Error);

/// `needle` stands in `haystack` at position `at`.
pub open spec fn occurs_at(haystack: Seq<u8>, needle: Seq<u8>, at: int) -> bool {
    &&& 0 <= at
    &&& at + needle.len() <= haystack.len()
    &&& haystack.subrange(at, at + needle.len()) == needle
}

/// `needle` stands somewhere in `haystack`.
pub open spec fn occurs(haystack: Seq<u8>, needle: Seq<u8>) -> bool {
    exists|at: int| occurs_at(haystack, needle, at)
}

/// Whether `regex::bytes::Regex::new` accepts the pattern.
pub uninterp spec fn pattern_compiles(pattern: Seq<char>) -> bool;

/// What `regex::bytes::Regex::captures_iter` yields for a pattern on a text:
/// for every match in turn, and for every group of the pattern in turn (the
/// whole match being the group before the first), the bytes that the group
/// matched, or nothing if the group took no part in the match.
pub uninterp spec fn pattern_captures(pattern: Seq<char>, haystack: Seq<u8>) -> Seq<
    Seq<Option<Seq<u8>>>,
>;

/// `bstr::ByteSlice::find`: the position of the first occurrence of `needle`
/// in `haystack`, if there is one.
#[verifier::external_body]
pub(crate) fn find(haystack: &[u8], needle: &[u8]) -> (at: Option<usize>)
    ensures
        at matches Some(first) ==> occurs_at(haystack@, needle@, first as int) && forall|
            earlier: int,
        |
            0 <= earlier < first ==> !occurs_at(haystack@, needle@, earlier),
        at is None ==> !occurs(haystack@, needle@),
{
    haystack.find(needle)
}

/// `regex::bytes::Regex::new` followed by `captures_iter`: compiles the
/// pattern, fails where the crate refuses it, and otherwise collects all
/// matches in `haystack` with the bytes of each of their groups.
#[verifier::external_body]
pub(crate) fn captures(pattern: &str, haystack: &[u8]) -> (found: Result<
    Vec<Vec<Option<Vec<u8>>>>,
    regex::Error,
>)
    ensures
        found is Ok == pattern_compiles(pattern@),
        found matches Ok(all) ==> all.deep_view() == pattern_captures(pattern@, haystack@),
{
    let compiled = Regex::new(pattern)?;
    Ok(
        compiled.captures_iter(haystack).map(
            |one| one.iter().map(|group| group.map(|part| part.as_bytes().to_vec())).collect(),
        ).collect(),
    )
}

} // verus!
