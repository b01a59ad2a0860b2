//! The library's trusted view of semantic-version parsing and matching.
//!
//! Whether a range expression parses, whether a version string parses, and
//! whether a range admits a version are all decided by the `semver` crate;
//! each is a pure function of the strings alone, so the three facts are
//! named here and every contract of the library speaks of these names.

use vstd::prelude::*;

verus! {

/// Whether `s` parses as a semantic-version range expression
/// (`semver::VersionReq`).
pub uninterp spec fn vreq_wf(s: Seq<char>) -> bool;

/// Whether `s` parses as an exact semantic version (`semver::Version`).
pub uninterp spec fn ver_wf(s: Seq<char>) -> bool;

/// Whether the range `req` admits the exact version `ver` under semver
/// comparator semantics.  Meaningful where both strings are well-formed.
pub uninterp spec fn spec_matches(req: Seq<char>, ver: Seq<char>) -> bool;

/// Relies on `semver::VersionReq::parse`: whether the range expression is
/// well-formed.  Parsing depends on the characters of `range` alone.
#[verifier::external_body]
pub fn version_range_is_valid(range: &str) -> (r: bool)
    ensures
        r == vreq_wf(range@),
{
    semver::VersionReq::parse(range).is_ok()
}

/// Relies on `semver::VersionReq::parse`, `semver::Version::parse` and
/// `semver::VersionReq::matches`: true exactly when both strings parse and
/// the range admits the version.  All three are functions of the two
/// strings alone.
#[verifier::external_body]
pub(crate) fn req_matches_version(req: &str, version: &str) -> (r: bool)
    ensures
        r == (vreq_wf(req@) && ver_wf(version@) && spec_matches(req@, version@)),
{
    match (semver::VersionReq::parse(req), semver::Version::parse(version)) {
        (Ok(rq), Ok(v)) => rq.matches(&v),
        _ => false,
    }
}

} // verus!
