//! Version-requirement checking: whether the running tool's version
//! satisfies a requirement text, with the semver grammar and matching rules
//! supplied by the `semver` crate.

use semver::Error as SemverParseError;
use vstd::prelude::*;

verus! {

#[verifier::external_type_specification]
#[verifier::external_body]
pub struct ExVersionReq(semver::VersionReq);

#[verifier::external_type_specification]
#[verifier::external_body]
pub struct ExVersion(semver::Version);

#[verifier::external_type_specification]
#[verifier::external_body]
pub struct ExSemverError(SemverParseError);

/// Whether `semver::VersionReq::parse` accepts a requirement text; parsing
/// depends on the text alone.
pub uninterp spec fn version_req_parses(text: Seq<char>) -> bool;

/// Whether `semver::Version::parse` accepts a version text; parsing depends
/// on the text alone.
pub uninterp spec fn version_parses(text: Seq<char>) -> bool;

/// Relies on `semver::VersionReq::parse`: a pure function of the text, so it
/// succeeds exactly on the texts that `version_req_parses` names.
#[verifier::external_body]
fn parse_version_req(text: &str) -> (r: Result<semver::VersionReq, SemverParseError>)
    ensures
        r is Ok <==> version_req_parses(text@),
{
    semver::VersionReq::parse(text)
}

/// Relies on `semver::Version::parse`: a pure function of the text, so it
/// succeeds exactly on the texts that `version_parses` names.
#[verifier::external_body]
fn parse_version(text: &str) -> (r: Result<semver::Version, SemverParseError>)
    ensures
        r is Ok <==> version_parses(text@),
{
    semver::Version::parse(text)
}

/// Relies on `semver::VersionReq::matches`; nothing is assumed of the
/// outcome.
#[verifier::external_body]
fn req_matches(req: &semver::VersionReq, version: &semver::Version) -> bool {
    req.matches(version)
}

/// Why a version check failed.
#[derive(Clone, Copy, PartialEq, Eq, Structural, Debug)]
pub enum VersionError {
    /// The requirement text is not a valid requirement.
    InvalidRequirement,
    /// The version text is not a valid version.
    InvalidVersion,
    /// Both texts parsed, but the version does not satisfy the requirement.
    NotSatisfied,
}

/// Turns the outcome of the matching step into the check's result.
pub fn version_decision(matched: bool) -> (r: Result<(), VersionError>)
    ensures
        matched <==> r is Ok,
        !matched ==> r == Err::<(), VersionError>(VersionError::NotSatisfied),
{
    if matched {
        Ok(())
    } else {
        Err(VersionError::NotSatisfied)
    }
}

/// Checks whether `current`, the running tool's version, satisfies the
/// requirement text `requirement`. The requirement is parsed first, so an
/// unparsable requirement is reported even when the version text is bad too;
/// whether a parsable pair matches is the matching rule's decision, and the
/// result then comes from [`version_decision`].
pub fn supported_version(requirement: &str, current: &str) -> (r: Result<(), VersionError>)
    ensures
        !version_req_parses(requirement@) ==> r == Err::<(), VersionError>(
            VersionError::InvalidRequirement,
        ),
        version_req_parses(requirement@) && !version_parses(current@) ==> r == Err::<
            (),
            VersionError,
        >(VersionError::InvalidVersion),
        r is Ok ==> version_req_parses(requirement@) && version_parses(current@),
        version_req_parses(requirement@) && version_parses(current@) ==> r is Ok || r == Err::<
            (),
            VersionError,
        >(VersionError::NotSatisfied),
{
    let req = match parse_version_req(requirement) {
        Ok(req) => req,
        Err(_) => {
            return Err(VersionError::InvalidRequirement);
        },
    };
    let version = match parse_version(current) {
        Ok(version) => version,
        Err(_) => {
            return Err(VersionError::InvalidVersion);
        },
    };
    version_decision(req_matches(&req, &version))
}

} // verus!
