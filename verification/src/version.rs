//! The solver's name and version, as the first line of a log gives them.

use vstd::prelude::*;

verus! {

/// A semantic version: three numbers, and what follows them after `-` and `+`.
#[derive(Debug, Clone, PartialEq, Eq)]
pub struct Version {
    pub major: u64,
    pub minor: u64,
    pub patch: u64,
    pub pre: Vec<u8>,
    pub build: Vec<u8>,
}

/// A version as a mathematical value.
pub struct VersionView {
    pub major: u64,
    pub minor: u64,
    pub patch: u64,
    pub pre: Seq<u8>,
    pub build: Seq<u8>,
}

impl View for Version {
    type V = VersionView;

    open spec fn view(&self) -> VersionView {
        VersionView {
            major: self.major,
            minor: self.minor,
            patch: self.patch,
            pre: self.pre@,
            build: self.build@,
        }
    }
}

/// Which solver wrote the log.
#[derive(Debug, Clone, PartialEq, Eq)]
pub struct VersionInfo {
    pub solver: Vec<u8>,
    pub version: Version,
}

/// The solver and its version as a mathematical value.
pub struct VersionInfoView {
    pub solver: Seq<u8>,
    pub version: VersionView,
}

impl View for VersionInfo {
    type V = VersionInfoView;

    open spec fn view(&self) -> VersionInfoView {
        VersionInfoView { solver: self.solver@, version: self.version@ }
    }
}

/// The version, if there is one, as a mathematical value.
pub open spec fn version_view(v: Option<Version>) -> Option<VersionView> {
    match v {
        Some(v) => Some(v@),
        None => None,
    }
}

/// The solver and its version, if known, as a mathematical value.
pub open spec fn version_info_view(v: Option<VersionInfo>) -> Option<VersionInfoView> {
    match v {
        Some(v) => Some(v@),
        None => None,
    }
}

/// The version that a text spells by the rules of semantic versioning, if it
/// spells one.
pub uninterp spec fn semver(text: Seq<u8>) -> Option<VersionView>;

/// `semver::Version::parse` on the text, read as UTF-8: the version it
/// spells, or nothing where the crate refuses the text. Bytes that are not
/// UTF-8 come to the crate as U+FFFD, which it refuses like any other
/// character outside its grammar.
#[verifier::external_body]
pub(crate) fn parse_semver(text: &[u8]) -> (r: Option<Version>)
    ensures
        version_view(r) == semver(text@),
{
    match semver::Version::parse(&String::from_utf8_lossy(text)) {
        Ok(v) => Some(
            Version {
                major: v.major,
                minor: v.minor,
                patch: v.patch,
                pre: v.pre.as_str().as_bytes().to_vec(),
                build: v.build.as_str().as_bytes().to_vec(),
            },
        ),
        Err(_) => None,
    }
}

} // verus!
