//! Server versions in the form of semantic versioning.
use vstd::prelude::*;

verus! {

/// A semantic version: three numbers, a pre-release text and build metadata.
#[derive(Debug)]
pub struct Version {
    pub major: u64,
    pub minor: u64,
    pub patch: u64,
    pub pre: String,
    pub build: String,
}

/// What `semver::Version::parse` makes of a text: the numbers, the pre-release and
/// the build metadata, or nothing where the text is not a version.
pub uninterp spec fn semver_parse(text: Seq<char>) -> Option<(u64, u64, u64, Seq<char>, Seq<char>)>;

/// Calls `semver::Version::parse` and takes the parts of the version it returns.
/// Claims only that the result is the one the parser gives for this text.
#[verifier::external_body]
pub(crate) fn parse_semver(text: &str) -> (r: Option<Version>)
    ensures
        match r {
            Some(v) => semver_parse(text@) == Some((v.major, v.minor, v.patch, v.pre@, v.build@)),
            None => semver_parse(text@) is None,
        },
{
    match semver::Version::parse(text) {
        Ok(v) => Some(
            Version {
                major: v.major,
                minor: v.minor,
                patch: v.patch,
                pre: v.pre.as_str().to_string(),
                build: v.build.as_str().to_string(),
            },
        ),
        Err(_) => None,
    }
}

impl Version {
    /// A release version, without pre-release or build metadata.
    pub fn new(major: u64, minor: u64, patch: u64) -> (r: Version)
        ensures
            r.major == major,
            r.minor == minor,
            r.patch == patch,
            r.pre@ == Seq::<char>::empty(),
            r.build@ == Seq::<char>::empty(),
    {
        Version { major, minor, patch, pre: String::new(), build: String::new() }
    }

    /// The version orders before the release `major.minor.patch`: its numbers are
    /// smaller, compared from left to right, or they are equal and it is a pre-release.
    pub open spec fn below(self, major: u64, minor: u64, patch: u64) -> bool {
        ||| self.major < major
        ||| self.major == major && self.minor < minor
        ||| self.major == major && self.minor == minor && self.patch < patch
        ||| self.major == major && self.minor == minor && self.patch == patch && self.pre@.len() > 0
    }

    /// Whether the version orders before the release `major.minor.patch`.
    pub fn is_below(&self, major: u64, minor: u64, patch: u64) -> (r: bool)
        ensures
            r == self.below(major, minor, patch),
    {
        if self.major != major {
            self.major < major
        } else if self.minor != minor {
            self.minor < minor
        } else if self.patch != patch {
            self.patch < patch
        } else {
            self.pre.as_str().unicode_len() > 0
        }
    }
}

} // verus!
