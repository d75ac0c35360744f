//! Semantic versions.
use vstd::prelude::*;
use crate::core_types::text::{spec_split, spec_parse_u64, strings_view, spec_u64_decimal};
use crate::core_types::text::{lemma_decimal_digits, lemma_digits_exclude, lemma_parse_decimal, lemma_split_append, lemma_split_pair};

verus! {

/// A semantic version `major.minor.patch`.
#[derive(Debug, Clone, Copy, PartialEq, Eq, Hash, PartialOrd, Ord, Structural)]
pub struct Version {
    pub major: u64,
    pub minor: u64,
    pub patch: u64,
}

/// Why a version string was refused.
#[derive(Debug, Clone, PartialEq, Eq)]
pub enum VersionError {
    /// The string does not have exactly three dot-separated parts.
    InvalidFormat(String),
    /// A part is not a decimal `u64`.
    InvalidComponent(String),
}

/// The index of the first of three parts that is not a `u64`, or 3 when all are.
pub open spec fn first_bad_component(parts: Seq<Seq<char>>) -> int {
    if spec_parse_u64(parts[0]) is None {
        0
    } else if spec_parse_u64(parts[1]) is None {
        1
    } else if spec_parse_u64(parts[2]) is None {
        2
    } else {
        3
    }
}

impl Version {
    /// A version from its three components.
    pub fn new(major: u64, minor: u64, patch: u64) -> (v: Self)
        ensures
            v.major == major,
            v.minor == minor,
            v.patch == patch,
    {
        Version { major, minor, patch }
    }

    /// Parses `major.minor.patch`, each part a decimal `u64`.
    pub fn parse(s: &str) -> (r: Result<Version, VersionError>)
        ensures
            ({
                let parts = spec_split(s@, '.');
                match r {
                    Ok(v) => {
                        &&& parts.len() == 3
                        &&& first_bad_component(parts) == 3
                        &&& spec_parse_u64(parts[0]) == Some(v.major)
                        &&& spec_parse_u64(parts[1]) == Some(v.minor)
                        &&& spec_parse_u64(parts[2]) == Some(v.patch)
                    },
                    Err(VersionError::InvalidFormat(t)) => parts.len() != 3 && t@ == s@,
                    Err(VersionError::InvalidComponent(t)) => {
                        &&& parts.len() == 3
                        &&& first_bad_component(parts) < 3
                        &&& t@ == parts[first_bad_component(parts)]
                    },
                }
            }),
    {
        let parts = crate::core_types::text::split_char(s, '.');
        let ghost pv = strings_view(parts@);
        if parts.len() != 3 {
            return Err(VersionError::InvalidFormat(s.to_owned()));
        }
        assert(pv[0] == parts@[0]@ && pv[1] == parts@[1]@ && pv[2] == parts@[2]@);
        let major = match crate::core_types::text::parse_u64(parts[0].as_str()) {
            Some(v) => v,
            None => return Err(VersionError::InvalidComponent(parts[0].clone())),
        };
        let minor = match crate::core_types::text::parse_u64(parts[1].as_str()) {
            Some(v) => v,
            None => return Err(VersionError::InvalidComponent(parts[1].clone())),
        };
        let patch = match crate::core_types::text::parse_u64(parts[2].as_str()) {
            Some(v) => v,
            None => return Err(VersionError::InvalidComponent(parts[2].clone())),
        };
        Ok(Version { major, minor, patch })
    }

    /// The components as an array.
    pub fn as_array(&self) -> (a: [u64; 3])
        ensures
            a@ == seq![self.major, self.minor, self.patch],
    {
        let a = [self.major, self.minor, self.patch];
        assert(a@ =~= seq![self.major, self.minor, self.patch]);
        a
    }

    /// Rendering as `major.minor.patch`.
    pub fn to_string(&self) -> (s: String)
        ensures
            s@ == spec_version_text(*self),
    {
        proof {
            reveal_strlit(".");
        }
        let mut s = crate::core_types::text::u64_to_decimal(self.major);
        s.append(".");
        let m = crate::core_types::text::u64_to_decimal(self.minor);
        s.append(m.as_str());
        s.append(".");
        let p = crate::core_types::text::u64_to_decimal(self.patch);
        s.append(p.as_str());
        s
    }
}

impl Default for Version {
    fn default() -> (v: Self)
        ensures
            v.major == 0,
            v.minor == 1,
            v.patch == 0,
    {
        Version { major: 0, minor: 1, patch: 0 }
    }
}

impl VersionError {
    /// The error message.
    pub fn message(&self) -> (s: String)
        ensures
            s@ == match self {
                VersionError::InvalidFormat(t) => "Invalid version format: "@ + t@,
                VersionError::InvalidComponent(t) => "Invalid version component: "@ + t@,
            },
    {
        match self {
            VersionError::InvalidFormat(t) => {
                let mut s = String::new();
                s.append("Invalid version format: ");
                s.append(t.as_str());
                s
            },
            VersionError::InvalidComponent(t) => {
                let mut s = String::new();
                s.append("Invalid version component: ");
                s.append(t.as_str());
                s
            },
        }
    }
}

/// The text of a version.
pub open spec fn spec_version_text(v: Version) -> Seq<char> {
    spec_u64_decimal(v.major) + seq!['.'] + spec_u64_decimal(v.minor) + seq!['.'] + spec_u64_decimal(v.patch)
}

/// Parsing the text of a version gives the version back: the text splits at
/// its dots into the three decimal components, each of which parses to its
/// number.
pub proof fn lemma_parse_to_string(v: Version)
    ensures
        ({
            let parts = spec_split(spec_version_text(v), '.');
            &&& parts.len() == 3
            &&& first_bad_component(parts) == 3
            &&& spec_parse_u64(parts[0]) == Some(v.major)
            &&& spec_parse_u64(parts[1]) == Some(v.minor)
            &&& spec_parse_u64(parts[2]) == Some(v.patch)
        }),
{
    let a = spec_u64_decimal(v.major);
    let b = spec_u64_decimal(v.minor);
    let c = spec_u64_decimal(v.patch);
    lemma_decimal_digits(v.major as nat);
    lemma_decimal_digits(v.minor as nat);
    lemma_decimal_digits(v.patch as nat);
    lemma_digits_exclude(a, '.');
    lemma_digits_exclude(b, '.');
    lemma_digits_exclude(c, '.');
    lemma_split_pair(a, b, '.');
    lemma_split_append(a + seq!['.'] + b, c, '.');
    assert(spec_version_text(v) =~= (a + seq!['.'] + b) + seq!['.'] + c);
    let parts = spec_split(spec_version_text(v), '.');
    assert(parts =~= seq![a, b, c]);
    lemma_parse_decimal(v.major);
    lemma_parse_decimal(v.minor);
    lemma_parse_decimal(v.patch);
}

} // verus!
