//! Versions of providers, read and ordered by `semver`.
//!
//! A version is held as the text it is written as. Whether a text is a
//! version, and which of two versions comes first, is asked of `semver`.

use crate::text::same_text;
use vstd::prelude::*;
use vstd::string::*;

verus! {

/// `semver::Error`, the reason why a text is no version. Nothing is
/// claimed of what it holds.
#[verifier::external_type_specification]
#[verifier::external_body]
pub struct ExSemverError(semver::Error);

/// Whether `semver::Version::parse` accepts `text`.
pub uninterp spec fn is_version(text: Seq<char>) -> bool;

/// Whether `a` and `b` are both versions and `a` comes before `b` in the
/// order of `semver::Version`.
pub uninterp spec fn version_before(a: Seq<char>, b: Seq<char>) -> bool;

/// Calls `semver::Version::parse` and drops the parsed value. Trusted: the
/// call succeeds exactly on the texts that [`is_version`] names.
#[verifier::external_body]
fn check_version(text: &str) -> (r: Result<(), semver::Error>)
    ensures
        r is Ok == is_version(text@),
{
    semver::Version::parse(text).map(|_| ())
}

/// Calls `semver::Version::parse` on both texts and compares what they give
/// with `<`; a text that is no version makes the answer `false`. Trusted:
/// the answer is what [`version_before`] names.
#[verifier::external_body]
fn version_less(a: &str, b: &str) -> (r: bool)
    ensures
        r == version_before(a@, b@),
{
    match (semver::Version::parse(a), semver::Version::parse(b)) {
        (Ok(x), Ok(y)) => x < y,
        _ => false,
    }
}

/// A version: a text that `semver` accepts as one.
#[derive(Debug, PartialEq, Eq)]
pub struct Version {
    text: String,
}

impl View for Version {
    type V = Seq<char>;

    closed spec fn view(&self) -> Seq<char> {
        self.text@
    }
}

impl Version {
    #[verifier::type_invariant]
    spec fn valid(&self) -> bool {
        is_version(self.text@)
    }

    /// Reads a version; `None` where `text` is none.
    pub fn parse(text: &str) -> (r: Option<Version>)
        ensures
            r.is_some() == is_version(text@),
            r.is_some() ==> r.unwrap()@ == text@,
    {
        match check_version(text) {
            Ok(_) => Some(Version { text: String::from_str(text) }),
            Err(_) => None,
        }
    }

    /// The version as it is written.
    pub fn as_str(&self) -> (r: &str)
        ensures
            r@ == self@,
            is_version(self@),
    {
        proof {
            use_type_invariant(self);
        }
        self.text.as_str()
    }

    /// Whether this version and `other` are the same.
    pub fn same_as(&self, other: &Version) -> (r: bool)
        ensures
            r == (self@ == other@),
    {
        same_text(self.text.as_str(), other.text.as_str())
    }

    /// Whether this version comes before `other`.
    pub fn precedes(&self, other: &Version) -> (r: bool)
        ensures
            r == version_before(self@, other@),
    {
        version_less(self.text.as_str(), other.text.as_str())
    }

    /// Another value of the same version.
    pub fn duplicate(&self) -> (r: Version)
        ensures
            r@ == self@,
    {
        proof {
            use_type_invariant(self);
        }
        Version { text: self.text.clone() }
    }
}

} // verus!
