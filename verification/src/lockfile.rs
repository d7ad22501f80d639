//! Reading the providers that a lockfile pins.
//!
//! A lockfile names a provider on a line that begins with `provider`; the
//! provider's name is the second token of that line, in quotes, with the
//! registry `registry.terraform.io/` in front. The version is the third
//! token of the line that follows, in quotes.

use crate::path::texts;
use crate::text::{
    chars_of, has_prefix, lines, range_has_prefix, split_lines, split_whitespace, token_ranges,
    token_ranges_from, trim_end_index, trim_matches, trim_start_index, widen,
};
use crate::version::{is_version, Version};
use vstd::prelude::*;
use vstd::string::*;

verus! {

/// Why a lockfile cannot be read.
#[derive(Clone, Copy, Debug, PartialEq, Eq, Structural)]
pub enum LockfileError {
    /// A `provider` line has no second token.
    MissingProviderName,
    /// A provider's name does not begin with `registry.terraform.io/`.
    InvalidProviderName,
    /// The line after a `provider` line has no third token.
    MissingVersion,
    /// The text in the place of a version is no version.
    InvalidVersion,
}

/// The registry that every provider's name begins with.
pub open spec fn registry_prefix() -> Seq<char> {
    "registry.terraform.io/"@
}

/// The provider that a `provider` line names.
pub open spec fn provider_name_of(line: Seq<char>) -> Result<Seq<char>, LockfileError> {
    let tokens = split_whitespace(line);
    if tokens.len() < 2 {
        Err(LockfileError::MissingProviderName)
    } else {
        let quoted = trim_matches(tokens[1], '"');
        if has_prefix(quoted, registry_prefix()) {
            Ok(quoted.skip(registry_prefix().len() as int))
        } else {
            Err(LockfileError::InvalidProviderName)
        }
    }
}

/// The version that the line after a `provider` line gives.
pub open spec fn version_of_line(line: Seq<char>) -> Result<Seq<char>, LockfileError> {
    let tokens = split_whitespace(line);
    if tokens.len() < 3 {
        Err(LockfileError::MissingVersion)
    } else {
        let text = trim_matches(tokens[2], '"');
        if is_version(text) {
            Ok(text)
        } else {
            Err(LockfileError::InvalidVersion)
        }
    }
}

/// The providers that the lines from `i` on pin, each with its version, or
/// the first error met. A `provider` line takes the next line with it; one
/// that stands last pins nothing.
pub open spec fn pins_from(lines: Seq<Seq<char>>, i: int) -> Result<
    Seq<(Seq<char>, Seq<char>)>,
    LockfileError,
>
    decreases lines.len() - i,
{
    if i < 0 || i >= lines.len() {
        Ok(Seq::empty())
    } else if !has_prefix(lines[i], "provider"@) {
        pins_from(lines, i + 1)
    } else {
        match provider_name_of(lines[i]) {
            Err(e) => Err(e),
            Ok(name) => if i + 1 >= lines.len() {
                Ok(Seq::empty())
            } else {
                match version_of_line(lines[i + 1]) {
                    Err(e) => Err(e),
                    Ok(version) => match pins_from(lines, i + 2) {
                        Err(e) => Err(e),
                        Ok(rest) => Ok(seq![(name, version)] + rest),
                    },
                }
            },
        }
    }
}

/// The values of a list of pinned providers.
pub open spec fn pin_views(v: Seq<(String, Version)>) -> Seq<(Seq<char>, Seq<char>)> {
    v.map_values(|p: (String, Version)| (p.0@, p.1@))
}

/// Position of the `n`th token of `line` without the quotes around it.
fn unquoted_token(chars: &Vec<char>, n: usize) -> (r: Option<(usize, usize)>)
    ensures
        r.is_some() == (n < split_whitespace(chars@).len()),
        r.is_some() ==> {
            &&& r.unwrap().0 <= r.unwrap().1 <= chars.len()
            &&& chars@.subrange(r.unwrap().0 as int, r.unwrap().1 as int) == trim_matches(
                split_whitespace(chars@)[n as int],
                '"',
            )
        },
{
    let ranges = token_ranges(chars);
    proof {
        assert(split_whitespace(chars@).len() == ranges@.len());
    }
    if n >= ranges.len() {
        return None;
    }
    let (a, b) = ranges[n];
    proof {
        assert(token_ranges_from(chars@, 0)[n as int] == widen(ranges@)[n as int]);
        assert(split_whitespace(chars@)[n as int] == chars@.subrange(a as int, b as int));
    }
    let lo = trim_start_index(chars, a, b, '"');
    let hi = trim_end_index(chars, lo, b, '"');
    Some((lo, hi))
}

/// The provider that a `provider` line names; see [`provider_name_of`].
fn provider_name(line: &str) -> (r: Result<String, LockfileError>)
    ensures
        match r {
            Ok(name) => provider_name_of(line@) == Ok::<Seq<char>, LockfileError>(name@),
            Err(e) => provider_name_of(line@) == Err::<Seq<char>, LockfileError>(e),
        },
{
    let chars = chars_of(line);
    match unquoted_token(&chars, 1) {
        None => Err(LockfileError::MissingProviderName),
        Some((lo, hi)) => {
            let prefix = chars_of("registry.terraform.io/");
            if range_has_prefix(&chars, lo, hi, &prefix) {
                proof {
                    assert(chars@.subrange(lo as int, hi as int).skip(prefix@.len() as int)
                        =~= line@.subrange(lo + prefix@.len(), hi as int));
                }
                Ok(String::from_str(line.substring_char(lo + prefix.len(), hi)))
            } else {
                Err(LockfileError::InvalidProviderName)
            }
        },
    }
}

/// The version that the line after a `provider` line gives; see
/// [`version_of_line`].
fn version_on(line: &str) -> (r: Result<Version, LockfileError>)
    ensures
        match r {
            Ok(version) => version_of_line(line@) == Ok::<Seq<char>, LockfileError>(version@),
            Err(e) => version_of_line(line@) == Err::<Seq<char>, LockfileError>(e),
        },
{
    let chars = chars_of(line);
    match unquoted_token(&chars, 2) {
        None => Err(LockfileError::MissingVersion),
        Some((lo, hi)) => match Version::parse(line.substring_char(lo, hi)) {
            Some(version) => Ok(version),
            None => Err(LockfileError::InvalidVersion),
        },
    }
}

/// Whether `line` begins with `provider`.
fn is_provider_line(line: &str) -> (r: bool)
    ensures
        r == has_prefix(line@, "provider"@),
{
    let chars = chars_of(line);
    let word = chars_of("provider");
    let r = range_has_prefix(&chars, 0, chars.len(), &word);
    proof {
        assert(chars@.subrange(0, chars.len() as int) =~= line@);
    }
    r
}

/// `found` in front of what `rest` gives.
pub open spec fn pins_after(
    found: Seq<(Seq<char>, Seq<char>)>,
    rest: Result<Seq<(Seq<char>, Seq<char>)>, LockfileError>,
) -> Result<Seq<(Seq<char>, Seq<char>)>, LockfileError> {
    match rest {
        Ok(more) => Ok(found + more),
        Err(e) => Err(e),
    }
}

/// The providers that a lockfile pins, each with its version, in the order
/// of the file; or the first error met.
pub fn read_lockfile(content: &str) -> (r: Result<Vec<(String, Version)>, LockfileError>)
    ensures
        match r {
            Ok(pins) => pins_from(lines(content@), 0) == Ok::<
                Seq<(Seq<char>, Seq<char>)>,
                LockfileError,
            >(pin_views(pins@)),
            Err(e) => pins_from(lines(content@), 0) == Err::<
                Seq<(Seq<char>, Seq<char>)>,
                LockfileError,
            >(e),
        },
{
    let all = split_lines(content);
    let ghost lines = texts(all@);
    let mut pins: Vec<(String, Version)> = Vec::new();
    let mut i: usize = 0;
    proof {
        assert(pin_views(pins@) =~= Seq::<(Seq<char>, Seq<char>)>::empty());
        assert(pins_after(pin_views(pins@), pins_from(lines, 0)) == pins_from(lines, 0)) by {
            match pins_from(lines, 0) {
                Ok(more) => {
                    assert(Seq::<(Seq<char>, Seq<char>)>::empty() + more =~= more);
                },
                Err(_) => {},
            }
        }
    }
    while i < all.len()
        invariant
            lines == texts(all@),
            lines == crate::text::lines(content@),
            i <= all.len(),
            pins_from(lines, 0) == pins_after(pin_views(pins@), pins_from(lines, i as int)),
        decreases all.len() - i,
    {
        proof {
            assert(lines[i as int] == all[i as int]@);
        }
        if !is_provider_line(all[i].as_str()) {
            i = i + 1;
        } else {
            let name = match provider_name(all[i].as_str()) {
                Ok(name) => name,
                Err(e) => {
                    return Err(e);
                },
            };
            if i + 1 >= all.len() {
                proof {
                    assert(pin_views(pins@) + Seq::<(Seq<char>, Seq<char>)>::empty() =~= pin_views(
                        pins@,
                    ));
                }
                return Ok(pins);
            }
            proof {
                assert(lines[i + 1] == all[i + 1]@);
            }
            let version = match version_on(all[i + 1].as_str()) {
                Ok(version) => version,
                Err(e) => {
                    return Err(e);
                },
            };
            proof {
                let found = pin_views(pins@);
                let one = seq![(name@, version@)];
                assert(pin_views(pins@.push((name, version))) =~= found + one);
                match pins_from(lines, i + 2) {
                    Ok(rest) => {
                        assert(found + (one + rest) =~= (found + one) + rest);
                    },
                    Err(_) => {},
                }
            }
            pins.push((name, version));
            i = i + 2;
        }
    }
    proof {
        assert(pin_views(pins@) + Seq::<(Seq<char>, Seq<char>)>::empty() =~= pin_views(pins@));
    }
    Ok(pins)
}

} // verus!
