//! Paths relative to the directory that a scan starts from.

use crate::path::{
    ends_with, parent_of, path_ends_with, path_parent, path_strip_prefix, strip_prefix,
};
use vstd::prelude::*;
use vstd::string::*;

verus! {

/// `path` as seen from `current_dir`, or `path` itself where it does not lie
/// under `current_dir`.
pub open spec fn stripped(path: Seq<char>, current_dir: Seq<char>) -> Seq<char> {
    match path_strip_prefix(path, current_dir) {
        Some(rest) => rest,
        None => path,
    }
}

/// Re-expresses `path` relative to `current_dir`. A path that does not lie
/// under `current_dir` comes back unchanged.
pub fn strip_current_dir(path: &str, current_dir: &str) -> (r: String)
    ensures
        r@ == stripped(path@, current_dir@),
{
    match strip_prefix(path, current_dir) {
        Some(rest) => rest,
        None => String::from_str(path),
    }
}

/// The directory that holds `path`, relative to `current_dir`; `None` where
/// `path` has no parent.
pub fn get_stripped_parent(path: &str, current_dir: &str) -> (r: Option<String>)
    ensures
        r.is_some() == path_parent(path@).is_some(),
        r.is_some() ==> r.unwrap()@ == stripped(path_parent(path@).unwrap(), current_dir@),
{
    match parent_of(path) {
        Some(parent) => Some(strip_current_dir(parent.as_str(), current_dir)),
        None => None,
    }
}

/// Whether `current_dir` is a checkout of the repository this tool is for:
/// its last component must be `simpleinfra`.
pub fn current_dir_is_simpleinfra(current_dir: &str) -> (r: bool)
    ensures
        r == path_ends_with(current_dir@, "simpleinfra"@),
{
    ends_with(current_dir, "simpleinfra")
}

} // verus!
