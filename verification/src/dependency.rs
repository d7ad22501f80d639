//! Extraction of the module references that a configuration file declares.
//!
//! A reference is recognised on one line at a time: `source = "<path>"` or
//! `config_path = "<path>"`, split on whitespace. Only references to
//! relative paths count; registry identifiers and the like are passed over.

use crate::dir::{get_stripped_parent, strip_current_dir, stripped};
use crate::graph::{ModuleFile, ModuleFileView};
use crate::path::{join, parent_of, path_join, path_parent, texts};
use crate::text::{
    before_first, before_first_index, chars_of, copy_range, line_ranges, line_ranges_from, lines,
    range_equals, split_whitespace, strip_prefix_index, strip_prefix_repeated, token_ranges,
    token_ranges_from, trim_end_index, trim_matches, trim_start_index, widen,
};
use vstd::prelude::*;
use vstd::string::*;

verus! {

/// The reference that a third token spells: the token without the quotes
/// around it, without a leading `git::` scheme, and cut before the first `?`.
pub open spec fn clean_reference(token: Seq<char>) -> Seq<char> {
    before_first(strip_prefix_repeated(trim_matches(token, '"'), "git::"@), '?')
}

/// Whether `token` is one of the two keywords that introduce a reference.
pub open spec fn is_reference_keyword(token: Seq<char>) -> bool {
    token == "source"@ || token == "config_path"@
}

/// The relative path that `line` refers to, if it refers to one.
pub open spec fn dependency_of_line(line: Seq<char>) -> Option<Seq<char>> {
    let tokens = split_whitespace(line);
    if tokens.len() >= 3 && is_reference_keyword(tokens[0]) && tokens[1] == "="@ {
        let reference = clean_reference(tokens[2]);
        if reference.len() > 0 && reference[0] == '.' {
            Some(reference)
        } else {
            None
        }
    } else {
        None
    }
}

/// A line whose first token is neither `source` nor `config_path` refers to
/// nothing. So does a line without tokens.
pub proof fn lemma_other_keyword_gives_none(line: Seq<char>)
    requires
        split_whitespace(line).len() == 0 || !is_reference_keyword(split_whitespace(line)[0]),
    ensures
        dependency_of_line(line) is None,
{
}

/// A line whose reference does not begin with a dot refers to nothing,
/// whatever its keyword: registry identifiers are no dependencies.
pub proof fn lemma_reference_without_dot_gives_none(line: Seq<char>)
    requires
        split_whitespace(line).len() >= 3,
        clean_reference(split_whitespace(line)[2]).len() == 0 || clean_reference(
            split_whitespace(line)[2],
        )[0] != '.',
    ensures
        dependency_of_line(line) is None,
{
}

/// Every dependency begins with a dot.
pub proof fn lemma_dependency_begins_with_dot(line: Seq<char>)
    requires
        dependency_of_line(line) is Some,
    ensures
        dependency_of_line(line).unwrap().len() > 0,
        dependency_of_line(line).unwrap()[0] == '.',
{
}

/// Position of the dependency that the line `chars` refers to, if any.
fn dependency_range(chars: &Vec<char>) -> (r: Option<(usize, usize)>)
    ensures
        r.is_some() == dependency_of_line(chars@).is_some(),
        r.is_some() ==> {
            &&& r.unwrap().0 <= r.unwrap().1 <= chars.len()
            &&& chars@.subrange(r.unwrap().0 as int, r.unwrap().1 as int) == dependency_of_line(
                chars@,
            ).unwrap()
        },
{
    let ghost line = chars@;
    let ranges = token_ranges(chars);
    proof {
        assert(split_whitespace(line).len() == ranges@.len());
    }
    if ranges.len() < 3 {
        return None;
    }
    let source = chars_of("source");
    let config_path = chars_of("config_path");
    let equals = chars_of("=");
    let scheme = chars_of("git::");
    let (a0, b0) = ranges[0];
    let (a1, b1) = ranges[1];
    let (a2, b2) = ranges[2];
    proof {
        let t = token_ranges_from(line, 0);
        assert(t[0] == widen(ranges@)[0]);
        assert(t[1] == widen(ranges@)[1]);
        assert(t[2] == widen(ranges@)[2]);
        assert(split_whitespace(line)[0] == chars@.subrange(a0 as int, b0 as int));
        assert(split_whitespace(line)[1] == chars@.subrange(a1 as int, b1 as int));
        assert(split_whitespace(line)[2] == chars@.subrange(a2 as int, b2 as int));
    }
    if !range_equals(chars, a0, b0, &source) && !range_equals(chars, a0, b0, &config_path) {
        return None;
    }
    if !range_equals(chars, a1, b1, &equals) {
        return None;
    }
    let lo = trim_start_index(chars, a2, b2, '"');
    let hi = trim_end_index(chars, lo, b2, '"');
    let lo = strip_prefix_index(chars, lo, hi, &scheme);
    let hi = before_first_index(chars, lo, hi, '?');
    if lo < hi && chars[lo] == '.' {
        Some((lo, hi))
    } else {
        None
    }
}

/// Reads one line and returns the relative path it refers to, if any.
///
/// A line refers to a path when its first token is `source` or
/// `config_path`, its second is `=`, and what its third token spells (see
/// [`clean_reference`]) begins with a dot. Every other line gives `None`.
pub fn get_dependency_from_line(line: &str) -> (r: Option<&str>)
    ensures
        r.is_some() == dependency_of_line(line@).is_some(),
        r.is_some() ==> r.unwrap()@ == dependency_of_line(line@).unwrap(),
{
    let chars = chars_of(line);
    match dependency_range(&chars) {
        Some((lo, hi)) => Some(line.substring_char(lo, hi)),
        None => None,
    }
}

/// The dependencies that `lines` declare, each joined onto `dir`, in the
/// order of the lines.
pub open spec fn joined_dependencies(dir: Seq<char>, lines: Seq<Seq<char>>) -> Seq<Seq<char>>
    decreases lines.len(),
{
    if lines.len() == 0 {
        Seq::empty()
    } else {
        let before = joined_dependencies(dir, lines.drop_last());
        match dependency_of_line(lines.last()) {
            Some(d) => before.push(path_join(dir, d)),
            None => before,
        }
    }
}

/// The modules that the file at `file` refers to, given the file's text.
///
/// Each line of `content` is read by [`get_dependency_from_line`]; each path
/// found is joined onto the directory that holds `file`. The paths come back
/// as written, one for each reference, in the order of the lines. `None`
/// comes back only for a `file` that has no parent directory.
pub fn get_dependencies(file: &str, content: &str) -> (r: Option<Vec<String>>)
    ensures
        r.is_some() == path_parent(file@).is_some(),
        r.is_some() ==> texts(r.unwrap()@) == joined_dependencies(
            path_parent(file@).unwrap(),
            lines(content@),
        ),
{
    let dir = match parent_of(file) {
        Some(d) => d,
        None => {
            return None;
        },
    };
    let chars = chars_of(content);
    let ranges = line_ranges(&chars);
    let mut found: Vec<String> = Vec::new();
    let mut k: usize = 0;
    proof {
        assert(lines(content@).len() == ranges@.len());
        assert(lines(content@).take(0) =~= Seq::<Seq<char>>::empty());
        assert(texts(found@) =~= Seq::<Seq<char>>::empty());
    }
    while k < ranges.len()
        invariant
            chars@ == content@,
            widen(ranges@) == line_ranges_from(chars@, 0),
            forall|j: int| 0 <= j < ranges.len() ==> (#[trigger] ranges[j]).0 <= ranges[j].1
                <= chars.len(),
            lines(content@).len() == ranges@.len(),
            k <= ranges.len(),
            texts(found@) == joined_dependencies(dir@, lines(content@).take(k as int)),
        decreases ranges.len() - k,
    {
        let (lo, hi) = ranges[k];
        let line = copy_range(&chars, lo, hi);
        proof {
            assert(line_ranges_from(chars@, 0)[k as int] == widen(ranges@)[k as int]);
            assert(lines(content@)[k as int] == line@);
            assert(lines(content@).take(k + 1).drop_last() =~= lines(content@).take(k as int));
            assert(lines(content@).take(k + 1).last() == line@);
        }
        match dependency_range(&line) {
            Some((a, b)) => {
                proof {
                    assert(chars@.subrange(lo as int, hi as int).subrange(a as int, b as int)
                        =~= content@.subrange(lo + a, lo + b));
                }
                let dependency = content.substring_char(lo + a, lo + b);
                let joined = join(dir.as_str(), dependency);
                proof {
                    assert(texts(found@.push(joined)) =~= texts(found@).push(joined@));
                }
                found.push(joined);
            },
            None => {},
        }
        k = k + 1;
    }
    proof {
        assert(lines(content@).take(k as int) =~= lines(content@));
    }
    Some(found)
}

/// The path that stands for a dependency in the graph.
///
/// `path` is the dependency as [`get_dependencies`] found it; `canonical` is
/// what resolving it on disk gave, or `None` where that failed. The resolved
/// path is preferred; either way the result is relative to `current_dir`, so
/// a dependency that cannot be resolved is still recorded, as written.
pub fn get_relative_path(path: &str, canonical: Option<&str>, current_dir: &str) -> (r: String)
    ensures
        r@ == stripped(
            match canonical {
                Some(c) => c@,
                None => path@,
            },
            current_dir@,
        ),
{
    match canonical {
        Some(c) => strip_current_dir(c, current_dir),
        None => strip_current_dir(path, current_dir),
    }
}

/// What stands for each dependency in the graph: for the `k`th of
/// `dependencies`, the `k`th of `canonical` where there is one, else the
/// dependency itself, relative to `current_dir`.
pub open spec fn relative_paths(
    dependencies: Seq<Seq<char>>,
    canonical: Seq<Option<String>>,
    current_dir: Seq<char>,
) -> Seq<Seq<char>> {
    Seq::new(
        dependencies.len(),
        |k: int|
            stripped(
                match canonical[k] {
                    Some(c) => c@,
                    None => dependencies[k],
                },
                current_dir,
            ),
    )
}

/// One file as the graph takes it in: the directory that holds `file`,
/// relative to `current_dir`, and the file's dependencies as
/// [`get_relative_path`] records them. `dependencies` are the paths that
/// [`get_dependencies`] found; `canonical` holds, for each of them, what
/// resolving it on disk gave. `None` for a `file` without a parent.
pub fn module_file(
    file: &str,
    dependencies: &Vec<String>,
    canonical: &Vec<Option<String>>,
    current_dir: &str,
) -> (r: Option<ModuleFile>)
    requires
        canonical.len() == dependencies.len(),
    ensures
        r.is_some() == path_parent(file@).is_some(),
        r.is_some() ==> r.unwrap()@ == (ModuleFileView {
            dir: stripped(path_parent(file@).unwrap(), current_dir@),
            dependencies: relative_paths(texts(dependencies@), canonical@, current_dir@),
        }),
{
    let dir = match get_stripped_parent(file, current_dir) {
        Some(dir) => dir,
        None => {
            return None;
        },
    };
    let ghost wanted = relative_paths(texts(dependencies@), canonical@, current_dir@);
    let mut relative: Vec<String> = Vec::new();
    let mut k: usize = 0;
    proof {
        assert(texts(relative@) =~= wanted.take(0));
    }
    while k < dependencies.len()
        invariant
            k <= dependencies.len(),
            canonical.len() == dependencies.len(),
            wanted == relative_paths(texts(dependencies@), canonical@, current_dir@),
            texts(relative@) == wanted.take(k as int),
        decreases dependencies.len() - k,
    {
        let path = match &canonical[k] {
            Some(c) => get_relative_path(dependencies[k].as_str(), Some(c.as_str()), current_dir),
            None => get_relative_path(dependencies[k].as_str(), None, current_dir),
        };
        proof {
            assert(texts(dependencies@)[k as int] == dependencies[k as int]@);
            assert(wanted[k as int] == path@);
            assert(texts(relative@.push(path)) =~= texts(relative@).push(path@));
            assert(wanted.take(k as int).push(wanted[k as int]) =~= wanted.take(k + 1));
        }
        relative.push(path);
        k = k + 1;
    }
    proof {
        assert(wanted.take(k as int) =~= wanted);
    }
    Some(ModuleFile { dir, dependencies: relative })
}

} // verus!
