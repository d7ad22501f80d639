//! The files of interest among what a walk over the repository finds.

use crate::path::{extension_of, file_name_of, path_extension, texts};
use crate::plan_pr::{is_lock_file, LOCKFILE};
use crate::text::same_text;
use vstd::prelude::*;
use vstd::string::*;

verus! {

/// One entry of a walk: a path, and whether it is a directory.
#[derive(Debug)]
pub struct WalkEntry {
    pub path: String,
    pub is_dir: bool,
}

/// The mathematical value of a [`WalkEntry`].
pub ghost struct WalkEntryView {
    pub path: Seq<char>,
    pub is_dir: bool,
}

impl View for WalkEntry {
    type V = WalkEntryView;

    open spec fn view(&self) -> WalkEntryView {
        WalkEntryView { path: self.path@, is_dir: self.is_dir }
    }
}

/// The values of a list of entries.
pub open spec fn entry_views(v: Seq<WalkEntry>) -> Seq<WalkEntryView> {
    v.map_values(|e: WalkEntry| e@)
}

/// Whether `e` is a file that may declare a dependency: a file with the
/// extension `tf` or `hcl`.
pub open spec fn is_module_file(e: WalkEntryView) -> bool {
    !e.is_dir && (path_extension(e.path) == Some("tf"@) || path_extension(e.path) == Some("hcl"@))
}

/// Whether `e` is a lockfile: a file named [`LOCKFILE`].
pub open spec fn is_lockfile_entry(e: WalkEntryView) -> bool {
    !e.is_dir && is_lock_file(e.path)
}

/// The paths of the files that may declare a dependency, in the order
/// given.
pub open spec fn module_files_of(entries: Seq<WalkEntryView>) -> Seq<Seq<char>>
    decreases entries.len(),
{
    if entries.len() == 0 {
        Seq::empty()
    } else {
        let before = module_files_of(entries.drop_last());
        if is_module_file(entries.last()) {
            before.push(entries.last().path)
        } else {
            before
        }
    }
}

/// The paths of the lockfiles, in the order given.
pub open spec fn lockfiles_of(entries: Seq<WalkEntryView>) -> Seq<Seq<char>>
    decreases entries.len(),
{
    if entries.len() == 0 {
        Seq::empty()
    } else {
        let before = lockfiles_of(entries.drop_last());
        if is_lockfile_entry(entries.last()) {
            before.push(entries.last().path)
        } else {
            before
        }
    }
}

/// Get all the files that might contain a dependency.
pub fn get_all_tf_and_hcl_files(entries: &Vec<WalkEntry>) -> (r: Vec<String>)
    ensures
        texts(r@) == module_files_of(entry_views(entries@)),
{
    let ghost all = entry_views(entries@);
    let mut files: Vec<String> = Vec::new();
    let mut i: usize = 0;
    proof {
        assert(all.take(0) =~= Seq::<WalkEntryView>::empty());
        assert(texts(files@) =~= Seq::<Seq<char>>::empty());
    }
    while i < entries.len()
        invariant
            i <= entries.len(),
            all == entry_views(entries@),
            texts(files@) == module_files_of(all.take(i as int)),
        decreases entries.len() - i,
    {
        let entry = &entries[i];
        proof {
            assert(all.take(i + 1).drop_last() =~= all.take(i as int));
            assert(all.take(i + 1).last() == entry@);
        }
        let wanted = !entry.is_dir && match extension_of(entry.path.as_str()) {
            Some(extension) => same_text(extension.as_str(), "tf") || same_text(
                extension.as_str(),
                "hcl",
            ),
            None => false,
        };
        if wanted {
            proof {
                assert(texts(files@.push(entry.path)) =~= texts(files@).push(entry.path@));
            }
            files.push(entry.path.clone());
        }
        i = i + 1;
    }
    proof {
        assert(all.take(i as int) =~= all);
    }
    files
}

/// Get all the lockfiles.
pub fn get_all_lockfiles(entries: &Vec<WalkEntry>) -> (r: Vec<String>)
    ensures
        texts(r@) == lockfiles_of(entry_views(entries@)),
{
    let ghost all = entry_views(entries@);
    let mut files: Vec<String> = Vec::new();
    let mut i: usize = 0;
    proof {
        assert(all.take(0) =~= Seq::<WalkEntryView>::empty());
        assert(texts(files@) =~= Seq::<Seq<char>>::empty());
    }
    while i < entries.len()
        invariant
            i <= entries.len(),
            all == entry_views(entries@),
            texts(files@) == lockfiles_of(all.take(i as int)),
        decreases entries.len() - i,
    {
        let entry = &entries[i];
        proof {
            assert(all.take(i + 1).drop_last() =~= all.take(i as int));
            assert(all.take(i + 1).last() == entry@);
        }
        let wanted = !entry.is_dir && match file_name_of(entry.path.as_str()) {
            Some(name) => same_text(name.as_str(), LOCKFILE),
            None => false,
        };
        if wanted {
            proof {
                assert(texts(files@.push(entry.path)) =~= texts(files@).push(entry.path@));
            }
            files.push(entry.path.clone());
        }
        i = i + 1;
    }
    proof {
        assert(all.take(i as int) =~= all);
    }
    files
}

} // verus!
