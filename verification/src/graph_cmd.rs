//! The graph of modules as text, and the modules that are marked in it.

use crate::dir::{strip_current_dir, stripped};
use crate::graph::{
    annotation, file_views, graph_of, labels_of, mention_count, ModuleFile, ModulesGraph,
};
use crate::graph_store::dot_text;
use crate::path::texts;
use crate::plan_pr::{all_have_parents, get_parents, parents_of};
use crate::text::{ordered_set, ordered_set_of};
use crate::upgrade_provider::{all_lockfiles_of, Providers};
use vstd::prelude::*;
use vstd::string::*;

verus! {

/// Each of `dirs` as seen from `current_dir`.
pub open spec fn all_stripped(dirs: Seq<Seq<char>>, current_dir: Seq<char>) -> Seq<Seq<char>> {
    dirs.map_values(|d: Seq<char>| stripped(d, current_dir))
}

/// The modules with an outdated provider: the directory of every lockfile
/// of `outdated_providers`, as seen from `current_dir`, each directory
/// once, in ascending order. `None` where a lockfile has no directory.
pub fn get_packages_with_outdated_providers(outdated_providers: &Providers, current_dir: &str) -> (r:
    Option<Vec<String>>)
    ensures
        r.is_some() == all_have_parents(all_lockfiles_of(outdated_providers@)),
        r.is_some() ==> texts(r.unwrap()@) == ordered_set_of(
            all_stripped(parents_of(all_lockfiles_of(outdated_providers@)), current_dir@),
        ),
{
    let lockfiles = outdated_providers.all_lockfiles();
    let parents = match get_parents(&lockfiles) {
        Some(parents) => parents,
        None => {
            return None;
        },
    };
    let ghost wanted = all_stripped(texts(parents@), current_dir@);
    let mut dirs: Vec<String> = Vec::new();
    let mut i: usize = 0;
    proof {
        assert(texts(dirs@) =~= wanted.take(0));
    }
    while i < parents.len()
        invariant
            i <= parents.len(),
            wanted == all_stripped(texts(parents@), current_dir@),
            texts(dirs@) == wanted.take(i as int),
        decreases parents.len() - i,
    {
        let dir = strip_current_dir(parents[i].as_str(), current_dir);
        proof {
            assert(wanted[i as int] == dir@);
            assert(texts(dirs@.push(dir)) =~= texts(dirs@).push(dir@));
            assert(wanted.take(i as int).push(wanted[i as int]) =~= wanted.take(i + 1));
        }
        dirs.push(dir);
        i = i + 1;
    }
    proof {
        assert(wanted.take(i as int) =~= wanted);
    }
    Some(ordered_set(&dirs))
}

/// The graph of `files` in graphviz notation.
///
/// Where `outdated_packages` is given, the nodes are marked: a module on
/// the list as outdated, another module in `with_lockfile` as up to date.
/// The nodes and edges have to fit the graph's 32-bit indices.
pub fn print_graph(
    files: &Vec<ModuleFile>,
    outdated_packages: Option<&Vec<String>>,
    with_lockfile: &Vec<String>,
) -> (r: String)
    requires
        mention_count(file_views(files@)) < u32::MAX,
    ensures
        r@ == dot_text(
            labels_of(
                graph_of(file_views(files@)).dirs,
                annotation(outdated_packages, with_lockfile),
            ),
            graph_of(file_views(files@)).edges,
        ),
{
    let graph = ModulesGraph::new(files, outdated_packages, with_lockfile);
    graph.to_dot()
}

} // verus!
