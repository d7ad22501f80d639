//! What holds of every graph of modules, whatever the files and the order
//! in which they are taken in.

use crate::graph::{
    dependents_of, graph_of, lemma_index_of_unique, lemma_sources_come_from_edges, well_formed, with_dependencies,
    with_edge, with_node, GraphModel, ModuleFileView,
};
use crate::graph_store::sources_into;
use vstd::prelude::*;

verus! {

/// Whether `g` has an edge from the node of `a` to the node of `b`.
pub open spec fn has_edge(g: GraphModel, a: Seq<char>, b: Seq<char>) -> bool {
    exists|e: int|
        0 <= e < g.edges.len() && 0 <= (#[trigger] g.edges[e]).0 < g.dirs.len() && 0 <= g.edges[e].1
            < g.dirs.len() && g.dirs[g.edges[e].0] == a && g.dirs[g.edges[e].1] == b
}

/// Whether `dir` holds one of `files` or is referred to by one.
pub open spec fn is_mentioned(files: Seq<ModuleFileView>, dir: Seq<char>) -> bool {
    exists|i: int|
        0 <= i < files.len() && ((#[trigger] files[i]).dir == dir || files[i].dependencies.contains(
            dir,
        ))
}

/// Whether one of `files` lies in `a` and refers to `b`.
pub open spec fn refers_to(files: Seq<ModuleFileView>, a: Seq<char>, b: Seq<char>) -> bool {
    exists|i: int|
        0 <= i < files.len() && (#[trigger] files[i]).dir == a && files[i].dependencies.contains(b)
}

/// The module directories of `g`, as a set.
pub open spec fn node_set(g: GraphModel) -> Set<Seq<char>> {
    Set::new(|d: Seq<char>| g.dirs.contains(d))
}

/// The edges of `g`, as a set of pairs of module directories.
pub open spec fn edge_set(g: GraphModel) -> Set<(Seq<char>, Seq<char>)> {
    Set::new(|p: (Seq<char>, Seq<char>)| has_edge(g, p.0, p.1))
}

proof fn lemma_with_node(g: GraphModel, d: Seq<char>)
    requires
        well_formed(g),
    ensures
        well_formed(with_node(g, d)),
        with_node(g, d).edges == g.edges,
        g.dirs.len() <= with_node(g, d).dirs.len(),
        forall|k: int| 0 <= k < g.dirs.len() ==> #[trigger] with_node(g, d).dirs[k] == g.dirs[k],
        forall|x: Seq<char>| #[trigger]
            with_node(g, d).dirs.contains(x) <==> (g.dirs.contains(x) || x == d),
        forall|a: Seq<char>, b: Seq<char>| #[trigger]
            has_edge(with_node(g, d), a, b) <==> has_edge(g, a, b),
{
    let g1 = with_node(g, d);
    if !g.dirs.contains(d) {
        assert(g1.dirs[g.dirs.len() as int] == d);
        assert forall|x: Seq<char>| #[trigger]
            g1.dirs.contains(x) <==> (g.dirs.contains(x) || x == d) by {
            if g.dirs.contains(x) {
                let k = choose|k: int| 0 <= k < g.dirs.len() && g.dirs[k] == x;
                assert(g1.dirs[k] == x);
            }
            if g1.dirs.contains(x) {
                let k = choose|k: int| 0 <= k < g1.dirs.len() && g1.dirs[k] == x;
                if k < g.dirs.len() {
                    assert(g.dirs[k] == x);
                }
            }
        }
        assert forall|a: Seq<char>, b: Seq<char>| #[trigger]
            has_edge(g1, a, b) <==> has_edge(g, a, b) by {
            if has_edge(g, a, b) {
                let e = choose|e: int|
                    0 <= e < g.edges.len() && 0 <= (#[trigger] g.edges[e]).0 < g.dirs.len() && 0
                        <= g.edges[e].1 < g.dirs.len() && g.dirs[g.edges[e].0] == a
                        && g.dirs[g.edges[e].1] == b;
                assert(g1.dirs[g1.edges[e].0] == a && g1.dirs[g1.edges[e].1] == b);
            }
            if has_edge(g1, a, b) {
                let e = choose|e: int|
                    0 <= e < g1.edges.len() && 0 <= (#[trigger] g1.edges[e]).0 < g1.dirs.len() && 0
                        <= g1.edges[e].1 < g1.dirs.len() && g1.dirs[g1.edges[e].0] == a
                        && g1.dirs[g1.edges[e].1] == b;
                assert(0 <= g.edges[e].0 < g.dirs.len() && 0 <= g.edges[e].1 < g.dirs.len());
                assert(g.dirs[g.edges[e].0] == a && g.dirs[g.edges[e].1] == b);
            }
        }
        assert forall|e: int| 0 <= e < g1.edges.len() implies 0 <= (#[trigger] g1.edges[e]).0
            < g1.dirs.len() && 0 <= g1.edges[e].1 < g1.dirs.len() by {
            assert(0 <= g.edges[e].0 < g.dirs.len());
        }
    }
}

proof fn lemma_with_edge(g: GraphModel, from: Seq<char>, to: Seq<char>)
    requires
        well_formed(g),
        g.dirs.contains(from),
    ensures
        well_formed(with_edge(g, from, to)),
        forall|x: Seq<char>| #[trigger]
            with_edge(g, from, to).dirs.contains(x) <==> (g.dirs.contains(x) || x == to),
        forall|a: Seq<char>, b: Seq<char>| #[trigger]
            has_edge(with_edge(g, from, to), a, b) <==> (has_edge(g, a, b) || (a == from && b
                == to)),
{
    let g1 = with_node(g, to);
    let g2 = with_edge(g, from, to);
    lemma_with_node(g, to);
    assert(g1.dirs.contains(from));
    assert(g1.dirs.contains(to));
    let i = g1.dirs.index_of(from);
    let j = g1.dirs.index_of(to);
    let e = (i, j);
    assert(0 <= i < g1.dirs.len() && g1.dirs[i] == from);
    assert(0 <= j < g1.dirs.len() && g1.dirs[j] == to);
    assert(g2.dirs == g1.dirs);
    if g1.edges.contains(e) {
        let w = choose|w: int| 0 <= w < g1.edges.len() && g1.edges[w] == e;
        assert(g1.dirs[g1.edges[w].0] == from && g1.dirs[g1.edges[w].1] == to);
        assert(has_edge(g1, from, to));
    } else {
        assert(g2.edges == g1.edges.push(e));
        assert(g2.edges[g1.edges.len() as int] == e);
        assert(g2.edges.no_duplicates()) by {
            assert forall|x: int, y: int|
                0 <= x < g2.edges.len() && 0 <= y < g2.edges.len() && x != y implies g2.edges[x]
                != g2.edges[y] by {
                if x < g1.edges.len() && y < g1.edges.len() {
                } else if x < g1.edges.len() {
                    assert(g1.edges[x] != e);
                } else {
                    assert(g1.edges[y] != e);
                }
            }
        }
        assert forall|a: Seq<char>, b: Seq<char>| #[trigger]
            has_edge(g2, a, b) <==> (has_edge(g1, a, b) || (a == from && b == to)) by {
            if has_edge(g1, a, b) {
                let w = choose|w: int|
                    0 <= w < g1.edges.len() && 0 <= (#[trigger] g1.edges[w]).0 < g1.dirs.len() && 0
                        <= g1.edges[w].1 < g1.dirs.len() && g1.dirs[g1.edges[w].0] == a
                        && g1.dirs[g1.edges[w].1] == b;
                assert(g2.edges[w] == g1.edges[w]);
            }
            if a == from && b == to {
                let w = g1.edges.len() as int;
                assert(g2.dirs[g2.edges[w].0] == a && g2.dirs[g2.edges[w].1] == b);
            }
            if has_edge(g2, a, b) {
                let w = choose|w: int|
                    0 <= w < g2.edges.len() && 0 <= (#[trigger] g2.edges[w]).0 < g2.dirs.len() && 0
                        <= g2.edges[w].1 < g2.dirs.len() && g2.dirs[g2.edges[w].0] == a
                        && g2.dirs[g2.edges[w].1] == b;
                if w < g1.edges.len() {
                    assert(g1.edges[w] == g2.edges[w]);
                }
            }
        }
        assert forall|w: int| 0 <= w < g2.edges.len() implies 0 <= (#[trigger] g2.edges[w]).0
            < g2.dirs.len() && 0 <= g2.edges[w].1 < g2.dirs.len() by {
            if w < g1.edges.len() {
                assert(0 <= g1.edges[w].0 < g1.dirs.len());
            }
        }
    }
}

proof fn lemma_with_dependencies(g: GraphModel, from: Seq<char>, deps: Seq<Seq<char>>)
    requires
        well_formed(g),
        g.dirs.contains(from),
    ensures
        well_formed(with_dependencies(g, from, deps)),
        forall|x: Seq<char>| #[trigger]
            with_dependencies(g, from, deps).dirs.contains(x) <==> (g.dirs.contains(x)
                || deps.contains(x)),
        forall|a: Seq<char>, b: Seq<char>| #[trigger]
            has_edge(with_dependencies(g, from, deps), a, b) <==> (has_edge(g, a, b) || (a == from
                && deps.contains(b))),
    decreases deps.len(),
{
    if deps.len() > 0 {
        let before = with_dependencies(g, from, deps.drop_last());
        lemma_with_dependencies(g, from, deps.drop_last());
        assert(before.dirs.contains(from));
        lemma_with_edge(before, from, deps.last());
        let after = with_dependencies(g, from, deps);
        assert forall|x: Seq<char>| deps.contains(x) <==> (deps.drop_last().contains(x) || x
            == deps.last()) by {
            if deps.contains(x) {
                let k = choose|k: int| 0 <= k < deps.len() && deps[k] == x;
                if k < deps.len() - 1 {
                    assert(deps.drop_last()[k] == x);
                }
            }
            if deps.drop_last().contains(x) {
                let k = choose|k: int| 0 <= k < deps.drop_last().len() && deps.drop_last()[k] == x;
                assert(deps[k] == x);
            }
            assert(deps[deps.len() - 1] == deps.last());
        }
        assert forall|x: Seq<char>| #[trigger]
            after.dirs.contains(x) <==> (g.dirs.contains(x) || deps.contains(x)) by {
            assert(after.dirs.contains(x) <==> (before.dirs.contains(x) || x == deps.last()));
        }
        assert forall|a: Seq<char>, b: Seq<char>| #[trigger]
            has_edge(after, a, b) <==> (has_edge(g, a, b) || (a == from && deps.contains(b))) by {
            assert(has_edge(after, a, b) <==> (has_edge(before, a, b) || (a == from && b
                == deps.last())));
            assert(has_edge(before, a, b) <==> (has_edge(g, a, b) || (a == from
                && deps.drop_last().contains(b))));
        }
    } else {
        assert forall|x: Seq<char>| !deps.contains(x) by {}
    }
}

/// What a graph built from files holds: it is well formed, its nodes are
/// the directories that the files mention, and it has an edge from `a` to
/// `b` exactly where a file in `a` refers to `b`.
pub proof fn lemma_graph_holds_what_files_say(files: Seq<ModuleFileView>)
    ensures
        well_formed(graph_of(files)),
        forall|x: Seq<char>| #[trigger]
            graph_of(files).dirs.contains(x) <==> is_mentioned(files, x),
        forall|a: Seq<char>, b: Seq<char>| #[trigger]
            has_edge(graph_of(files), a, b) <==> refers_to(files, a, b),
    decreases files.len(),
{
    let g = graph_of(files);
    if files.len() == 0 {
        assert forall|x: Seq<char>| #[trigger] g.dirs.contains(x) <==> is_mentioned(files, x) by {}
        assert forall|a: Seq<char>, b: Seq<char>| #[trigger]
            has_edge(g, a, b) <==> refers_to(files, a, b) by {}
    } else {
        let older = files.drop_last();
        let last = files.last();
        let g0 = graph_of(older);
        lemma_graph_holds_what_files_say(older);
        lemma_with_node(g0, last.dir);
        let g1 = with_node(g0, last.dir);
        assert(g1.dirs.contains(last.dir));
        lemma_with_dependencies(g1, last.dir, last.dependencies);
        assert(g == with_dependencies(g1, last.dir, last.dependencies));
        assert forall|x: Seq<char>| #[trigger] g.dirs.contains(x) <==> is_mentioned(files, x) by {
            assert(g.dirs.contains(x) <==> (g1.dirs.contains(x) || last.dependencies.contains(x)));
            assert(g1.dirs.contains(x) <==> (g0.dirs.contains(x) || x == last.dir));
            assert(g0.dirs.contains(x) <==> is_mentioned(older, x));
            if is_mentioned(older, x) {
                let i = choose|i: int|
                    0 <= i < older.len() && ((#[trigger] older[i]).dir == x
                        || older[i].dependencies.contains(x));
                assert(files[i] == older[i]);
            }
            if x == last.dir || last.dependencies.contains(x) {
                assert(files[files.len() - 1] == last);
            }
            if is_mentioned(files, x) {
                let i = choose|i: int|
                    0 <= i < files.len() && ((#[trigger] files[i]).dir == x
                        || files[i].dependencies.contains(x));
                if i < older.len() {
                    assert(older[i] == files[i]);
                }
            }
        }
        assert forall|a: Seq<char>, b: Seq<char>| #[trigger]
            has_edge(g, a, b) <==> refers_to(files, a, b) by {
            assert(has_edge(g, a, b) <==> (has_edge(g1, a, b) || (a == last.dir
                && last.dependencies.contains(b))));
            assert(has_edge(g1, a, b) <==> has_edge(g0, a, b));
            assert(has_edge(g0, a, b) <==> refers_to(older, a, b));
            if refers_to(older, a, b) {
                let i = choose|i: int|
                    0 <= i < older.len() && (#[trigger] older[i]).dir == a
                        && older[i].dependencies.contains(b);
                assert(files[i] == older[i]);
            }
            if a == last.dir && last.dependencies.contains(b) {
                assert(files[files.len() - 1] == last);
            }
            if refers_to(files, a, b) {
                let i = choose|i: int|
                    0 <= i < files.len() && (#[trigger] files[i]).dir == a
                        && files[i].dependencies.contains(b);
                if i < older.len() {
                    assert(older[i] == files[i]);
                }
            }
        }
    }
}

/// A reference becomes an edge, and the edge is found again: where a file
/// in `files[f].dir` refers to a module, the graph has both as nodes, has
/// an edge from the one to the other, and counts the file's directory
/// among the dependents of the module.
pub proof fn lemma_reference_is_found_again(files: Seq<ModuleFileView>, f: int, k: int)
    requires
        0 <= f < files.len(),
        0 <= k < files[f].dependencies.len(),
    ensures
        graph_of(files).dirs.contains(files[f].dir),
        graph_of(files).dirs.contains(files[f].dependencies[k]),
        has_edge(graph_of(files), files[f].dir, files[f].dependencies[k]),
        dependents_of(graph_of(files), files[f].dependencies[k]).contains(files[f].dir),
{
    let g = graph_of(files);
    let from = files[f].dir;
    let to = files[f].dependencies[k];
    lemma_graph_holds_what_files_say(files);
    assert(files[f].dependencies.contains(to));
    assert(refers_to(files, from, to));
    assert(is_mentioned(files, from));
    assert(is_mentioned(files, to));
    assert(has_edge(g, from, to));
    let e = choose|e: int|
        0 <= e < g.edges.len() && 0 <= (#[trigger] g.edges[e]).0 < g.dirs.len() && 0 <= g.edges[e].1
            < g.dirs.len() && g.dirs[g.edges[e].0] == from && g.dirs[g.edges[e].1] == to;
    lemma_index_of_unique(g.dirs, g.edges[e].1);
    let target = g.dirs.index_of(to);
    lemma_sources_come_from_edges(g.edges, target);
    let sources = sources_into(g.edges, target);
    assert(sources.contains(g.edges[e].0));
    let j = choose|j: int| 0 <= j < sources.len() && sources[j] == g.edges[e].0;
    assert(dependents_of(g, to)[j] == from);
}

/// Every dependent of a module refers to it: the query finds nothing that
/// no file says.
pub proof fn lemma_dependents_refer(files: Seq<ModuleFileView>, module: Seq<char>, j: int)
    requires
        graph_of(files).dirs.contains(module),
        0 <= j < dependents_of(graph_of(files), module).len(),
    ensures
        refers_to(files, dependents_of(graph_of(files), module)[j], module),
{
    let g = graph_of(files);
    lemma_graph_holds_what_files_say(files);
    let target = g.dirs.index_of(module);
    assert(0 <= target < g.dirs.len() && g.dirs[target] == module);
    lemma_sources_come_from_edges(g.edges, target);
    let sources = sources_into(g.edges, target);
    let e = choose|e: int| 0 <= e < g.edges.len() && #[trigger] g.edges[e] == (sources[j], target);
    assert(0 <= g.edges[e].0 < g.dirs.len());
    assert(has_edge(g, g.dirs[sources[j]], module));
}

/// The order of the files does not matter, nor how often a file comes: two
/// lists that hold the same files give graphs with the same nodes and the
/// same edges.
pub proof fn lemma_order_does_not_matter(first: Seq<ModuleFileView>, second: Seq<ModuleFileView>)
    requires
        forall|x: ModuleFileView| first.contains(x) <==> second.contains(x),
    ensures
        node_set(graph_of(first)) == node_set(graph_of(second)),
        edge_set(graph_of(first)) == edge_set(graph_of(second)),
{
    lemma_graph_holds_what_files_say(first);
    lemma_graph_holds_what_files_say(second);
    lemma_same_files_same_mentions(first, second);
    lemma_same_files_same_mentions(second, first);
    assert(node_set(graph_of(first)) =~= node_set(graph_of(second)));
    assert(edge_set(graph_of(first)) =~= edge_set(graph_of(second)));
}

proof fn lemma_same_files_same_mentions(first: Seq<ModuleFileView>, second: Seq<ModuleFileView>)
    requires
        forall|x: ModuleFileView| first.contains(x) <==> second.contains(x),
    ensures
        forall|d: Seq<char>| is_mentioned(first, d) ==> is_mentioned(second, d),
        forall|a: Seq<char>, b: Seq<char>| refers_to(first, a, b) ==> refers_to(second, a, b),
{
    assert forall|d: Seq<char>| is_mentioned(first, d) implies is_mentioned(second, d) by {
        let i = choose|i: int|
            0 <= i < first.len() && ((#[trigger] first[i]).dir == d
                || first[i].dependencies.contains(d));
        assert(first.contains(first[i]));
        let j = choose|j: int| 0 <= j < second.len() && second[j] == first[i];
        assert(second[j].dir == d || second[j].dependencies.contains(d));
    }
    assert forall|a: Seq<char>, b: Seq<char>| refers_to(first, a, b) implies refers_to(
        second,
        a,
        b,
    ) by {
        let i = choose|i: int|
            0 <= i < first.len() && (#[trigger] first[i]).dir == a
                && first[i].dependencies.contains(b);
        assert(first.contains(first[i]));
        let j = choose|j: int| 0 <= j < second.len() && second[j] == first[i];
        assert(second[j].dir == a && second[j].dependencies.contains(b));
    }
}

} // verus!
