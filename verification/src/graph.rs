//! The graph of modules: which module directory refers to which.
//!
//! A node is a module directory, known by its path. An edge from `a` to `b`
//! says that the configuration in `a` refers to `b`. Between two nodes there
//! is at most one edge in each direction.

use crate::graph_store::{
    add_node, dot_of, dot_text, graph_edges, graph_nodes, incoming_sources, new_graph,
    sources_into, update_edge,
};
use crate::path::{join, path_join, texts};
use crate::text::{contains_text, same_text};
use vstd::hash_map::StringHashMap;
use vstd::prelude::*;
use vstd::string::*;

verus! {

/// Mark on a module whose providers need an update.
pub open spec fn outdated_mark() -> Seq<char> {
    " \u{274c}"@
}

/// Mark on a module whose lockfile is up to date.
pub open spec fn up_to_date_mark() -> Seq<char> {
    " \u{2705}"@
}

/// What is known of the modules' lockfiles, for display only: the
/// directories known to need an update, where that was looked up at all, and
/// the directories that hold a lockfile.
pub ghost struct Annotation {
    pub outdated: Option<Seq<Seq<char>>>,
    pub with_lockfile: Seq<Seq<char>>,
}

/// The text shown for the module in `dir`. Without a list of outdated
/// modules it is the path itself. With one, a module on the list is marked
/// as outdated, another module that holds a lockfile is marked as up to
/// date, and a module without a lockfile keeps its plain path.
pub open spec fn label_of(dir: Seq<char>, note: Annotation) -> Seq<char> {
    match note.outdated {
        None => dir,
        Some(outdated) => if outdated.contains(dir) {
            path_join(dir, outdated_mark())
        } else if note.with_lockfile.contains(dir) {
            path_join(dir, up_to_date_mark())
        } else {
            dir
        },
    }
}

/// The labels of a list of module directories.
pub open spec fn labels_of(dirs: Seq<Seq<char>>, note: Annotation) -> Seq<Seq<char>> {
    dirs.map_values(|d: Seq<char>| label_of(d, note))
}

/// The annotation that the two lists stand for.
pub open spec fn annotation(outdated: Option<&Vec<String>>, with_lockfile: &Vec<String>) -> Annotation {
    Annotation {
        outdated: match outdated {
            Some(list) => Some(texts(list@)),
            None => None,
        },
        with_lockfile: texts(with_lockfile@),
    }
}

/// The text shown for the module in `dir`; see [`label_of`].
pub fn node_label(dir: &str, outdated: Option<&Vec<String>>, with_lockfile: &Vec<String>) -> (r:
    String)
    ensures
        r@ == label_of(dir@, annotation(outdated, with_lockfile)),
{
    match outdated {
        None => String::from_str(dir),
        Some(list) => {
            if contains_text(list, dir) {
                join(dir, " \u{274c}")
            } else if contains_text(with_lockfile, dir) {
                join(dir, " \u{2705}")
            } else {
                String::from_str(dir)
            }
        },
    }
}

/// The mathematical value of a graph of modules: the module directories by
/// node index, and the edges by edge index, each a pair of node indices.
pub ghost struct GraphModel {
    pub dirs: Seq<Seq<char>>,
    pub edges: Seq<(int, int)>,
}

/// The graph without nodes.
pub open spec fn empty_graph() -> GraphModel {
    GraphModel { dirs: Seq::empty(), edges: Seq::empty() }
}

/// `g` with a node for `dir`, which is added last where it is missing.
pub open spec fn with_node(g: GraphModel, dir: Seq<char>) -> GraphModel {
    if g.dirs.contains(dir) {
        g
    } else {
        GraphModel { dirs: g.dirs.push(dir), edges: g.edges }
    }
}

/// `g` with a node for `to` and an edge from the node of `from` to it. The
/// edge is added last where it is missing.
pub open spec fn with_edge(g: GraphModel, from: Seq<char>, to: Seq<char>) -> GraphModel {
    let g1 = with_node(g, to);
    let e = (g1.dirs.index_of(from), g1.dirs.index_of(to));
    if g1.edges.contains(e) {
        g1
    } else {
        GraphModel { dirs: g1.dirs, edges: g1.edges.push(e) }
    }
}

/// `g` with an edge from `from` to each of `dependencies`, in their order.
pub open spec fn with_dependencies(
    g: GraphModel,
    from: Seq<char>,
    dependencies: Seq<Seq<char>>,
) -> GraphModel
    decreases dependencies.len(),
{
    if dependencies.len() == 0 {
        g
    } else {
        with_edge(
            with_dependencies(g, from, dependencies.drop_last()),
            from,
            dependencies.last(),
        )
    }
}

/// One scanned file: the module directory that holds it, and the module
/// directories that it refers to.
#[derive(Debug)]
pub struct ModuleFile {
    pub dir: String,
    pub dependencies: Vec<String>,
}

/// The mathematical value of a [`ModuleFile`].
pub ghost struct ModuleFileView {
    pub dir: Seq<char>,
    pub dependencies: Seq<Seq<char>>,
}

impl View for ModuleFile {
    type V = ModuleFileView;

    open spec fn view(&self) -> ModuleFileView {
        ModuleFileView { dir: self.dir@, dependencies: texts(self.dependencies@) }
    }
}

/// The values of a list of files.
pub open spec fn file_views(files: Seq<ModuleFile>) -> Seq<ModuleFileView> {
    files.map_values(|f: ModuleFile| f@)
}

/// `g` with the module of `file` and an edge to each of its dependencies.
pub open spec fn with_file(g: GraphModel, file: ModuleFileView) -> GraphModel {
    with_dependencies(with_node(g, file.dir), file.dir, file.dependencies)
}

/// The graph that comes of taking in `files` one by one.
pub open spec fn graph_of(files: Seq<ModuleFileView>) -> GraphModel
    decreases files.len(),
{
    if files.len() == 0 {
        empty_graph()
    } else {
        with_file(graph_of(files.drop_last()), files.last())
    }
}

/// How many nodes and edges `files` can call for at most.
pub open spec fn mention_count(files: Seq<ModuleFileView>) -> nat
    decreases files.len(),
{
    if files.len() == 0 {
        0
    } else {
        mention_count(files.drop_last()) + 1 + files.last().dependencies.len()
    }
}

/// Whether `g` is a graph as this module builds them: no directory stands
/// twice, every edge joins two nodes, and no edge stands twice.
pub open spec fn well_formed(g: GraphModel) -> bool {
    &&& g.dirs.no_duplicates()
    &&& g.edges.no_duplicates()
    &&& forall|e: int|
        0 <= e < g.edges.len() ==> 0 <= (#[trigger] g.edges[e]).0 < g.dirs.len() && 0
            <= g.edges[e].1 < g.dirs.len()
}

/// Whether the store, the list of directories and the index table hold the
/// graph `g` with the labels that `note` calls for.
spec fn tracks(
    graph: petgraph::Graph<String, i32, petgraph::Directed, u32>,
    dirs: Seq<String>,
    indices: Map<Seq<char>, usize>,
    note: Annotation,
    g: GraphModel,
) -> bool {
    &&& g.dirs == texts(dirs)
    &&& g.edges == graph_edges(graph)
    &&& graph_nodes(graph) == labels_of(g.dirs, note)
    &&& well_formed(g)
    &&& forall|d: Seq<char>| #[trigger] indices.contains_key(d) <==> g.dirs.contains(d)
    &&& forall|d: Seq<char>| #[trigger]
        indices.contains_key(d) ==> 0 <= indices[d] < g.dirs.len() && g.dirs[indices[d] as int]
            == d
}

/// In a list without duplicates, an element is found where it stands.
pub proof fn lemma_index_of_unique(dirs: Seq<Seq<char>>, k: int)
    requires
        dirs.no_duplicates(),
        0 <= k < dirs.len(),
    ensures
        dirs.index_of(dirs[k]) == k,
{
    let i = dirs.index_of(dirs[k]);
    assert(0 <= i < dirs.len() && dirs[i] == dirs[k]);
}

/// Looks the node of `dir` up, and adds it where it is missing.
fn ensure_node(
    graph: &mut petgraph::Graph<String, i32, petgraph::Directed, u32>,
    dirs: &mut Vec<String>,
    indices: &mut StringHashMap<usize>,
    dir: &str,
    outdated: Option<&Vec<String>>,
    with_lockfile: &Vec<String>,
    Ghost(g): Ghost<GraphModel>,
) -> (r: usize)
    requires
        tracks(*old(graph), old(dirs)@, old(indices)@, annotation(outdated, with_lockfile), g),
        g.dirs.len() < u32::MAX,
    ensures
        tracks(
            *final(graph),
            final(dirs)@,
            final(indices)@,
            annotation(outdated, with_lockfile),
            with_node(g, dir@),
        ),
        r == with_node(g, dir@).dirs.index_of(dir@),
        r < with_node(g, dir@).dirs.len(),
        with_node(g, dir@).dirs.len() <= g.dirs.len() + 1,
        with_node(g, dir@).dirs.contains(dir@),
{
    let ghost note = annotation(outdated, with_lockfile);
    let known = match indices.get(dir) {
        Some(i) => Some(*i),
        None => None,
    };
    match known {
        Some(i) => {
            proof {
                lemma_index_of_unique(g.dirs, i as int);
            }
            i
        },
        None => {
            let label = node_label(dir, outdated, with_lockfile);
            let i = add_node(graph, label);
            let owned = String::from_str(dir);
            dirs.push(owned);
            indices.insert(String::from_str(dir), i);
            proof {
                let g1 = with_node(g, dir@);
                assert(g1.dirs == g.dirs.push(dir@));
                assert(texts(dirs@) =~= g1.dirs);
                assert(labels_of(g1.dirs, note) =~= labels_of(g.dirs, note).push(label@));
                assert(g1.dirs.no_duplicates()) by {
                    assert forall|x: int, y: int|
                        0 <= x < g1.dirs.len() && 0 <= y < g1.dirs.len() && x != y implies g1.dirs[x]
                        != g1.dirs[y] by {
                        if x < g.dirs.len() && y < g.dirs.len() {
                        } else if x < g.dirs.len() {
                            assert(g.dirs[x] != dir@);
                        } else {
                            assert(g.dirs[y] != dir@);
                        }
                    }
                }
                assert(g1.dirs[i as int] == dir@);
                lemma_index_of_unique(g1.dirs, i as int);
                assert forall|d: Seq<char>| #[trigger]
                    indices@.contains_key(d) <==> g1.dirs.contains(d) by {
                    if g1.dirs.contains(d) {
                        let k = choose|k: int| 0 <= k < g1.dirs.len() && g1.dirs[k] == d;
                        if k < g.dirs.len() {
                            assert(g.dirs[k] == d);
                            assert(g.dirs.contains(d));
                        }
                    }
                    if indices@.contains_key(d) && d != dir@ {
                        assert(old(indices)@.contains_key(d));
                        let k = choose|k: int| 0 <= k < g.dirs.len() && g.dirs[k] == d;
                        assert(g1.dirs[k] == d);
                    }
                }
                assert forall|d: Seq<char>| #[trigger] indices@.contains_key(d) implies 0
                    <= indices@[d] < g1.dirs.len() && g1.dirs[indices@[d] as int] == d by {
                    if d != dir@ {
                        assert(old(indices)@.contains_key(d));
                    }
                }
            }
            i
        },
    }
}

/// Makes sure that there is a node for `to` and an edge from node `from` to it.
fn ensure_edge(
    graph: &mut petgraph::Graph<String, i32, petgraph::Directed, u32>,
    dirs: &mut Vec<String>,
    indices: &mut StringHashMap<usize>,
    from: usize,
    to: &str,
    outdated: Option<&Vec<String>>,
    with_lockfile: &Vec<String>,
    Ghost(g): Ghost<GraphModel>,
    Ghost(origin): Ghost<Seq<char>>,
)
    requires
        tracks(*old(graph), old(dirs)@, old(indices)@, annotation(outdated, with_lockfile), g),
        g.dirs.len() < u32::MAX,
        g.edges.len() < u32::MAX,
        0 <= from < g.dirs.len(),
        g.dirs[from as int] == origin,
    ensures
        tracks(
            *final(graph),
            final(dirs)@,
            final(indices)@,
            annotation(outdated, with_lockfile),
            with_edge(g, origin, to@),
        ),
        with_edge(g, origin, to@).dirs.len() <= g.dirs.len() + 1,
        with_edge(g, origin, to@).edges.len() <= g.edges.len() + 1,
        with_edge(g, origin, to@).dirs.len() >= g.dirs.len(),
        with_edge(g, origin, to@).dirs[from as int] == origin,
{
    let ghost g1 = with_node(g, to@);
    let target = ensure_node(graph, dirs, indices, to, outdated, with_lockfile, Ghost(g));
    proof {
        assert(g1.dirs[from as int] == origin);
        lemma_index_of_unique(g1.dirs, from as int);
    }
    update_edge(graph, from, target, 0);
    proof {
        let g2 = with_edge(g, origin, to@);
        let e = (from as int, target as int);
        assert(g2.edges == graph_edges(*graph));
        if !g1.edges.contains(e) {
            assert(g2.edges.no_duplicates()) by {
                assert forall|x: int, y: int|
                    0 <= x < g2.edges.len() && 0 <= y < g2.edges.len() && x != y implies g2.edges[x]
                    != g2.edges[y] by {
                    if x < g1.edges.len() && y < g1.edges.len() {
                    } else if x < g1.edges.len() {
                        assert(g1.edges[x] != e);
                    } else {
                        assert(g1.edges[y] != e);
                    }
                }
            }
        }
    }
}

proof fn lemma_mention_count_step(files: Seq<ModuleFileView>, i: int)
    requires
        0 <= i < files.len(),
    ensures
        mention_count(files.take(i + 1)) == mention_count(files.take(i)) + 1
            + files[i].dependencies.len(),
        graph_of(files.take(i + 1)) == with_file(graph_of(files.take(i)), files[i]),
{
    assert(files.take(i + 1).drop_last() =~= files.take(i));
}

proof fn lemma_mention_count_grows(files: Seq<ModuleFileView>, i: int)
    requires
        0 <= i <= files.len(),
    ensures
        mention_count(files.take(i)) <= mention_count(files),
    decreases files.len() - i,
{
    if i < files.len() {
        lemma_mention_count_step(files, i);
        lemma_mention_count_grows(files, i + 1);
    } else {
        assert(files.take(i) =~= files);
    }
}

/// A graph of terragrunt and terraform modules.
pub struct ModulesGraph {
    graph: petgraph::Graph<String, i32, petgraph::Directed, u32>,
    dirs: Vec<String>,
}

impl View for ModulesGraph {
    type V = GraphModel;

    closed spec fn view(&self) -> GraphModel {
        GraphModel { dirs: texts(self.dirs@), edges: graph_edges(self.graph) }
    }
}

impl ModulesGraph {
    #[verifier::type_invariant]
    spec fn sound(&self) -> bool {
        &&& well_formed(self@)
        &&& graph_nodes(self.graph).len() == self.dirs.len()
        &&& self.dirs.len() <= u32::MAX
    }

    /// The text shown on each node, by node index.
    pub closed spec fn labels(&self) -> Seq<Seq<char>> {
        graph_nodes(self.graph)
    }

    /// Whether the nodes and edges that `files` can call for fit the graph's
    /// 32-bit indices, as [`new`](ModulesGraph::new) asks.
    pub fn fits(files: &Vec<ModuleFile>) -> (r: bool)
        ensures
            r == (mention_count(file_views(files@)) < u32::MAX),
    {
        let ghost all = file_views(files@);
        let mut count: u32 = 0;
        let mut i: usize = 0;
        proof {
            assert(all.take(0) =~= Seq::<ModuleFileView>::empty());
        }
        while i < files.len()
            invariant
                i <= files.len(),
                all == file_views(files@),
                count == mention_count(all.take(i as int)),
                count < u32::MAX,
            decreases files.len() - i,
        {
            proof {
                lemma_mention_count_step(all, i as int);
                lemma_mention_count_grows(all, i + 1);
                assert(all[i as int].dependencies.len() == files[i as int].dependencies.len());
            }
            let more = files[i].dependencies.len();
            if more >= (u32::MAX - count - 1) as usize {
                return false;
            }
            count = count + 1 + more as u32;
            i = i + 1;
        }
        proof {
            assert(all.take(i as int) =~= all);
        }
        true
    }

    /// Builds the graph of `files`.
    ///
    /// The files are taken in as they come: a module is given a node when it
    /// is first met, as the directory of a file or as a dependency, and an
    /// edge when it is first called for. Where `outdated_packages` is given,
    /// every node is labelled by [`label_of`]; the labels change nothing in
    /// the nodes and edges. The nodes and edges have to fit the graph's
    /// 32-bit indices.
    pub fn new(
        files: &Vec<ModuleFile>,
        outdated_packages: Option<&Vec<String>>,
        with_lockfile: &Vec<String>,
    ) -> (r: ModulesGraph)
        requires
            mention_count(file_views(files@)) < u32::MAX,
        ensures
            r@ == graph_of(file_views(files@)),
            r.labels() == labels_of(r@.dirs, annotation(outdated_packages, with_lockfile)),
            well_formed(r@),
    {
        let ghost all = file_views(files@);
        let ghost note = annotation(outdated_packages, with_lockfile);
        let mut graph = new_graph();
        let mut dirs: Vec<String> = Vec::new();
        let mut indices: StringHashMap<usize> = StringHashMap::new();
        let mut i: usize = 0;
        proof {
            assert(all.take(0) =~= Seq::<ModuleFileView>::empty());
            assert(texts(dirs@) =~= Seq::<Seq<char>>::empty());
            assert(labels_of(Seq::<Seq<char>>::empty(), note) =~= Seq::<Seq<char>>::empty());
        }
        while i < files.len()
            invariant
                all == file_views(files@),
                note == annotation(outdated_packages, with_lockfile),
                mention_count(all) < u32::MAX,
                i <= files.len(),
                tracks(graph, dirs@, indices@, note, graph_of(all.take(i as int))),
                dirs.len() <= mention_count(all.take(i as int)),
                graph_edges(graph).len() <= mention_count(all.take(i as int)),
            decreases files.len() - i,
        {
            let file = &files[i];
            let ghost g0 = graph_of(all.take(i as int));
            let ghost count0 = mention_count(all.take(i as int));
            proof {
                lemma_mention_count_step(all, i as int);
                lemma_mention_count_grows(all, i + 1);
                assert(all[i as int] == file@);
            }
            let from = ensure_node(
                &mut graph,
                &mut dirs,
                &mut indices,
                file.dir.as_str(),
                outdated_packages,
                with_lockfile,
                Ghost(g0),
            );
            let ghost g1 = with_node(g0, file.dir@);
            let mut k: usize = 0;
            proof {
                assert(file@.dependencies.take(0) =~= Seq::<Seq<char>>::empty());
                lemma_index_of_unique(g1.dirs, from as int);
            }
            while k < file.dependencies.len()
                invariant
                    note == annotation(outdated_packages, with_lockfile),
                    k <= file.dependencies.len(),
                    count0 + 1 + file.dependencies.len() < u32::MAX,
                    tracks(
                        graph,
                        dirs@,
                        indices@,
                        note,
                        with_dependencies(g1, file.dir@, file@.dependencies.take(k as int)),
                    ),
                    dirs.len() <= count0 + 1 + k,
                    graph_edges(graph).len() <= count0 + k,
                    from < dirs.len(),
                    texts(dirs@)[from as int] == file.dir@,
                decreases file.dependencies.len() - k,
            {
                let ghost gk = with_dependencies(g1, file.dir@, file@.dependencies.take(k as int));
                proof {
                    assert(file@.dependencies.take(k + 1).drop_last()
                        =~= file@.dependencies.take(k as int));
                    assert(file@.dependencies.take(k + 1).last() == file.dependencies@[k as int]@);
                }
                ensure_edge(
                    &mut graph,
                    &mut dirs,
                    &mut indices,
                    from,
                    file.dependencies[k].as_str(),
                    outdated_packages,
                    with_lockfile,
                    Ghost(gk),
                    Ghost(file.dir@),
                );
                k = k + 1;
            }
            proof {
                assert(file@.dependencies.take(k as int) =~= file@.dependencies);
            }
            i = i + 1;
        }
        proof {
            assert(all.take(i as int) =~= all);
            lemma_mention_count_grows(all, i as int);
        }
        ModulesGraph { graph, dirs }
    }

    /// The node of `module`, if it has one.
    pub fn find_module(&self, module: &str) -> (r: Option<usize>)
        ensures
            r.is_some() == self@.dirs.contains(module@),
            r.is_some() ==> r.unwrap() == self@.dirs.index_of(module@) && r.unwrap()
                < self@.dirs.len(),
    {
        proof {
            use_type_invariant(self);
        }
        let mut i: usize = 0;
        while i < self.dirs.len()
            invariant
                i <= self.dirs.len(),
                forall|j: int| 0 <= j < i ==> texts(self.dirs@)[j] != module@,
            decreases self.dirs.len() - i,
        {
            if same_text(self.dirs[i].as_str(), module) {
                proof {
                    use_type_invariant(self);
                    assert(texts(self.dirs@)[i as int] == module@);
                    lemma_index_of_unique(texts(self.dirs@), i as int);
                }
                return Some(i);
            }
            i = i + 1;
        }
        None
    }

    /// The modules whose configuration refers to `module`: the sources of
    /// the edges that come into its node, the newest edge first. `module`
    /// has to be a node of the graph.
    pub fn get_dependent_modules_of_dir(&self, module: &str) -> (r: Vec<String>)
        requires
            self@.dirs.contains(module@),
        ensures
            texts(r@) == dependents_of(self@, module@),
    {
        proof {
            use_type_invariant(self);
        }
        let index = match self.find_module(module) {
            Some(i) => i,
            None => {
                return Vec::new();
            },
        };
        let sources = incoming_sources(&self.graph, index);
        let ghost wanted = sources_into(self@.edges, index as int);
        proof {
            lemma_sources_are_nodes(self@, index as int);
            assert(sources@.len() == wanted.len());
            assert forall|j: int| 0 <= j < sources.len() implies sources[j] as int
                == wanted[j] by {
                assert(sources@.map_values(|i: usize| i as int)[j] == wanted[j]);
            }
        }
        let mut r: Vec<String> = Vec::new();
        let mut k: usize = 0;
        proof {
            assert(texts(r@) =~= dependents_of(self@, module@).take(0));
        }
        while k < sources.len()
            invariant
                k <= sources.len(),
                sources@.len() == wanted.len(),
                wanted == sources_into(self@.edges, self@.dirs.index_of(module@)),
                forall|j: int| 0 <= j < sources.len() ==> sources[j] as int == wanted[j],
                forall|j: int| 0 <= j < wanted.len() ==> 0 <= #[trigger] wanted[j] < self.dirs.len(),
                texts(r@) == dependents_of(self@, module@).take(k as int),
            decreases sources.len() - k,
        {
            let source = sources[k];
            proof {
                let all = dependents_of(self@, module@);
                assert(wanted[k as int] == source);
                assert(all.len() == wanted.len());
                assert(all[k as int] == self@.dirs[source as int]);
                assert(texts(self.dirs@)[source as int] == self.dirs@[source as int]@);
                assert(texts(r@.push(self.dirs@[source as int])) =~= texts(r@).push(
                    self.dirs@[source as int]@,
                ));
                assert(all.take(k as int).push(all[k as int]) =~= all.take(k + 1));
            }
            r.push(self.dirs[source].clone());
            k = k + 1;
        }
        proof {
            assert(dependents_of(self@, module@).take(k as int) =~= dependents_of(self@, module@));
        }
        r
    }

    /// The modules whose configuration refers to one of `modules`: the
    /// dependents of each module in turn, in the order of `modules`. A
    /// module that depends on several of them comes once for each. Every
    /// one of `modules` has to be a node of the graph.
    pub fn get_dependent_modules(&self, modules: &Vec<String>) -> (r: Vec<String>)
        requires
            forall|i: int| 0 <= i < modules.len() ==> self@.dirs.contains(#[trigger] modules[i]@),
        ensures
            texts(r@) == all_dependents_of(self@, texts(modules@)),
    {
        let mut r: Vec<String> = Vec::new();
        let mut i: usize = 0;
        proof {
            assert(texts(modules@).take(0) =~= Seq::<Seq<char>>::empty());
            assert(texts(r@) =~= Seq::<Seq<char>>::empty());
        }
        while i < modules.len()
            invariant
                i <= modules.len(),
                forall|j: int|
                    0 <= j < modules.len() ==> self@.dirs.contains(#[trigger] modules[j]@),
                texts(r@) == all_dependents_of(self@, texts(modules@).take(i as int)),
            decreases modules.len() - i,
        {
            let mut found = self.get_dependent_modules_of_dir(modules[i].as_str());
            proof {
                assert(texts(modules@).take(i + 1).drop_last() =~= texts(modules@).take(i as int));
                assert(texts(modules@).take(i + 1).last() == modules[i as int]@);
                assert(texts(r@ + found@) =~= texts(r@) + texts(found@));
            }
            r.append(&mut found);
            i = i + 1;
        }
        proof {
            assert(texts(modules@).take(i as int) =~= texts(modules@));
        }
        r
    }

    /// The graph in graphviz notation, nodes with their labels and edges
    /// without.
    pub fn to_dot(&self) -> (r: String)
        ensures
            r@ == dot_text(self.labels(), self@.edges),
    {
        dot_of(&self.graph)
    }
}

/// The modules that refer to `module` in `g`, the newest reference first.
pub open spec fn dependents_of(g: GraphModel, module: Seq<char>) -> Seq<Seq<char>> {
    sources_into(g.edges, g.dirs.index_of(module)).map_values(|i: int| g.dirs[i])
}

/// The dependents of each of `modules` in turn.
pub open spec fn all_dependents_of(g: GraphModel, modules: Seq<Seq<char>>) -> Seq<Seq<char>>
    decreases modules.len(),
{
    if modules.len() == 0 {
        Seq::empty()
    } else {
        all_dependents_of(g, modules.drop_last()) + dependents_of(g, modules.last())
    }
}

/// The sources of the edges into a node are nodes.
proof fn lemma_sources_are_nodes(g: GraphModel, a: int)
    requires
        well_formed(g),
    ensures
        forall|j: int|
            0 <= j < sources_into(g.edges, a).len() ==> 0 <= #[trigger] sources_into(g.edges, a)[j]
                < g.dirs.len(),
{
    lemma_sources_come_from_edges(g.edges, a);
    assert forall|j: int| 0 <= j < sources_into(g.edges, a).len() implies 0
        <= #[trigger] sources_into(g.edges, a)[j] < g.dirs.len() by {
        let e = choose|e: int|
            0 <= e < g.edges.len() && g.edges[e] == (sources_into(g.edges, a)[j], a);
        assert(0 <= g.edges[e].0 < g.dirs.len());
    }
}

/// The sources of the edges into `a` are exactly the `s` with an edge from
/// `s` to `a`.
pub proof fn lemma_sources_come_from_edges(edges: Seq<(int, int)>, a: int)
    ensures
        forall|j: int|
            0 <= j < sources_into(edges, a).len() ==> exists|e: int|
                0 <= e < edges.len() && #[trigger] edges[e] == (
                    #[trigger] sources_into(edges, a)[j],
                    a,
                ),
        forall|e: int|
            0 <= e < edges.len() && (#[trigger] edges[e]).1 == a ==> sources_into(
                edges,
                a,
            ).contains(edges[e].0),
    decreases edges.len(),
{
    if edges.len() > 0 {
        let older = edges.drop_last();
        lemma_sources_come_from_edges(older, a);
        let all = sources_into(edges, a);
        assert forall|j: int| 0 <= j < all.len() implies exists|e: int|
            0 <= e < edges.len() && #[trigger] edges[e] == (#[trigger] all[j], a) by {
            if edges.last().1 == a && j == 0 {
                assert(edges[edges.len() - 1] == (all[j], a));
            } else {
                let jj = if edges.last().1 == a {
                    j - 1
                } else {
                    j
                };
                assert(all[j] == sources_into(older, a)[jj]);
                let e = choose|e: int|
                    0 <= e < older.len() && #[trigger] older[e] == (sources_into(older, a)[jj], a);
                assert(edges[e] == (all[j], a));
            }
        }
        assert forall|e: int| 0 <= e < edges.len() && (#[trigger] edges[e]).1 == a implies all.contains(
            edges[e].0,
        ) by {
            if e == edges.len() - 1 {
                assert(all[0] == edges[e].0);
            } else {
                assert(older[e] == edges[e]);
                assert(sources_into(older, a).contains(edges[e].0));
                let j = choose|j: int|
                    0 <= j < sources_into(older, a).len() && sources_into(older, a)[j]
                        == edges[e].0;
                let jj = if edges.last().1 == a {
                    j + 1
                } else {
                    j
                };
                assert(all[jj] == edges[e].0);
            }
        }
    }
}

} // verus!
