//! The graph store: `petgraph::Graph` with text on its nodes.
//!
//! Verus does not look inside the graph. What it holds is named here, and
//! each operation that the library uses is stated over those names.

use vstd::prelude::*;

verus! {

/// `petgraph::Graph`, taken as it is: nothing is claimed of its fields.
#[verifier::external_type_specification]
#[verifier::external_body]
#[verifier::reject_recursive_types(N)]
#[verifier::reject_recursive_types(E)]
#[verifier::reject_recursive_types(Ty)]
#[verifier::reject_recursive_types(Ix)]
pub struct ExGraph<N, E, Ty, Ix>(petgraph::Graph<N, E, Ty, Ix>);

/// `petgraph::Directed`, the marker of graphs with directed edges.
#[verifier::external_type_specification]
#[verifier::external_body]
pub struct ExDirected(petgraph::Directed);

/// The text on each node of the graph, by node index.
pub uninterp spec fn graph_nodes(g: petgraph::Graph<String, i32, petgraph::Directed, u32>) -> Seq<
    Seq<char>,
>;

/// The edges of the graph, by edge index: each from the node at the first
/// index to the node at the second.
pub uninterp spec fn graph_edges(g: petgraph::Graph<String, i32, petgraph::Directed, u32>) -> Seq<
    (int, int),
>;

/// Calls `petgraph::Graph::new`. Trusted: the new graph has no nodes and no
/// edges.
#[verifier::external_body]
pub(crate) fn new_graph() -> (g: petgraph::Graph<String, i32, petgraph::Directed, u32>)
    ensures
        graph_nodes(g) == Seq::<Seq<char>>::empty(),
        graph_edges(g) == Seq::<(int, int)>::empty(),
{
    petgraph::Graph::new()
}

/// The sources of the edges that end in node `a`, the newest edge first.
pub open spec fn sources_into(edges: Seq<(int, int)>, a: int) -> Seq<int>
    decreases edges.len(),
{
    if edges.len() == 0 {
        Seq::empty()
    } else {
        let older = sources_into(edges.drop_last(), a);
        if edges.last().1 == a {
            seq![edges.last().0] + older
        } else {
            older
        }
    }
}

/// The graphviz text that `petgraph::dot::Dot` writes, without edge labels,
/// for a graph with these node texts and these edges.
pub uninterp spec fn dot_text(nodes: Seq<Seq<char>>, edges: Seq<(int, int)>) -> Seq<char>;

/// Calls `petgraph::Graph::add_node`, which panics only on a graph that is
/// full for its index type. Trusted: the node is appended with the next
/// index, which is returned, and the edges stay as they are.
#[verifier::external_body]
pub(crate) fn add_node(
    g: &mut petgraph::Graph<String, i32, petgraph::Directed, u32>,
    text: String,
) -> (r: usize)
    requires
        graph_nodes(*old(g)).len() < u32::MAX,
    ensures
        r == graph_nodes(*old(g)).len(),
        graph_nodes(*final(g)) == graph_nodes(*old(g)).push(text@),
        graph_edges(*final(g)) == graph_edges(*old(g)),
{
    g.add_node(text).index()
}

/// Calls `petgraph::Graph::update_edge`, which panics where a node is
/// missing or where a new edge would not fit the index type. Trusted: an
/// edge from `a` to `b` that is there stays the only one; one that is not
/// there is appended; the nodes stay as they are.
#[verifier::external_body]
pub(crate) fn update_edge(
    g: &mut petgraph::Graph<String, i32, petgraph::Directed, u32>,
    a: usize,
    b: usize,
    weight: i32,
)
    requires
        a < graph_nodes(*old(g)).len() <= u32::MAX,
        b < graph_nodes(*old(g)).len(),
        graph_edges(*old(g)).len() < u32::MAX,
    ensures
        graph_nodes(*final(g)) == graph_nodes(*old(g)),
        graph_edges(*final(g)) == if graph_edges(*old(g)).contains((a as int, b as int)) {
            graph_edges(*old(g))
        } else {
            graph_edges(*old(g)).push((a as int, b as int))
        },
{
    g.update_edge(petgraph::graph::NodeIndex::new(a), petgraph::graph::NodeIndex::new(b), weight);
}

/// Calls `petgraph::Graph::edges_directed` for the edges that come into node
/// `a` and hands out the index of each edge's source. Trusted: the edges
/// come newest first, as [`sources_into`] lists them.
#[verifier::external_body]
pub(crate) fn incoming_sources(
    g: &petgraph::Graph<String, i32, petgraph::Directed, u32>,
    a: usize,
) -> (r: Vec<usize>)
    requires
        a < graph_nodes(*g).len() <= u32::MAX,
    ensures
        r@.map_values(|i: usize| i as int) == sources_into(graph_edges(*g), a as int),
{
    let mut out = Vec::new();
    for e in g.edges_directed(petgraph::graph::NodeIndex::new(a), petgraph::Direction::Incoming) {
        out.push(petgraph::visit::EdgeRef::source(&e).index());
    }
    out
}

/// Formats the graph with `petgraph::dot::Dot` and `Config::EdgeNoLabel`.
/// Trusted: the text is what [`dot_text`] names for the graph's nodes and
/// edges.
#[verifier::external_body]
pub(crate) fn dot_of(g: &petgraph::Graph<String, i32, petgraph::Directed, u32>) -> (r: String)
    ensures
        r@ == dot_text(graph_nodes(*g), graph_edges(*g)),
{
    format!("{:?}", petgraph::dot::Dot::with_config(g, &[petgraph::dot::Config::EdgeNoLabel]))
}

} // verus!
