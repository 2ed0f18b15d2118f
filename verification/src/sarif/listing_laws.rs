//! Which graphs are listed for a diagnostic, and which paths are found in them.

use crate::diag;
use crate::diag::grapher::{Tree, Walk};
use crate::diag::paths::{paths_from, Path};
use crate::diag::shape_laws::{
    all_edges_shown, dependents_shown, edges_shown, graph_is_by_walk, is_crate_node,
    is_feature_node, is_graph_by, missing_graph_has_no_node, repeats_shown,
};
use crate::krate_graph::KrateGraph;
use crate::sarif::graphs::{depth, graph_paths, graphs_of, node_graph, node_kids};
use vstd::prelude::*;

verus! {

/// The name of the feature that a node is about, if it is about one.
pub open spec fn name_of_feature(node: diag::GraphNode) -> Option<Seq<char>> {
    if node.feature is Some {
        Some(node.feature->0@)
    } else {
        None
    }
}

/// Whether the crate or the feature that a node is about is not in the graph.
pub open spec fn is_missing(g: KrateGraph, node: diag::GraphNode) -> bool {
    match name_of_feature(node) {
        None => forall|n: int| !(#[trigger] is_crate_node(g, n, node.kid)),
        Some(name) => forall|n: int, k: int|
            is_crate_node(g, k, node.kid) ==> !(#[trigger] is_feature_node(g, n, k, name)),
    }
}

/// Where the graphs that are listed come from: the place of the node of each, and
/// the walk that it shows.
pub struct Listing {
    pub from: Seq<int>,
    pub walks: Seq<Walk>,
}

/// Whether some graphs are those of the nodes that exist, in the order of the nodes.
pub open spec fn lists_graphs(
    g: KrateGraph,
    nodes: Seq<diag::GraphNode>,
    graphs: Seq<Tree>,
    listing: Listing,
) -> bool {
    &&& listing.from.len() == graphs.len()
    &&& listing.walks.len() == graphs.len()
    &&& forall|i: int|
        #![trigger listing.from[i]]
        #![trigger graphs[i]]
        0 <= i < graphs.len() ==> {
            &&& 0 <= listing.from[i] < nodes.len()
            &&& is_graph_by(
                g,
                nodes[listing.from[i]].kid,
                name_of_feature(nodes[listing.from[i]]),
                graphs[i],
                listing.walks[i],
            )
            &&& repeats_shown(listing.walks[i])
        }
    &&& forall|i: int, j: int|
        #![trigger listing.from[i], listing.from[j]]
        0 <= i < j < graphs.len() ==> listing.from[i] < listing.from[j]
    &&& g.ids_are_unique() ==> forall|j: int|
        #![trigger nodes[j]]
        0 <= j < nodes.len() && !listing.from.contains(j) ==> is_missing(g, nodes[j])
}

/// Whether each walk shows all that depends on each node, up to `max` levels by
/// every edge and from there on only the direct dependents.
pub open spec fn follows_edges(g: KrateGraph, walks: Seq<Walk>, max: nat) -> bool {
    forall|i: int|
        0 <= i < walks.len() ==> {
            &&& edges_shown(g, #[trigger] walks[i], 0, max)
            &&& max == 0 ==> dependents_shown(g, walks[i])
            &&& g.nodes.len() <= max ==> all_edges_shown(g, walks[i])
        }
}

/// The graphs that are listed are those of the nodes that exist, in order, each with
/// all that depends on its node.
pub proof fn graphs_are_those_of_the_nodes(
    g: KrateGraph,
    nodes: Seq<diag::GraphNode>,
    max: nat,
) -> (listing: Listing)
    requires
        g.wf(),
    ensures
        lists_graphs(g, nodes, graphs_of(g, nodes, max), listing),
        follows_edges(g, listing.walks, max),
    decreases nodes.len(),
{
    let graphs = graphs_of(g, nodes, max);
    if nodes.len() == 0 {
        Listing { from: Seq::empty(), walks: Seq::empty() }
    } else {
        let rest = nodes.drop_last();
        let last = nodes.last();
        let before = graphs_of(g, rest, max);
        let known = graphs_are_those_of_the_nodes(g, rest, max);
        assert(name_of_feature(last) == last.feature_text());
        let listing = match node_graph(g, last, max) {
            Some(tree) => {
                let w = graph_is_by_walk(g, last.kid, last.feature_text(), max, tree);
                Listing { from: known.from.push(nodes.len() - 1), walks: known.walks.push(w) }
            },
            None => known,
        };
        assert forall|i: int|
            #![trigger listing.from[i]]
            #![trigger graphs[i]]
            0 <= i < graphs.len() implies {
            &&& 0 <= listing.from[i] < nodes.len()
            &&& is_graph_by(
                g,
                nodes[listing.from[i]].kid,
                name_of_feature(nodes[listing.from[i]]),
                graphs[i],
                listing.walks[i],
            )
            &&& repeats_shown(listing.walks[i])
        } by {
            if i < before.len() {
                assert(graphs[i] == before[i]);
                assert(listing.from[i] == known.from[i]);
                assert(nodes[listing.from[i]] == rest[known.from[i]]);
            }
        }
        assert forall|i: int, j: int| #![trigger listing.from[i], listing.from[j]] 0 <= i < j
            < graphs.len() implies listing.from[i] < listing.from[j] by {
            assert(listing.from[i] == known.from[i]);
            if j < before.len() {
                assert(listing.from[j] == known.from[j]);
            } else {
                assert(0 <= known.from[i] < rest.len());
            }
        }
        if g.ids_are_unique() {
            assert forall|j: int|
                #![trigger nodes[j]]
                0 <= j < nodes.len() && !listing.from.contains(j) implies is_missing(g, nodes[j]) by {
                if j < rest.len() {
                    assert(nodes[j] == rest[j]);
                    if known.from.contains(j) {
                        let k = choose|k: int| 0 <= k < known.from.len() && known.from[k] == j;
                        assert(listing.from[k] == j);
                    }
                } else {
                    if node_graph(g, last, max) is Some {
                        assert(listing.from[known.from.len() as int] == j);
                    }
                    lemma_is_missing(g, last, max);
                }
            }
        }
        assert forall|i: int| 0 <= i < listing.walks.len() implies {
            &&& edges_shown(g, #[trigger] listing.walks[i], 0, max)
            &&& max == 0 ==> dependents_shown(g, listing.walks[i])
            &&& g.nodes.len() <= max ==> all_edges_shown(g, listing.walks[i])
        } by {
            if i < known.walks.len() {
                assert(listing.walks[i] == known.walks[i]);
            }
        }
        listing
    }
}

proof fn lemma_is_missing(g: KrateGraph, node: diag::GraphNode, max: nat)
    requires
        g.wf(),
        g.ids_are_unique(),
        node_graph(g, node, max) is None,
    ensures
        is_missing(g, node),
{
    let feature = node.feature_text();
    assert(name_of_feature(node) == feature);
    match feature {
        None => {
            assert forall|n: int| !(#[trigger] is_crate_node(g, n, node.kid)) by {
                missing_graph_has_no_node(g, node.kid, feature, max, n, n);
            }
        },
        Some(name) => {
            assert forall|n: int, k: int|
                is_crate_node(g, k, node.kid) implies !(#[trigger] is_feature_node(g, n, k, name)) by {
                missing_graph_has_no_node(g, node.kid, feature, max, n, k);
            }
        },
    }
}

/// With features, they are followed as deep as it was asked for; without, not at all.
pub proof fn features_are_followed_as_asked(feature_depth: u32)
    ensures
        depth(feature_depth, true) == feature_depth,
        depth(feature_depth, false) == 0,
{
}

/// The graphs of some nodes with more behind them are those of the ones and then
/// those of the others.
pub proof fn graphs_add_up(
    g: KrateGraph,
    a: Seq<diag::GraphNode>,
    b: Seq<diag::GraphNode>,
    max: nat,
)
    ensures
        graphs_of(g, a + b, max) == graphs_of(g, a, max) + graphs_of(g, b, max),
    decreases b.len(),
{
    if b.len() == 0 {
        assert(a + b =~= a);
        assert(graphs_of(g, a, max) + graphs_of(g, b, max) =~= graphs_of(g, a, max));
    } else {
        assert((a + b).drop_last() =~= a + b.drop_last());
        graphs_add_up(g, a, b.drop_last(), max);
        assert(graphs_of(g, a + b, max) =~= graphs_of(g, a, max) + graphs_of(g, b, max));
    }
}

/// The paths of some graphs are those of each graph, one after the other.
pub proof fn paths_add_up(a: Seq<Tree>, b: Seq<Tree>, t: Tree)
    ensures
        graph_paths(a + b) == graph_paths(a) + graph_paths(b),
        graph_paths(seq![t]) == paths_from(t, Seq::empty()),
        graph_paths(Seq::empty()) == Seq::<Path>::empty(),
    decreases b.len(),
{
    reveal_with_fuel(graph_paths, 2);
    assert(seq![t].drop_last() =~= Seq::empty());
    assert(graph_paths(seq![t]) =~= paths_from(t, Seq::empty()));
    if b.len() == 0 {
        assert(a + b =~= a);
        assert(graph_paths(a) + graph_paths(b) =~= graph_paths(a));
    } else {
        assert((a + b).drop_last() =~= a + b.drop_last());
        paths_add_up(a, b.drop_last(), t);
        assert(graph_paths(a + b) =~= graph_paths(a) + graph_paths(b));
    }
}

/// A path is one of those of some graphs exactly where it is one of those of one of
/// them.
pub proof fn paths_are_those_of_the_graphs(graphs: Seq<Tree>, path: Path)
    ensures
        graph_paths(graphs).contains(path) <==> exists|i: int|
            0 <= i < graphs.len() && paths_from(#[trigger] graphs[i], Seq::empty()).contains(path),
    decreases graphs.len(),
{
    let all = graph_paths(graphs);
    if graphs.len() > 0 {
        let rest = graphs.drop_last();
        let before = graph_paths(rest);
        let last = paths_from(graphs.last(), Seq::empty());
        paths_are_those_of_the_graphs(rest, path);
        if all.contains(path) {
            let k = choose|k: int| 0 <= k < all.len() && all[k] == path;
            if k < before.len() {
                assert(before[k] == path);
                let i = choose|i: int|
                    0 <= i < rest.len() && paths_from(#[trigger] rest[i], Seq::empty()).contains(
                        path,
                    );
                assert(graphs[i] == rest[i]);
            } else {
                assert(last[k - before.len()] == path);
                assert(graphs[graphs.len() - 1] == graphs.last());
            }
        }
        if exists|i: int|
            0 <= i < graphs.len() && paths_from(#[trigger] graphs[i], Seq::empty()).contains(path) {
            let i = choose|i: int|
                0 <= i < graphs.len() && paths_from(#[trigger] graphs[i], Seq::empty()).contains(
                    path,
                );
            if i < rest.len() {
                assert(rest[i] == graphs[i]);
                let k = choose|k: int| 0 <= k < before.len() && before[k] == path;
                assert(all[k] == path);
            } else {
                let k = choose|k: int| 0 <= k < last.len() && last[k] == path;
                assert(all[before.len() + k] == path);
            }
        }
    }
}

/// The crates of some nodes are theirs, in order.
pub proof fn crates_are_those_of_the_nodes(nodes: Seq<diag::GraphNode>)
    ensures
        node_kids(nodes).len() == nodes.len(),
        forall|i: int|
            #![trigger node_kids(nodes)[i]]
            0 <= i < nodes.len() ==> node_kids(nodes)[i] == nodes[i].kid,
{
}

} // verus!
