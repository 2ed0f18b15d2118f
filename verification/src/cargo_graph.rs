//! Reads the crate graph that the `krates` crate builds from cargo's metadata.

use crate::krate_graph::{
    each_once, DepEdge, DepKind, Kid, Krate, KrateGraph, Node, NodePrint, Version,
};
use krates::petgraph::visit::EdgeRef;
use krates::petgraph::Direction;
use vstd::prelude::*;

verus! {

/// The package that `krates` keeps for a crate, as `cargo metadata` describes it.
#[verifier::external_type_specification]
#[verifier::external_body]
pub struct ExPackage(krates::cm::Package);

/// The edge of a `krates` graph.
#[verifier::external_type_specification]
#[verifier::external_body]
pub struct ExEdge(krates::Edge);

/// The graph of `krates`.
#[verifier::external_type_specification]
#[verifier::external_body]
#[verifier::reject_recursive_types(N)]
#[verifier::reject_recursive_types(E)]
pub struct ExKrates<N, E>(krates::Krates<N, E>);

/// The nodes of a graph, in the order of their indices.
pub uninterp spec fn krates_nodes(graph: krates::Krates) -> Seq<Node>;

/// The edges of a graph, in the order of their indices.
pub uninterp spec fn krates_edges(graph: krates::Krates) -> Seq<DepEdge>;

/// The edges that lead to a node of a graph, each with the node it comes from.
pub uninterp spec fn krates_incoming(graph: krates::Krates, node: int) -> Seq<NodePrint>;

/// The crates that directly depend on a node of a graph, each with the edge
/// that links it to the dependency.
pub uninterp spec fn krates_dependents(graph: krates::Krates, node: int) -> Seq<NodePrint>;

/// The workspace members of a graph; `None` stands for one that is no crate.
pub uninterp spec fn krates_members(graph: krates::Krates) -> Seq<Option<Kid>>;

/// The path of the root of the workspace of a graph.
pub uninterp spec fn krates_root(graph: krates::Krates) -> Seq<char>;

/// Calls `petgraph::Graph::node_count` on the graph of `krates::Krates::graph`:
/// the number of nodes.
#[verifier::external_body]
fn node_count(graph: &krates::Krates) -> (n: usize)
    ensures
        n == krates_nodes(*graph).len(),
{
    graph.graph().node_count()
}

/// Calls `petgraph::Graph::edge_count` on the graph of `krates::Krates::graph`:
/// the number of edges.
#[verifier::external_body]
fn edge_count(graph: &krates::Krates) -> (n: usize)
    ensures
        n == krates_edges(*graph).len(),
{
    graph.graph().edge_count()
}

/// Indexes the graph of `krates::Krates::graph` by a node, and takes over the
/// crate that it finds there, if it is one.
#[verifier::external_body]
fn krate_node_at(graph: &krates::Krates, i: usize) -> (krate: Option<Krate>)
    requires
        i < krates_nodes(*graph).len(),
    ensures
        krate == (match krates_nodes(*graph)[i as int] {
            Node::Krate { krate } => Some(krate),
            Node::Feature { .. } => None,
        }),
{
    match &graph.graph()[krates::NodeId::new(i)] {
        krates::Node::Krate { id, krate: k, .. } => Some(Krate {
            name: k.name.clone(),
            version: Version { major: k.version.major, minor: k.version.minor, patch: k.version.patch,
                pre: k.version.pre.to_string(), build: k.version.build.to_string() },
            id: Kid { repr: id.repr.clone(), name: id.name().into(), version: id.version().into(),
                source: id.source().into() },
            source: k.source.as_ref().map(|s| s.repr.clone()),
            manifest_path: k.manifest_path.to_string(),
        }),
        krates::Node::Feature { .. } => None,
    }
}

/// Indexes the graph of `krates::Krates::graph` by a node, and takes over the
/// feature that it finds there, if it is one: the node of its crate, which is a
/// crate of the same graph, and its name.
#[verifier::external_body]
fn feature_node_at(graph: &krates::Krates, i: usize) -> (feature: Option<(usize, String)>)
    requires
        i < krates_nodes(*graph).len(),
    ensures
        feature == (match krates_nodes(*graph)[i as int] {
            Node::Krate { .. } => None,
            Node::Feature { krate_index, name } => Some((krate_index, name)),
        }),
        feature matches Some(f) ==> f.0 < krates_nodes(*graph).len() && krates_nodes(
            *graph,
        )[f.0 as int] is Krate,
{
    match &graph.graph()[krates::NodeId::new(i)] {
        krates::Node::Krate { .. } => None,
        krates::Node::Feature { krate_index, name } => Some((krate_index.index(), name.clone())),
    }
}

/// The node at `i`.
fn node_at(graph: &krates::Krates, i: usize) -> (node: Node)
    requires
        i < krates_nodes(*graph).len(),
    ensures
        node == krates_nodes(*graph)[i as int],
        node matches Node::Feature { krate_index, .. } ==> krate_index < krates_nodes(
            *graph,
        ).len() && krates_nodes(*graph)[krate_index as int] is Krate,
{
    match feature_node_at(graph, i) {
        Some((krate_index, name)) => Node::Feature { krate_index, name },
        None => Node::Krate { krate: krate_node_at(graph, i).unwrap() },
    }
}

/// Indexes the graph of `krates::Krates::graph` by an edge, and takes over what
/// kind of edge it finds there.
#[verifier::external_body]
fn edge_at(graph: &krates::Krates, i: usize) -> (edge: DepEdge)
    requires
        i < krates_edges(*graph).len(),
    ensures
        edge == krates_edges(*graph)[i as int],
{
    match &graph.graph()[krates::EdgeId::new(i)] {
        krates::Edge::Feature => DepEdge::Feature,
        krates::Edge::Dep { kind, .. } => DepEdge::Dep { kind: match kind {
            krates::DepKind::Normal => DepKind::Normal,
            krates::DepKind::Build => DepKind::Build,
            krates::DepKind::Dev => DepKind::Dev,
        } },
        krates::Edge::DepFeature { kind, .. } => DepEdge::DepFeature { kind: match kind {
            krates::DepKind::Normal => DepKind::Normal,
            krates::DepKind::Build => DepKind::Build,
            krates::DepKind::Dev => DepKind::Dev,
        } },
    }
}

/// Calls `petgraph::Graph::edges_directed`, for the incoming edges of a node, on
/// the graph of `krates::Krates::graph`. Each edge, and the node it comes from,
/// is one of the graph.
#[verifier::external_body]
fn incoming_at(graph: &krates::Krates, i: usize) -> (prints: Vec<NodePrint>)
    requires
        i < krates_nodes(*graph).len(),
    ensures
        prints@ == krates_incoming(*graph, i as int),
        forall|j: int|
            #![trigger prints@[j]]
            0 <= j < prints.len() ==> prints@[j].node < krates_nodes(*graph).len()
                && prints@[j].edge is Some && prints@[j].edge->0 < krates_edges(*graph).len(),
{
    graph.graph()
        .edges_directed(krates::NodeId::new(i), Direction::Incoming)
        .map(|e| NodePrint { node: e.source().index(), edge: Some(e.id().index()) })
        .collect()
}

/// Calls `krates::Krates::direct_dependents`: the crates that directly depend on
/// a node, found by walking up the features of the node. Each is a crate of the
/// graph and is listed once, with an edge of the graph.
#[verifier::external_body]
fn dependents_at(graph: &krates::Krates, i: usize) -> (prints: Vec<NodePrint>)
    requires
        i < krates_nodes(*graph).len(),
    ensures
        prints@ == krates_dependents(*graph, i as int),
        forall|j: int|
            #![trigger prints@[j]]
            0 <= j < prints.len() ==> prints@[j].node < krates_nodes(*graph).len()
                && prints@[j].edge is Some && prints@[j].edge->0 < krates_edges(*graph).len()
                && krates_nodes(*graph)[prints@[j].node as int] is Krate,
        each_once(prints@),
{
    graph.direct_dependents(krates::NodeId::new(i))
        .into_iter()
        .map(|d| NodePrint { node: d.node_id.index(), edge: Some(d.edge_id.index()) })
        .collect()
}

/// Calls `krates::Krates::workspace_members`: the nodes of the members of the
/// workspace, of which the identifier is taken over.
#[verifier::external_body]
fn members(graph: &krates::Krates) -> (kids: Vec<Option<Kid>>)
    ensures
        kids@ == krates_members(*graph),
{
    graph.workspace_members()
        .map(|node| match node {
            krates::Node::Krate { id, .. } => Some(Kid { repr: id.repr.clone(), name: id.name().into(),
                version: id.version().into(), source: id.source().into() }),
            krates::Node::Feature { .. } => None,
        })
        .collect()
}

/// Calls `krates::Krates::workspace_root`: the path of the root of the workspace.
#[verifier::external_body]
fn root(graph: &krates::Krates) -> (path: String)
    ensures
        path@ == krates_root(*graph),
{
    graph.workspace_root().to_string()
}

/// The members that are crates.
pub open spec fn known(members: Seq<Option<Kid>>) -> Seq<Kid>
    decreases members.len(),
{
    if members.len() == 0 {
        Seq::empty()
    } else {
        match members.last() {
            Some(kid) => known(members.drop_last()).push(kid),
            None => known(members.drop_last()),
        }
    }
}

fn known_members(graph: &krates::Krates) -> (kids: Vec<Kid>)
    ensures
        kids@ == known(krates_members(*graph)),
{
    let found = members(graph);
    let mut kids: Vec<Kid> = Vec::new();
    let mut i: usize = 0;
    assert(found@.take(0) =~= Seq::empty());
    while i < found.len()
        invariant
            i <= found.len(),
            kids@ == known(found@.take(i as int)),
        decreases found.len() - i,
    {
        assert(found@.take(i + 1).drop_last() =~= found@.take(i as int));
        if let Some(kid) = &found[i] {
            kids.push(kid.clone());
        }
        i += 1;
    }
    assert(found@.take(i as int) =~= found@);
    kids
}

impl KrateGraph {
    /// Whether this is `graph`, taken over node by node and edge by edge.
    pub open spec fn mirrors(self, graph: krates::Krates) -> bool {
        &&& self.nodes@ == krates_nodes(graph)
        &&& self.edges@ == krates_edges(graph)
        &&& self.incoming.len() == self.nodes.len()
        &&& self.dependents.len() == self.nodes.len()
        &&& forall|i: int|
            #![trigger self.incoming@[i]]
            0 <= i < self.nodes.len() ==> self.incoming@[i]@ == krates_incoming(graph, i)
        &&& forall|i: int|
            #![trigger self.dependents@[i]]
            0 <= i < self.nodes.len() ==> self.dependents@[i]@ == krates_dependents(graph, i)
        &&& self.workspace_members@ == known(krates_members(graph))
        &&& self.workspace_root@ == krates_root(graph)
    }

    /// Takes over the crates and the edges of a graph.
    pub fn from_graph(graph: &krates::Krates) -> (krates: KrateGraph)
        ensures
            krates.wf(),
            krates.mirrors(*graph),
    {
        let n = node_count(graph);
        let m = edge_count(graph);
        let ghost all = krates_nodes(*graph);
        let ghost links = krates_edges(*graph);
        let mut nodes: Vec<Node> = Vec::new();
        let mut edges: Vec<DepEdge> = Vec::new();
        let mut incoming: Vec<Vec<NodePrint>> = Vec::new();
        let mut dependents: Vec<Vec<NodePrint>> = Vec::new();
        let mut e: usize = 0;
        while e < m
            invariant
                e <= m,
                m == links.len(),
                links == krates_edges(*graph),
                edges@ == links.take(e as int),
            decreases m - e,
        {
            edges.push(edge_at(graph, e));
            e += 1;
            assert(edges@ =~= links.take(e as int));
        }
        let mut i: usize = 0;
        while i < n
            invariant
                i <= n,
                n == all.len(),
                all == krates_nodes(*graph),
                links == krates_edges(*graph),
                nodes@ == all.take(i as int),
                incoming.len() == i,
                dependents.len() == i,
                forall|k: int|
                    #![trigger all[k]]
                    0 <= k < i ==> (all[k] matches Node::Feature { krate_index, .. } ==> krate_index
                        < n && all[krate_index as int] is Krate),
                forall|k: int|
                    #![trigger incoming@[k]]
                    0 <= k < i ==> incoming@[k]@ == krates_incoming(*graph, k),
                forall|k: int|
                    #![trigger dependents@[k]]
                    0 <= k < i ==> dependents@[k]@ == krates_dependents(*graph, k) && each_once(
                        dependents@[k]@,
                    ),
                forall|k: int, j: int|
                    #![trigger incoming@[k]@[j]]
                    0 <= k < i && 0 <= j < incoming@[k].len() ==> incoming@[k]@[j].node < n
                        && incoming@[k]@[j].edge is Some && incoming@[k]@[j].edge->0 < links.len(),
                forall|k: int, j: int|
                    #![trigger dependents@[k]@[j]]
                    0 <= k < i && 0 <= j < dependents@[k].len() ==> dependents@[k]@[j].node < n
                        && dependents@[k]@[j].edge is Some && dependents@[k]@[j].edge->0
                        < links.len() && all[dependents@[k]@[j].node as int] is Krate,
            decreases n - i,
        {
            nodes.push(node_at(graph, i));
            incoming.push(incoming_at(graph, i));
            dependents.push(dependents_at(graph, i));
            i += 1;
            assert(nodes@ =~= all.take(i as int));
        }
        assert(nodes@ =~= all);
        assert(edges@ =~= links);
        let krates = KrateGraph {
            nodes,
            edges,
            incoming,
            dependents,
            workspace_members: known_members(graph),
            workspace_root: root(graph),
        };
        krates
    }
}

} // verus!
