//! Inclusion graphs: who depends on a crate, up to the crates of the project.

use crate::diag;
use crate::krate_graph::{krate_at, DepEdge, DepKind, Kid, KrateGraph, Node, NodePrint, Version};
use crate::small::{node_prints, NodePrints};
use crate::text::{order_text, text_order, Order};
use std::collections::HashSet;
use vstd::prelude::*;

verus! {

/// What a node of an inclusion graph shows.
#[derive(Debug)]
pub enum NodeInner {
    Krate {
        name: String,
        version: Version,
        kind: Option<&'static str>,
        id: Kid,
        is_project_crate: bool,
    },
    Feature {
        crate_name: String,
        name: String,
        /// The version and the identifier of the crate, where they are known.
        owner: Option<(Version, Kid)>,
    },
}

/// A node of an inclusion graph, above the nodes that depend on it.
#[derive(Debug)]
pub struct GraphNode {
    pub inner: NodeInner,
    pub repeat: bool,
    pub parents: Vec<GraphNode>,
}

/// The values in a `NodeInner`.
pub enum Shown {
    Krate {
        name: Seq<char>,
        version: Version,
        kind: Option<Seq<char>>,
        id: Kid,
        is_project_crate: bool,
    },
    Feature { crate_name: Seq<char>, name: Seq<char>, owner: Option<(Version, Kid)> },
}

impl View for NodeInner {
    type V = Shown;

    open spec fn view(&self) -> Shown {
        match *self {
            NodeInner::Krate { name, version, kind, id, is_project_crate } => Shown::Krate {
                name: name@,
                version,
                kind: match kind {
                    Some(kind) => Some(kind@),
                    None => None,
                },
                id,
                is_project_crate,
            },
            NodeInner::Feature { crate_name, name, owner } => Shown::Feature {
                crate_name: crate_name@,
                name: name@,
                owner,
            },
        }
    }
}

/// The tree that a `GraphNode` is the root of.
pub struct Tree {
    pub inner: Shown,
    pub repeat: bool,
    pub parents: Seq<Tree>,
}

impl GraphNode {
    /// The tree of the node and everything above it.
    pub open spec fn tree(self) -> Tree
        decreases self,
    {
        Tree {
            inner: self.inner@,
            repeat: self.repeat,
            parents: Seq::new(
                self.parents@.len(),
                |i: int|
                    if 0 <= i < self.parents@.len() {
                        self.parents@[i].tree()
                    } else {
                        arbitrary()
                    },
            ),
        }
    }
}

impl View for GraphNode {
    type V = Tree;

    open spec fn view(&self) -> Tree {
        self.tree()
    }
}

/// How two nodes are ordered below a common node: crates by their identifier,
/// before features by their name.
pub open spec fn node_order(nodes: Seq<Node>, a: NodePrint, b: NodePrint) -> Order {
    match (nodes[a.node as int], nodes[b.node as int]) {
        (Node::Krate { krate: a }, Node::Krate { krate: b }) => a.id.order(b.id),
        (Node::Krate { .. }, Node::Feature { .. }) => Order::Less,
        (Node::Feature { .. }, Node::Krate { .. }) => Order::Greater,
        (Node::Feature { name: a, .. }, Node::Feature { name: b, .. }) => text_order(a@, b@),
    }
}

/// `list` with `np` after the last item that it does not precede.
pub open spec fn with_node(nodes: Seq<Node>, list: Seq<NodePrint>, np: NodePrint) -> Seq<NodePrint>
    decreases list.len(),
{
    if list.len() == 0 {
        seq![np]
    } else if node_order(nodes, np, list.last()) == Order::Less {
        with_node(nodes, list.drop_last(), np).push(list.last())
    } else {
        list.push(np)
    }
}

/// `list` in order; items that are equal in the order stay as they are.
pub open spec fn in_order(nodes: Seq<Node>, list: Seq<NodePrint>) -> Seq<NodePrint>
    decreases list.len(),
{
    if list.len() == 0 {
        Seq::empty()
    } else {
        with_node(nodes, in_order(nodes, list.drop_last()), list.last())
    }
}

/// A walk through the graph against its edges: a node, whether it was met
/// before, and the walks from the nodes above it.
pub struct Walk {
    pub np: NodePrint,
    pub repeat: bool,
    pub parents: Seq<Walk>,
}

/// The nodes above a node, in order: down to `max` by every edge, from there on
/// only the crates that directly depend on it.
pub open spec fn above(g: KrateGraph, node: int, depth: nat, max: nat) -> Seq<NodePrint> {
    in_order(
        g.nodes@,
        if depth < max {
            g.incoming@[node]@
        } else {
            g.dependents@[node]@
        },
    )
}

/// The walk from `np`, at `depth`, where `seen` has been met before, and what
/// has been met after it. A walk is never as deep as the graph has nodes.
pub open spec fn walk(
    g: KrateGraph,
    np: NodePrint,
    depth: nat,
    max: nat,
    seen: Set<usize>,
) -> (Walk, Set<usize>)
    decreases g.nodes.len() - depth, 0nat,
{
    if seen.contains(np.node) || depth >= g.nodes.len() {
        (Walk { np, repeat: true, parents: Seq::empty() }, seen)
    } else {
        let (parents, met) = walk_all(
            g,
            above(g, np.node as int, depth, max),
            depth + 1,
            max,
            seen.insert(np.node),
        );
        (Walk { np, repeat: false, parents }, met)
    }
}

/// The walks from each of `list`, one after the other.
pub open spec fn walk_all(
    g: KrateGraph,
    list: Seq<NodePrint>,
    depth: nat,
    max: nat,
    seen: Set<usize>,
) -> (Seq<Walk>, Set<usize>)
    decreases g.nodes.len() - depth, list.len(),
{
    if list.len() == 0 {
        (Seq::empty(), seen)
    } else {
        let (walks, met) = walk_all(g, list.drop_last(), depth, max, seen);
        let (last, met) = walk(g, list.last(), depth, max, met);
        (walks.push(last), met)
    }
}

/// How the kind of the dependency that an edge stands for is shown.
pub open spec fn kind_text(g: KrateGraph, edge: Option<usize>) -> Option<Seq<char>> {
    match edge {
        Some(e) => match g.edges@[e as int] {
            DepEdge::Dep { kind: DepKind::Dev } | DepEdge::DepFeature { kind: DepKind::Dev } => Some(
                "dev"@,
            ),
            DepEdge::Dep { kind: DepKind::Build } | DepEdge::DepFeature {
                kind: DepKind::Build,
            } => Some("build"@),
            _ => None,
        },
        None => None,
    }
}

/// What the graph shows of a node that was reached by an edge.
pub open spec fn shown(g: KrateGraph, np: NodePrint) -> Shown {
    match g.nodes@[np.node as int] {
        Node::Krate { krate } => Shown::Krate {
            name: krate.name@,
            version: krate.version,
            kind: kind_text(g, np.edge),
            id: krate.id,
            is_project_crate: g.has_member(krate.id),
        },
        Node::Feature { krate_index, name } => match g.nodes@[krate_index as int] {
            Node::Krate { krate } => Shown::Feature {
                crate_name: krate.name@,
                name: name@,
                owner: Some((krate.version, krate.id)),
            },
            Node::Feature { .. } => Shown::Feature {
                crate_name: Seq::empty(),
                name: name@,
                owner: None,
            },
        },
    }
}

/// The tree that shows a walk.
pub open spec fn drawn(g: KrateGraph, w: Walk) -> Tree
    decreases w,
{
    Tree {
        inner: shown(g, w.np),
        repeat: w.repeat,
        parents: Seq::new(
            w.parents.len(),
            |i: int|
                if 0 <= i < w.parents.len() {
                    drawn(g, w.parents[i])
                } else {
                    arbitrary()
                },
        ),
    }
}

/// The inclusion graph of a crate or a feature. That of a feature hangs below
/// the crate that the feature belongs to.
pub open spec fn graph_of(
    g: KrateGraph,
    kid: Kid,
    feature: Option<Seq<char>>,
    max: nat,
) -> Option<Tree> {
    match g.node_of(kid, feature) {
        Some(n) => {
            let np = NodePrint { node: n as usize, edge: None };
            let root = drawn(g, walk(g, np, 0, max, Set::empty()).0);
            match feature {
                Some(_) => {
                    let krate = NodePrint {
                        node: krate_at(g.nodes@, kid, 0).unwrap() as usize,
                        edge: None,
                    };
                    Some(Tree { inner: shown(g, krate), repeat: false, parents: seq![root] })
                },
                None => Some(root),
            }
        },
        None => None,
    }
}

/// Whether every index in `seen` is below `n`.
pub open spec fn within(seen: Set<usize>, n: nat) -> bool {
    seen.finite() && forall|i: usize| seen.contains(i) ==> i < n
}

/// There are at most `n` indices below `n`.
pub proof fn lemma_within_bound(seen: Set<usize>, n: nat)
    requires
        within(seen, n),
    ensures
        seen.len() <= n,
    decreases n,
{
    if n == 0 {
        assert(seen =~= Set::empty());
    } else {
        let top = (n - 1) as usize;
        if n - 1 <= usize::MAX {
            lemma_within_bound(seen.remove(top), (n - 1) as nat);
        } else {
            lemma_within_bound(seen, (n - 1) as nat);
        }
    }
}

/// Why there is no inclusion graph.
#[derive(Clone, Copy, PartialEq, Eq, Structural, Debug)]
pub enum GraphError {
    NodeNotFound,
}

impl GraphError {
    pub fn message(self) -> (s: &'static str)
        ensures
            s@ == "unable to find node"@,
    {
        "unable to find node"
    }
}

/// Creates reverse dependency graphs rooted at a specific node.
pub struct InclusionGrapher<'a> {
    pub krates: &'a KrateGraph,
}

impl<'a> InclusionGrapher<'a> {
    pub fn new(krates: &'a KrateGraph) -> (grapher: Self)
        ensures
            grapher.krates == krates,
    {
        Self { krates }
    }

    /// Whether a crate is one of the project. The roots of single projects are
    /// members of the workspace too.
    fn is_project_crate(&self, kid: &Kid) -> (r: bool)
        ensures
            r == self.krates.has_member(*kid),
    {
        self.krates.is_member(kid)
    }

    /// How two nodes are ordered below a common node.
    fn order_of(&self, a: NodePrint, b: NodePrint) -> (order: Order)
        requires
            self.krates.has_print(a),
            self.krates.has_print(b),
        ensures
            order == node_order(self.krates.nodes@, a, b),
    {
        match (&self.krates.nodes[a.node], &self.krates.nodes[b.node]) {
            (Node::Krate { krate: a }, Node::Krate { krate: b }) => a.id.order_of(&b.id),
            (Node::Krate { .. }, Node::Feature { .. }) => Order::Less,
            (Node::Feature { .. }, Node::Krate { .. }) => Order::Greater,
            (Node::Feature { name: a, .. }, Node::Feature { name: b, .. }) => order_text(
                a.as_str(),
                b.as_str(),
            ),
        }
    }

    /// What the graph shows of a node.
    fn make_node(&self, np: NodePrint) -> (inner: NodeInner)
        requires
            self.krates.wf(),
            self.krates.has_print(np),
        ensures
            inner@ == shown(*self.krates, np),
    {
        match &self.krates.nodes[np.node] {
            Node::Krate { krate } => {
                let kind = match np.edge {
                    Some(e) => match self.krates.edges[e] {
                        DepEdge::Dep { kind } | DepEdge::DepFeature { kind } => match kind {
                            DepKind::Normal => None,
                            DepKind::Dev => Some("dev"),
                            DepKind::Build => Some("build"),
                        },
                        DepEdge::Feature => None,
                    },
                    None => None,
                };
                NodeInner::Krate {
                    name: krate.name.clone(),
                    version: krate.version.clone(),
                    kind,
                    id: krate.id.clone(),
                    is_project_crate: self.is_project_crate(&krate.id),
                }
            },
            Node::Feature { krate_index, name } => {
                match &self.krates.nodes[*krate_index] {
                    Node::Krate { krate } => NodeInner::Feature {
                        crate_name: krate.name.clone(),
                        name: name.clone(),
                        owner: Some((krate.version.clone(), krate.id.clone())),
                    },
                    Node::Feature { .. } => NodeInner::Feature {
                        crate_name: String::new(),
                        name: name.clone(),
                        owner: None,
                    },
                }
            },
        }
    }

    /// Puts a node where it belongs in a list that is in order.
    fn insert_node(&self, list: &mut NodePrints, np: NodePrint)
        requires
            self.krates.has_print(np),
            forall|i: int|
                0 <= i < node_prints(*old(list)).len() ==> self.krates.has_print(
                    #[trigger] node_prints(*old(list))[i],
                ),
        ensures
            node_prints(*final(list)) == with_node(self.krates.nodes@, node_prints(*old(list)), np),
            forall|i: int|
                0 <= i < node_prints(*final(list)).len() ==> self.krates.has_print(
                    #[trigger] node_prints(*final(list))[i],
                ),
    {
        let ghost before = node_prints(*list);
        let ghost nodes = self.krates.nodes@;
        let mut i = list.len();
        assert(before.take(i as int) =~= before);
        assert(before.skip(i as int) =~= Seq::empty());
        assert(with_node(nodes, before.take(i as int), np) + before.skip(i as int) =~= with_node(
            nodes,
            before,
            np,
        ));
        while i > 0 && self.order_of(np, list.at(i - 1)) == Order::Less
            invariant
                i <= before.len(),
                before == node_prints(*list),
                before == node_prints(*old(list)),
                nodes == self.krates.nodes@,
                self.krates.has_print(np),
                forall|j: int|
                    0 <= j < before.len() ==> self.krates.has_print(#[trigger] before[j]),
                with_node(nodes, before, np) == with_node(nodes, before.take(i as int), np)
                    + before.skip(i as int),
            decreases i,
        {
            proof {
                let part = before.take(i as int);
                assert(part.last() == before[i - 1]);
                assert(part.drop_last() =~= before.take(i - 1));
                assert(before.skip(i - 1) =~= seq![before[i - 1]] + before.skip(i as int));
                assert(with_node(nodes, part, np) + before.skip(i as int) =~= with_node(
                    nodes,
                    before.take(i - 1),
                    np,
                ) + before.skip(i - 1));
            }
            i -= 1;
        }
        list.insert(i, np);
        proof {
            let part = before.take(i as int);
            if i > 0 {
                assert(part.last() == before[i - 1]);
            }
            assert(with_node(nodes, part, np) =~= part.push(np));
            assert(before.insert(i as int, np) =~= part.push(np) + before.skip(i as int));
        }
    }

    /// The nodes above a node, in a consistent order.
    fn parents_of(&self, node: usize, depth: usize, max_feature_depth: usize) -> (list: NodePrints)
        requires
            self.krates.wf(),
            node < self.krates.nodes.len(),
        ensures
            node_prints(list) == above(
                *self.krates,
                node as int,
                depth as nat,
                max_feature_depth as nat,
            ),
            forall|i: int|
                0 <= i < node_prints(list).len() ==> self.krates.has_print(
                    #[trigger] node_prints(list)[i],
                ),
    {
        // Without features, the feature edges are walked up until an actual
        // crate dependency is reached.
        let found = if depth < max_feature_depth {
            &self.krates.incoming[node]
        } else {
            &self.krates.dependents[node]
        };
        let mut list = NodePrints::new();
        let mut i: usize = 0;
        assert(found@.take(0) =~= Seq::empty());
        assert forall|j: int| 0 <= j < found.len() implies self.krates.has_print(
            #[trigger] found@[j],
        ) by {
            if depth < max_feature_depth {
                assert(self.krates.has_print(self.krates.incoming@[node as int]@[j]));
            } else {
                assert(self.krates.has_print(self.krates.dependents@[node as int]@[j]));
            }
        }
        while i < found.len()
            invariant
                i <= found.len(),
                forall|j: int|
                    0 <= j < found.len() ==> self.krates.has_print(#[trigger] found@[j]),
                forall|j: int|
                    0 <= j < node_prints(list).len() ==> self.krates.has_print(
                        #[trigger] node_prints(list)[j],
                    ),
                node_prints(list) == in_order(self.krates.nodes@, found@.take(i as int)),
            decreases found.len() - i,
        {
            assert(found@.take(i + 1).drop_last() =~= found@.take(i as int));
            self.insert_node(&mut list, found[i]);
            i += 1;
        }
        assert(found@.take(i as int) =~= found@);
        list
    }

    /// The graph from `np` on, where `visited` has been met before.
    fn append_node(
        &self,
        np: NodePrint,
        depth: usize,
        max_feature_depth: usize,
        visited: &mut HashSet<usize>,
    ) -> (graph: GraphNode)
        requires
            self.krates.wf(),
            self.krates.has_print(np),
            within(old(visited)@, self.krates.nodes.len() as nat),
            depth <= old(visited)@.len(),
        ensures
            graph@ == drawn(
                *self.krates,
                walk(*self.krates, np, depth as nat, max_feature_depth as nat, old(visited)@).0,
            ),
            final(visited)@ == walk(
                *self.krates,
                np,
                depth as nat,
                max_feature_depth as nat,
                old(visited)@,
            ).1,
            within(final(visited)@, self.krates.nodes.len() as nat),
            old(visited)@.len() <= final(visited)@.len(),
        decreases self.krates.nodes.len() - old(visited)@.len(),
    {
        broadcast use vstd::std_specs::hash::group_hash_axioms;

        let ghost g = *self.krates;
        let ghost seen = visited@;
        proof {
            lemma_within_bound(seen, g.nodes.len() as nat);
            if !seen.contains(np.node) {
                lemma_within_bound(seen.insert(np.node), g.nodes.len() as nat);
            }
        }
        if !visited.insert(np.node) {
            let graph = GraphNode {
                inner: self.make_node(np),
                repeat: true,
                parents: Vec::new(),
            };
            assert(graph@.parents =~= drawn(
                g,
                Walk { np, repeat: true, parents: Seq::empty() },
            ).parents);
            return graph;
        }
        let list = self.parents_of(np.node, depth, max_feature_depth);
        let ghost prints = node_prints(list);
        let mut parents: Vec<GraphNode> = Vec::new();
        let mut i: usize = 0;
        assert(prints.take(0) =~= Seq::empty());
        while i < list.len()
            invariant
                g == *self.krates,
                g.wf(),
                prints == node_prints(list),
                i <= prints.len(),
                depth < g.nodes.len(),
                forall|j: int| 0 <= j < prints.len() ==> g.has_print(#[trigger] prints[j]),
                seen == old(visited)@,
                within(visited@, g.nodes.len() as nat),
                depth + 1 <= seen.len() + 1 <= visited@.len(),
                parents.len() == i,
                ({
                    let (walks, met) = walk_all(
                        g,
                        prints.take(i as int),
                        (depth + 1) as nat,
                        max_feature_depth as nat,
                        seen.insert(np.node),
                    );
                    &&& met == visited@
                    &&& walks.len() == i
                    &&& forall|j: int|
                        0 <= j < i ==> (#[trigger] parents@[j])@ == drawn(g, walks[j])
                }),
            decreases prints.len() - i,
        {
            assert(prints.take(i + 1).drop_last() =~= prints.take(i as int));
            proof {
                lemma_within_bound(visited@, g.nodes.len() as nat);
            }
            let parent = self.append_node(list.at(i), depth + 1, max_feature_depth, visited);
            parents.push(parent);
            i += 1;
        }
        assert(prints.take(i as int) =~= prints);
        let graph = GraphNode { inner: self.make_node(np), repeat: false, parents };
        assert(graph@.parents =~= drawn(
            g,
            walk(g, np, depth as nat, max_feature_depth as nat, seen).0,
        ).parents);
        graph
    }

    /// Creates an inclusion graph rooted at the specified node.
    pub fn build_graph(&self, id: &diag::GraphNode, max_feature_depth: usize) -> (graph: Result<
        GraphNode,
        GraphError,
    >)
        requires
            self.krates.wf(),
        ensures
            match graph_of(*self.krates, id.kid, id.feature_text(), max_feature_depth as nat) {
                Some(tree) => graph matches Ok(root) && root@ == tree,
                None => graph == Err::<GraphNode, GraphError>(GraphError::NodeNotFound),
            },
    {
        broadcast use vstd::std_specs::hash::group_hash_axioms;

        let feature = match &id.feature {
            Some(name) => Some(name.as_str()),
            None => None,
        };
        let node = match self.krates.get_node(&id.kid, feature) {
            Some(node) => node,
            None => return Err(GraphError::NodeNotFound),
        };
        let mut visited: HashSet<usize> = HashSet::new();
        let np = NodePrint { node, edge: None };
        let root = self.append_node(np, 0, max_feature_depth, &mut visited);
        // A graph rooted at a feature is shown below the crate of the feature.
        if id.feature.is_some() {
            let krate = match self.krates.get_node(&id.kid, None) {
                Some(node) => node,
                None => return Err(GraphError::NodeNotFound),
            };
            let inner = self.make_node(NodePrint { node: krate, edge: None });
            let mut parents: Vec<GraphNode> = Vec::new();
            parents.push(root);
            let graph = GraphNode { inner, repeat: false, parents };
            assert(graph@.parents =~= seq![root@]);
            Ok(graph)
        } else {
            Ok(root)
        }
    }
}

} // verus!
