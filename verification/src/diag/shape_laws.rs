//! What an inclusion graph shows of the crate graph that it is built from.

use crate::diag::graph_laws::{
    first_visit_expands, in_order_is_ordered, is_faithful, lemma_above_prints, lemma_feature_at,
    lemma_krate_at, lemma_node_of, meets, nodes_of, nodes_of_all, visits, visits_all,
    walk_expands_once,
};
use crate::diag::grapher::{
    above, drawn, graph_of, node_order, shown, walk, walk_all, Shown, Tree, Walk,
};
use crate::diag::paths::{paths_exist_with_project, paths_from};
use crate::diag::tree_text::no_project;
use crate::krate_graph::{
    feature_at, krate_at, DepEdge, DepKind, Kid, KrateGraph, Node, NodePrint,
};
use crate::text::{stands_before, text_order_is_lexicographic, Order};
use vstd::prelude::*;

verus! {

/// Whether two identifiers agree in name, version and source.
pub open spec fn equal_kids(a: Kid, b: Kid) -> bool {
    &&& a.name@ == b.name@
    &&& a.version@ == b.version@
    &&& a.source@ == b.source@
}

/// Whether an identifier is that of a member of the workspace.
pub open spec fn is_listed_member(g: KrateGraph, kid: Kid) -> bool {
    exists|m: int|
        0 <= m < g.workspace_members.len() && equal_kids(#[trigger] g.workspace_members@[m], kid)
}

/// Whether a node was reached by a dependency of the given kind.
pub open spec fn reached_by(g: KrateGraph, np: NodePrint, kind: DepKind) -> bool {
    &&& np.edge matches Some(e)
    &&& g.edges@[e as int] == (DepEdge::Dep { kind }) || g.edges@[e as int]
        == (DepEdge::DepFeature { kind })
}

/// Whether `inner` shows a node of the graph: a crate with its name, version,
/// identifier and kind, marked if it is a member; a feature with its name and that
/// of its crate.
pub open spec fn shows_node(g: KrateGraph, inner: Shown, np: NodePrint) -> bool {
    match g.nodes@[np.node as int] {
        Node::Krate { krate } => {
            &&& inner matches Shown::Krate { name, version, kind, id, is_project_crate }
            &&& name == krate.name@
            &&& version == krate.version
            &&& id == krate.id
            &&& is_project_crate <==> is_listed_member(g, krate.id)
            &&& kind == Some("dev"@) <==> reached_by(g, np, DepKind::Dev)
            &&& kind == Some("build"@) <==> reached_by(g, np, DepKind::Build)
            &&& kind is None <==> !reached_by(g, np, DepKind::Dev) && !reached_by(
                g,
                np,
                DepKind::Build,
            )
        },
        Node::Feature { krate_index, name: feature } => {
            &&& inner matches Shown::Feature { crate_name, name, owner }
            &&& name == feature@
            &&& g.nodes@[krate_index as int] matches Node::Krate { krate }
            &&& crate_name == krate.name@
            &&& owner == Some((krate.version, krate.id))
        },
    }
}

/// Whether a tree shows a walk, node by node.
pub open spec fn shows(g: KrateGraph, t: Tree, w: Walk) -> bool
    decreases t,
{
    &&& shows_node(g, t.inner, w.np)
    &&& t.repeat == w.repeat
    &&& t.parents.len() == w.parents.len()
    &&& forall|i: int| 0 <= i < t.parents.len() ==> shows(g, #[trigger] t.parents[i], w.parents[i])
}

/// The nodes that some walks start at.
pub open spec fn starts_of(walks: Seq<Walk>) -> Seq<NodePrint> {
    Seq::new(walks.len(), |i: int| walks[i].np)
}

/// Whether one node is listed before another: crates by name, then version, then
/// source, before features by name.
pub open spec fn comes_first(a: Node, b: Node) -> bool {
    match (a, b) {
        (Node::Krate { krate: a }, Node::Krate { krate: b }) => {
            ||| stands_before(a.id.name@, b.id.name@)
            ||| a.id.name@ == b.id.name@ && stands_before(a.id.version@, b.id.version@)
            ||| a.id.name@ == b.id.name@ && a.id.version@ == b.id.version@ && stands_before(
                a.id.source@,
                b.id.source@,
            )
        },
        (Node::Krate { .. }, Node::Feature { .. }) => true,
        (Node::Feature { .. }, Node::Krate { .. }) => false,
        (Node::Feature { name: a, .. }, Node::Feature { name: b, .. }) => stands_before(a@, b@),
    }
}

/// Whether no walk starts at a node that is listed before that of an earlier one.
pub open spec fn listed_in_order(g: KrateGraph, walks: Seq<Walk>) -> bool {
    forall|i: int, j: int|
        #![trigger walks[i], walks[j]]
        0 <= i < j < walks.len() ==> !comes_first(
            g.nodes@[walks[j].np.node as int],
            g.nodes@[walks[i].np.node as int],
        )
}

/// Whether each node that a walk expands has one parent for each edge that leads to
/// it, up to `max` levels, and from there on one for each crate that directly
/// depends on it; the parents are in order.
pub open spec fn edges_shown(g: KrateGraph, w: Walk, depth: nat, max: nat) -> bool
    decreases w,
{
    if w.repeat {
        w.parents.len() == 0
    } else {
        &&& starts_of(w.parents).to_multiset() == (if depth < max {
            g.incoming@[w.np.node as int]@
        } else {
            g.dependents@[w.np.node as int]@
        }).to_multiset()
        &&& listed_in_order(g, w.parents)
        &&& forall|i: int|
            0 <= i < w.parents.len() ==> edges_shown(g, #[trigger] w.parents[i], depth + 1, max)
    }
}

/// Whether each node that a walk expands, however deep, has one parent for each
/// edge that leads to it.
pub open spec fn all_edges_shown(g: KrateGraph, w: Walk) -> bool
    decreases w,
{
    if w.repeat {
        w.parents.len() == 0
    } else {
        &&& starts_of(w.parents).to_multiset() == g.incoming@[w.np.node as int]@.to_multiset()
        &&& forall|i: int|
            0 <= i < w.parents.len() ==> all_edges_shown(g, #[trigger] w.parents[i])
    }
}

/// Whether each node that a walk expands has one parent for each crate that
/// directly depends on it.
pub open spec fn dependents_shown(g: KrateGraph, w: Walk) -> bool
    decreases w,
{
    if w.repeat {
        w.parents.len() == 0
    } else {
        &&& starts_of(w.parents).to_multiset() == g.dependents@[w.np.node as int]@.to_multiset()
        &&& forall|i: int|
            0 <= i < w.parents.len() ==> dependents_shown(g, #[trigger] w.parents[i])
    }
}

/// Whether exactly the visits to a node that was visited before are repeats.
pub open spec fn repeats_shown(w: Walk) -> bool {
    forall|i: int|
        #![trigger visits(w)[i]]
        0 <= i < visits(w).len() ==> (visits(w)[i].repeat <==> exists|j: int|
            0 <= j < i && (#[trigger] visits(w)[j]).np.node == visits(w)[i].np.node)
}

/// Whether a walk starts at the node `n` and shows what depends on it.
pub open spec fn walks_from(g: KrateGraph, w: Walk, n: int, max: nat) -> bool {
    &&& 0 <= n < g.nodes.len()
    &&& w.np == (NodePrint { node: n as usize, edge: None })
    &&& edges_shown(g, w, 0, max)
    &&& repeats_shown(w)
}

/// Whether the node `n` is the crate `kid`.
pub open spec fn is_crate_node(g: KrateGraph, n: int, kid: Kid) -> bool {
    &&& 0 <= n < g.nodes.len()
    &&& g.nodes@[n] matches Node::Krate { krate }
    &&& equal_kids(krate.id, kid)
}

/// Whether the node `n` is the feature `name` of the crate at `krate`, to which an
/// edge leads from it.
pub open spec fn is_feature_node(g: KrateGraph, n: int, krate: int, name: Seq<char>) -> bool {
    &&& 0 <= n < g.nodes.len()
    &&& g.nodes@[n] matches Node::Feature { krate_index, name: feature }
    &&& krate_index == krate
    &&& feature@ == name
    &&& exists|j: int|
        0 <= j < g.incoming@[krate].len() && (#[trigger] g.incoming@[krate]@[j]).node == n
}

proof fn lemma_node_order(nodes: Seq<Node>, a: NodePrint, b: NodePrint)
    ensures
        node_order(nodes, a, b) == Order::Less <==> comes_first(
            nodes[a.node as int],
            nodes[b.node as int],
        ),
{
    match (nodes[a.node as int], nodes[b.node as int]) {
        (Node::Krate { krate: x }, Node::Krate { krate: y }) => {
            text_order_is_lexicographic(x.id.name@, y.id.name@);
            text_order_is_lexicographic(x.id.version@, y.id.version@);
            text_order_is_lexicographic(x.id.source@, y.id.source@);
        },
        (Node::Feature { name: x, .. }, Node::Feature { name: y, .. }) => {
            text_order_is_lexicographic(x@, y@);
        },
        _ => {},
    }
}

proof fn lemma_edges_shown(g: KrateGraph, w: Walk, depth: nat, max: nat)
    requires
        is_faithful(g, w, depth, max),
    ensures
        edges_shown(g, w, depth, max),
    decreases w,
{
    if !w.repeat {
        let found = if depth < max {
            g.incoming@[w.np.node as int]@
        } else {
            g.dependents@[w.np.node as int]@
        };
        let list = above(g, w.np.node as int, depth, max);
        in_order_is_ordered(g.nodes@, found);
        assert(starts_of(w.parents) =~= list) by {
            assert forall|i: int| 0 <= i < w.parents.len() implies #[trigger] starts_of(
                w.parents,
            )[i] == list[i] by {
                assert(w.parents[i].np == list[i]);
            }
        }
        assert forall|i: int, j: int| #![trigger w.parents[i], w.parents[j]] 0 <= i < j
            < w.parents.len() implies !comes_first(
            g.nodes@[w.parents[j].np.node as int],
            g.nodes@[w.parents[i].np.node as int],
        ) by {
            assert(w.parents[i].np == list[i]);
            assert(w.parents[j].np == list[j]);
            lemma_node_order(g.nodes@, list[j], list[i]);
            assert(node_order(g.nodes@, list[j], list[i]) != Order::Less);
        }
        assert forall|i: int| 0 <= i < w.parents.len() implies edges_shown(
            g,
            #[trigger] w.parents[i],
            depth + 1,
            max,
        ) by {
            lemma_edges_shown(g, w.parents[i], depth + 1, max);
        }
    }
}

proof fn lemma_shows_node(g: KrateGraph, np: NodePrint)
    requires
        g.wf(),
        g.has_print(np),
    ensures
        shows_node(g, shown(g, np), np),
{
    reveal_strlit("dev");
    reveal_strlit("build");
    assert("dev"@.len() == 3);
    assert("build"@.len() == 5);
    if let Node::Krate { krate } = g.nodes@[np.node as int] {
        let members = g.workspace_members@;
        assert(g.has_member(krate.id) <==> is_listed_member(g, krate.id)) by {
            if g.has_member(krate.id) {
                let m = choose|m: int|
                    0 <= m < members.len() && (#[trigger] members[m]).same(krate.id);
                assert(equal_kids(members[m], krate.id));
            }
            if is_listed_member(g, krate.id) {
                let m = choose|m: int|
                    0 <= m < members.len() && equal_kids(#[trigger] members[m], krate.id);
                assert(members[m].same(krate.id));
            }
        }
    }
}

proof fn lemma_shows(g: KrateGraph, w: Walk, depth: nat, max: nat)
    requires
        g.wf(),
        g.has_print(w.np),
        is_faithful(g, w, depth, max),
    ensures
        shows(g, drawn(g, w), w),
    decreases w,
{
    let t = drawn(g, w);
    lemma_shows_node(g, w.np);
    lemma_above_prints(g, w.np.node as int, depth, max);
    assert forall|i: int| 0 <= i < t.parents.len() implies shows(
        g,
        #[trigger] t.parents[i],
        w.parents[i],
    ) by {
        assert(w.parents[i].np == above(g, w.np.node as int, depth, max)[i]);
        lemma_shows(g, w.parents[i], depth + 1, max);
    }
}

proof fn lemma_walks_from(g: KrateGraph, n: int, max: nat) -> (w: Walk)
    requires
        g.wf(),
        0 <= n < g.nodes.len(),
    ensures
        w == walk(g, NodePrint { node: n as usize, edge: None }, 0, max, Set::empty()).0,
        walks_from(g, w, n, max),
        shows(g, drawn(g, w), w),
{
    let np = NodePrint { node: n as usize, edge: None };
    let w = walk(g, np, 0, max, Set::empty()).0;
    walk_expands_once(g, np, 0, max, Set::empty());
    first_visit_expands(g, np, 0, max, Set::empty());
    lemma_edges_shown(g, w, 0, max);
    lemma_shows(g, w, 0, max);
    assert forall|i: int| #![trigger visits(w)[i]] 0 <= i < visits(w).len() implies (
    visits(w)[i].repeat <==> exists|j: int|
        0 <= j < i && (#[trigger] visits(w)[j]).np.node == visits(w)[i].np.node) by {
        assert(visits(w)[i].repeat <==> meets(visits(w), i, visits(w)[i].np.node));
    }
    w
}

/// The graph of a crate shows the crate and, above each node that is expanded, what
/// depends on it: up to `max` levels one parent for each edge, from there on one
/// for each direct dependent. Exactly what was shown before is a repeat.
pub proof fn graph_shows_dependents(g: KrateGraph, kid: Kid, max: nat, t: Tree) -> (r: (int, Walk))
    requires
        g.wf(),
        graph_of(g, kid, None, max) == Some(t),
    ensures
        is_crate_node(g, r.0, kid),
        walks_from(g, r.1, r.0, max),
        shows(g, t, r.1),
{
    lemma_krate_at(g.nodes@, kid, 0);
    let n = krate_at(g.nodes@, kid, 0).unwrap();
    let w = lemma_walks_from(g, n, max);
    (n, w)
}

/// The graph of a feature shows the crate of the feature, above it the feature and
/// nothing else, and above that what depends on the feature.
pub proof fn feature_graph_shows_dependents(
    g: KrateGraph,
    kid: Kid,
    name: Seq<char>,
    max: nat,
    t: Tree,
) -> (r: (int, int, Walk))
    requires
        g.wf(),
        graph_of(g, kid, Some(name), max) == Some(t),
    ensures
        is_crate_node(g, r.0, kid),
        shows_node(g, t.inner, NodePrint { node: r.0 as usize, edge: None }),
        !t.repeat,
        t.parents.len() == 1,
        is_feature_node(g, r.1, r.0, name),
        walks_from(g, r.2, r.1, max),
        shows(g, t.parents[0], r.2),
        t.parents[0].inner matches Shown::Feature { name: shown_name, .. } && shown_name == name,
{
    lemma_krate_at(g.nodes@, kid, 0);
    lemma_node_of(g, kid, Some(name));
    let k = krate_at(g.nodes@, kid, 0).unwrap();
    let n = g.node_of(kid, Some(name)).unwrap();
    lemma_found_feature(g, k, name, 0);
    let w = lemma_walks_from(g, n, max);
    lemma_shows_node(g, NodePrint { node: k as usize, edge: None });
    assert(k as usize as int == k);
    assert(t.parents[0] == drawn(g, w));
    (k, n, w)
}

pub(crate) proof fn lemma_found_feature(g: KrateGraph, k: int, name: Seq<char>, from: int)
    requires
        g.wf(),
        0 <= k < g.nodes.len(),
        0 <= from,
        feature_at(g.nodes@, g.incoming@[k]@, k, name, from) is Some,
    ensures
        is_feature_node(g, feature_at(g.nodes@, g.incoming@[k]@, k, name, from)->0, k, name),
    decreases g.incoming@[k]@.len() - from,
{
    lemma_feature_at(g, k, name, from);
    let n = feature_at(g.nodes@, g.incoming@[k]@, k, name, from)->0;
    let print = g.incoming@[k]@[from];
    if from < g.incoming@[k]@.len() {
        assert(g.has_print(print));
        match g.nodes@[print.node as int] {
            Node::Feature { krate_index, name: feature } => {
                if krate_index == k && feature@ == name {
                    assert(n == print.node);
                } else {
                    lemma_found_feature(g, k, name, from + 1);
                }
            },
            Node::Krate { .. } => {
                lemma_found_feature(g, k, name, from + 1);
            },
        }
    }
}

pub(crate) proof fn lemma_no_krate(nodes: Seq<Node>, kid: Kid, from: int, i: int)
    requires
        0 <= from <= i < nodes.len(),
        krate_at(nodes, kid, from) is None || i < krate_at(nodes, kid, from)->0,
    ensures
        nodes[i] matches Node::Krate { krate } ==> !equal_kids(krate.id, kid),
    decreases i - from,
{
    if from < i {
        lemma_no_krate(nodes, kid, from + 1, i);
    }
}

pub(crate) proof fn lemma_no_feature(g: KrateGraph, k: int, name: Seq<char>, from: int, j: int)
    requires
        0 <= from <= j < g.incoming@[k]@.len(),
        feature_at(g.nodes@, g.incoming@[k]@, k, name, from) is None,
    ensures
        g.nodes@[g.incoming@[k]@[j].node as int] matches Node::Feature { krate_index, name: n }
            ==> !(krate_index == k && n@ == name),
    decreases j - from,
{
    if from < j {
        lemma_no_feature(g, k, name, from + 1, j);
    }
}

/// There is no graph only where the crate is not in the graph of crates, or the
/// feature is not one of the crate.
pub proof fn missing_graph_has_no_node(
    g: KrateGraph,
    kid: Kid,
    feature: Option<Seq<char>>,
    max: nat,
    n: int,
    k: int,
)
    requires
        g.wf(),
        g.ids_are_unique(),
        graph_of(g, kid, feature, max) is None,
    ensures
        feature is None ==> !is_crate_node(g, n, kid),
        feature matches Some(name) ==> !(is_crate_node(g, k, kid) && is_feature_node(
            g,
            n,
            k,
            name,
        )),
{
    if is_crate_node(g, k, kid) {
        if krate_at(g.nodes@, kid, 0) is None {
            lemma_no_krate(g.nodes@, kid, 0, k);
        } else {
            lemma_krate_at(g.nodes@, kid, 0);
            let f = krate_at(g.nodes@, kid, 0)->0;
            if f != k {
                assert(g.nodes@[f] is Krate && g.nodes@[k] is Krate);
            }
        }
    }
    if feature is None && is_crate_node(g, n, kid) {
        lemma_no_krate(g.nodes@, kid, 0, n);
    }
    if feature is Some {
        let name = feature.unwrap();
        if is_crate_node(g, k, kid) && is_feature_node(g, n, k, name) {
            let j = choose|j: int|
                0 <= j < g.incoming@[k].len() && (#[trigger] g.incoming@[k]@[j]).node == n;
            lemma_no_feature(g, k, name, 0, j);
        }
    }
}

/// Whether every node that is expanded lies less than `n` levels deep.
spec fn expanded_above(w: Walk, depth: nat, n: nat) -> bool
    decreases w,
{
    &&& !w.repeat ==> depth < n
    &&& forall|i: int|
        0 <= i < w.parents.len() ==> expanded_above(#[trigger] w.parents[i], depth + 1, n)
}

proof fn lemma_expanded_above(g: KrateGraph, np: NodePrint, depth: nat, max: nat, seen: Set<usize>)
    ensures
        expanded_above(walk(g, np, depth, max, seen).0, depth, g.nodes.len() as nat),
    decreases g.nodes.len() - depth, 0nat,
{
    if !(seen.contains(np.node) || depth >= g.nodes.len()) {
        lemma_all_expanded_above(
            g,
            above(g, np.node as int, depth, max),
            depth + 1,
            max,
            seen.insert(np.node),
        );
        let list = above(g, np.node as int, depth, max);
        let w = walk(g, np, depth, max, seen).0;
        let walks = walk_all(g, list, depth + 1, max, seen.insert(np.node)).0;
        assert(w.parents == walks);
        assert forall|i: int| 0 <= i < w.parents.len() implies expanded_above(
            #[trigger] w.parents[i],
            depth + 1,
            g.nodes.len() as nat,
        ) by {
            assert(w.parents[i] == walks[i]);
        }
    }
}

proof fn lemma_all_expanded_above(
    g: KrateGraph,
    list: Seq<NodePrint>,
    depth: nat,
    max: nat,
    seen: Set<usize>,
)
    ensures
        forall|i: int|
            #![trigger walk_all(g, list, depth, max, seen).0[i]]
            0 <= i < walk_all(g, list, depth, max, seen).0.len() ==> expanded_above(
                walk_all(g, list, depth, max, seen).0[i],
                depth,
                g.nodes.len() as nat,
            ),
    decreases g.nodes.len() - depth, list.len() + 1,
{
    if list.len() > 0 {
        let rest = list.drop_last();
        lemma_all_expanded_above(g, rest, depth, max, seen);
        let (first, mid) = walk_all(g, rest, depth, max, seen);
        lemma_expanded_above(g, list.last(), depth, max, mid);
        let walks = walk_all(g, list, depth, max, seen).0;
        assert forall|i: int| #![trigger walks[i]] 0 <= i < walks.len() implies expanded_above(
            walks[i],
            depth,
            g.nodes.len() as nat,
        ) by {
            if i < first.len() {
                assert(walks[i] == first[i]);
            }
        }
    }
}

proof fn lemma_all_edges_shown(g: KrateGraph, w: Walk, depth: nat, max: nat)
    requires
        edges_shown(g, w, depth, max),
        expanded_above(w, depth, g.nodes.len() as nat),
        g.nodes.len() <= max,
    ensures
        all_edges_shown(g, w),
    decreases w,
{
    if !w.repeat {
        assert forall|i: int| 0 <= i < w.parents.len() implies all_edges_shown(
            g,
            #[trigger] w.parents[i],
        ) by {
            assert(expanded_above(w.parents[i], depth + 1, g.nodes.len() as nat));
            assert(edges_shown(g, w.parents[i], depth + 1, max));
            lemma_all_edges_shown(g, w.parents[i], depth + 1, max);
        }
    }
}

proof fn lemma_dependents_shown(g: KrateGraph, w: Walk, depth: nat)
    requires
        edges_shown(g, w, depth, 0),
    ensures
        dependents_shown(g, w),
    decreases w,
{
    if !w.repeat {
        assert forall|i: int| 0 <= i < w.parents.len() implies dependents_shown(
            g,
            #[trigger] w.parents[i],
        ) by {
            assert(edges_shown(g, w.parents[i], depth + 1, 0));
            lemma_dependents_shown(g, w.parents[i], depth + 1);
        }
    }
}

/// Whether a tree is the graph of `kid`, or of a feature of it, by the walk `w`
/// from the node of the crate or of the feature.
pub open spec fn is_graph_by(
    g: KrateGraph,
    kid: Kid,
    feature: Option<Seq<char>>,
    t: Tree,
    w: Walk,
) -> bool {
    match feature {
        None => {
            &&& is_crate_node(g, w.np.node as int, kid)
            &&& shows(g, t, w)
        },
        Some(name) => {
            &&& t.inner matches Shown::Krate { id, .. } && equal_kids(id, kid)
            &&& !t.repeat
            &&& t.parents.len() == 1
            &&& exists|k: int|
                is_crate_node(g, k, kid) && #[trigger] is_feature_node(
                    g,
                    w.np.node as int,
                    k,
                    name,
                )
            &&& shows(g, t.parents[0], w)
        },
    }
}

/// The graph of a crate or of a feature by a walk that, without features, shows
/// above each node its direct dependents and, with features followed without a
/// limit, shows above each node all from which an edge leads to it.
pub proof fn graph_is_by_walk(
    g: KrateGraph,
    kid: Kid,
    feature: Option<Seq<char>>,
    max: nat,
    t: Tree,
) -> (w: Walk)
    requires
        g.wf(),
        graph_of(g, kid, feature, max) == Some(t),
    ensures
        is_graph_by(g, kid, feature, t, w),
        w.np.edge is None,
        edges_shown(g, w, 0, max),
        repeats_shown(w),
        max == 0 ==> dependents_shown(g, w),
        g.nodes.len() <= max ==> all_edges_shown(g, w),
{
    if feature is None {
        lemma_krate_at(g.nodes@, kid, 0);
    } else {
        lemma_node_of(g, kid, feature);
    }
    let m = g.node_of(kid, feature).unwrap();
    let v = lemma_walks_from(g, m, max);
    lemma_expanded_above(g, v.np, 0, max, Set::empty());
    if max == 0 {
        lemma_dependents_shown(g, v, 0);
    }
    if g.nodes.len() <= max {
        lemma_all_edges_shown(g, v, 0, max);
    }
    match feature {
        None => {
            assert(is_crate_node(g, m, kid));
        },
        Some(name) => {
            lemma_krate_at(g.nodes@, kid, 0);
            let k = krate_at(g.nodes@, kid, 0).unwrap();
            lemma_found_feature(g, k, name, 0);
            assert(is_feature_node(g, v.np.node as int, k, name));
            assert(t.parents[0] == drawn(g, v));
        },
    }
    v
}

/// Whether `w` visits the node `n`.
pub open spec fn visits_node(w: Walk, n: usize) -> bool {
    exists|i: int| 0 <= i < visits(w).len() && (#[trigger] visits(w)[i]).np.node == n
}

/// Whether an edge leads from `from` to `to`, or, without features, whether `from`
/// directly depends on `to`.
pub open spec fn is_above(g: KrateGraph, from: usize, to: usize, with_features: bool) -> bool {
    let list = if with_features {
        g.incoming@[to as int]@
    } else {
        g.dependents@[to as int]@
    };
    exists|j: int| 0 <= j < list.len() && (#[trigger] list[j]).node == from
}

/// Whether each node of a chain is above the one before it.
pub open spec fn is_chain_up(g: KrateGraph, chain: Seq<usize>, with_features: bool) -> bool {
    &&& chain.len() > 0
    &&& forall|i: int|
        #![trigger chain[i]]
        0 < i < chain.len() ==> is_above(g, chain[i], chain[i - 1], with_features)
}

/// Every part of a walk that is visited has its parents visited behind it.
proof fn lemma_parent_is_visited(w: Walk, i: int, k: int)
    requires
        0 <= i < visits(w).len(),
        0 <= k < visits(w)[i].parents.len(),
    ensures
        visits(w).contains(visits(w)[i].parents[k]),
    decreases w, 0nat,
{
    let all = visits(w);
    let rest = visits_all(w.parents, w.parents.len());
    if i == 0 {
        assert(all[0] == w);
        lemma_is_among_visits(w.parents, w.parents.len(), k);
        let m = choose|m: int| 0 <= m < rest.len() && rest[m] == w.parents[k];
        assert(all[m + 1] == w.parents[k]);
    } else {
        assert(all[i] == rest[i - 1]);
        lemma_parent_is_among(w.parents, w.parents.len(), i - 1, k);
        let parent = rest[i - 1].parents[k];
        let m = choose|m: int| 0 <= m < rest.len() && rest[m] == parent;
        assert(all[m + 1] == all[i].parents[k]);
    }
}

proof fn lemma_is_among_visits(walks: Seq<Walk>, n: nat, k: int)
    requires
        0 <= k < n <= walks.len(),
    ensures
        visits_all(walks, n).contains(walks[k]),
    decreases n,
{
    let before = visits_all(walks, (n - 1) as nat);
    let all = visits_all(walks, n);
    if k == n - 1 {
        assert(visits(walks[k])[0] == walks[k]);
        assert(all[before.len() as int] == walks[k]);
    } else {
        lemma_is_among_visits(walks, (n - 1) as nat, k);
        let m = choose|m: int| 0 <= m < before.len() && before[m] == walks[k];
        assert(all[m] == walks[k]);
    }
}

proof fn lemma_parent_is_among(walks: Seq<Walk>, n: nat, i: int, k: int)
    requires
        n <= walks.len(),
        0 <= i < visits_all(walks, n).len(),
        0 <= k < visits_all(walks, n)[i].parents.len(),
    ensures
        visits_all(walks, n).contains(visits_all(walks, n)[i].parents[k]),
    decreases walks, n,
{
    let before = visits_all(walks, (n - 1) as nat);
    let all = visits_all(walks, n);
    if i < before.len() {
        assert(all[i] == before[i]);
        lemma_parent_is_among(walks, (n - 1) as nat, i, k);
        let parent = before[i].parents[k];
        let m = choose|m: int| 0 <= m < before.len() && before[m] == parent;
        assert(all[m] == all[i].parents[k]);
    } else {
        let last = visits(walks[n - 1]);
        assert(all[i] == last[i - before.len()]);
        lemma_parent_is_visited(walks[n - 1], i - before.len(), k);
        let parent = last[i - before.len()].parents[k];
        let m = choose|m: int| 0 <= m < last.len() && last[m] == parent;
        assert(all[before.len() + m] == all[i].parents[k]);
    }
}

/// Where a node is visited, it is expanded at some visit.
proof fn lemma_is_expanded(w: Walk, i: int) -> (j: int)
    requires
        repeats_shown(w),
        0 <= i < visits(w).len(),
    ensures
        0 <= j <= i,
        visits(w)[j].np.node == visits(w)[i].np.node,
        !visits(w)[j].repeat,
    decreases i,
{
    if visits(w)[i].repeat {
        let k = choose|k: int|
            0 <= k < i && (#[trigger] visits(w)[k]).np.node == visits(w)[i].np.node;
        lemma_is_expanded(w, k)
    } else {
        i
    }
}

/// Whether what holds of a walk holds of each of its visits.
proof fn lemma_visit_shows_all(g: KrateGraph, w: Walk, i: int, with_features: bool)
    requires
        if with_features {
            all_edges_shown(g, w)
        } else {
            dependents_shown(g, w)
        },
        0 <= i < visits(w).len(),
    ensures
        if with_features {
            all_edges_shown(g, visits(w)[i])
        } else {
            dependents_shown(g, visits(w)[i])
        },
    decreases w, 0nat,
{
    if i > 0 {
        assert(visits(w)[i] == visits_all(w.parents, w.parents.len())[i - 1]);
        assert forall|k: int| 0 <= k < w.parents.len() implies (if with_features {
            all_edges_shown(g, #[trigger] w.parents[k])
        } else {
            dependents_shown(g, w.parents[k])
        }) by {}
        lemma_visits_show_all(g, w.parents, w.parents.len(), i - 1, with_features);
    }
}

proof fn lemma_visits_show_all(
    g: KrateGraph,
    walks: Seq<Walk>,
    n: nat,
    i: int,
    with_features: bool,
)
    requires
        n <= walks.len(),
        forall|k: int|
            0 <= k < walks.len() ==> (if with_features {
                all_edges_shown(g, #[trigger] walks[k])
            } else {
                dependents_shown(g, walks[k])
            }),
        0 <= i < visits_all(walks, n).len(),
    ensures
        if with_features {
            all_edges_shown(g, visits_all(walks, n)[i])
        } else {
            dependents_shown(g, visits_all(walks, n)[i])
        },
    decreases walks, n,
{
    let before = visits_all(walks, (n - 1) as nat);
    if i < before.len() {
        lemma_visits_show_all(g, walks, (n - 1) as nat, i, with_features);
    } else {
        assert(if with_features {
            all_edges_shown(g, walks[n - 1])
        } else {
            dependents_shown(g, walks[n - 1])
        });
        lemma_visit_shows_all(g, walks[n - 1], i - before.len(), with_features);
        assert(visits_all(walks, n)[i] == visits(walks[n - 1])[i - before.len()]);
    }
}

proof fn lemma_chain_is_visited(
    g: KrateGraph,
    w: Walk,
    chain: Seq<usize>,
    with_features: bool,
    i: int,
)
    requires
        if with_features {
            all_edges_shown(g, w)
        } else {
            dependents_shown(g, w)
        },
        repeats_shown(w),
        is_chain_up(g, chain, with_features),
        chain[0] == w.np.node,
        0 <= i < chain.len(),
    ensures
        visits_node(w, chain[i]),
    decreases i,
{
    broadcast use vstd::seq_lib::group_to_multiset_ensures;

    if i == 0 {
        assert(visits(w)[0] == w);
    } else {
        lemma_chain_is_visited(g, w, chain, with_features, i - 1);
        let m = choose|m: int|
            0 <= m < visits(w).len() && (#[trigger] visits(w)[m]).np.node == chain[i - 1];
        let j = lemma_is_expanded(w, m);
        let v = visits(w)[j];
        lemma_visit_shows_all(g, w, j, with_features);
        let list = if with_features {
            g.incoming@[chain[i - 1] as int]@
        } else {
            g.dependents@[chain[i - 1] as int]@
        };
        assert(is_above(g, chain[i], chain[i - 1], with_features));
        let k = choose|k: int| 0 <= k < list.len() && (#[trigger] list[k]).node == chain[i];
        assert(list.contains(list[k]));
        assert(list.to_multiset().count(list[k]) > 0);
        assert(starts_of(v.parents).to_multiset().count(list[k]) > 0);
        assert(starts_of(v.parents).contains(list[k]));
        let p = choose|p: int| 0 <= p < v.parents.len() && starts_of(v.parents)[p] == list[k];
        lemma_parent_is_visited(w, j, p);
        let q = choose|q: int| 0 <= q < visits(w).len() && visits(w)[q] == v.parents[p];
        assert(visits(w)[q].np.node == chain[i]);
    }
}

/// Whether one of the nodes of a graph is the crate `kid`.
pub open spec fn graph_has_krate(t: Tree, kid: Kid) -> bool {
    exists|i: int|
        0 <= i < nodes_of(t).len() && ((#[trigger] nodes_of(t)[i]).inner matches Shown::Krate {
            id,
            ..
        } && id == kid)
}

proof fn lemma_shows_visits(g: KrateGraph, t: Tree, w: Walk)
    requires
        shows(g, t, w),
    ensures
        nodes_of(t).len() == visits(w).len(),
        forall|i: int|
            #![trigger nodes_of(t)[i]]
            #![trigger visits(w)[i]]
            0 <= i < nodes_of(t).len() ==> shows(g, nodes_of(t)[i], visits(w)[i]),
    decreases w, 0nat,
{
    assert forall|i: int| 0 <= i < t.parents.len() implies shows(
        g,
        #[trigger] t.parents[i],
        w.parents[i],
    ) by {}
    lemma_all_show_visits(g, t.parents, w.parents, t.parents.len());
    let a = nodes_of_all(t.parents, t.parents.len());
    let b = visits_all(w.parents, w.parents.len());
    assert forall|i: int|
        #![trigger nodes_of(t)[i]]
        #![trigger visits(w)[i]]
        0 <= i < nodes_of(t).len() implies shows(g, nodes_of(t)[i], visits(w)[i]) by {
        if i > 0 {
            assert(nodes_of(t)[i] == a[i - 1]);
            assert(visits(w)[i] == b[i - 1]);
        }
    }
}

proof fn lemma_all_show_visits(g: KrateGraph, trees: Seq<Tree>, walks: Seq<Walk>, n: nat)
    requires
        trees.len() == walks.len(),
        n <= trees.len(),
        forall|i: int| 0 <= i < trees.len() ==> shows(g, #[trigger] trees[i], walks[i]),
    ensures
        nodes_of_all(trees, n).len() == visits_all(walks, n).len(),
        forall|i: int|
            #![trigger nodes_of_all(trees, n)[i]]
            #![trigger visits_all(walks, n)[i]]
            0 <= i < nodes_of_all(trees, n).len() ==> shows(
                g,
                nodes_of_all(trees, n)[i],
                visits_all(walks, n)[i],
            ),
    decreases walks, n,
{
    if n > 0 {
        let m = (n - 1) as nat;
        lemma_all_show_visits(g, trees, walks, m);
        assert(shows(g, trees[n - 1], walks[n - 1]));
        lemma_shows_visits(g, trees[n - 1], walks[n - 1]);
        let a = nodes_of_all(trees, m);
        let b = visits_all(walks, m);
        assert forall|i: int|
            #![trigger nodes_of_all(trees, n)[i]]
            #![trigger visits_all(walks, n)[i]]
            0 <= i < nodes_of_all(trees, n).len() implies shows(
            g,
            nodes_of_all(trees, n)[i],
            visits_all(walks, n)[i],
        ) by {
            if i < a.len() {
                assert(nodes_of_all(trees, n)[i] == a[i]);
                assert(visits_all(walks, n)[i] == b[i]);
            } else {
                let k = i - a.len();
                assert(nodes_of_all(trees, n)[i] == nodes_of(trees[n - 1])[k]);
                assert(visits_all(walks, n)[i] == visits(walks[n - 1])[k]);
            }
        }
    }
}

/// Whether everything that depends on the node `start` over a chain appears in `t`,
/// and whether there is a path from the project if it is a member.
pub open spec fn shows_chains(g: KrateGraph, t: Tree, start: int, with_features: bool) -> bool {
    forall|chain: Seq<usize>|
        #![trigger is_chain_up(g, chain, with_features)]
        is_chain_up(g, chain, with_features) && chain[0] == start ==> (
        g.nodes@[chain.last() as int] matches Node::Krate { krate } ==> graph_has_krate(t, krate.id)
            && (is_listed_member(g, krate.id) ==> paths_from(t, Seq::empty()).len() > 0))
}

/// Whatever depends on a crate, or on one of its features, appears in its graph,
/// directly or not: without features over the direct dependents, and, where features
/// are followed without a limit, over every edge. If it is a member, a path from the
/// project is found.
pub proof fn every_dependent_is_shown(
    g: KrateGraph,
    kid: Kid,
    feature: Option<Seq<char>>,
    max: nat,
    t: Tree,
) -> (r: (int, int))
    requires
        g.wf(),
        graph_of(g, kid, feature, max) == Some(t),
        max == 0 || g.nodes.len() <= max,
    ensures
        is_crate_node(g, r.0, kid),
        match feature {
            None => r.1 == r.0,
            Some(name) => is_feature_node(g, r.1, r.0, name),
        },
        shows_chains(g, t, r.1, max > 0),
{
    lemma_krate_at(g.nodes@, kid, 0);
    let k = krate_at(g.nodes@, kid, 0).unwrap();
    if feature is Some {
        lemma_node_of(g, kid, feature);
        lemma_found_feature(g, k, feature.unwrap(), 0);
    }
    let n = g.node_of(kid, feature).unwrap();
    let with_features = max > 0;
    assert forall|chain: Seq<usize>|
        #![trigger is_chain_up(g, chain, with_features)]
        is_chain_up(g, chain, with_features) && chain[0] == n && g.nodes@[chain.last() as int] is Krate
        implies {
        let krate = g.nodes@[chain.last() as int]->krate;
        graph_has_krate(t, krate.id) && (is_listed_member(g, krate.id) ==> paths_from(
            t,
            Seq::empty(),
        ).len() > 0)
    } by {
        lemma_chain_is_shown(g, kid, feature, max, t, chain);
    }
    (k, n)
}

proof fn lemma_chain_is_shown(
    g: KrateGraph,
    kid: Kid,
    feature: Option<Seq<char>>,
    max: nat,
    t: Tree,
    chain: Seq<usize>,
)
    requires
        g.wf(),
        graph_of(g, kid, feature, max) == Some(t),
        max == 0 || g.nodes.len() <= max,
        is_chain_up(g, chain, max > 0),
        g.node_of(kid, feature) == Some(chain[0] as int),
        0 <= chain[0] < g.nodes.len(),
        g.nodes@[chain.last() as int] is Krate,
    ensures
        graph_has_krate(t, g.nodes@[chain.last() as int]->krate.id),
        is_listed_member(g, g.nodes@[chain.last() as int]->krate.id) ==> paths_from(
            t,
            Seq::empty(),
        ).len() > 0,
{
    let n = chain[0] as int;
    let w = lemma_walks_from(g, n, max);
    let np = NodePrint { node: n as usize, edge: None };
    lemma_expanded_above(g, np, 0, max, Set::empty());
    if max == 0 {
        lemma_dependents_shown(g, w, 0);
    } else {
        lemma_all_edges_shown(g, w, 0, max);
    }
    lemma_chain_is_visited(g, w, chain, max > 0, chain.len() - 1);
    let root = drawn(g, w);
    lemma_shows_visits(g, root, w);
    let i = choose|i: int|
        0 <= i < visits(w).len() && (#[trigger] visits(w)[i]).np.node == chain.last();
    assert(shows(g, nodes_of(root)[i], visits(w)[i]));
    if feature is None {
        assert(t == root);
        assert(nodes_of(t)[i].inner is Krate);
    } else {
        assert(t.parents =~= seq![root]);
        reveal_with_fuel(nodes_of_all, 2);
        assert(nodes_of_all(t.parents, 1) =~= nodes_of(root));
        assert(nodes_of(t)[i + 1] == nodes_of(root)[i]);
    }
    let krate = g.nodes@[chain.last() as int]->krate;
    if is_listed_member(g, krate.id) {
        let k = if feature is None {
            i
        } else {
            i + 1
        };
        lemma_project_is_found(t, k);
        paths_exist_with_project(t, Seq::empty());
    }
}

proof fn lemma_project_is_found(t: Tree, i: int)
    requires
        0 <= i < nodes_of(t).len(),
        nodes_of(t)[i].inner matches Shown::Krate { is_project_crate, .. } && is_project_crate,
    ensures
        !no_project(t),
    decreases t, 0nat,
{
    if i > 0 {
        assert(nodes_of(t)[i] == nodes_of_all(t.parents, t.parents.len())[i - 1]);
        let k = lemma_project_is_among(t.parents, t.parents.len(), i - 1);
        assert(!no_project(t.parents[k]));
    }
}

proof fn lemma_project_is_among(trees: Seq<Tree>, n: nat, i: int) -> (k: int)
    requires
        n <= trees.len(),
        0 <= i < nodes_of_all(trees, n).len(),
        nodes_of_all(trees, n)[i].inner matches Shown::Krate { is_project_crate, .. }
            && is_project_crate,
    ensures
        0 <= k < n,
        !no_project(trees[k]),
    decreases trees, n,
{
    let before = nodes_of_all(trees, (n - 1) as nat);
    if i < before.len() {
        assert(nodes_of_all(trees, n)[i] == before[i]);
        lemma_project_is_among(trees, (n - 1) as nat, i)
    } else {
        assert(nodes_of_all(trees, n)[i] == nodes_of(trees[n - 1])[i - before.len()]);
        lemma_project_is_found(trees[n - 1], i - before.len());
        n - 1
    }
}

} // verus!
