//! What holds of every inclusion graph.

use crate::diag::grapher::{
    above, drawn, graph_of, in_order, lemma_within_bound, node_order, walk, walk_all, with_node,
    within, Shown, Tree, Walk,
};
use crate::diag::paths::{
    all_krates, owners_are_known, path_ends_at_start, paths_above, paths_exist_with_project,
    paths_from, trail_to, Path, Step,
};
use crate::diag::tree_text::{is_project, no_project};
use crate::krate_graph::{
    each_once, feature_at, is_krate, krate_at, Kid, KrateGraph, Node, NodePrint,
};
use crate::text::{
    text_order, text_order_equal_is_same, text_order_is_antisymmetric, text_order_is_transitive,
    Order,
};
use vstd::prelude::*;

verus! {

/// What comes before a text comes before every text that is not before that one.
proof fn lemma_text_order_mixed(a: Seq<char>, b: Seq<char>, c: Seq<char>)
    requires
        text_order(a, b) == Order::Less,
        text_order(c, b) != Order::Less,
    ensures
        text_order(a, c) == Order::Less,
{
    text_order_is_antisymmetric(c, b);
    text_order_is_antisymmetric(b, c);
    text_order_equal_is_same(c, b);
    if text_order(c, b) != Order::Equal {
        text_order_is_transitive(a, b, c);
    }
}

proof fn lemma_text_order_facts(a: Seq<char>, b: Seq<char>, c: Seq<char>)
    ensures
        text_order(a, b) == Order::Less <==> text_order(b, a) == Order::Greater,
        text_order(a, b) == Order::Greater <==> text_order(b, a) == Order::Less,
        text_order(a, b) == Order::Equal <==> a == b,
        text_order(c, b) == Order::Equal <==> c == b,
        text_order(a, b) == Order::Less && text_order(c, b) != Order::Less ==> text_order(a, c)
            == Order::Less,
{
    text_order_is_antisymmetric(a, b);
    text_order_is_antisymmetric(b, a);
    text_order_equal_is_same(a, b);
    text_order_equal_is_same(c, b);
    if text_order(a, b) == Order::Less && text_order(c, b) != Order::Less {
        lemma_text_order_mixed(a, b, c);
    }
}

proof fn lemma_kid_order_facts(a: Kid, b: Kid, c: Kid)
    ensures
        a.order(b) == Order::Less <==> b.order(a) == Order::Greater,
        a.order(b) == Order::Greater <==> b.order(a) == Order::Less,
        a.order(b) == Order::Less && c.order(b) != Order::Less ==> a.order(c) == Order::Less,
{
    lemma_text_order_facts(a.name@, b.name@, c.name@);
    lemma_text_order_facts(a.version@, b.version@, c.version@);
    lemma_text_order_facts(a.source@, b.source@, c.source@);
    text_order_equal_is_same(a.name@, c.name@);
    text_order_equal_is_same(a.version@, c.version@);
    text_order_equal_is_same(a.source@, c.source@);
    lemma_text_order_facts(c.name@, b.name@, a.name@);
    lemma_text_order_facts(c.version@, b.version@, a.version@);
    lemma_text_order_facts(c.source@, b.source@, a.source@);
}

/// The order of nodes is total: one precedes the other exactly when the other
/// follows it, and what precedes a node precedes every node that does not
/// precede that one.
pub proof fn node_order_is_total(nodes: Seq<Node>, a: NodePrint, b: NodePrint, c: NodePrint)
    ensures
        node_order(nodes, a, b) == Order::Less <==> node_order(nodes, b, a) == Order::Greater,
        node_order(nodes, a, b) == Order::Equal <==> node_order(nodes, b, a) == Order::Equal,
        node_order(nodes, a, b) == Order::Less && node_order(nodes, c, b) != Order::Less
            ==> node_order(nodes, a, c) == Order::Less,
{
    match (nodes[a.node as int], nodes[b.node as int], nodes[c.node as int]) {
        (Node::Krate { krate: a }, Node::Krate { krate: b }, Node::Krate { krate: c }) => {
            lemma_kid_order_facts(a.id, b.id, c.id);
        },
        (Node::Krate { krate: a }, Node::Krate { krate: b }, _) => {
            lemma_kid_order_facts(a.id, b.id, a.id);
        },
        (
            Node::Feature { name: a, .. },
            Node::Feature { name: b, .. },
            Node::Feature { name: c, .. },
        ) => {
            lemma_text_order_facts(a@, b@, c@);
            lemma_text_order_facts(b@, a@, c@);
        },
        (Node::Feature { name: a, .. }, Node::Feature { name: b, .. }, _) => {
            lemma_text_order_facts(a@, b@, a@);
            lemma_text_order_facts(b@, a@, a@);
        },
        _ => {},
    }
}

/// Whether no item of the list precedes one that stands before it.
pub open spec fn is_ordered(nodes: Seq<Node>, list: Seq<NodePrint>) -> bool {
    forall|i: int, j: int|
        #![trigger list[i], list[j]]
        0 <= i < j < list.len() ==> node_order(nodes, list[j], list[i]) != Order::Less
}

proof fn lemma_with_node_items(nodes: Seq<Node>, list: Seq<NodePrint>, np: NodePrint)
    ensures
        with_node(nodes, list, np).len() == list.len() + 1,
        with_node(nodes, list, np).to_multiset() == list.to_multiset().insert(np),
        forall|i: int|
            #![trigger with_node(nodes, list, np)[i]]
            0 <= i < with_node(nodes, list, np).len() ==> with_node(nodes, list, np)[i] == np
                || list.contains(with_node(nodes, list, np)[i]),
    decreases list.len(),
{
    broadcast use vstd::seq_lib::group_to_multiset_ensures;

    if list.len() > 0 && node_order(nodes, np, list.last()) == Order::Less {
        let rest = list.drop_last();
        lemma_with_node_items(nodes, rest, np);
        assert(list =~= rest.push(list.last()));
        let shorter = with_node(nodes, rest, np);
        let all = with_node(nodes, list, np);
        assert(all =~= shorter.push(list.last()));
        assert(all.to_multiset() =~= list.to_multiset().insert(np));
        assert forall|i: int| #![trigger all[i]] 0 <= i < all.len() implies all[i] == np
            || list.contains(all[i]) by {
            if i < shorter.len() {
                assert(all[i] == shorter[i]);
                if rest.contains(shorter[i]) {
                    let k = choose|k: int| 0 <= k < rest.len() && rest[k] == shorter[i];
                    assert(list[k] == all[i]);
                }
            } else {
                assert(all[i] == list[list.len() - 1]);
            }
        }
    } else {
        assert(with_node(nodes, list, np) =~= list.push(np));
        assert forall|i: int|
            #![trigger with_node(nodes, list, np)[i]]
            0 <= i < list.len() + 1 implies with_node(nodes, list, np)[i] == np || list.contains(
            with_node(nodes, list, np)[i],
        ) by {
            if i < list.len() {
                assert(list[i] == with_node(nodes, list, np)[i]);
            }
        }
    }
}

proof fn lemma_with_node_ordered(nodes: Seq<Node>, list: Seq<NodePrint>, np: NodePrint)
    requires
        is_ordered(nodes, list),
    ensures
        is_ordered(nodes, with_node(nodes, list, np)),
    decreases list.len(),
{
    if list.len() > 0 {
        let last = list.last();
        if node_order(nodes, np, last) == Order::Less {
            let rest = list.drop_last();
            lemma_with_node_ordered(nodes, rest, np);
            lemma_with_node_items(nodes, rest, np);
            let shorter = with_node(nodes, rest, np);
            let all = with_node(nodes, list, np);
            assert forall|i: int, j: int|
                #![trigger all[i], all[j]]
                0 <= i < j < all.len() implies node_order(nodes, all[j], all[i]) != Order::Less by {
                assert(all[i] == shorter[i]);
                if j < shorter.len() {
                    assert(all[j] == shorter[j]);
                } else {
                    assert(all[j] == last);
                    if shorter[i] == np {
                        node_order_is_total(nodes, np, last, np);
                        node_order_is_total(nodes, last, np, np);
                    } else {
                        let k = choose|k: int| 0 <= k < rest.len() && rest[k] == shorter[i];
                        assert(list[k] == shorter[i]);
                        assert(list[list.len() - 1] == last);
                    }
                }
            }
        } else {
            let all = list.push(np);
            assert forall|i: int, j: int|
                #![trigger all[i], all[j]]
                0 <= i < j < all.len() implies node_order(nodes, all[j], all[i]) != Order::Less by {
                assert(all[i] == list[i]);
                if j < list.len() {
                    assert(all[j] == list[j]);
                } else {
                    node_order_is_total(nodes, np, list[i], last);
                    if i < list.len() - 1 {
                        assert(list[list.len() - 1] == last);
                    }
                }
            }
        }
    }
}

/// The nodes above a node are shown in a consistent order: all of them, none
/// before one that precedes it.
pub proof fn in_order_is_ordered(nodes: Seq<Node>, list: Seq<NodePrint>)
    ensures
        is_ordered(nodes, in_order(nodes, list)),
        in_order(nodes, list).to_multiset() == list.to_multiset(),
    decreases list.len(),
{
    broadcast use vstd::seq_lib::group_to_multiset_ensures;

    if list.len() > 0 {
        let rest = list.drop_last();
        in_order_is_ordered(nodes, rest);
        lemma_with_node_ordered(nodes, in_order(nodes, rest), list.last());
        lemma_with_node_items(nodes, in_order(nodes, rest), list.last());
        assert(list =~= rest.push(list.last()));
    }
}

/// The items of a list that are equal in the order to `key`.
pub open spec fn like(nodes: Seq<Node>, list: Seq<NodePrint>, key: NodePrint) -> Seq<NodePrint>
    decreases list.len(),
{
    if list.len() == 0 {
        Seq::empty()
    } else if node_order(nodes, list.last(), key) == Order::Equal {
        like(nodes, list.drop_last(), key).push(list.last())
    } else {
        like(nodes, list.drop_last(), key)
    }
}

proof fn lemma_with_node_stable(
    nodes: Seq<Node>,
    list: Seq<NodePrint>,
    np: NodePrint,
    key: NodePrint,
)
    ensures
        like(nodes, with_node(nodes, list, np), key) == like(nodes, list.push(np), key),
    decreases list.len(),
{
    let last_first = list.len() > 0 && node_order(nodes, np, list.last()) == Order::Less;
    if last_first {
        let rest = list.drop_last();
        let last = list.last();
        lemma_with_node_stable(nodes, rest, np, key);
        let all = with_node(nodes, list, np);
        assert(all.drop_last() =~= with_node(nodes, rest, np));
        assert(list.push(np).drop_last() =~= list);
        assert(rest.push(np).drop_last() =~= rest);
        if node_order(nodes, np, key) == Order::Equal && node_order(nodes, last, key)
            == Order::Equal {
            node_order_is_total(nodes, key, np, last);
            node_order_is_total(nodes, np, last, key);
            node_order_is_total(nodes, last, key, key);
            node_order_is_total(nodes, key, last, key);
            assert(false);
        }
        reveal_with_fuel(like, 3);
        assert(all.last() == last);
        assert(list.push(np).last() == np);
        assert(rest.push(np).last() == np);
    } else {
        assert(with_node(nodes, list, np) =~= list.push(np));
    }
}

/// Nodes that are equal in the order stay in the order in which they were found.
pub proof fn in_order_is_stable(nodes: Seq<Node>, list: Seq<NodePrint>, key: NodePrint)
    ensures
        like(nodes, in_order(nodes, list), key) == like(nodes, list, key),
    decreases list.len(),
{
    if list.len() > 0 {
        let rest = list.drop_last();
        let sorted = in_order(nodes, rest);
        in_order_is_stable(nodes, rest, key);
        lemma_with_node_stable(nodes, sorted, list.last(), key);
        assert(sorted.push(list.last()).drop_last() =~= sorted);
    }
}

/// How often the node `n` is expanded in a walk.
pub open spec fn expansions(w: Walk, n: usize) -> nat
    decreases w, 0nat,
{
    (if !w.repeat && w.np.node == n {
        1nat
    } else {
        0nat
    }) + expansions_in(w.parents, w.parents.len(), n)
}

/// How often the node `n` is expanded in the first `k` of some walks.
pub open spec fn expansions_in(walks: Seq<Walk>, k: nat, n: usize) -> nat
    decreases walks, k,
{
    if k == 0 || k > walks.len() {
        0
    } else {
        expansions_in(walks, (k - 1) as nat, n) + expansions(walks[k - 1], n)
    }
}

/// Whether a walk shows, for each node that it expands, exactly the nodes above
/// it, and nothing above a node that it met before.
pub open spec fn is_faithful(g: KrateGraph, w: Walk, depth: nat, max: nat) -> bool
    decreases w,
{
    if w.repeat {
        w.parents.len() == 0
    } else {
        let list = above(g, w.np.node as int, depth, max);
        &&& w.parents.len() == list.len()
        &&& forall|i: int|
            #![trigger w.parents[i]]
            0 <= i < w.parents.len() ==> w.parents[i].np == list[i] && is_faithful(
                g,
                w.parents[i],
                depth + 1,
                max,
            )
    }
}

/// Whether all of `list` refer to nodes of the graph.
pub open spec fn all_prints(g: KrateGraph, list: Seq<NodePrint>) -> bool {
    forall|i: int| 0 <= i < list.len() ==> g.has_print(#[trigger] list[i])
}

pub(crate) proof fn lemma_above_prints(g: KrateGraph, node: int, depth: nat, max: nat)
    requires
        g.wf(),
        0 <= node < g.nodes.len(),
    ensures
        all_prints(g, above(g, node, depth, max)),
{
    let list = if depth < max {
        g.incoming@[node]@
    } else {
        g.dependents@[node]@
    };
    assert forall|j: int| 0 <= j < list.len() implies g.has_print(#[trigger] list[j]) by {
        if depth < max {
            assert(g.has_print(g.incoming@[node]@[j]));
        } else {
            assert(g.has_print(g.dependents@[node]@[j]));
        }
    }
    let sorted = in_order(g.nodes@, list);
    assert forall|i: int| 0 <= i < sorted.len() implies g.has_print(#[trigger] sorted[i]) by {
        lemma_in_order_keeps(g.nodes@, list, i);
    }
}

/// Each item of an ordered list is one of the list.
proof fn lemma_in_order_keeps(nodes: Seq<Node>, list: Seq<NodePrint>, i: int)
    requires
        0 <= i < in_order(nodes, list).len(),
    ensures
        list.contains(in_order(nodes, list)[i]),
{
    broadcast use vstd::seq_lib::group_to_multiset_ensures;

    in_order_is_ordered(nodes, list);
    let sorted = in_order(nodes, list);
    assert(sorted.contains(sorted[i]));
    assert(sorted.to_multiset().count(sorted[i]) > 0);
    assert(list.to_multiset().count(sorted[i]) > 0);
}

/// Each item of a list is one of the ordered list.
proof fn lemma_in_order_has(nodes: Seq<Node>, list: Seq<NodePrint>, i: int)
    requires
        0 <= i < list.len(),
    ensures
        in_order(nodes, list).contains(list[i]),
{
    broadcast use vstd::seq_lib::group_to_multiset_ensures;

    in_order_is_ordered(nodes, list);
    assert(list.contains(list[i]));
    assert(list.to_multiset().count(list[i]) > 0);
    assert(in_order(nodes, list).to_multiset().count(list[i]) > 0);
}

/// Whether `met` holds, with each node that is not in `seen`, all that directly
/// depend on it.
pub open spec fn is_closed(g: KrateGraph, seen: Set<usize>, met: Set<usize>) -> bool {
    forall|n: usize, j: int|
        #![trigger met.contains(n), g.dependents@[n as int]@[j]]
        met.contains(n) && !seen.contains(n) && 0 <= j < g.dependents@[n as int].len()
            ==> met.contains(g.dependents@[n as int]@[j].node)
}

/// A walk expands each node that it meets for the first time exactly once, and
/// no other; it shows exactly what is above each of them.
pub proof fn walk_expands_once(
    g: KrateGraph,
    np: NodePrint,
    depth: nat,
    max: nat,
    seen: Set<usize>,
)
    requires
        g.wf(),
        g.has_print(np),
        within(seen, g.nodes.len() as nat),
        depth <= seen.len(),
    ensures
        ({
            let (w, met) = walk(g, np, depth, max, seen);
            &&& w.np == np
            &&& w.repeat == seen.contains(np.node)
            &&& seen.subset_of(met)
            &&& within(met, g.nodes.len() as nat)
            &&& met.contains(np.node)
            &&& is_faithful(g, w, depth, max)
            &&& forall|n: usize|
                #![trigger expansions(w, n)]
                expansions(w, n) == (if met.contains(n) && !seen.contains(n) {
                    1nat
                } else {
                    0nat
                })
        }),
    decreases g.nodes.len() - depth, 0nat,
{
    lemma_within_bound(seen, g.nodes.len() as nat);
    if !seen.contains(np.node) {
        let inner = seen.insert(np.node);
        lemma_within_bound(inner, g.nodes.len() as nat);
        let list = above(g, np.node as int, depth, max);
        lemma_above_prints(g, np.node as int, depth, max);
        walks_expand_once(g, list, depth + 1, max, inner);
        let (parents, met) = walk_all(g, list, depth + 1, max, inner);
        let w = walk(g, np, depth, max, seen).0;
        assert(w.parents == parents);
        assert forall|n: usize| #![trigger expansions(w, n)] expansions(w, n) == (if met.contains(n)
            && !seen.contains(n) {
            1nat
        } else {
            0nat
        }) by {
            assert(expansions_in(parents, parents.len(), n) == (if met.contains(n)
                && !inner.contains(n) {
                1nat
            } else {
                0nat
            }));
        }
    } else {
        let w = walk(g, np, depth, max, seen).0;
        assert forall|n: usize| #![trigger expansions(w, n)] expansions(w, n) == 0 by {
            assert(expansions_in(w.parents, 0, n) == 0);
        }
    }
}

proof fn walks_expand_once(
    g: KrateGraph,
    list: Seq<NodePrint>,
    depth: nat,
    max: nat,
    seen: Set<usize>,
)
    requires
        g.wf(),
        all_prints(g, list),
        within(seen, g.nodes.len() as nat),
        depth <= seen.len(),
    ensures
        ({
            let (walks, met) = walk_all(g, list, depth, max, seen);
            &&& walks.len() == list.len()
            &&& seen.subset_of(met)
            &&& within(met, g.nodes.len() as nat)
            &&& seen.len() <= met.len()
            &&& forall|i: int|
                #![trigger walks[i]]
                0 <= i < walks.len() ==> walks[i].np == list[i] && met.contains(list[i].node)
                    && is_faithful(g, walks[i], depth, max)
            &&& forall|n: usize|
                #![trigger expansions_in(walks, walks.len(), n)]
                expansions_in(walks, walks.len(), n) == (if met.contains(n) && !seen.contains(n) {
                    1nat
                } else {
                    0nat
                })
        }),
    decreases g.nodes.len() - depth, list.len() + 1,
{
    let (walks, met) = walk_all(g, list, depth, max, seen);
    if list.len() == 0 {
        assert forall|n: usize| #![trigger expansions_in(walks, walks.len(), n)] expansions_in(
            walks,
            walks.len(),
            n,
        ) == 0 by {}
    } else {
        let rest = list.drop_last();
        walks_expand_once(g, rest, depth, max, seen);
        let (first, mid) = walk_all(g, rest, depth, max, seen);
        assert(g.has_print(list[list.len() - 1]));
        walk_expands_once(g, list.last(), depth, max, mid);
        let last = walk(g, list.last(), depth, max, mid).0;
        assert(walks =~= first.push(last));
        vstd::set_lib::lemma_len_subset(mid, met);
        assert forall|i: int| #![trigger walks[i]] 0 <= i < walks.len() implies walks[i].np
            == list[i] && met.contains(list[i].node) && is_faithful(g, walks[i], depth, max) by {
            if i < first.len() {
                assert(walks[i] == first[i]);
                assert(rest[i] == list[i]);
            }
        }
        assert forall|n: usize| #![trigger expansions_in(walks, walks.len(), n)] expansions_in(
            walks,
            walks.len(),
            n,
        ) == (if met.contains(n) && !seen.contains(n) {
            1nat
        } else {
            0nat
        }) by {
            lemma_expansions_in_prefix(first, last, first.len(), n);
            assert(expansions_in(first, first.len(), n) == (if mid.contains(n) && !seen.contains(n) {
                1nat
            } else {
                0nat
            }));
            assert(expansions(last, n) == (if met.contains(n) && !mid.contains(n) {
                1nat
            } else {
                0nat
            }));
            assert(walks[walks.len() - 1] == last);
        }
    }
}

/// What is added at the end does not change how often a node is expanded before.
proof fn lemma_expansions_in_prefix(walks: Seq<Walk>, last: Walk, k: nat, n: usize)
    requires
        k <= walks.len(),
    ensures
        expansions_in(walks.push(last), k, n) == expansions_in(walks, k, n),
    decreases k,
{
    if k > 0 {
        lemma_expansions_in_prefix(walks, last, (k - 1) as nat, n);
        assert(walks.push(last)[k - 1] == walks[k - 1]);
    }
}

/// Without features, a walk from a node meets everything that depends on it,
/// directly or not.
pub proof fn walk_meets_all_dependents(
    g: KrateGraph,
    np: NodePrint,
    depth: nat,
    seen: Set<usize>,
)
    requires
        g.wf(),
        g.has_print(np),
        within(seen, g.nodes.len() as nat),
        depth <= seen.len(),
    ensures
        walk(g, np, depth, 0, seen).1.contains(np.node),
        is_closed(g, seen, walk(g, np, depth, 0, seen).1),
    decreases g.nodes.len() - depth, 0nat,
{
    walk_expands_once(g, np, depth, 0, seen);
    lemma_within_bound(seen, g.nodes.len() as nat);
    if !seen.contains(np.node) {
        let inner = seen.insert(np.node);
        let node = np.node as int;
        let list = above(g, node, depth, 0);
        lemma_within_bound(inner, g.nodes.len() as nat);
        lemma_above_prints(g, node, depth, 0);
        walks_expand_once(g, list, depth + 1, 0, inner);
        walks_meet_all_dependents(g, list, depth + 1, inner);
        let (walks, met) = walk_all(g, list, depth + 1, 0, inner);
        assert forall|n: usize, j: int|
            #![trigger met.contains(n), g.dependents@[n as int]@[j]]
            met.contains(n) && !seen.contains(n) && 0 <= j
                < g.dependents@[n as int].len() implies met.contains(
            g.dependents@[n as int]@[j].node,
        ) by {
            if n == np.node {
                let found = g.dependents@[node]@;
                lemma_in_order_has(g.nodes@, found, j);
                let k = choose|k: int| 0 <= k < list.len() && list[k] == found[j];
                assert(walks[k].np == list[k]);
            } else {
                assert(!inner.contains(n));
            }
        }
    }
}

proof fn walks_meet_all_dependents(
    g: KrateGraph,
    list: Seq<NodePrint>,
    depth: nat,
    seen: Set<usize>,
)
    requires
        g.wf(),
        all_prints(g, list),
        within(seen, g.nodes.len() as nat),
        depth <= seen.len(),
    ensures
        is_closed(g, seen, walk_all(g, list, depth, 0, seen).1),
    decreases g.nodes.len() - depth, list.len() + 1,
{
    if list.len() > 0 {
        let rest = list.drop_last();
        walks_expand_once(g, rest, depth, 0, seen);
        walks_meet_all_dependents(g, rest, depth, seen);
        let mid = walk_all(g, rest, depth, 0, seen).1;
        assert(g.has_print(list[list.len() - 1]));
        walk_expands_once(g, list.last(), depth, 0, mid);
        walk_meets_all_dependents(g, list.last(), depth, mid);
        let met = walk_all(g, list, depth, 0, seen).1;
        assert forall|n: usize, j: int|
            #![trigger met.contains(n), g.dependents@[n as int]@[j]]
            met.contains(n) && !seen.contains(n) && 0 <= j
                < g.dependents@[n as int].len() implies met.contains(
            g.dependents@[n as int]@[j].node,
        ) by {
            if mid.contains(n) {
                assert(mid.contains(g.dependents@[n as int]@[j].node));
            }
        }
    }
}

/// Whether each crate of the graph is marked as one of the project exactly when
/// it is a member of the workspace.
pub open spec fn marks_members(g: KrateGraph, t: Tree) -> bool
    decreases t,
{
    &&& t.inner matches Shown::Krate { id, is_project_crate, .. } ==> is_project_crate
        == g.has_member(id)
    &&& forall|i: int| 0 <= i < t.parents.len() ==> marks_members(g, #[trigger] t.parents[i])
}

proof fn lemma_drawn_marks_members(g: KrateGraph, w: Walk)
    ensures
        marks_members(g, drawn(g, w)),
    decreases w,
{
    let t = drawn(g, w);
    assert forall|i: int| 0 <= i < t.parents.len() implies marks_members(
        g,
        #[trigger] t.parents[i],
    ) by {
        lemma_drawn_marks_members(g, w.parents[i]);
    }
}

proof fn lemma_drawn_krates(g: KrateGraph, w: Walk, depth: nat)
    requires
        g.wf(),
        g.has_print(w.np),
        g.nodes@[w.np.node as int] is Krate,
        is_faithful(g, w, depth, 0),
    ensures
        all_krates(drawn(g, w)),
    decreases w,
{
    let t = drawn(g, w);
    assert forall|i: int| 0 <= i < t.parents.len() implies all_krates(#[trigger] t.parents[i]) by {
        let node = w.np.node as int;
        let found = g.dependents@[node]@;
        assert(w.parents[i].np == above(g, node, depth, 0)[i]);
        lemma_in_order_keeps(g.nodes@, found, i);
        let j = choose|j: int| 0 <= j < found.len() && found[j] == w.parents[i].np;
        assert(g.has_print(g.dependents@[node]@[j]));
        lemma_drawn_krates(g, w.parents[i], depth + 1);
    }
}

pub(crate) proof fn lemma_krate_at(nodes: Seq<Node>, kid: Kid, from: int)
    requires
        krate_at(nodes, kid, from) is Some,
    ensures
        from <= krate_at(nodes, kid, from)->0 < nodes.len(),
        is_krate(nodes[krate_at(nodes, kid, from)->0], kid),
    decreases nodes.len() - from,
{
    if !is_krate(nodes[from], kid) {
        lemma_krate_at(nodes, kid, from + 1);
    }
}

/// Each crate in an inclusion graph is marked as one of the project exactly when
/// it is a member of the workspace.
pub proof fn graph_marks_members(
    g: KrateGraph,
    kid: Kid,
    feature: Option<Seq<char>>,
    max: nat,
)
    ensures
        graph_of(g, kid, feature, max) matches Some(t) ==> marks_members(g, t),
{
    if let Some(n) = g.node_of(kid, feature) {
        let np = NodePrint { node: n as usize, edge: None };
        lemma_drawn_marks_members(g, walk(g, np, 0, max, Set::empty()).0);
    }
}

/// Without features, the graph of a crate is a graph of crates.
pub proof fn graph_without_features_has_only_krates(g: KrateGraph, kid: Kid)
    requires
        g.wf(),
    ensures
        graph_of(g, kid, None, 0) matches Some(t) ==> all_krates(t),
{
    if let Some(n) = g.node_of(kid, None) {
        lemma_krate_at(g.nodes@, kid, 0);
        let np = NodePrint { node: n as usize, edge: None };
        walk_expands_once(g, np, 0, 0, Set::empty());
        lemma_drawn_krates(g, walk(g, np, 0, 0, Set::empty()).0, 0);
    }
}

/// The root of an inclusion graph is the crate that it was asked for, also where
/// it was asked for one of its features.
pub proof fn graph_is_rooted_at_krate(
    g: KrateGraph,
    kid: Kid,
    feature: Option<Seq<char>>,
    max: nat,
)
    requires
        g.wf(),
    ensures
        graph_of(g, kid, feature, max) is Some <==> g.node_of(kid, feature) is Some,
        graph_of(g, kid, feature, max) matches Some(t) ==> !t.repeat && (t.inner matches Shown::Krate {
            id,
            ..
        } && id.same(kid)),
{
    if let Some(n) = g.node_of(kid, feature) {
        lemma_krate_at(g.nodes@, kid, 0);
        let krate = krate_at(g.nodes@, kid, 0).unwrap();
        let np = NodePrint { node: n as usize, edge: None };
        if feature is None {
            walk_expands_once(g, np, 0, max, Set::empty());
        }
        assert(krate as usize as int == krate);
    }
}

/// A path found in a graph that marks the members of the workspace ends at one.
pub proof fn paths_end_at_members(g: KrateGraph, t: Tree, trail: Seq<Step>)
    requires
        marks_members(g, t),
    ensures
        end_at_members(g, paths_from(t, trail)),
    decreases t, t.parents.len() + 1,
{
    if !is_project(t) {
        lemma_paths_above_end_at_members(g, t, t.parents.len(), trail);
    }
}

/// Whether each of the paths ends at a member of the workspace.
pub open spec fn end_at_members(g: KrateGraph, paths: Seq<Path>) -> bool {
    forall|i: int| 0 <= i < paths.len() ==> g.has_member((#[trigger] paths[i]).root_kid)
}

proof fn lemma_paths_above_end_at_members(g: KrateGraph, t: Tree, n: nat, trail: Seq<Step>)
    requires
        marks_members(g, t),
    ensures
        end_at_members(g, paths_above(t, n, trail)),
    decreases t, n,
{
    if n > 0 && n <= t.parents.len() {
        assert(marks_members(g, t.parents[n - 1]));
        lemma_paths_above_end_at_members(g, t, (n - 1) as nat, trail);
        paths_end_at_members(g, t.parents[n - 1], trail_to(t, t.parents[n - 1], trail));
    }
}

/// Whether each node of a chain directly depends on the one before it.
pub open spec fn is_chain(g: KrateGraph, chain: Seq<usize>) -> bool {
    &&& chain.len() > 0
    &&& forall|i: int|
        #![trigger chain[i]]
        0 < i < chain.len() ==> directly_depends(g, chain[i], chain[i - 1])
}

/// Whether a node directly depends on another one.
pub open spec fn directly_depends(g: KrateGraph, dependent: usize, node: usize) -> bool {
    exists|j: int|
        0 <= j < g.dependents@[node as int].len() && (
        #[trigger] g.dependents@[node as int]@[j]).node == dependent
}

proof fn lemma_chain_is_met(g: KrateGraph, chain: Seq<usize>, met: Set<usize>, i: int)
    requires
        is_chain(g, chain),
        is_closed(g, Set::empty(), met),
        met.contains(chain[0]),
        0 <= i < chain.len(),
    ensures
        met.contains(chain[i]),
    decreases i,
{
    if i > 0 {
        lemma_chain_is_met(g, chain, met, i - 1);
        let n = chain[i - 1];
        assert(directly_depends(g, chain[i], n));
        let j = choose|j: int|
            0 <= j < g.dependents@[n as int].len() && (#[trigger] g.dependents@[n as int]@[j]).node
                == chain[i];
        assert(met.contains(n));
    }
}

proof fn lemma_expanded_is_shown(g: KrateGraph, w: Walk, n: usize)
    requires
        expansions(w, n) > 0,
        g.nodes@[n as int] matches Node::Krate { krate } && g.has_member(krate.id),
    ensures
        !no_project(drawn(g, w)),
    decreases w, 0nat,
{
    let t = drawn(g, w);
    if !(!w.repeat && w.np.node == n) {
        let i = lemma_expanded_in(g, w.parents, w.parents.len(), n);
        assert(t.parents[i] == drawn(g, w.parents[i]));
    }
}

proof fn lemma_expanded_in(g: KrateGraph, walks: Seq<Walk>, k: nat, n: usize) -> (i: int)
    requires
        expansions_in(walks, k, n) > 0,
        g.nodes@[n as int] matches Node::Krate { krate } && g.has_member(krate.id),
    ensures
        0 <= i < walks.len(),
        !no_project(drawn(g, walks[i])),
    decreases walks, k,
{
    if expansions(walks[k - 1], n) > 0 {
        lemma_expanded_is_shown(g, walks[k - 1], n);
        k - 1
    } else {
        lemma_expanded_in(g, walks, (k - 1) as nat, n)
    }
}

/// If a member of the workspace depends on a crate, directly or not, a path from
/// the project to the crate is found.
pub proof fn dependent_members_have_a_path(g: KrateGraph, kid: Kid, chain: Seq<usize>)
    requires
        g.wf(),
        is_chain(g, chain),
        krate_at(g.nodes@, kid, 0) == Some(chain[0] as int),
        g.nodes@[chain.last() as int] matches Node::Krate { krate } && g.has_member(krate.id),
    ensures
        graph_of(g, kid, None, 0) matches Some(t) && paths_from(t, Seq::empty()).len() > 0,
{
    lemma_krate_at(g.nodes@, kid, 0);
    let np = NodePrint { node: chain[0], edge: None };
    let (w, met) = walk(g, np, 0, 0, Set::empty());
    walk_expands_once(g, np, 0, 0, Set::empty());
    walk_meets_all_dependents(g, np, 0, Set::empty());
    lemma_chain_is_met(g, chain, met, chain.len() - 1);
    assert(expansions(w, chain.last()) == 1);
    lemma_expanded_is_shown(g, w, chain.last());
    paths_exist_with_project(drawn(g, w), Seq::empty());
}

/// Putting a new node in its place lists no node twice.
proof fn lemma_with_node_once(nodes: Seq<Node>, list: Seq<NodePrint>, np: NodePrint)
    requires
        each_once(list),
        forall|i: int| 0 <= i < list.len() ==> (#[trigger] list[i]).node != np.node,
    ensures
        each_once(with_node(nodes, list, np)),
    decreases list.len(),
{
    if list.len() > 0 && node_order(nodes, np, list.last()) == Order::Less {
        let rest = list.drop_last();
        let shorter = with_node(nodes, rest, np);
        let all = with_node(nodes, list, np);
        assert forall|i: int| 0 <= i < rest.len() implies (#[trigger] rest[i]).node != np.node by {
            assert(rest[i] == list[i]);
        }
        assert(each_once(rest)) by {
            assert forall|j: int, k: int| #![trigger rest[j], rest[k]] 0 <= j < k
                < rest.len() implies rest[j].node != rest[k].node by {
                assert(list[j].node != list[k].node);
            }
        }
        lemma_with_node_once(nodes, rest, np);
        lemma_with_node_items(nodes, rest, np);
        assert forall|j: int, k: int| #![trigger all[j], all[k]] 0 <= j < k
            < all.len() implies all[j].node != all[k].node by {
            assert(all[j] == shorter[j]);
            if k < shorter.len() {
                assert(all[k] == shorter[k]);
            } else if shorter[j] != np {
                let m = choose|m: int| 0 <= m < rest.len() && rest[m] == shorter[j];
                assert(list[m].node != list[list.len() - 1].node);
            }
        }
    }
}

/// Ordering a list does not list a node twice.
proof fn lemma_in_order_once(nodes: Seq<Node>, list: Seq<NodePrint>)
    requires
        each_once(list),
    ensures
        each_once(in_order(nodes, list)),
    decreases list.len(),
{
    if list.len() > 0 {
        let rest = list.drop_last();
        let sorted = in_order(nodes, rest);
        assert forall|j: int, k: int| #![trigger rest[j], rest[k]] 0 <= j < k
            < rest.len() implies rest[j].node != rest[k].node by {
            assert(list[j].node != list[k].node);
        }
        lemma_in_order_once(nodes, rest);
        assert forall|i: int| 0 <= i < sorted.len() implies (#[trigger] sorted[i]).node
            != list.last().node by {
            lemma_in_order_keeps(nodes, rest, i);
            let k = choose|k: int| 0 <= k < rest.len() && rest[k] == sorted[i];
            assert(list[k].node != list[list.len() - 1].node);
        }
        lemma_with_node_once(nodes, sorted, list.last());
    }
}

/// Without features, a crate that is expanded has one parent for each crate that
/// directly depends on it: all of them, and none twice.
pub proof fn dependents_are_shown_once(
    g: KrateGraph,
    np: NodePrint,
    depth: nat,
    max: nat,
    seen: Set<usize>,
)
    requires
        g.wf(),
        g.has_print(np),
        within(seen, g.nodes.len() as nat),
        depth <= seen.len(),
        max <= depth,
        !seen.contains(np.node),
    ensures
        ({
            let w = walk(g, np, depth, max, seen).0;
            let list = g.dependents@[np.node as int]@;
            &&& !w.repeat
            &&& w.parents.len() == list.len()
            &&& drawn(g, w).parents.len() == list.len()
            &&& forall|i: int, j: int|
                #![trigger w.parents[i], w.parents[j]]
                0 <= i < j < w.parents.len() ==> w.parents[i].np.node != w.parents[j].np.node
            &&& forall|k: int|
                #![trigger list[k]]
                0 <= k < list.len() ==> exists|i: int|
                    0 <= i < w.parents.len() && (#[trigger] w.parents[i]).np == list[k]
        }),
{
    let node = np.node as int;
    let w = walk(g, np, depth, max, seen).0;
    let list = g.dependents@[node]@;
    let sorted = above(g, node, depth, max);
    walk_expands_once(g, np, depth, max, seen);
    assert(each_once(g.dependents@[node]@));
    lemma_in_order_once(g.nodes@, list);
    in_order_is_ordered(g.nodes@, list);
    assert(sorted.len() == list.len()) by {
        broadcast use vstd::seq_lib::group_to_multiset_ensures;

        assert(sorted.to_multiset().len() == sorted.len());
        assert(list.to_multiset().len() == list.len());
    }
    assert forall|i: int, j: int| #![trigger w.parents[i], w.parents[j]] 0 <= i < j
        < w.parents.len() implies w.parents[i].np.node != w.parents[j].np.node by {
        assert(w.parents[i].np == sorted[i]);
        assert(w.parents[j].np == sorted[j]);
    }
    assert forall|k: int| #![trigger list[k]] 0 <= k < list.len() implies exists|i: int|
        0 <= i < w.parents.len() && (#[trigger] w.parents[i]).np == list[k] by {
        lemma_in_order_has(g.nodes@, list, k);
        let i = choose|i: int| 0 <= i < sorted.len() && sorted[i] == list[k];
        assert(w.parents[i].np == sorted[i]);
    }
}

/// The walks that a walk consists of, each before those above it.
pub open spec fn visits(w: Walk) -> Seq<Walk>
    decreases w, 0nat,
{
    seq![w] + visits_all(w.parents, w.parents.len())
}

/// What the first `k` of some walks consist of, one after the other.
pub open spec fn visits_all(walks: Seq<Walk>, k: nat) -> Seq<Walk>
    decreases walks, k,
{
    if k == 0 || k > walks.len() {
        Seq::empty()
    } else {
        visits_all(walks, (k - 1) as nat) + visits(walks[k - 1])
    }
}

/// Whether the node `n` is met in the first `k` of some visits.
pub open spec fn meets(list: Seq<Walk>, k: int, n: usize) -> bool {
    exists|j: int| 0 <= j < k && (#[trigger] list[j]).np.node == n
}

/// Whether, after `seen`, exactly the visits to a node that was met before are
/// marked as repeats; `met` is what has been met in the end.
pub open spec fn repeats_are_marked(
    g: KrateGraph,
    list: Seq<Walk>,
    seen: Set<usize>,
    met: Set<usize>,
) -> bool {
    &&& forall|i: int|
        #![trigger list[i]]
        0 <= i < list.len() ==> g.has_print(list[i].np) && (list[i].repeat <==> seen.contains(
            list[i].np.node,
        ) || meets(list, i, list[i].np.node)) && (list[i].repeat ==> list[i].parents.len() == 0)
    &&& forall|n: usize|
        #![trigger met.contains(n)]
        met.contains(n) <==> seen.contains(n) || meets(list, list.len() as int, n)
}

/// One list of visits after the other.
proof fn lemma_visits_in_a_row(
    g: KrateGraph,
    a: Seq<Walk>,
    b: Seq<Walk>,
    seen: Set<usize>,
    mid: Set<usize>,
    met: Set<usize>,
)
    requires
        repeats_are_marked(g, a, seen, mid),
        repeats_are_marked(g, b, mid, met),
    ensures
        repeats_are_marked(g, a + b, seen, met),
{
    let all = a + b;
    assert forall|i: int, n: usize| 0 <= i <= b.len() implies (#[trigger] meets(
        all,
        a.len() + i,
        n,
    ) <==> meets(a, a.len() as int, n) || meets(b, i, n)) by {
        if meets(all, a.len() + i, n) {
            let j = choose|j: int| 0 <= j < a.len() + i && (#[trigger] all[j]).np.node == n;
            if j < a.len() {
                assert(a[j] == all[j]);
            } else {
                assert(b[j - a.len()] == all[j]);
            }
        }
        if meets(a, a.len() as int, n) {
            let j = choose|j: int| 0 <= j < a.len() && (#[trigger] a[j]).np.node == n;
            assert(all[j] == a[j]);
        }
        if meets(b, i, n) {
            let j = choose|j: int| 0 <= j < i && (#[trigger] b[j]).np.node == n;
            assert(all[a.len() + j] == b[j]);
        }
    }
    assert forall|i: int| #![trigger all[i]] 0 <= i < all.len() implies g.has_print(all[i].np) && (
    all[i].repeat <==> seen.contains(all[i].np.node) || meets(all, i, all[i].np.node)) && (
    all[i].repeat ==> all[i].parents.len() == 0) by {
        let n = all[i].np.node;
        if i < a.len() {
            assert(all[i] == a[i]);
            assert(meets(all, i, n) <==> meets(a, i, n)) by {
                if meets(all, i, n) {
                    let j = choose|j: int| 0 <= j < i && (#[trigger] all[j]).np.node == n;
                    assert(a[j] == all[j]);
                }
                if meets(a, i, n) {
                    let j = choose|j: int| 0 <= j < i && (#[trigger] a[j]).np.node == n;
                    assert(all[j] == a[j]);
                }
            }
        } else {
            let k = i - a.len();
            assert(all[i] == b[k]);
            assert(meets(all, a.len() + k, n) <==> meets(a, a.len() as int, n) || meets(b, k, n));
            assert(mid.contains(n) <==> seen.contains(n) || meets(a, a.len() as int, n));
        }
    }
    assert forall|n: usize| #![trigger met.contains(n)] met.contains(n) <==> seen.contains(n)
        || meets(all, all.len() as int, n) by {
        assert(meets(all, a.len() + (b.len() as int), n) <==> meets(a, a.len() as int, n) || meets(
            b,
            b.len() as int,
            n,
        ));
        assert(mid.contains(n) <==> seen.contains(n) || meets(a, a.len() as int, n));
    }
}

/// In a walk, the first visit to a node is the one that expands it; every other
/// one is marked as a repeat, with nothing above it.
pub proof fn first_visit_expands(
    g: KrateGraph,
    np: NodePrint,
    depth: nat,
    max: nat,
    seen: Set<usize>,
)
    requires
        g.wf(),
        g.has_print(np),
        within(seen, g.nodes.len() as nat),
        depth <= seen.len(),
    ensures
        repeats_are_marked(
            g,
            visits(walk(g, np, depth, max, seen).0),
            seen,
            walk(g, np, depth, max, seen).1,
        ),
    decreases g.nodes.len() - depth, 0nat,
{
    let (w, met) = walk(g, np, depth, max, seen);
    lemma_within_bound(seen, g.nodes.len() as nat);
    let one = seq![w];
    let inner = seen.insert(np.node);
    assert forall|n: usize| #[trigger] meets(one, 1, n) <==> n == np.node by {
        assert(one[0].np.node == np.node);
    }
    assert(!meets(one, 0, np.node));
    if seen.contains(np.node) {
        assert(visits(w) =~= one);
        assert(met =~= inner);
    } else {
        lemma_within_bound(inner, g.nodes.len() as nat);
        let list = above(g, np.node as int, depth, max);
        lemma_above_prints(g, np.node as int, depth, max);
        first_visits_expand(g, list, depth + 1, max, inner);
        assert(repeats_are_marked(g, one, seen, inner)) by {
            assert(one[0] == w);
        }
        lemma_visits_in_a_row(
            g,
            one,
            visits_all(w.parents, w.parents.len()),
            seen,
            inner,
            met,
        );
    }
}

proof fn first_visits_expand(
    g: KrateGraph,
    list: Seq<NodePrint>,
    depth: nat,
    max: nat,
    seen: Set<usize>,
)
    requires
        g.wf(),
        all_prints(g, list),
        within(seen, g.nodes.len() as nat),
        depth <= seen.len(),
    ensures
        ({
            let (walks, met) = walk_all(g, list, depth, max, seen);
            repeats_are_marked(g, visits_all(walks, walks.len()), seen, met)
        }),
    decreases g.nodes.len() - depth, list.len() + 1,
{
    let (walks, met) = walk_all(g, list, depth, max, seen);
    if list.len() > 0 {
        let rest = list.drop_last();
        let (first, mid) = walk_all(g, rest, depth, max, seen);
        let last = walk(g, list.last(), depth, max, mid).0;
        assert(g.has_print(list[list.len() - 1]));
        walks_expand_once(g, rest, depth, max, seen);
        first_visits_expand(g, rest, depth, max, seen);
        first_visit_expands(g, list.last(), depth, max, mid);
        lemma_visits_prefix(first, last, first.len());
        assert(walks =~= first.push(last));
        assert(walks[walks.len() - 1] == last);
        lemma_visits_in_a_row(
            g,
            visits_all(first, first.len()),
            visits(last),
            seen,
            mid,
            met,
        );
    } else {
        assert(visits_all(walks, 0) =~= Seq::empty());
    }
}

/// What is added at the end does not change the visits before.
proof fn lemma_visits_prefix(walks: Seq<Walk>, last: Walk, k: nat)
    requires
        k <= walks.len(),
    ensures
        visits_all(walks.push(last), k) == visits_all(walks, k),
    decreases k,
{
    if k > 0 {
        lemma_visits_prefix(walks, last, (k - 1) as nat);
        assert(walks.push(last)[k - 1] == walks[k - 1]);
    }
}

/// The nodes of an inclusion graph, each before those above it.
pub open spec fn nodes_of(t: Tree) -> Seq<Tree>
    decreases t, 0nat,
{
    seq![t] + nodes_of_all(t.parents, t.parents.len())
}

/// The nodes of the first `k` of some graphs, one after the other.
pub open spec fn nodes_of_all(trees: Seq<Tree>, k: nat) -> Seq<Tree>
    decreases trees, k,
{
    if k == 0 || k > trees.len() {
        Seq::empty()
    } else {
        nodes_of_all(trees, (k - 1) as nat) + nodes_of(trees[k - 1])
    }
}

/// The trees that show some walks.
pub open spec fn drawn_all(g: KrateGraph, walks: Seq<Walk>) -> Seq<Tree> {
    Seq::new(walks.len(), |i: int| drawn(g, walks[i]))
}

proof fn lemma_nodes_are_visits(g: KrateGraph, w: Walk)
    ensures
        nodes_of(drawn(g, w)) == drawn_all(g, visits(w)),
    decreases w, 0nat,
{
    let t = drawn(g, w);
    lemma_nodes_are_visits_all(g, w.parents, w.parents.len());
    assert(t.parents =~= drawn_all(g, w.parents));
    assert(nodes_of(t) =~= drawn_all(g, visits(w)));
}

proof fn lemma_nodes_are_visits_all(g: KrateGraph, walks: Seq<Walk>, k: nat)
    requires
        k <= walks.len(),
    ensures
        nodes_of_all(drawn_all(g, walks), k) == drawn_all(g, visits_all(walks, k)),
    decreases walks, k,
{
    if k > 0 {
        lemma_nodes_are_visits_all(g, walks, (k - 1) as nat);
        lemma_nodes_are_visits(g, walks[k - 1]);
    }
    assert(nodes_of_all(drawn_all(g, walks), k) =~= drawn_all(g, visits_all(walks, k)));
}

/// Whether a node of an inclusion graph is the crate `kid`.
pub open spec fn shows_krate(t: Tree, kid: Kid) -> bool {
    t.inner matches Shown::Krate { id, .. } && id.same(kid)
}

/// Where no two crates have the same identifier, each crate in the graph of a
/// crate is expanded where it is first met, each node being met before those
/// above it. Everywhere else it is marked as a repeat, with nothing above it.
pub proof fn crates_are_expanded_once(g: KrateGraph, kid: Kid, max: nat, t: Tree, i: int)
    requires
        g.wf(),
        g.ids_are_unique(),
        graph_of(g, kid, None, max) == Some(t),
        0 <= i < nodes_of(t).len(),
        nodes_of(t)[i].inner is Krate,
    ensures
        nodes_of(t)[i].repeat <==> exists|j: int|
            0 <= j < i && shows_krate(#[trigger] nodes_of(t)[j], nodes_of(t)[i].inner->id),
        nodes_of(t)[i].repeat ==> nodes_of(t)[i].parents.len() == 0,
{
    lemma_krate_at(g.nodes@, kid, 0);
    let n = g.node_of(kid, None).unwrap();
    let np = NodePrint { node: n as usize, edge: None };
    let w = walk(g, np, 0, max, Set::empty()).0;
    let list = visits(w);
    let nodes = nodes_of(t);
    first_visit_expands(g, np, 0, max, Set::empty());
    lemma_nodes_are_visits(g, w);
    assert(t == drawn(g, w));
    assert(nodes[i] == drawn(g, list[i]));
    let node = list[i].np.node;
    let id = nodes[i].inner->id;
    assert(g.has_print(list[i].np));
    assert(meets(list, i, node) <==> exists|j: int|
        0 <= j < i && shows_krate(#[trigger] nodes[j], id)) by {
        if meets(list, i, node) {
            let j = choose|j: int| 0 <= j < i && (#[trigger] list[j]).np.node == node;
            assert(nodes[j] == drawn(g, list[j]));
            assert(shows_krate(nodes[j], id));
        }
        if exists|j: int| 0 <= j < i && shows_krate(#[trigger] nodes[j], id) {
            let j = choose|j: int| 0 <= j < i && shows_krate(#[trigger] nodes[j], id);
            assert(nodes[j] == drawn(g, list[j]));
            assert(g.has_print(list[j].np));
            let other = list[j].np.node;
            if other != node {
                let a = g.nodes@[node as int];
                let b = g.nodes@[other as int];
                assert(a is Krate && b is Krate);
            }
            assert(list[j].np.node == node);
        }
    }
}

proof fn lemma_drawn_owners(g: KrateGraph, w: Walk, depth: nat, max: nat)
    requires
        g.wf(),
        g.has_print(w.np),
        is_faithful(g, w, depth, max),
    ensures
        owners_are_known(drawn(g, w)),
    decreases w,
{
    let t = drawn(g, w);
    let node = w.np.node as int;
    assert(g.nodes@[node] is Krate || g.nodes@[node] is Feature);
    lemma_above_prints(g, node, depth, max);
    assert forall|i: int| 0 <= i < t.parents.len() implies owners_are_known(
        #[trigger] t.parents[i],
    ) by {
        assert(w.parents[i].np == above(g, node, depth, max)[i]);
        lemma_drawn_owners(g, w.parents[i], depth + 1, max);
    }
}

/// The crate of every node of an inclusion graph is known.
pub proof fn graph_knows_owners(
    g: KrateGraph,
    kid: Kid,
    feature: Option<Seq<char>>,
    max: nat,
)
    requires
        g.wf(),
    ensures
        graph_of(g, kid, feature, max) matches Some(t) ==> owners_are_known(t),
{
    if let Some(n) = g.node_of(kid, feature) {
        lemma_krate_at(g.nodes@, kid, 0);
        lemma_node_of(g, kid, feature);
        let np = NodePrint { node: n as usize, edge: None };
        walk_expands_once(g, np, 0, max, Set::empty());
        let w = walk(g, np, 0, max, Set::empty()).0;
        lemma_drawn_owners(g, w, 0, max);
        if feature is Some {
            let t = graph_of(g, kid, feature, max).unwrap();
            assert(t.parents =~= seq![drawn(g, w)]);
            assert forall|i: int| 0 <= i < t.parents.len() implies owners_are_known(
                #[trigger] t.parents[i],
            ) by {}
        }
    }
}

/// The node of a crate or of a feature is one of the graph.
pub(crate) proof fn lemma_node_of(g: KrateGraph, kid: Kid, feature: Option<Seq<char>>)
    requires
        g.wf(),
        g.node_of(kid, feature) is Some,
    ensures
        0 <= g.node_of(kid, feature)->0 < g.nodes.len(),
{
    let n = krate_at(g.nodes@, kid, 0).unwrap();
    lemma_krate_at(g.nodes@, kid, 0);
    if let Some(name) = feature {
        lemma_feature_at(g, n, name, 0);
    }
}

pub(crate) proof fn lemma_feature_at(g: KrateGraph, n: int, name: Seq<char>, from: int)
    requires
        g.wf(),
        0 <= n < g.nodes.len(),
        0 <= from,
        feature_at(g.nodes@, g.incoming@[n]@, n, name, from) is Some,
    ensures
        0 <= feature_at(g.nodes@, g.incoming@[n]@, n, name, from)->0 < g.nodes.len(),
    decreases g.incoming@[n]@.len() - from,
{
    if from < g.incoming@[n]@.len() {
        assert(g.has_print(g.incoming@[n]@[from]));
        if feature_at(g.nodes@, g.incoming@[n]@, n, name, from) != Some(
            g.incoming@[n]@[from].node as int,
        ) {
            lemma_feature_at(g, n, name, from + 1);
        }
    }
}

/// On a path that is found for a crate, or for one of its features, nothing lies
/// exactly where the crate is itself a member of the workspace. Otherwise the last
/// crate on it is the one that the graph was asked for.
pub proof fn empty_path_is_member(
    g: KrateGraph,
    kid: Kid,
    feature: Option<Seq<char>>,
    max: nat,
    t: Tree,
    i: int,
)
    requires
        g.wf(),
        graph_of(g, kid, feature, max) == Some(t),
        0 <= i < paths_from(t, Seq::empty()).len(),
    ensures
        paths_from(t, Seq::empty())[i].crates.len() == 0 <==> g.has_member(kid),
        !g.has_member(kid) ==> paths_from(t, Seq::empty())[i].crates.last().kid.same(kid),
{
    graph_is_rooted_at_krate(g, kid, feature, max);
    graph_marks_members(g, kid, feature, max);
    graph_knows_owners(g, kid, feature, max);
    paths_end_at_members(g, t, Seq::empty());
    path_ends_at_start(t, i);
    let id = t.inner->id;
    let root = paths_from(t, Seq::empty())[i].root_kid;
    assert(g.has_member(root));
    lemma_members_are_same(g, id, kid);
    if id.same(root) {
        lemma_members_are_same(g, id, root);
    }
}

proof fn lemma_members_are_same(g: KrateGraph, a: Kid, b: Kid)
    requires
        a.same(b),
    ensures
        g.has_member(a) == g.has_member(b),
{
    let members = g.workspace_members@;
    if g.has_member(a) {
        let m = choose|m: int| 0 <= m < members.len() && (#[trigger] members[m]).same(a);
        assert(members[m].same(b));
    }
    if g.has_member(b) {
        let m = choose|m: int| 0 <= m < members.len() && (#[trigger] members[m]).same(b);
        assert(members[m].same(a));
    }
}

/// Whether every feature in the graph lies at most `max` levels above its root,
/// where `t` lies `depth` levels above it.
pub open spec fn features_within(t: Tree, depth: nat, max: nat) -> bool
    decreases t,
{
    &&& t.inner is Feature ==> depth <= max
    &&& forall|i: int|
        0 <= i < t.parents.len() ==> features_within(#[trigger] t.parents[i], depth + 1, max)
}

proof fn lemma_drawn_features(g: KrateGraph, w: Walk, depth: nat, max: nat)
    requires
        g.wf(),
        g.has_print(w.np),
        is_faithful(g, w, depth, max),
        g.nodes@[w.np.node as int] is Feature ==> depth <= max,
    ensures
        features_within(drawn(g, w), depth, max),
    decreases w,
{
    let t = drawn(g, w);
    let node = w.np.node as int;
    lemma_above_prints(g, node, depth, max);
    assert forall|i: int| 0 <= i < t.parents.len() implies features_within(
        #[trigger] t.parents[i],
        depth + 1,
        max,
    ) by {
        assert(w.parents[i].np == above(g, node, depth, max)[i]);
        if depth >= max {
            let found = g.dependents@[node]@;
            lemma_in_order_keeps(g.nodes@, found, i);
            let j = choose|j: int| 0 <= j < found.len() && found[j] == w.parents[i].np;
            assert(g.has_print(g.dependents@[node]@[j]));
        }
        lemma_drawn_features(g, w.parents[i], depth + 1, max);
    }
}

/// Features are followed no deeper than asked: every feature in the graph of a
/// crate lies at most `max` levels above the crate.
pub proof fn features_lie_within_depth(g: KrateGraph, kid: Kid, max: nat)
    requires
        g.wf(),
    ensures
        graph_of(g, kid, None, max) matches Some(t) ==> features_within(t, 0, max),
{
    if let Some(n) = g.node_of(kid, None) {
        lemma_krate_at(g.nodes@, kid, 0);
        let np = NodePrint { node: n as usize, edge: None };
        walk_expands_once(g, np, 0, max, Set::empty());
        lemma_drawn_features(g, walk(g, np, 0, max, Set::empty()).0, 0, max);
    }
}

/// Whether a set holds, with each node, all that directly depend on it, and, if
/// features are followed, all from which an edge leads to it.
pub open spec fn holds_dependents(g: KrateGraph, set: Set<usize>, with_features: bool) -> bool {
    &&& forall|n: usize, j: int|
        #![trigger set.contains(n), g.dependents@[n as int]@[j]]
        set.contains(n) && 0 <= j < g.dependents@[n as int].len() ==> set.contains(
            g.dependents@[n as int]@[j].node,
        )
    &&& with_features ==> forall|n: usize, j: int|
        #![trigger set.contains(n), g.incoming@[n as int]@[j]]
        set.contains(n) && 0 <= j < g.incoming@[n as int].len() ==> set.contains(
            g.incoming@[n as int]@[j].node,
        )
}

/// A walk meets nothing but the node it starts at and what depends on it,
/// directly or not: every set that holds these holds all that the walk visits.
pub proof fn walk_meets_only_dependents(
    g: KrateGraph,
    np: NodePrint,
    depth: nat,
    max: nat,
    seen: Set<usize>,
    set: Set<usize>,
)
    requires
        set.contains(np.node),
        holds_dependents(g, set, max > depth),
    ensures
        forall|i: int|
            #![trigger visits(walk(g, np, depth, max, seen).0)[i]]
            0 <= i < visits(walk(g, np, depth, max, seen).0).len() ==> set.contains(
                visits(walk(g, np, depth, max, seen).0)[i].np.node,
            ),
    decreases g.nodes.len() - depth, 0nat,
{
    let w = walk(g, np, depth, max, seen).0;
    if !w.repeat {
        let node = np.node as int;
        let list = above(g, node, depth, max);
        let found = if depth < max {
            g.incoming@[node]@
        } else {
            g.dependents@[node]@
        };
        assert forall|i: int| 0 <= i < list.len() implies set.contains(
            (#[trigger] list[i]).node,
        ) by {
            lemma_in_order_keeps(g.nodes@, found, i);
            let j = choose|j: int| 0 <= j < found.len() && found[j] == list[i];
            if depth < max {
                assert(set.contains(g.incoming@[node]@[j].node));
            } else {
                assert(set.contains(g.dependents@[node]@[j].node));
            }
        }
        walks_meet_only_dependents(g, list, depth + 1, max, seen.insert(np.node), set);
    }
    let all = visits(w);
    assert forall|i: int| #![trigger all[i]] 0 <= i < all.len() implies set.contains(
        all[i].np.node,
    ) by {
        if i > 0 {
            assert(all[i] == visits_all(w.parents, w.parents.len())[i - 1]);
        }
    }
}

proof fn walks_meet_only_dependents(
    g: KrateGraph,
    list: Seq<NodePrint>,
    depth: nat,
    max: nat,
    seen: Set<usize>,
    set: Set<usize>,
)
    requires
        forall|i: int| 0 <= i < list.len() ==> set.contains((#[trigger] list[i]).node),
        holds_dependents(g, set, max > depth),
    ensures
        ({
            let walks = walk_all(g, list, depth, max, seen).0;
            let all = visits_all(walks, walks.len());
            forall|i: int|
                #![trigger all[i]]
                0 <= i < all.len() ==> set.contains(all[i].np.node)
        }),
    decreases g.nodes.len() - depth, list.len() + 1,
{
    let walks = walk_all(g, list, depth, max, seen).0;
    let all = visits_all(walks, walks.len());
    if list.len() > 0 {
        let rest = list.drop_last();
        let (first, mid) = walk_all(g, rest, depth, max, seen);
        let last = walk(g, list.last(), depth, max, mid).0;
        assert forall|i: int| 0 <= i < rest.len() implies set.contains(
            (#[trigger] rest[i]).node,
        ) by {
            assert(rest[i] == list[i]);
        }
        assert(set.contains(list[list.len() - 1].node));
        walks_meet_only_dependents(g, rest, depth, max, seen, set);
        walk_meets_only_dependents(g, list.last(), depth, max, mid, set);
        lemma_visits_prefix(first, last, first.len());
        assert(walks =~= first.push(last));
        assert(walks[walks.len() - 1] == last);
        let before = visits_all(first, first.len());
        assert forall|i: int| #![trigger all[i]] 0 <= i < all.len() implies set.contains(
            all[i].np.node,
        ) by {
            if i < before.len() {
                assert(all[i] == before[i]);
            } else {
                assert(all[i] == visits(last)[i - before.len()]);
            }
        }
    }
}

} // verus!
