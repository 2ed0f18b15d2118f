//! What is found in the graph of the crates of a project.

use crate::cargo_graph::{
    known, krates_dependents, krates_edges, krates_incoming, krates_members, krates_nodes,
    krates_root,
};
use crate::diag::graph_laws::lemma_krate_at;
use crate::diag::route_laws::equal_versions;
use crate::diag::shape_laws::{
    equal_kids, is_crate_node, is_feature_node, is_listed_member, lemma_found_feature,
    lemma_no_feature, lemma_no_krate,
};
use crate::krate_graph::{krate_at, same_krate, Kid, KrateGraph, Version};
use crate::text::{stands_before, text_order_is_lexicographic, white, Order};
use vstd::prelude::*;

verus! {

/// Identifiers are the same exactly where the name, the version and the source are;
/// they are ordered by the first of these that differs.
pub proof fn kids_are_compared_part_by_part(a: Kid, b: Kid)
    ensures
        a.same(b) <==> equal_kids(a, b),
        a.order(b) == Order::Equal <==> equal_kids(a, b),
        a.order(b) == Order::Less <==> {
            ||| stands_before(a.name@, b.name@)
            ||| a.name@ == b.name@ && stands_before(a.version@, b.version@)
            ||| a.name@ == b.name@ && a.version@ == b.version@ && stands_before(
                a.source@,
                b.source@,
            )
        },
{
    text_order_is_lexicographic(a.name@, b.name@);
    text_order_is_lexicographic(a.version@, b.version@);
    text_order_is_lexicographic(a.source@, b.source@);
}

/// Versions are the same exactly where all their parts are.
pub proof fn versions_are_compared_part_by_part(a: Version, b: Version)
    ensures
        a.same(b) <==> equal_versions(a, b),
{
}

/// A crate is a member exactly where the list of members has its identifier.
pub proof fn members_are_listed(g: KrateGraph, kid: Kid)
    ensures
        g.has_member(kid) <==> is_listed_member(g, kid),
{
    let members = g.workspace_members@;
    if g.has_member(kid) {
        let m = choose|m: int| 0 <= m < members.len() && (#[trigger] members[m]).same(kid);
        assert(equal_kids(members[m], kid));
    }
    if is_listed_member(g, kid) {
        let m = choose|m: int| 0 <= m < members.len() && equal_kids(#[trigger] members[m], kid);
        assert(members[m].same(kid));
    }
}

/// The node that is found for a crate is the first with its identifier; there is none
/// only if no node has it.
pub proof fn crate_is_found_by_its_identifier(g: KrateGraph, kid: Kid)
    ensures
        match g.node_of(kid, None) {
            Some(n) => is_crate_node(g, n, kid) && forall|m: int|
                0 <= m < n ==> !(#[trigger] is_crate_node(g, m, kid)),
            None => forall|m: int| !(#[trigger] is_crate_node(g, m, kid)),
        },
        krate_at(g.nodes@, kid, 0) == g.node_of(kid, None),
{
    let found = krate_at(g.nodes@, kid, 0);
    if found is Some {
        lemma_krate_at(g.nodes@, kid, 0);
    }
    assert forall|m: int|
        0 <= m < g.nodes.len() && (found is None || m < found->0) implies !(#[trigger] is_crate_node(
        g,
        m,
        kid,
    )) by {
        lemma_no_krate(g.nodes@, kid, 0, m);
    }
}

/// The node that is found for a feature is that of the feature with its name of that
/// very crate; there is none only if the crate has no such feature.
pub proof fn feature_is_found_in_its_crate(g: KrateGraph, kid: Kid, name: Seq<char>)
    requires
        g.wf(),
        g.ids_are_unique(),
    ensures
        match g.node_of(kid, Some(name)) {
            Some(n) => exists|k: int|
                is_crate_node(g, k, kid) && #[trigger] is_feature_node(g, n, k, name),
            None => forall|n: int, k: int|
                is_crate_node(g, k, kid) ==> !(#[trigger] is_feature_node(g, n, k, name)),
        },
{
    crate_is_found_by_its_identifier(g, kid);
    match krate_at(g.nodes@, kid, 0) {
        Some(k) => {
            match g.node_of(kid, Some(name)) {
                Some(n) => {
                    lemma_found_feature(g, k, name, 0);
                    assert(is_feature_node(g, n, k, name));
                },
                None => {
                    assert forall|n: int, j: int|
                        is_crate_node(g, j, kid) implies !(#[trigger] is_feature_node(
                        g,
                        n,
                        j,
                        name,
                    )) by {
                        if is_feature_node(g, n, j, name) {
                            if j != k {
                                assert(g.nodes@[j] is Krate && g.nodes@[k] is Krate);
                                assert(!is_crate_node(g, j, kid));
                            }
                            let i = choose|i: int|
                                0 <= i < g.incoming@[k].len() && (
                                #[trigger] g.incoming@[k]@[i]).node == n;
                            lemma_no_feature(g, k, name, 0, i);
                        }
                    }
                },
            }
        },
        None => {},
    }
}

/// The members that are crates are kept, in order, and the others are left out.
pub proof fn known_members_are_kept(a: Seq<Option<Kid>>, b: Seq<Option<Kid>>, kid: Kid)
    ensures
        known(a + b) == known(a) + known(b),
        known(seq![Some(kid)]) == seq![kid],
        known(seq![None]) == Seq::<Kid>::empty(),
    decreases b.len(),
{
    reveal_with_fuel(known, 2);
    assert(seq![Some(kid)].drop_last() =~= Seq::empty());
    assert(seq![None::<Kid>].drop_last() =~= Seq::empty());
    assert(known(seq![Some(kid)]) =~= seq![kid]);
    if b.len() == 0 {
        assert(a + b =~= a);
        assert(known(a) + known(b) =~= known(a));
    } else {
        assert((a + b).drop_last() =~= a + b.drop_last());
        known_members_are_kept(a, b.drop_last(), kid);
        assert(known(a + b) =~= known(a) + known(b));
    }
}

/// The characters that are white space.
pub open spec fn spaces() -> Seq<char> {
    seq![
        '\t',
        '\n',
        '\u{b}',
        '\u{c}',
        '\r',
        ' ',
        '\u{85}',
        '\u{a0}',
        '\u{1680}',
        '\u{2000}',
        '\u{2001}',
        '\u{2002}',
        '\u{2003}',
        '\u{2004}',
        '\u{2005}',
        '\u{2006}',
        '\u{2007}',
        '\u{2008}',
        '\u{2009}',
        '\u{200a}',
        '\u{2028}',
        '\u{2029}',
        '\u{202f}',
        '\u{205f}',
        '\u{3000}',
    ]
}

/// White space is what is in the list.
pub proof fn white_is_in_the_list(c: char)
    ensures
        white(c) <==> exists|i: int| 0 <= i < spaces().len() && #[trigger] spaces()[i] == c,
{
    let list = spaces();
    assert(list.len() == 25);
    let n = c as u32;
    if white(c) {
        let i: int = if n <= 0xd {
            n - 0x9
        } else if n == 0x20 {
            5
        } else if n == 0x85 {
            6
        } else if n == 0xa0 {
            7
        } else if n == 0x1680 {
            8
        } else if n <= 0x200a {
            n - 0x2000 + 9
        } else if n == 0x2028 {
            20
        } else if n == 0x2029 {
            21
        } else if n == 0x202f {
            22
        } else if n == 0x205f {
            23
        } else {
            24
        };
        assert(list[i] == c);
    }
}

/// The identifiers of a graph are unique exactly where no two of its crates agree in
/// name, version and source.
pub proof fn unique_ids_tell_crates_apart(g: KrateGraph)
    ensures
        g.ids_are_unique() <==> forall|i: int, j: int, kid: Kid|
            #![trigger is_crate_node(g, i, kid), is_crate_node(g, j, kid)]
            is_crate_node(g, i, kid) && is_crate_node(g, j, kid) ==> i == j,
{
    if g.ids_are_unique() {
        assert forall|i: int, j: int, kid: Kid|
            #![trigger is_crate_node(g, i, kid), is_crate_node(g, j, kid)]
            is_crate_node(g, i, kid) && is_crate_node(g, j, kid) implies i == j by {
            assert(g.nodes@[i] is Krate && g.nodes@[j] is Krate);
        }
    }
    if forall|i: int, j: int, kid: Kid|
        #![trigger is_crate_node(g, i, kid), is_crate_node(g, j, kid)]
        is_crate_node(g, i, kid) && is_crate_node(g, j, kid) ==> i == j {
        assert forall|i: int, j: int|
            #![trigger g.nodes@[i], g.nodes@[j]]
            0 <= i < j < g.nodes.len() implies !same_krate(g.nodes@[i], g.nodes@[j]) by {
            if same_krate(g.nodes@[i], g.nodes@[j]) {
                let kid = g.nodes@[j]->krate.id;
                assert(is_crate_node(g, i, kid) && is_crate_node(g, j, kid));
            }
        }
    }
}

/// A graph that mirrors another one has all its nodes and edges, all that lead to each
/// node and that directly depend on it, those of its members that are crates, and its
/// root.
pub proof fn mirror_leaves_nothing_out(g: KrateGraph, graph: krates::Krates)
    requires
        g.mirrors(graph),
    ensures
        g.nodes@ == krates_nodes(graph),
        g.edges@ == krates_edges(graph),
        g.incoming.len() == g.nodes.len(),
        g.dependents.len() == g.nodes.len(),
        forall|i: int|
            0 <= i < g.nodes.len() ==> (#[trigger] g.incoming@[i])@ == krates_incoming(graph, i),
        forall|i: int|
            0 <= i < g.nodes.len() ==> (#[trigger] g.dependents@[i])@ == krates_dependents(
                graph,
                i,
            ),
        forall|kid: Kid| #[trigger]
            g.workspace_members@.contains(kid) <==> krates_members(graph).contains(Some(kid)),
        g.workspace_root@ == krates_root(graph),
{
    assert forall|kid: Kid| #[trigger] g.workspace_members@.contains(kid) <==> krates_members(
        graph,
    ).contains(Some(kid)) by {
        lemma_known_has(krates_members(graph), kid);
    }
}

proof fn lemma_known_has(members: Seq<Option<Kid>>, kid: Kid)
    ensures
        known(members).contains(kid) <==> members.contains(Some(kid)),
    decreases members.len(),
{
    if members.len() > 0 {
        let rest = members.drop_last();
        lemma_known_has(rest, kid);
        if known(members).contains(kid) {
            let i = choose|i: int| 0 <= i < known(members).len() && known(members)[i] == kid;
            if i < known(rest).len() {
                assert(known(rest)[i] == kid);
                let k = choose|k: int| 0 <= k < rest.len() && rest[k] == Some(kid);
                assert(members[k] == Some(kid));
            } else {
                assert(members[members.len() - 1] == Some(kid));
            }
        }
        if members.contains(Some(kid)) {
            let k = choose|k: int| 0 <= k < members.len() && members[k] == Some(kid);
            if k < rest.len() {
                assert(rest[k] == Some(kid));
                let i = choose|i: int| 0 <= i < known(rest).len() && known(rest)[i] == kid;
                assert(known(members)[i] == kid);
            } else {
                assert(known(members)[known(rest).len() as int] == kid);
            }
        }
    }
}

} // verus!
