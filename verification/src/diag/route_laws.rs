//! Which crates each path from the project records.

use crate::diag::grapher::{Shown, Tree};
use crate::diag::paths::{
    in_one_crate, is_route, passed_on, path_along, path_is_route, paths_above, paths_from,
    route_is_path, step_of, trail_goes_behind, trail_to, Path, Step,
};
use crate::diag::shape_laws::equal_kids;
use crate::diag::tree_text::is_project;
use crate::krate_graph::Version;
use vstd::prelude::*;

verus! {

/// Whether a node is a crate of the project.
pub open spec fn is_of_project(t: Tree) -> bool {
    match t.inner {
        Shown::Krate { is_project_crate, .. } => is_project_crate,
        Shown::Feature { .. } => false,
    }
}

/// Whether `route` leads down from a crate of the project to `t`: each node depends
/// on the next one, and only the first is a crate of the project.
pub open spec fn leads_down(route: Seq<Tree>, t: Tree) -> bool {
    &&& route.len() > 0
    &&& route.last() == t
    &&& is_of_project(route[0])
    &&& forall|i: int|
        #![trigger route[i]]
        0 < i < route.len() ==> !is_of_project(route[i]) && exists|k: int|
            0 <= k < route[i].parents.len() && #[trigger] route[i].parents[k] == route[i - 1]
}

/// Whether `step` is the crate that a node is, or that it is a feature of.
pub open spec fn is_step_of(step: Step, t: Tree) -> bool {
    match t.inner {
        Shown::Krate { name, version, id, .. } => {
            &&& step.name == name
            &&& step.version == version
            &&& step.kid == id
        },
        Shown::Feature { crate_name, owner, .. } => {
            &&& owner matches Some((version, kid))
            &&& step.name == crate_name
            &&& step.version == version
            &&& step.kid == kid
        },
    }
}

/// Whether two versions agree in all their parts.
pub open spec fn equal_versions(a: Version, b: Version) -> bool {
    &&& a.major == b.major
    &&& a.minor == b.minor
    &&& a.patch == b.patch
    &&& a.pre@ == b.pre@
    &&& a.build@ == b.build@
}

/// Whether two nodes belong to one crate, of which one is a feature.
pub open spec fn is_within_crate(a: Tree, b: Tree) -> bool {
    &&& a.inner is Feature || b.inner is Feature
    &&& exists|x: Step, y: Step|
        #![trigger is_step_of(x, a), is_step_of(y, b)]
        is_step_of(x, a) && is_step_of(y, b) && x.name == y.name && equal_versions(
            x.version,
            y.version,
        ) && equal_kids(x.kid, y.kid)
}

/// Whether a route leaves the crate of its node at `i`, which is not the first, to
/// that of the node above it.
pub open spec fn leaves_crate(route: Seq<Tree>, i: int) -> bool {
    &&& 0 < i < route.len()
    &&& !is_within_crate(route[i], route[i - 1])
    &&& route[i].inner matches Shown::Feature { owner, .. } ==> owner is Some
}

/// Whether `crates` are the crates of the nodes at which a route leaves a crate, in
/// order; `at` says which nodes they are.
pub open spec fn records(route: Seq<Tree>, crates: Seq<Step>, at: Seq<int>) -> bool {
    &&& at.len() == crates.len()
    &&& forall|j: int|
        #![trigger at[j]]
        0 <= j < at.len() ==> leaves_crate(route, at[j]) && is_step_of(crates[j], route[at[j]])
    &&& forall|j: int, k: int| #![trigger at[j], at[k]] 0 <= j < k < at.len() ==> at[j] < at[k]
    &&& forall|i: int| #[trigger] leaves_crate(route, i) ==> at.contains(i)
}

/// Whether a path is the one of a route: it starts at the crate of the project, and
/// it records the crates that the route passes.
pub open spec fn is_path_of(path: Path, route: Seq<Tree>, at: Seq<int>) -> bool {
    &&& is_step_of(
        Step { name: path.root_name, version: path.root_version, kid: path.root_kid },
        route[0],
    )
    &&& path.is_project_crate
    &&& records(route, path.crates, at)
}

proof fn lemma_step(t: Tree)
    ensures
        match step_of(t) {
            Some(step) => is_step_of(step, t) && forall|s: Step| #[trigger]
                is_step_of(s, t) ==> s == step,
            None => forall|s: Step| !(#[trigger] is_step_of(s, t)),
        },
        step_of(t) is None <==> (t.inner matches Shown::Feature { owner, .. } && owner is None),
{
}

proof fn lemma_within(a: Tree, b: Tree)
    ensures
        in_one_crate(a, b) <==> is_within_crate(a, b),
{
    lemma_step(a);
    lemma_step(b);
    if in_one_crate(a, b) {
        let x = step_of(a)->0;
        let y = step_of(b)->0;
        assert(is_step_of(x, a) && is_step_of(y, b));
    }
}

proof fn lemma_is_route(route: Seq<Tree>, t: Tree)
    ensures
        is_route(route, t) <==> leads_down(route, t),
{
    if is_route(route, t) {
        assert forall|i: int| #![trigger route[i]] 0 < i < route.len() implies !is_of_project(
            route[i],
        ) && exists|k: int|
            0 <= k < route[i].parents.len() && #[trigger] route[i].parents[k] == route[i - 1] by {
            assert(route[i].parents.contains(route[i - 1]));
        }
    }
    if leads_down(route, t) {
        assert forall|i: int| #![trigger route[i]] 0 < i
            < route.len() implies !is_project(route[i])
            && route[i].parents.contains(route[i - 1]) by {
            let k = choose|k: int|
                0 <= k < route[i].parents.len() && #[trigger] route[i].parents[k] == route[i - 1];
            assert(route[i].parents[k] == route[i - 1]);
        }
    }
}

proof fn lemma_records(route: Seq<Tree>) -> (at: Seq<int>)
    requires
        route.len() > 0,
    ensures
        records(route, passed_on(route), at),
    decreases route.len(),
{
    let n = route.len() - 1;
    if n == 0 {
        Seq::empty()
    } else {
        let upper = route.drop_last();
        let above = route[n - 1];
        let before = passed_on(upper);
        let known = lemma_records(upper);
        let crates = passed_on(route);
        lemma_step(route[n]);
        lemma_within(route[n], above);
        assert(upper[n - 1] == above);
        let leaves = leaves_crate(route, n);
        let at = if leaves {
            known.push(n)
        } else {
            known
        };
        if leaves {
            let step = step_of(route[n])->0;
            assert(crates =~= before.push(step));
        } else {
            assert(crates =~= before);
        }
        assert forall|i: int| 0 < i < n implies (#[trigger] leaves_crate(route, i)
            <==> leaves_crate(upper, i)) by {
            assert(upper[i] == route[i]);
            assert(upper[i - 1] == route[i - 1]);
        }
        assert forall|j: int| #![trigger at[j]] 0 <= j < at.len() implies leaves_crate(
            route,
            at[j],
        ) && is_step_of(crates[j], route[at[j]]) by {
            if j < known.len() {
                assert(at[j] == known[j]);
                assert(leaves_crate(upper, known[j]));
                assert(upper[known[j]] == route[known[j]]);
                assert(leaves_crate(route, known[j]));
                assert(crates[j] == before[j]);
            }
        }
        assert forall|j: int, k: int| #![trigger at[j], at[k]] 0 <= j < k
            < at.len() implies at[j] < at[k] by {
            assert(at[j] == known[j]);
            if k < known.len() {
                assert(at[k] == known[k]);
            } else {
                assert(leaves_crate(upper, known[j]));
            }
        }
        assert forall|i: int| #[trigger] leaves_crate(route, i) implies at.contains(i) by {
            if i < n {
                assert(leaves_crate(upper, i));
                let k = choose|k: int| 0 <= k < known.len() && known[k] == i;
                assert(at[k] == i);
            } else {
                assert(at[known.len() as int] == i);
            }
        }
        at
    }
}

proof fn lemma_path_along(route: Seq<Tree>) -> (at: Seq<int>)
    requires
        route.len() > 0,
        is_of_project(route[0]),
    ensures
        is_path_of(path_along(route, Seq::empty()), route, at),
{
    let at = lemma_records(route);
    lemma_step(route[0]);
    assert(path_along(route, Seq::empty()).crates =~= passed_on(route));
    at
}

/// Every path is that of a route from a crate of the project down to the root of the
/// graph. It records each crate that the route passes on the way, whole and in order:
/// that of each node where the route leaves a crate, and no other.
pub proof fn path_records_what_it_passes(t: Tree, i: int) -> (r: (Seq<Tree>, Seq<int>))
    requires
        0 <= i < paths_from(t, Seq::empty()).len(),
    ensures
        leads_down(r.0, t),
        is_path_of(paths_from(t, Seq::empty())[i], r.0, r.1),
{
    let route = path_is_route(t, Seq::empty(), i);
    lemma_is_route(route, t);
    let at = lemma_path_along(route);
    (route, at)
}

/// Every route from a crate of the project down to the root of the graph has its
/// path.
pub proof fn every_route_has_its_path(t: Tree, route: Seq<Tree>) -> (r: (int, Seq<int>))
    requires
        leads_down(route, t),
    ensures
        0 <= r.0 < paths_from(t, Seq::empty()).len(),
        is_path_of(paths_from(t, Seq::empty())[r.0], route, r.1),
{
    lemma_is_route(route, t);
    route_is_path(t, Seq::empty(), route);
    let paths = paths_from(t, Seq::empty());
    let path = path_along(route, Seq::empty());
    let k = choose|k: int| 0 <= k < paths.len() && paths[k] == path;
    let at = lemma_path_along(route);
    (k, at)
}

/// Whether all nodes of a route are crates.
pub open spec fn is_all_crates(route: Seq<Tree>) -> bool {
    forall|i: int| 0 <= i < route.len() ==> (#[trigger] route[i]).inner is Krate
}

/// On a route of crates only, the path records every crate below the first, each at
/// its place.
pub proof fn crates_on_a_route_are_all_recorded(route: Seq<Tree>, path: Path, at: Seq<int>)
    requires
        is_all_crates(route),
        route.len() > 0,
        is_path_of(path, route, at),
    ensures
        path.crates.len() == route.len() - 1,
        forall|j: int|
            #![trigger path.crates[j]]
            0 <= j < path.crates.len() ==> is_step_of(path.crates[j], route[j + 1]),
{
    let n = route.len() - 1;
    assert forall|i: int| 0 < i <= n implies #[trigger] at.contains(i) by {
        assert(route[i].inner is Krate && route[i - 1].inner is Krate);
        assert(leaves_crate(route, i));
    }
    assert forall|j: int| #![trigger at[j]] 0 <= j < at.len() implies 0 < at[j] <= n by {
        assert(leaves_crate(route, at[j]));
    }
    lemma_all_places(at, n);
    assert forall|j: int| #![trigger path.crates[j]] 0 <= j < path.crates.len() implies is_step_of(
        path.crates[j],
        route[j + 1],
    ) by {
        assert(at[j] == j + 1);
    }
}

/// Ascending numbers that are exactly those from one up to `n`.
proof fn lemma_all_places(at: Seq<int>, n: int)
    requires
        0 <= n,
        forall|i: int| 0 < i <= n ==> #[trigger] at.contains(i),
        forall|j: int| #![trigger at[j]] 0 <= j < at.len() ==> 0 < at[j] <= n,
        forall|j: int, k: int| #![trigger at[j], at[k]] 0 <= j < k < at.len() ==> at[j] < at[k],
    ensures
        at.len() == n,
        forall|j: int| #![trigger at[j]] 0 <= j < at.len() ==> at[j] == j + 1,
    decreases n,
{
    if n == 0 {
        if at.len() > 0 {
            assert(0 < at[0] <= n);
        }
    } else {
        assert(at.contains(n));
        let k = choose|k: int| 0 <= k < at.len() && at[k] == n;
        if k < at.len() - 1 {
            assert(at[k] < at[at.len() - 1]);
        }
        let rest = at.drop_last();
        assert forall|i: int| 0 < i <= n - 1 implies #[trigger] rest.contains(i) by {
            assert(at.contains(i));
            let m = choose|m: int| 0 <= m < at.len() && at[m] == i;
            assert(rest[m] == i);
        }
        assert forall|j: int| #![trigger rest[j]] 0 <= j < rest.len() implies 0 < rest[j] <= n
            - 1 by {
            assert(rest[j] == at[j]);
            assert(at[j] < at[k]);
        }
        lemma_all_places(rest, n - 1);
        assert forall|j: int| #![trigger at[j]] 0 <= j < at.len() implies at[j] == j + 1 by {
            if j < rest.len() {
                assert(at[j] == rest[j]);
            }
        }
    }
}

/// The number of paths of the first `n` of some nodes.
pub open spec fn path_count(trees: Seq<Tree>, n: int) -> nat
    decreases n,
{
    if n <= 0 {
        0
    } else {
        path_count(trees, n - 1) + paths_from(trees[n - 1], Seq::empty()).len()
    }
}

/// Whether `path` is `upper`, gone on from the node `above` down to `t`: with the crate
/// of `t` behind its crates, if that is known and another one than that of `above`.
pub open spec fn goes_on(path: Path, upper: Path, above: Tree, t: Tree) -> bool {
    &&& path.root_name == upper.root_name
    &&& path.root_version == upper.root_version
    &&& path.root_kid == upper.root_kid
    &&& path.is_project_crate == upper.is_project_crate
    &&& if is_within_crate(t, above) || (t.inner matches Shown::Feature { owner, .. } && owner
        is None) {
        path.crates == upper.crates
    } else {
        &&& path.crates.len() == upper.crates.len() + 1
        &&& path.crates.drop_last() == upper.crates
        &&& is_step_of(path.crates.last(), t)
    }
}

proof fn lemma_goes_on(upper: Path, above: Tree, t: Tree)
    ensures
        goes_on(
            Path { crates: upper.crates + trail_to(t, above, Seq::empty()), ..upper },
            upper,
            above,
            t,
        ),
{
    lemma_step(t);
    lemma_within(t, above);
    let trail = trail_to(t, above, Seq::empty());
    if trail.len() > 0 {
        let step = step_of(t)->0;
        assert(trail =~= seq![step]);
        assert((upper.crates + trail).drop_last() =~= upper.crates);
    } else {
        assert(upper.crates + trail =~= upper.crates);
    }
}

proof fn lemma_paths_above(t: Tree, n: nat, k: int, j: int)
    requires
        n <= t.parents.len(),
        0 <= k < n,
        0 <= j < paths_from(t.parents[k], Seq::empty()).len(),
    ensures
        paths_above(t, n, Seq::empty()).len() == path_count(t.parents, n as int),
        path_count(t.parents, k) + j < paths_above(t, n, Seq::empty()).len(),
        goes_on(
            paths_above(t, n, Seq::empty())[path_count(t.parents, k) + j],
            paths_from(t.parents[k], Seq::empty())[j],
            t.parents[k],
            t,
        ),
    decreases n,
{
    let m = (n - 1) as nat;
    let above = t.parents[n - 1];
    let trail = trail_to(t, above, Seq::empty());
    let first = paths_above(t, m, Seq::empty());
    let last = paths_from(above, trail);
    lemma_path_count(t, m);
    lemma_path_count(t, n);
    trail_goes_behind(above, trail);
    if k < n - 1 {
        lemma_paths_above(t, m, k, j);
        assert(paths_above(t, n, Seq::empty())[path_count(t.parents, k) + j]
            == first[path_count(t.parents, k) + j]);
    } else {
        let upper = paths_from(above, Seq::empty())[j];
        assert(last[j] == (Path { crates: upper.crates + trail, ..upper }));
        lemma_goes_on(upper, above, t);
        assert(paths_above(t, n, Seq::empty())[first.len() + j] == last[j]);
    }
}

proof fn lemma_path_count(t: Tree, n: nat)
    requires
        n <= t.parents.len(),
    ensures
        paths_above(t, n, Seq::empty()).len() == path_count(t.parents, n as int),
    decreases n,
{
    if n > 0 {
        let above = t.parents[n - 1];
        lemma_path_count(t, (n - 1) as nat);
        trail_goes_behind(above, trail_to(t, above, Seq::empty()));
    }
}

/// A crate of the project has one path, on which nothing lies. Any other node has the
/// paths of its parents, in the order of the parents, each gone on down to it.
pub proof fn paths_are_those_of_the_parents(t: Tree)
    ensures
        is_of_project(t) ==> paths_from(t, Seq::empty()).len() == 1 && paths_from(
            t,
            Seq::empty(),
        )[0].crates.len() == 0,
        !is_of_project(t) ==> paths_from(t, Seq::empty()).len() == path_count(
            t.parents,
            t.parents.len() as int,
        ),
        !is_of_project(t) ==> forall|k: int, j: int|
            #![trigger paths_from(t.parents[k], Seq::empty())[j]]
            0 <= k < t.parents.len() && 0 <= j < paths_from(t.parents[k], Seq::empty()).len()
                ==> goes_on(
                paths_from(t, Seq::empty())[path_count(t.parents, k) + j],
                paths_from(t.parents[k], Seq::empty())[j],
                t.parents[k],
                t,
            ),
{
    if !is_of_project(t) {
        lemma_path_count(t, t.parents.len());
        assert forall|k: int, j: int|
            #![trigger paths_from(t.parents[k], Seq::empty())[j]]
            0 <= k < t.parents.len() && 0 <= j < paths_from(
                t.parents[k],
                Seq::empty(),
            ).len() implies goes_on(
            paths_from(t, Seq::empty())[path_count(t.parents, k) + j],
            paths_from(t.parents[k], Seq::empty())[j],
            t.parents[k],
            t,
        ) by {
            lemma_paths_above(t, t.parents.len(), k, j);
        }
    }
}

} // verus!
