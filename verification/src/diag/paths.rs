//! The paths by which the crates of the project depend on a crate.

use crate::diag::grapher::{GraphNode, NodeInner, Shown, Tree};
use crate::diag::tree_text::{is_project, no_project};
use crate::krate_graph::{Kid, Version};
use crate::text::text_eq;
use std::collections::VecDeque;
use vstd::prelude::*;

verus! {

/// A crate of the project, and the crates between it and the one it depends on,
/// with that one as the last. The first is the direct dependency of the crate of
/// the project. A crate that is passed by one of its features stands on the path
/// too; where the crate of a feature is not known, it is left out.
#[derive(Debug)]
pub struct DependencyPath {
    pub root: (String, Version),
    pub root_kid: Kid,
    pub crates: Vec<(String, Version, Kid)>,
    pub is_project_crate: bool,
}

/// A crate on a path.
pub struct Step {
    pub name: Seq<char>,
    pub version: Version,
    pub kid: Kid,
}

/// The values in a `DependencyPath`.
pub struct Path {
    pub root_name: Seq<char>,
    pub root_version: Version,
    pub root_kid: Kid,
    pub crates: Seq<Step>,
    pub is_project_crate: bool,
}

/// The crates on a path, in order.
pub open spec fn steps(crates: Seq<(String, Version, Kid)>) -> Seq<Step> {
    Seq::new(
        crates.len(),
        |i: int| Step { name: crates[i].0@, version: crates[i].1, kid: crates[i].2 },
    )
}

impl View for DependencyPath {
    type V = Path;

    open spec fn view(&self) -> Path {
        Path {
            root_name: self.root.0@,
            root_version: self.root.1,
            root_kid: self.root_kid,
            crates: steps(self.crates@),
            is_project_crate: self.is_project_crate,
        }
    }
}

/// The values in a list of paths.
pub open spec fn path_values(paths: Seq<DependencyPath>) -> Seq<Path> {
    Seq::new(paths.len(), |i: int| paths[i]@)
}

/// The crate that a node belongs to, as it stands on a path.
pub open spec fn step_of(t: Tree) -> Option<Step> {
    match t.inner {
        Shown::Krate { name, version, id, .. } => Some(Step { name, version, kid: id }),
        Shown::Feature { crate_name, owner: Some((version, kid)), .. } => Some(
            Step { name: crate_name, version, kid },
        ),
        Shown::Feature { owner: None, .. } => None,
    }
}

/// Whether two steps are the same crate.
pub open spec fn same_step(a: Step, b: Step) -> bool {
    a.name == b.name && a.version.same(b.version) && a.kid.same(b.kid)
}

/// Whether two nodes, of which at least one is a feature, belong to the same crate.
pub open spec fn in_one_crate(a: Tree, b: Tree) -> bool {
    &&& a.inner is Feature || b.inner is Feature
    &&& step_of(a) matches Some(x)
    &&& step_of(b) matches Some(y)
    &&& same_step(x, y)
}

/// The trail on which `above` is reached from `t`: the crate of `t` goes on it
/// where it is left.
pub open spec fn trail_to(t: Tree, above: Tree, trail: Seq<Step>) -> Seq<Step> {
    match step_of(t) {
        Some(step) => if in_one_crate(t, above) {
            trail
        } else {
            seq![step] + trail
        },
        None => trail,
    }
}

/// The paths from a node up to crates of the project, where `trail` has been
/// passed, the last crate first.
pub open spec fn paths_from(t: Tree, trail: Seq<Step>) -> Seq<Path>
    decreases t, t.parents.len() + 1,
{
    if is_project(t) {
        let root = step_of(t).unwrap();
        seq![
            Path {
                root_name: root.name,
                root_version: root.version,
                root_kid: root.kid,
                crates: trail,
                is_project_crate: true,
            },
        ]
    } else {
        paths_above(t, t.parents.len(), trail)
    }
}

/// The paths from the first `n` of the nodes above `t` up.
pub open spec fn paths_above(t: Tree, n: nat, trail: Seq<Step>) -> Seq<Path>
    decreases t, n,
{
    if n == 0 || n > t.parents.len() {
        Seq::empty()
    } else {
        paths_above(t, (n - 1) as nat, trail) + paths_from(
            t.parents[n - 1],
            trail_to(t, t.parents[n - 1], trail),
        )
    }
}

fn copy_crates(crates: &VecDeque<(String, Version, Kid)>) -> (copy: Vec<(String, Version, Kid)>)
    ensures
        steps(copy@) == steps(crates@),
{
    let mut copy: Vec<(String, Version, Kid)> = Vec::new();
    let mut i: usize = 0;
    while i < crates.len()
        invariant
            i <= crates@.len(),
            copy@.len() == i,
            forall|j: int| 0 <= j < i ==> #[trigger] copy@[j] == crates@[j],
        decreases crates@.len() - i,
    {
        let c = &crates[i];
        copy.push((c.0.clone(), c.1.clone(), c.2.clone()));
        i += 1;
    }
    assert(copy@ =~= crates@);
    copy
}

impl Clone for DependencyPath {
    fn clone(&self) -> (path: DependencyPath)
        ensures
            path@ == self@,
    {
        let mut crates: Vec<(String, Version, Kid)> = Vec::new();
        let mut i: usize = 0;
        while i < self.crates.len()
            invariant
                i <= self.crates.len(),
                crates@ == self.crates@.take(i as int),
            decreases self.crates.len() - i,
        {
            let c = &self.crates[i];
            crates.push((c.0.clone(), c.1.clone(), c.2.clone()));
            i += 1;
        }
        assert(crates@ =~= self.crates@);
        DependencyPath {
            root: (self.root.0.clone(), self.root.1.clone()),
            root_kid: self.root_kid.clone(),
            crates,
            is_project_crate: self.is_project_crate,
        }
    }
}

impl GraphNode {
    /// The paths from the crates of the project that depend on this node.
    pub fn collect_project_paths(&self) -> (paths: Vec<DependencyPath>)
        ensures
            path_values(paths@) == paths_from(self@, Seq::empty()),
    {
        let mut paths: Vec<DependencyPath> = Vec::new();
        let mut current_path: VecDeque<(String, Version, Kid)> = VecDeque::new();
        self.collect_root_paths_internal(&mut paths, &mut current_path);
        assert(steps(Seq::empty()) =~= Seq::empty());
        assert(path_values(paths@) =~= paths_from(self@, Seq::empty()));
        paths
    }

    /// The crate that this node belongs to, as it stands on a path.
    fn step(&self) -> (step: Option<(String, Version, Kid)>)
        ensures
            step_of(self@) == (match step {
                Some(s) => Some(Step { name: s.0@, version: s.1, kid: s.2 }),
                None => None,
            }),
    {
        match &self.inner {
            NodeInner::Krate { name, version, id, .. } => Some(
                (name.clone(), version.clone(), id.clone()),
            ),
            NodeInner::Feature { crate_name, owner: Some((version, id)), .. } => Some(
                (crate_name.clone(), version.clone(), id.clone()),
            ),
            NodeInner::Feature { owner: None, .. } => None,
        }
    }

    /// Whether this node and `other`, of which at least one is a feature, belong to
    /// the same crate.
    fn shares_crate(&self, other: &GraphNode) -> (r: bool)
        ensures
            r == in_one_crate(self@, other@),
    {
        let feature = match (&self.inner, &other.inner) {
            (NodeInner::Krate { .. }, NodeInner::Krate { .. }) => false,
            _ => true,
        };
        match (self.step(), other.step()) {
            (Some(a), Some(b)) => feature && text_eq(a.0.as_str(), b.0.as_str()) && a.1 == b.1
                && a.2 == b.2,
            _ => false,
        }
    }

    /// Collects the paths from this node up. What has been passed goes behind the
    /// crates of each.
    fn collect_root_paths_internal(
        &self,
        paths: &mut Vec<DependencyPath>,
        current_path: &mut VecDeque<(String, Version, Kid)>,
    )
        ensures
            path_values(final(paths)@) == path_values(old(paths)@) + paths_from(
                self@,
                steps(old(current_path)@),
            ),
            path_values(final(paths)@) == path_values(old(paths)@) + with_trail(
                paths_from(self@, Seq::empty()),
                steps(old(current_path)@),
            ),
            final(current_path)@ == old(current_path)@,
        decreases *self,
    {
        let ghost before = path_values(paths@);
        let ghost passed = current_path@;
        let ghost trail = steps(passed);
        proof {
            trail_goes_behind(self@, trail);
        }
        if let NodeInner::Krate { name, version, id, is_project_crate, .. } = &self.inner {
            if *is_project_crate {
                paths.push(
                    DependencyPath {
                        root: (name.clone(), version.clone()),
                        root_kid: id.clone(),
                        crates: copy_crates(current_path),
                        is_project_crate: *is_project_crate,
                    },
                );
                assert(path_values(paths@) =~= before + paths_from(self@, trail));
                return ;
            }
        }
        let mut i: usize = 0;
        assert(path_values(paths@) =~= before + paths_above(self@, 0, trail));
        while i < self.parents.len()
            invariant
                i <= self.parents.len(),
                current_path@ == passed,
                trail == steps(passed),
                path_values(paths@) == before + paths_above(self@, i as nat, trail),
            decreases self.parents.len() - i,
        {
            let parent = &self.parents[i];
            // The crate goes on the path where it is left, but not between it and
            // one of its features.
            let step = if self.shares_crate(parent) {
                None
            } else {
                self.step()
            };
            match step {
                Some(step) => {
                    current_path.push_front(step);
                    assert(steps(current_path@) =~= trail_to(self@, parent@, trail));
                    parent.collect_root_paths_internal(paths, current_path);
                    current_path.pop_front();
                    assert(current_path@ =~= passed);
                },
                None => {
                    parent.collect_root_paths_internal(paths, current_path);
                },
            }
            i += 1;
            assert(self@.parents[i - 1] == parent@);
            assert(path_values(paths@) =~= before + paths_above(self@, i as nat, trail));
        }
    }
}

/// Whether each of the paths ends at a crate of the project.
pub open spec fn end_at_project(paths: Seq<Path>) -> bool {
    forall|i: int| 0 <= i < paths.len() ==> (#[trigger] paths[i]).is_project_crate
}

/// Every path ends at a crate of the project.
pub proof fn paths_end_at_project(t: Tree, trail: Seq<Step>)
    ensures
        end_at_project(paths_from(t, trail)),
    decreases t, t.parents.len() + 1,
{
    if !is_project(t) {
        paths_above_end_at_project(t, t.parents.len(), trail);
    }
}

proof fn paths_above_end_at_project(t: Tree, n: nat, trail: Seq<Step>)
    ensures
        end_at_project(paths_above(t, n, trail)),
    decreases t, n,
{
    if n > 0 && n <= t.parents.len() {
        paths_above_end_at_project(t, (n - 1) as nat, trail);
        paths_end_at_project(t.parents[n - 1], trail_to(t, t.parents[n - 1], trail));
    }
}

/// Without a crate of the project in the graph there is no path.
pub proof fn no_paths_without_project(t: Tree, trail: Seq<Step>)
    requires
        no_project(t),
    ensures
        paths_from(t, trail) == Seq::<Path>::empty(),
    decreases t, t.parents.len() + 1,
{
    no_paths_above_without_project(t, t.parents.len(), trail);
}

proof fn no_paths_above_without_project(t: Tree, n: nat, trail: Seq<Step>)
    requires
        no_project(t),
    ensures
        paths_above(t, n, trail) == Seq::<Path>::empty(),
    decreases t, n,
{
    if n > 0 && n <= t.parents.len() {
        assert(no_project(t.parents[n - 1]));
        no_paths_above_without_project(t, (n - 1) as nat, trail);
        no_paths_without_project(t.parents[n - 1], trail_to(t, t.parents[n - 1], trail));
        assert(paths_above(t, n, trail) =~= Seq::<Path>::empty());
    }
}

/// With a crate of the project in the graph there is a path.
pub proof fn paths_exist_with_project(t: Tree, trail: Seq<Step>)
    requires
        !no_project(t),
    ensures
        paths_from(t, trail).len() > 0,
    decreases t, t.parents.len() + 1,
{
    if !is_project(t) {
        let i = choose|i: int| 0 <= i < t.parents.len() && !no_project(#[trigger] t.parents[i]);
        paths_exist_above(t, t.parents.len(), trail, i);
    }
}

proof fn paths_exist_above(t: Tree, n: nat, trail: Seq<Step>, i: int)
    requires
        0 <= i < n <= t.parents.len(),
        !no_project(t.parents[i]),
    ensures
        paths_above(t, n, trail).len() > 0,
    decreases t, n,
{
    if i == n - 1 {
        paths_exist_with_project(t.parents[i], trail_to(t, t.parents[i], trail));
    } else {
        paths_exist_above(t, (n - 1) as nat, trail, i);
    }
}

/// A crate of the project is the end of its only path, on which nothing lies.
pub proof fn project_is_its_own_path(t: Tree)
    requires
        is_project(t),
    ensures
        paths_from(t, Seq::empty()).len() == 1,
        paths_from(t, Seq::empty())[0].crates == Seq::<Step>::empty(),
        t.inner matches Shown::Krate { id, .. } && paths_from(t, Seq::empty())[0].root_kid == id,
{
}

/// `paths` with `trail` behind the crates of each of them.
pub open spec fn with_trail(paths: Seq<Path>, trail: Seq<Step>) -> Seq<Path> {
    Seq::new(paths.len(), |i: int| Path { crates: paths[i].crates + trail, ..paths[i] })
}

/// The paths on which `trail` has been passed are those on which nothing has
/// been, with `trail` behind their crates.
pub proof fn trail_goes_behind(t: Tree, trail: Seq<Step>)
    ensures
        paths_from(t, trail) == with_trail(paths_from(t, Seq::empty()), trail),
{
    lemma_trail_goes_behind(t, Seq::empty(), trail);
    assert(Seq::<Step>::empty() + trail =~= trail);
}

proof fn lemma_trail_goes_behind(t: Tree, first: Seq<Step>, rest: Seq<Step>)
    ensures
        paths_from(t, first + rest) == with_trail(paths_from(t, first), rest),
    decreases t, t.parents.len() + 1,
{
    if is_project(t) {
        assert(paths_from(t, first + rest) =~= with_trail(paths_from(t, first), rest));
    } else {
        lemma_trail_goes_behind_above(t, t.parents.len(), first, rest);
    }
}

proof fn lemma_trail_goes_behind_above(t: Tree, n: nat, first: Seq<Step>, rest: Seq<Step>)
    ensures
        paths_above(t, n, first + rest) == with_trail(paths_above(t, n, first), rest),
    decreases t, n,
{
    if n > 0 && n <= t.parents.len() {
        let above = t.parents[n - 1];
        lemma_trail_goes_behind_above(t, (n - 1) as nat, first, rest);
        assert(trail_to(t, above, first + rest) =~= trail_to(t, above, first) + rest);
        lemma_trail_goes_behind(above, trail_to(t, above, first), rest);
    }
    assert(paths_above(t, n, first + rest) =~= with_trail(paths_above(t, n, first), rest));
}

/// Whether every node of the graph is a crate.
pub open spec fn all_krates(t: Tree) -> bool
    decreases t,
{
    &&& t.inner is Krate
    &&& forall|i: int| 0 <= i < t.parents.len() ==> all_krates(#[trigger] t.parents[i])
}

/// Whether the crate of every feature in the graph is known.
pub open spec fn owners_are_known(t: Tree) -> bool
    decreases t,
{
    &&& step_of(t) is Some
    &&& forall|i: int| 0 <= i < t.parents.len() ==> owners_are_known(#[trigger] t.parents[i])
}

/// Whether `route` leads down from a crate of the project to `t`, each node
/// being one that directly depends on the next, and no other of the project.
pub open spec fn is_route(route: Seq<Tree>, t: Tree) -> bool {
    &&& route.len() > 0
    &&& route.last() == t
    &&& is_project(route[0])
    &&& forall|i: int|
        #![trigger route[i]]
        0 < i < route.len() ==> !is_project(route[i]) && route[i].parents.contains(route[i - 1])
}

/// The crates that a route passes below its first node, in order. What belongs
/// to one crate is recorded once.
pub open spec fn passed_on(route: Seq<Tree>) -> Seq<Step>
    decreases route.len(),
{
    if route.len() <= 1 {
        Seq::empty()
    } else {
        let above = route[route.len() - 2];
        passed_on(route.drop_last()) + trail_to(route.last(), above, Seq::empty())
    }
}

/// The path that a route stands for, where `trail` follows the route.
pub open spec fn path_along(route: Seq<Tree>, trail: Seq<Step>) -> Path {
    let root = step_of(route[0]).unwrap();
    Path {
        root_name: root.name,
        root_version: root.version,
        root_kid: root.kid,
        crates: passed_on(route) + trail,
        is_project_crate: true,
    }
}

/// A node at the end of a route goes on the trail.
proof fn lemma_longer_route(upper: Seq<Tree>, t: Tree, trail: Seq<Step>)
    requires
        upper.len() > 0,
    ensures
        path_along(upper.push(t), trail) == path_along(upper, trail_to(t, upper.last(), trail)),
{
    let route = upper.push(t);
    assert(route.drop_last() =~= upper);
    assert(route[route.len() - 2] == upper.last());
    assert(path_along(route, trail).crates =~= path_along(
        upper,
        trail_to(t, upper.last(), trail),
    ).crates);
}

/// Each path is a route, of which it records the crates: all that are known, in
/// order, from the one next to the crate of the project to that of the root of the
/// graph.
pub proof fn path_is_route(t: Tree, trail: Seq<Step>, i: int) -> (route: Seq<Tree>)
    requires
        0 <= i < paths_from(t, trail).len(),
    ensures
        is_route(route, t),
        paths_from(t, trail)[i] == path_along(route, trail),
    decreases t, 0nat,
{
    if is_project(t) {
        let route = seq![t];
        assert(path_along(route, trail).crates =~= trail);
        route
    } else {
        let (k, j) = path_above_is_from(t, t.parents.len(), trail, i);
        let upper = path_is_route(t.parents[k], trail_to(t, t.parents[k], trail), j);
        let route = upper.push(t);
        assert forall|m: int| #![trigger route[m]] 0 < m < route.len() implies !is_project(route[m])
            && route[m].parents.contains(route[m - 1]) by {
            if m < upper.len() {
                assert(route[m] == upper[m]);
                assert(route[m - 1] == upper[m - 1]);
            } else {
                assert(route[m - 1] == t.parents[k]);
            }
        }
        lemma_longer_route(upper, t, trail);
        route
    }
}

/// A path from the nodes above `t` up is a path of a certain one of them.
proof fn path_above_is_from(t: Tree, n: nat, trail: Seq<Step>, i: int) -> (r: (int, int))
    requires
        n <= t.parents.len(),
        0 <= i < paths_above(t, n, trail).len(),
    ensures
        0 <= r.0 < n,
        0 <= r.1 < paths_from(t.parents[r.0], trail_to(t, t.parents[r.0], trail)).len(),
        paths_above(t, n, trail)[i] == paths_from(
            t.parents[r.0],
            trail_to(t, t.parents[r.0], trail),
        )[r.1],
    decreases n,
{
    let first = paths_above(t, (n - 1) as nat, trail);
    if i < first.len() {
        path_above_is_from(t, (n - 1) as nat, trail, i)
    } else {
        (n - 1, i - first.len())
    }
}

/// Each route is a path.
pub proof fn route_is_path(t: Tree, trail: Seq<Step>, route: Seq<Tree>)
    requires
        is_route(route, t),
    ensures
        paths_from(t, trail).contains(path_along(route, trail)),
    decreases route.len(),
{
    if route.len() == 1 {
        assert(path_along(route, trail).crates =~= trail);
        assert(paths_from(t, trail)[0] == path_along(route, trail));
    } else {
        let upper = route.drop_last();
        assert(route[route.len() - 1] == t);
        let k = choose|k: int| 0 <= k < t.parents.len() && t.parents[k] == upper.last();
        assert forall|m: int| #![trigger upper[m]] 0 < m < upper.len() implies !is_project(upper[m])
            && upper[m].parents.contains(upper[m - 1]) by {
            assert(route[m] == upper[m]);
        }
        route_is_path(t.parents[k], trail_to(t, t.parents[k], trail), upper);
        assert(route =~= upper.push(t));
        lemma_longer_route(upper, t, trail);
        path_from_is_above(t, t.parents.len(), trail, k, path_along(route, trail));
    }
}

/// A path of one of the nodes above `t` is one from them up.
proof fn path_from_is_above(t: Tree, n: nat, trail: Seq<Step>, k: int, path: Path)
    requires
        0 <= k < n <= t.parents.len(),
        paths_from(t.parents[k], trail_to(t, t.parents[k], trail)).contains(path),
    ensures
        paths_above(t, n, trail).contains(path),
    decreases n,
{
    let first = paths_above(t, (n - 1) as nat, trail);
    let last = paths_from(t.parents[n - 1], trail_to(t, t.parents[n - 1], trail));
    let all = paths_above(t, n, trail);
    if k < n - 1 {
        path_from_is_above(t, (n - 1) as nat, trail, k, path);
        let j = choose|j: int| 0 <= j < first.len() && first[j] == path;
        assert(all[j] == path);
    } else {
        let j = choose|j: int| 0 <= j < last.len() && last[j] == path;
        assert(all[first.len() + j] == path);
    }
}

/// The crate at the end of a route: it is recorded last, or it is that of the
/// first node.
proof fn lemma_end_of_route(route: Seq<Tree>)
    requires
        route.len() > 0,
        step_of(route[0]) is Some,
        forall|m: int| 0 <= m < route.len() ==> step_of(#[trigger] route[m]) is Some,
    ensures
        passed_on(route).len() == 0 ==> same_step(
            step_of(route.last()).unwrap(),
            step_of(route[0]).unwrap(),
        ),
        passed_on(route).len() > 0 ==> same_step(
            step_of(route.last()).unwrap(),
            passed_on(route).last(),
        ),
    decreases route.len(),
{
    if route.len() > 1 {
        let upper = route.drop_last();
        let above = route[route.len() - 2];
        assert(upper.last() == above);
        assert forall|m: int| 0 <= m < upper.len() implies step_of(#[trigger] upper[m]) is Some by {
            assert(route[m] == upper[m]);
        }
        lemma_end_of_route(upper);
        assert(step_of(route[route.len() - 1]) is Some);
    }
}

/// In a graph in which the crate of every node is known, every node of a route
/// is one of a known crate.
proof fn lemma_route_is_known(route: Seq<Tree>, t: Tree, from: int)
    requires
        is_route(route, t),
        0 <= from < route.len(),
        owners_are_known(route[from]),
    ensures
        forall|m: int| 0 <= m <= from ==> step_of(#[trigger] route[m]) is Some,
    decreases from,
{
    if from > 0 {
        assert(route[from].parents.contains(route[from - 1]));
        let k = choose|k: int|
            0 <= k < route[from].parents.len() && route[from].parents[k] == route[from - 1];
        assert(owners_are_known(route[from].parents[k]));
        lemma_route_is_known(route, t, from - 1);
    }
}

/// Nothing lies on a path only where it starts at the crate of the project
/// itself. Otherwise the crate that it starts at is the last one on it.
pub proof fn path_ends_at_start(t: Tree, i: int)
    requires
        owners_are_known(t),
        0 <= i < paths_from(t, Seq::empty()).len(),
    ensures
        ({
            let path = paths_from(t, Seq::empty())[i];
            let start = step_of(t).unwrap();
            let root = Step {
                name: path.root_name,
                version: path.root_version,
                kid: path.root_kid,
            };
            &&& path.crates.len() == 0 ==> same_step(start, root)
            &&& path.crates.len() > 0 ==> same_step(start, path.crates.last())
            &&& is_project(t) ==> path.crates.len() == 0
        }),
{
    let route = path_is_route(t, Seq::empty(), i);
    assert(route[route.len() - 1] == t);
    lemma_route_is_known(route, t, route.len() - 1);
    lemma_end_of_route(route);
    assert(passed_on(route) + Seq::<Step>::empty() =~= passed_on(route));
}

/// Whether `route` is within the crate `step` up to `k`.
pub open spec fn within_crate(route: Seq<Tree>, k: int, step: Step) -> bool {
    forall|m: int|
        0 <= m <= k ==> (step_of(#[trigger] route[m]) matches Some(s) && same_step(s, step))
}

/// The first crate that a route passes is the one behind the nodes that belong to
/// the crate of its first node.
proof fn lemma_first_passed(route: Seq<Tree>) -> (k: int)
    requires
        forall|m: int| 0 <= m < route.len() ==> step_of(#[trigger] route[m]) is Some,
        passed_on(route).len() > 0,
    ensures
        0 <= k < route.len() - 1,
        within_crate(route, k, step_of(route[0]).unwrap()),
        same_step(step_of(route[k + 1]).unwrap(), passed_on(route)[0]),
    decreases route.len(),
{
    let upper = route.drop_last();
    let above = route[route.len() - 2];
    assert(upper.last() == above);
    assert forall|m: int| 0 <= m < upper.len() implies step_of(#[trigger] upper[m]) is Some by {
        assert(route[m] == upper[m]);
    }
    if passed_on(upper).len() > 0 {
        let k = lemma_first_passed(upper);
        assert(passed_on(route)[0] == passed_on(upper)[0]);
        assert(route[k + 1] == upper[k + 1]);
        assert forall|m: int| 0 <= m <= k implies (step_of(#[trigger] route[m]) matches Some(s)
            && same_step(s, step_of(route[0]).unwrap())) by {
            assert(route[m] == upper[m]);
        }
        k
    } else {
        let k = route.len() - 2;
        assert(step_of(route[route.len() - 1]) is Some);
        assert forall|m: int| 0 <= m <= k implies (step_of(#[trigger] route[m]) matches Some(s)
            && same_step(s, step_of(route[0]).unwrap())) by {
            let part = route.take(m + 1);
            lemma_nothing_passed(upper, m);
            assert(upper.take(m + 1) =~= part);
            assert forall|j: int| 0 <= j < part.len() implies step_of(
                #[trigger] part[j],
            ) is Some by {
                assert(part[j] == route[j]);
            }
            lemma_end_of_route(part);
            assert(part.last() == route[m]);
        }
        k
    }
}

/// Where a route passes no crate, no part of it does.
proof fn lemma_nothing_passed(route: Seq<Tree>, m: int)
    requires
        0 <= m < route.len(),
        passed_on(route).len() == 0,
    ensures
        passed_on(route.take(m + 1)).len() == 0,
    decreases route.len(),
{
    if m == route.len() - 1 {
        assert(route.take(m + 1) =~= route);
    } else {
        lemma_nothing_passed(route.drop_last(), m);
        assert(route.drop_last().take(m + 1) =~= route.take(m + 1));
    }
}

/// The first crate on a path is a direct dependency of the crate of the project:
/// a node of the crate of the project directly depends on one of that crate. The
/// route up to there is the crate of the project and features of it.
pub proof fn first_crate_is_direct_dependency(t: Tree, i: int) -> (r: (Seq<Tree>, int))
    requires
        owners_are_known(t),
        0 <= i < paths_from(t, Seq::empty()).len(),
        paths_from(t, Seq::empty())[i].crates.len() > 0,
    ensures
        ({
            let (route, k) = r;
            let path = paths_from(t, Seq::empty())[i];
            let root = Step {
                name: path.root_name,
                version: path.root_version,
                kid: path.root_kid,
            };
            &&& is_route(route, t)
            &&& path == path_along(route, Seq::empty())
            &&& 0 <= k < route.len() - 1
            &&& within_crate(route, k, root)
            &&& route[k + 1].parents.contains(route[k])
            &&& step_of(route[k + 1]) matches Some(dep)
            &&& same_step(dep, path.crates[0])
        }),
{
    let route = path_is_route(t, Seq::empty(), i);
    assert(route[route.len() - 1] == t);
    lemma_route_is_known(route, t, route.len() - 1);
    assert(passed_on(route) + Seq::<Step>::empty() =~= passed_on(route));
    let k = lemma_first_passed(route);
    assert(route[k + 1].parents.contains(route[k + 1 - 1]));
    (route, k)
}

} // verus!
