//! The crates of a project and the edges between them, as plain values.

use crate::text::{decimal, order_text, push_decimal, text_eq, text_order, Order};
use vstd::prelude::*;

verus! {

/// A copy of an optional text.
pub fn clone_opt(s: &Option<String>) -> (r: Option<String>)
    ensures
        r == *s,
{
    match s {
        Some(s) => Some(s.clone()),
        None => None,
    }
}

/// The version of a crate.
#[derive(Debug)]
pub struct Version {
    pub major: u64,
    pub minor: u64,
    pub patch: u64,
    pub pre: String,
    pub build: String,
}

/// A pre-release or build part with the mark that introduces it, or nothing.
pub open spec fn marked(mark: Seq<char>, part: Seq<char>) -> Seq<char> {
    if part.len() == 0 {
        Seq::empty()
    } else {
        mark + part
    }
}

impl Version {
    /// `major.minor.patch`, then `-pre` and `+build` where they are not empty.
    pub open spec fn text(self) -> Seq<char> {
        decimal(self.major as nat) + "."@ + decimal(self.minor as nat) + "."@ + decimal(
            self.patch as nat,
        ) + marked("-"@, self.pre@) + marked("+"@, self.build@)
    }

    /// Whether every part of the two versions is the same.
    pub open spec fn same(self, other: Version) -> bool {
        &&& self.major == other.major
        &&& self.minor == other.minor
        &&& self.patch == other.patch
        &&& self.pre@ == other.pre@
        &&& self.build@ == other.build@
    }

    /// A release version.
    pub fn new(major: u64, minor: u64, patch: u64) -> (v: Version)
        ensures
            v.major == major,
            v.minor == minor,
            v.patch == patch,
            v.pre@ == Seq::<char>::empty(),
            v.build@ == Seq::<char>::empty(),
    {
        Version { major, minor, patch, pre: String::new(), build: String::new() }
    }

    /// Appends the text of the version to `out`.
    pub fn push_text(&self, out: &mut String)
        ensures
            final(out)@ == old(out)@ + self.text(),
    {
        push_decimal(out, self.major);
        out.append(".");
        push_decimal(out, self.minor);
        out.append(".");
        push_decimal(out, self.patch);
        if !self.pre.as_str().is_empty() {
            out.append("-");
            out.append(self.pre.as_str());
        }
        if !self.build.as_str().is_empty() {
            out.append("+");
            out.append(self.build.as_str());
        }
        assert(out@ =~= old(out)@ + self.text());
    }

    /// The text of the version.
    pub fn to_text(&self) -> (s: String)
        ensures
            s@ == self.text(),
    {
        let mut s = String::new();
        self.push_text(&mut s);
        assert(s@ =~= self.text());
        s
    }
}

impl Clone for Version {
    fn clone(&self) -> (v: Version)
        ensures
            v == *self,
    {
        Version {
            major: self.major,
            minor: self.minor,
            patch: self.patch,
            pre: self.pre.clone(),
            build: self.build.clone(),
        }
    }
}

impl PartialEq for Version {
    fn eq(&self, other: &Self) -> (r: bool) {
        self.major == other.major && self.minor == other.minor && self.patch == other.patch
            && self.pre == other.pre && self.build == other.build
    }
}

impl vstd::std_specs::cmp::PartialEqSpecImpl for Version {
    open spec fn obeys_eq_spec() -> bool {
        true
    }

    open spec fn eq_spec(&self, other: &Self) -> bool {
        self.same(*other)
    }
}

/// The identifier of a crate: its package id and the name, version and source
/// that the package id spells out.
#[derive(Debug)]
pub struct Kid {
    pub repr: String,
    pub name: String,
    pub version: String,
    pub source: String,
}

impl Kid {
    /// Two identifiers are the same when name, version and source are.
    pub open spec fn same(self, other: Kid) -> bool {
        &&& self.name@ == other.name@
        &&& self.version@ == other.version@
        &&& self.source@ == other.source@
    }

    /// Name first, then version, then source.
    pub open spec fn order(self, other: Kid) -> Order {
        let by_name = text_order(self.name@, other.name@);
        let by_version = text_order(self.version@, other.version@);
        if by_name != Order::Equal {
            by_name
        } else if by_version != Order::Equal {
            by_version
        } else {
            text_order(self.source@, other.source@)
        }
    }

    pub fn name(&self) -> (s: &str)
        ensures
            s@ == self.name@,
    {
        self.name.as_str()
    }

    pub fn version(&self) -> (s: &str)
        ensures
            s@ == self.version@,
    {
        self.version.as_str()
    }

    pub fn source(&self) -> (s: &str)
        ensures
            s@ == self.source@,
    {
        self.source.as_str()
    }

    /// How the two identifiers compare.
    pub fn order_of(&self, other: &Kid) -> (order: Order)
        ensures
            order == self.order(*other),
    {
        let by_name = order_text(self.name.as_str(), other.name.as_str());
        if by_name != Order::Equal {
            return by_name;
        }
        let by_version = order_text(self.version.as_str(), other.version.as_str());
        if by_version != Order::Equal {
            return by_version;
        }
        order_text(self.source.as_str(), other.source.as_str())
    }
}

impl Clone for Kid {
    fn clone(&self) -> (kid: Kid)
        ensures
            kid == *self,
    {
        Kid {
            repr: self.repr.clone(),
            name: self.name.clone(),
            version: self.version.clone(),
            source: self.source.clone(),
        }
    }
}

impl Default for Kid {
    fn default() -> (kid: Kid)
        ensures
            kid.repr@ == Seq::<char>::empty(),
            kid.name@ == Seq::<char>::empty(),
            kid.version@ == Seq::<char>::empty(),
            kid.source@ == Seq::<char>::empty(),
    {
        Kid {
            repr: String::new(),
            name: String::new(),
            version: String::new(),
            source: String::new(),
        }
    }
}

impl PartialEq for Kid {
    fn eq(&self, other: &Self) -> (r: bool) {
        self.name == other.name && self.version == other.version && self.source == other.source
    }
}

impl vstd::std_specs::cmp::PartialEqSpecImpl for Kid {
    open spec fn obeys_eq_spec() -> bool {
        true
    }

    open spec fn eq_spec(&self, other: &Self) -> bool {
        self.same(*other)
    }
}

/// A crate.
#[derive(Debug)]
pub struct Krate {
    pub name: String,
    pub version: Version,
    pub id: Kid,
    /// Where the crate comes from, unless it is local.
    pub source: Option<String>,
    pub manifest_path: String,
}

/// The kind of a dependency.
#[derive(Clone, Copy, PartialEq, Eq, Structural, Debug)]
pub enum DepKind {
    Normal,
    Build,
    Dev,
}

/// An edge between two nodes.
#[derive(Clone, Copy, PartialEq, Eq, Structural, Debug)]
pub enum DepEdge {
    Dep { kind: DepKind },
    Feature,
    DepFeature { kind: DepKind },
}

/// A node of the graph: a crate, or a feature of a crate.
#[derive(Debug)]
pub enum Node {
    Krate { krate: Krate },
    Feature { krate_index: usize, name: String },
}

/// A node, with the edge by which it was reached.
#[derive(Clone, Copy, PartialEq, Eq, Structural, Debug)]
pub struct NodePrint {
    pub node: usize,
    pub edge: Option<usize>,
}

/// The crates of a project.
///
/// For each node, `incoming` lists the sources of the edges that lead to it and
/// `dependents` the crates that directly depend on it.
#[derive(Debug)]
pub struct KrateGraph {
    pub nodes: Vec<Node>,
    pub edges: Vec<DepEdge>,
    pub incoming: Vec<Vec<NodePrint>>,
    pub dependents: Vec<Vec<NodePrint>>,
    pub workspace_members: Vec<Kid>,
    pub workspace_root: String,
}

/// Whether `node` is the crate `kid`.
pub open spec fn is_krate(node: Node, kid: Kid) -> bool {
    node matches Node::Krate { krate } && krate.id.same(kid)
}

/// Whether `node` is the feature `name` of the crate at `krate`.
pub open spec fn is_feature_of(node: Node, krate: int, name: Seq<char>) -> bool {
    node matches Node::Feature { krate_index, name: feature } && krate_index == krate && feature@
        == name
}

/// The first node from `from` on that is the crate `kid`.
pub open spec fn krate_at(nodes: Seq<Node>, kid: Kid, from: int) -> Option<int>
    decreases nodes.len() - from,
{
    if from < 0 || from >= nodes.len() {
        None
    } else if is_krate(nodes[from], kid) {
        Some(from)
    } else {
        krate_at(nodes, kid, from + 1)
    }
}

/// The node of the first of `prints` from `from` on that is the feature `name`
/// of the crate at `krate`.
pub open spec fn feature_at(
    nodes: Seq<Node>,
    prints: Seq<NodePrint>,
    krate: int,
    name: Seq<char>,
    from: int,
) -> Option<int>
    decreases prints.len() - from,
{
    if from < 0 || from >= prints.len() {
        None
    } else if is_feature_of(nodes[prints[from].node as int], krate, name) {
        Some(prints[from].node as int)
    } else {
        feature_at(nodes, prints, krate, name, from + 1)
    }
}

/// The characters of the name of a feature.
pub open spec fn feature_text(feature: Option<&str>) -> Option<Seq<char>> {
    match feature {
        Some(name) => Some(name@),
        None => None,
    }
}

/// Whether two nodes are crates with the same identifier.
pub open spec fn same_krate(a: Node, b: Node) -> bool {
    match (a, b) {
        (Node::Krate { krate: a }, Node::Krate { krate: b }) => a.id.same(b.id),
        _ => false,
    }
}

/// Whether no node is listed twice.
pub open spec fn each_once(list: Seq<NodePrint>) -> bool {
    forall|j: int, k: int|
        #![trigger list[j], list[k]]
        0 <= j < k < list.len() ==> list[j].node != list[k].node
}

impl KrateGraph {
    /// Whether a print refers to a node of the graph, over an edge of the graph.
    pub open spec fn has_print(self, np: NodePrint) -> bool {
        &&& np.node < self.nodes.len()
        &&& np.edge matches Some(e) ==> e < self.edges.len()
    }

    /// Every index in the graph is in bounds; what depends on a node is a crate, which
    /// is listed once; and a feature belongs to a crate.
    pub open spec fn wf(self) -> bool {
        &&& self.incoming.len() == self.nodes.len()
        &&& self.dependents.len() == self.nodes.len()
        &&& forall|i: int, j: int|
            #![trigger self.incoming@[i]@[j]]
            0 <= i < self.incoming.len() && 0 <= j < self.incoming@[i].len() ==> self.has_print(
                self.incoming@[i]@[j],
            )
        &&& forall|i: int, j: int|
            #![trigger self.dependents@[i]@[j]]
            0 <= i < self.dependents.len() && 0 <= j < self.dependents@[i].len()
                ==> self.has_print(self.dependents@[i]@[j])
                && self.nodes@[self.dependents@[i]@[j].node as int] is Krate
        &&& forall|i: int|
            #![trigger self.dependents@[i]]
            0 <= i < self.dependents.len() ==> each_once(self.dependents@[i]@)
        &&& forall|i: int|
            #![trigger self.nodes@[i]]
            0 <= i < self.nodes.len() ==> (self.nodes@[i] matches Node::Feature { krate_index, .. }
                ==> krate_index < self.nodes.len() && self.nodes@[krate_index as int] is Krate)
    }

    /// Whether no two crates have the same identifier.
    pub open spec fn ids_are_unique(self) -> bool {
        forall|i: int, j: int|
            #![trigger self.nodes@[i], self.nodes@[j]]
            0 <= i < j < self.nodes.len() ==> !same_krate(self.nodes@[i], self.nodes@[j])
    }

    /// The node of a crate, or of one of its features.
    pub open spec fn node_of(self, kid: Kid, feature: Option<Seq<char>>) -> Option<int> {
        match (krate_at(self.nodes@, kid, 0), feature) {
            (Some(n), Some(name)) => feature_at(self.nodes@, self.incoming@[n]@, n, name, 0),
            (n, _) => n,
        }
    }

    /// Whether `kid` is a member of the workspace.
    pub open spec fn has_member(self, kid: Kid) -> bool {
        exists|i: int|
            0 <= i < self.workspace_members.len() && (#[trigger] self.workspace_members@[i]).same(
                kid,
            )
    }

    /// The node of the crate `kid`.
    fn find_krate(&self, kid: &Kid) -> (n: Option<usize>)
        ensures
            n matches Some(i) ==> krate_at(self.nodes@, *kid, 0) == Some(i as int) && i
                < self.nodes.len() && is_krate(self.nodes@[i as int], *kid),
            n is None ==> krate_at(self.nodes@, *kid, 0) is None,
    {
        let mut i: usize = 0;
        while i < self.nodes.len()
            invariant
                i <= self.nodes.len(),
                krate_at(self.nodes@, *kid, 0) == krate_at(self.nodes@, *kid, i as int),
            decreases self.nodes.len() - i,
        {
            if let Node::Krate { krate } = &self.nodes[i] {
                if krate.id == *kid {
                    return Some(i);
                }
            }
            i += 1;
        }
        None
    }

    /// The node of the crate `kid`, or of its feature `feature`.
    pub fn get_node(&self, kid: &Kid, feature: Option<&str>) -> (n: Option<usize>)
        requires
            self.wf(),
        ensures
            n matches Some(i) ==> i < self.nodes.len(),
            self.node_of(*kid, feature_text(feature)) == (match n {
                Some(i) => Some(i as int),
                None => None,
            }),
    {
        let krate = match self.find_krate(kid) {
            Some(n) => n,
            None => return None,
        };
        let name = match feature {
            Some(name) => name,
            None => return Some(krate),
        };
        let prints = &self.incoming[krate];
        let mut i: usize = 0;
        while i < prints.len()
            invariant
                self.wf(),
                krate < self.nodes.len(),
                krate_at(self.nodes@, *kid, 0) == Some(krate as int),
                feature == Some(name),
                prints == self.incoming@[krate as int],
                i <= prints.len(),
                feature_at(self.nodes@, prints@, krate as int, name@, 0) == feature_at(
                    self.nodes@,
                    prints@,
                    krate as int,
                    name@,
                    i as int,
                ),
            decreases prints.len() - i,
        {
            let n: usize = prints[i].node;
            assert(self.has_print(self.incoming@[krate as int]@[i as int]));
            if let Node::Feature { krate_index, name: feature } = &self.nodes[n] {
                if *krate_index == krate && text_eq(feature.as_str(), name) {
                    return Some(n);
                }
            }
            i += 1;
        }
        None
    }

    /// Whether no two crates have the same identifier.
    pub fn has_unique_ids(&self) -> (r: bool)
        ensures
            r == self.ids_are_unique(),
    {
        let mut j: usize = 0;
        while j < self.nodes.len()
            invariant
                j <= self.nodes.len(),
                forall|a: int, b: int|
                    #![trigger self.nodes@[a], self.nodes@[b]]
                    0 <= a < b < j ==> !same_krate(self.nodes@[a], self.nodes@[b]),
            decreases self.nodes.len() - j,
        {
            let mut i: usize = 0;
            while i < j
                invariant
                    i <= j < self.nodes.len(),
                    forall|a: int|
                        #![trigger self.nodes@[a]]
                        0 <= a < i ==> !same_krate(self.nodes@[a], self.nodes@[j as int]),
                decreases j - i,
            {
                if let (Node::Krate { krate: a }, Node::Krate { krate: b }) = (
                    &self.nodes[i],
                    &self.nodes[j],
                ) {
                    if a.id == b.id {
                        assert(same_krate(self.nodes@[i as int], self.nodes@[j as int]));
                        return false;
                    }
                }
                i += 1;
            }
            j += 1;
        }
        true
    }

    /// The crate `kid`.
    pub fn get_krate(&self, kid: &Kid) -> (krate: Option<&Krate>)
        ensures
            krate is None <==> krate_at(self.nodes@, *kid, 0) is None,
            krate matches Some(k) ==> self.nodes@[krate_at(self.nodes@, *kid, 0).unwrap()]
                == (Node::Krate { krate: *k }),
    {
        match self.find_krate(kid) {
            Some(n) => match &self.nodes[n] {
                Node::Krate { krate } => Some(krate),
                Node::Feature { .. } => None,
            },
            None => None,
        }
    }

    /// Whether `kid` is a member of the workspace.
    pub fn is_member(&self, kid: &Kid) -> (r: bool)
        ensures
            r == self.has_member(*kid),
    {
        let mut i: usize = 0;
        while i < self.workspace_members.len()
            invariant
                i <= self.workspace_members.len(),
                forall|j: int|
                    0 <= j < i ==> !(#[trigger] self.workspace_members@[j]).same(*kid),
            decreases self.workspace_members.len() - i,
        {
            if self.workspace_members[i] == *kid {
                return true;
            }
            i += 1;
        }
        false
    }
}

/// A crate's identifier is equal in the order to exactly those it is the same as.
pub proof fn kid_order_equal_is_same(a: Kid, b: Kid)
    ensures
        a.order(b) == Order::Equal <==> a.same(b),
{
    crate::text::text_order_equal_is_same(a.name@, b.name@);
    crate::text::text_order_equal_is_same(a.version@, b.version@);
    crate::text::text_order_equal_is_same(a.source@, b.source@);
}

} // verus!
