//! Short lists that live on the stack, over the `smallvec` crate.

use crate::krate_graph::{Kid, NodePrint};
use vstd::prelude::*;

verus! {

/// Nodes to print, of which there are mostly few.
#[verifier::external_body]
pub struct NodePrints {
    inner: smallvec::SmallVec<[NodePrint; 10]>,
}

/// The items of the list, in order.
pub uninterp spec fn node_prints(list: NodePrints) -> Seq<NodePrint>;

impl NodePrints {
    /// Calls `smallvec::SmallVec::new`: a list without items.
    #[verifier::external_body]
    pub(crate) fn new() -> (list: NodePrints)
        ensures
            node_prints(list) == Seq::<NodePrint>::empty(),
    {
        NodePrints { inner: smallvec::SmallVec::new() }
    }

    /// Calls `smallvec::SmallVec::len`: the number of items.
    #[verifier::external_body]
    pub(crate) fn len(&self) -> (n: usize)
        ensures
            n == node_prints(*self).len(),
    {
        self.inner.len()
    }

    /// Indexes the slice of the `smallvec::SmallVec`: the item at `i`.
    #[verifier::external_body]
    pub(crate) fn at(&self, i: usize) -> (np: NodePrint)
        requires
            i < node_prints(*self).len(),
        ensures
            np == node_prints(*self)[i as int],
    {
        self.inner[i]
    }

    /// Calls `smallvec::SmallVec::insert`: puts the item at `i` and moves those
    /// from there on by one.
    #[verifier::external_body]
    pub(crate) fn insert(&mut self, i: usize, np: NodePrint)
        requires
            i <= node_prints(*old(self)).len(),
        ensures
            node_prints(*final(self)) == node_prints(*old(self)).insert(i as int, np),
    {
        self.inner.insert(i, np)
    }
}

/// For each level above a line of a tree, whether more lines of that level follow.
#[verifier::external_body]
pub struct Levels {
    inner: smallvec::SmallVec<[bool; 10]>,
}

/// The levels, from the outermost to the innermost.
pub uninterp spec fn levels_of(list: Levels) -> Seq<bool>;

impl Levels {
    /// Calls `smallvec::SmallVec::new`: no level.
    #[verifier::external_body]
    pub(crate) fn new() -> (list: Levels)
        ensures
            levels_of(list) == Seq::<bool>::empty(),
    {
        Levels { inner: smallvec::SmallVec::new() }
    }

    /// Calls `smallvec::SmallVec::len`: the number of levels.
    #[verifier::external_body]
    pub(crate) fn len(&self) -> (n: usize)
        ensures
            n == levels_of(*self).len(),
    {
        self.inner.len()
    }

    /// Indexes the slice of the `smallvec::SmallVec`: the level at `i`.
    #[verifier::external_body]
    pub(crate) fn at(&self, i: usize) -> (continues: bool)
        requires
            i < levels_of(*self).len(),
        ensures
            continues == levels_of(*self)[i as int],
    {
        self.inner[i]
    }

    /// Calls `smallvec::SmallVec::push`: adds a level at the end.
    #[verifier::external_body]
    pub(crate) fn push(&mut self, continues: bool)
        ensures
            levels_of(*final(self)) == levels_of(*old(self)).push(continues),
    {
        self.inner.push(continues)
    }

    /// Calls `smallvec::SmallVec::pop`: takes the last level off, if there is one.
    #[verifier::external_body]
    pub(crate) fn pop(&mut self) -> (last: Option<bool>)
        ensures
            levels_of(*old(self)).len() == 0 ==> last is None && levels_of(*final(self))
                == levels_of(*old(self)),
            levels_of(*old(self)).len() > 0 ==> last == Some(levels_of(*old(self)).last())
                && levels_of(*final(self)) == levels_of(*old(self)).drop_last(),
    {
        self.inner.pop()
    }
}

/// The crates that a diagnostic is about, mostly one or two.
#[verifier::external_body]
#[derive(Debug)]
pub struct Kids {
    inner: smallvec::SmallVec<[Kid; 2]>,
}

/// The crates of the list, in order.
pub uninterp spec fn kids_of(list: Kids) -> Seq<Kid>;

impl Kids {
    /// Calls `smallvec::SmallVec::new`: no crate.
    #[verifier::external_body]
    pub(crate) fn new() -> (list: Kids)
        ensures
            kids_of(list) == Seq::<Kid>::empty(),
    {
        Kids { inner: smallvec::SmallVec::new() }
    }

    /// Calls `smallvec::SmallVec::len`: the number of crates.
    #[verifier::external_body]
    pub(crate) fn len(&self) -> (n: usize)
        ensures
            n == kids_of(*self).len(),
    {
        self.inner.len()
    }

    /// Indexes the slice of the `smallvec::SmallVec`: the crate at `i`.
    #[verifier::external_body]
    pub(crate) fn at(&self, i: usize) -> (kid: &Kid)
        requires
            i < kids_of(*self).len(),
        ensures
            *kid == kids_of(*self)[i as int],
    {
        &self.inner[i]
    }

    /// Calls `smallvec::SmallVec::push`: adds a crate at the end.
    #[verifier::external_body]
    pub(crate) fn push(&mut self, kid: Kid)
        ensures
            kids_of(*final(self)) == kids_of(*old(self)).push(kid),
    {
        self.inner.push(kid)
    }

    /// The crates of the list.
    pub fn to_vec(&self) -> (kids: Vec<Kid>)
        ensures
            kids@ == kids_of(*self),
    {
        let mut kids: Vec<Kid> = Vec::new();
        let mut i: usize = 0;
        while i < self.len()
            invariant
                i <= kids_of(*self).len(),
                kids@ == kids_of(*self).take(i as int),
            decreases kids_of(*self).len() - i,
        {
            kids.push(self.at(i).clone());
            i += 1;
            assert(kids@ =~= kids_of(*self).take(i as int));
        }
        assert(kids@ =~= kids_of(*self));
        kids
    }
}

impl Clone for Kids {
    fn clone(&self) -> (list: Kids)
        ensures
            kids_of(list) == kids_of(*self),
    {
        let mut list = Kids::new();
        let mut i: usize = 0;
        while i < self.len()
            invariant
                i <= kids_of(*self).len(),
                kids_of(list) == kids_of(*self).take(i as int),
            decreases kids_of(*self).len() - i,
        {
            list.push(self.at(i).clone());
            i += 1;
            assert(kids_of(list) =~= kids_of(*self).take(i as int));
        }
        assert(kids_of(list) =~= kids_of(*self));
        list
    }
}

} // verus!
