//! Trees whose storage is chosen by a builder: boxes, an arena, indices.
use vstd::prelude::*;

verus! {

/// Chooses how tree nodes are stored and what a node holds.
pub trait TreeBuilder: Sized {
    type TreeData;
    type TreeKind;
    /// What leads to a node: a box, a reference, an index.
    type Handle: Clone + core::fmt::Debug + PartialEq + Eq;

    /// Stores a node and returns its handle.
    fn build(&self, node: TreeNode<Self>) -> Self::Handle;

    /// The node that a handle leads to.
    fn node(handle: &Self::Handle) -> &TreeNode<Self>;
}

/// A tree: the handle of its root.
#[derive(Debug, Clone, PartialEq, Eq)]
pub struct Tree<B: TreeBuilder>(pub B::Handle);

impl<B: TreeBuilder> Tree<B> {
    /// Stores `node` with `builder` and makes the handle that the builder
    /// gives back the root of a tree.
    pub fn new(builder: &B, node: TreeNode<B>) -> (t: Self)
        ensures
            call_ensures(B::build, (builder, node), t.0),
    {
        Tree(builder.build(node))
    }

    /// The handle of the root.
    pub fn handle(&self) -> (r: &B::Handle)
        ensures
            *r == self.0,
    {
        &self.0
    }

    /// The root node, as the builder finds it from the root's handle.
    pub fn node(&self) -> (r: &TreeNode<B>)
        ensures
            call_ensures(B::node, (&self.0,), r),
    {
        B::node(self.handle())
    }
}

/// A node: its data (such as a span) and its kind (what it is).
#[derive(Debug, Clone, PartialEq, Eq)]
pub struct TreeNode<B: TreeBuilder>(pub B::TreeData, pub B::TreeKind);

impl<B: TreeBuilder> TreeNode<B> {
    pub fn new(data: B::TreeData, kind: B::TreeKind) -> (n: Self)
        ensures
            n.0 == data,
            n.1 == kind,
    {
        TreeNode(data, kind)
    }

    /// Stores this node with `builder` as the root of a tree.
    pub fn alloc_tree(self, builder: &B) -> (t: Tree<B>)
        ensures
            call_ensures(B::build, (builder, self), t.0),
    {
        Tree::new(builder, self)
    }

    pub fn data(&self) -> (r: &B::TreeData)
        ensures
            *r == self.0,
    {
        &self.0
    }

    pub fn kind(&self) -> (r: &B::TreeKind)
        ensures
            *r == self.1,
    {
        &self.1
    }
}

/// Turns the kind of a node built by one builder into a kind for another.
pub trait Fold<In: TreeBuilder, Out: TreeBuilder> {
    fn fold(&self, input: &In, output: &Out) -> Out::TreeKind;
}

} // verus!
