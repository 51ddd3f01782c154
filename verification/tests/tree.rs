use bumpalo::Bump;
use melbi::tree::builder::{Fold, Tree, TreeBuilder, TreeNode};

#[derive(Debug, Clone, Copy, PartialEq, Eq)]
pub struct Span(pub usize, pub usize);

#[derive(Debug, Clone, PartialEq, Eq)]
pub enum Expr<B: TreeBuilder> {
    Lit(i32),
    Add(Tree<B>, Tree<B>),
}

#[derive(Debug, Clone)]
pub struct ArenaBuilder<'arena> {
    arena: &'arena Bump,
}

impl PartialEq for ArenaBuilder<'_> {
    fn eq(&self, other: &Self) -> bool {
        std::ptr::eq(self.arena, other.arena)
    }
}

impl Eq for ArenaBuilder<'_> {}

impl<'arena> ArenaBuilder<'arena> {
    pub fn new(arena: &'arena Bump) -> Self {
        Self { arena }
    }
}

impl<'arena> TreeBuilder for ArenaBuilder<'arena> {
    type TreeData = Span;
    type TreeKind = Expr<Self>;
    type Handle = &'arena TreeNode<Self>;

    fn build(&self, node: TreeNode<Self>) -> Self::Handle {
        self.arena.alloc(node)
    }

    fn node(handle: &Self::Handle) -> &TreeNode<Self> {
        handle
    }
}

fn fold_tree<In, Out>(input: &In, output: &Out, tree: &Tree<In>) -> Tree<Out>
where
    In: TreeBuilder<TreeData = Span>,
    Out: TreeBuilder<TreeData = Span, TreeKind = Expr<Out>>,
    In::TreeKind: Fold<In, Out>,
{
    let node = tree.node();
    TreeNode(*node.data(), node.kind().fold(input, output)).alloc_tree(output)
}

impl<'input, 'output> Fold<ArenaBuilder<'input>, ArenaBuilder<'output>>
    for Expr<ArenaBuilder<'input>>
{
    fn fold(
        &self,
        input: &ArenaBuilder<'input>,
        output: &ArenaBuilder<'output>,
    ) -> Expr<ArenaBuilder<'output>> {
        match self {
            Expr::Lit(x) => Expr::Lit(*x),
            Expr::Add(l, r) => {
                let new_l = fold_tree(input, output, l);
                let new_r = fold_tree(input, output, r);
                Expr::Add(new_l, new_r)
            }
        }
    }
}

#[test]
fn test_arena_builder() {
    let old_bump = Bump::new();
    let old_arena = ArenaBuilder::new(&old_bump);
    let new_bump = Bump::new();
    let new_arena = ArenaBuilder::new(&new_bump);

    let l1 = TreeNode(Span(0, 1), Expr::Lit(10)).alloc_tree(&old_arena);
    let l2 = TreeNode(Span(2, 3), Expr::Lit(20)).alloc_tree(&old_arena);
    let root = TreeNode(Span(0, 3), Expr::Add(l1, l2)).alloc_tree(&old_arena);

    let node = root.node();
    let new_kind = node.kind().fold(&old_arena, &new_arena);
    let new_root = TreeNode(*node.data(), new_kind).alloc_tree(&new_arena);

    let old_node = root.node();
    let new_node = new_root.node();

    assert_eq!(*old_node.data(), *new_node.data());
}

#[test]
fn arena_fold_keeps_the_whole_tree() {
    let old_bump = Bump::new();
    let old_arena = ArenaBuilder::new(&old_bump);
    let new_bump = Bump::new();
    let new_arena = ArenaBuilder::new(&new_bump);

    let l1 = TreeNode::new(Span(0, 1), Expr::Lit(10)).alloc_tree(&old_arena);
    let l2 = TreeNode::new(Span(2, 3), Expr::Lit(20)).alloc_tree(&old_arena);
    let root = TreeNode::new(Span(0, 3), Expr::Add(l1, l2)).alloc_tree(&old_arena);
    let copy = fold_tree(&old_arena, &new_arena, &root);

    assert_eq!(*copy.node().data(), Span(0, 3));
    match copy.node().kind() {
        Expr::Add(l, r) => {
            assert_eq!(*l.node().data(), Span(0, 1));
            assert_eq!(*l.node().kind(), Expr::Lit(10));
            assert_eq!(*r.node().data(), Span(2, 3));
            assert_eq!(*r.node().kind(), Expr::Lit(20));
        }
        Expr::Lit(_) => panic!("the root should stay a sum"),
    }
    assert!(std::ptr::eq(*root.handle(), root.0));
}
