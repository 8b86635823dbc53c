use vstd::assert_seqs_equal;
use vstd::prelude::*;

verus! {

/// A reconstructed remote object: its semantic role tag (absent when the
/// remote call for it failed) and its children in listing order.
///
/// Nodes are value trees: each node is owned by exactly one parent and the
/// root by the caller, so there are no parent back-references.
#[derive(Debug, PartialEq, Eq)]
pub struct A11yNode {
    pub role: Option<u32>,
    pub children: Vec<A11yNode>,
}

/// The mathematical image of an `A11yNode`: the same tree over `Seq`.
pub ghost struct NodeView {
    pub role: Option<u32>,
    pub children: Seq<NodeView>,
}

/// The abstract tree that a concrete node represents.
pub open spec fn tree_view(t: A11yNode) -> NodeView
    decreases t,
{
    NodeView { role: t.role, children: forest_view(t.children@) }
}

/// The abstract trees of a sequence of concrete nodes, in order.
pub open spec fn forest_view(s: Seq<A11yNode>) -> Seq<NodeView>
    decreases s,
{
    if s.len() == 0 {
        Seq::empty()
    } else {
        forest_view(s.drop_last()).push(tree_view(s.last()))
    }
}

/// Number of nodes in a tree, the root included.
pub open spec fn tree_count(t: NodeView) -> nat
    decreases t,
{
    1 + forest_count(t.children)
}

/// Total number of nodes in a sequence of trees.
pub open spec fn forest_count(s: Seq<NodeView>) -> nat
    decreases s,
{
    if s.len() == 0 {
        0
    } else {
        forest_count(s.drop_last()) + tree_count(s.last())
    }
}

/// `forest_view` maps `tree_view` over the sequence, element by element.
pub proof fn lemma_forest_view_points(s: Seq<A11yNode>)
    ensures
        forest_view(s).len() == s.len(),
        forall|i: int| 0 <= i < s.len() ==> forest_view(s)[i] == tree_view(s[i]),
    decreases s,
{
    if s.len() > 0 {
        lemma_forest_view_points(s.drop_last());
    }
}

/// A sequence of trees counts the sum of its parts: splitting off the last
/// element splits the count.
pub proof fn lemma_forest_count_push(s: Seq<NodeView>, t: NodeView)
    ensures
        forest_count(s.push(t)) == forest_count(s) + tree_count(t),
{
    assert(s.push(t).drop_last() =~= s);
    assert(s.push(t).last() == t);
}

/// Concatenation adds the counts of the two halves.
pub proof fn lemma_forest_count_add(a: Seq<NodeView>, b: Seq<NodeView>)
    ensures
        forest_count(a + b) == forest_count(a) + forest_count(b),
    decreases b,
{
    if b.len() == 0 {
        assert(a + b =~= a);
    } else {
        lemma_forest_count_add(a, b.drop_last());
        assert((a + b).drop_last() =~= a + b.drop_last());
        assert((a + b).last() == b.last());
    }
}

/// The abstract trees held by a stack of node references.
pub open spec fn ref_forest_view(s: Seq<&A11yNode>) -> Seq<NodeView> {
    Seq::new(s.len(), |i: int| tree_view(*s[i]))
}

impl A11yNode {
    /// Counts the nodes of this tree, itself included, with the same
    /// work-stack walk that discovery uses rather than recursion, so that
    /// arbitrarily deep trees cannot exhaust the call stack.
    pub fn node_count(&self) -> (n: u32)
        requires
            tree_count(tree_view(*self)) <= u32::MAX,
        ensures
            n == tree_count(tree_view(*self)),
    {
        let ghost total: nat = tree_count(tree_view(*self));
        let mut n: u32 = 0;
        let mut stack: Vec<&A11yNode> = Vec::new();
        stack.push(self);
        proof {
            assert(ref_forest_view(stack@) =~= Seq::empty().push(tree_view(*self)));
            lemma_forest_count_push(Seq::empty(), tree_view(*self));
        }
        while stack.len() > 0
            invariant
                n + forest_count(ref_forest_view(stack@)) == total,
                total <= u32::MAX,
            decreases forest_count(ref_forest_view(stack@)),
        {
            let ghost pre = ref_forest_view(stack@);
            let node = stack.pop().unwrap();
            proof {
                assert(pre =~= ref_forest_view(stack@).push(tree_view(*node)));
                lemma_forest_count_push(ref_forest_view(stack@), tree_view(*node));
            }
            n = n + 1;
            let ghost base = ref_forest_view(stack@);
            proof {
                lemma_forest_view_points(node.children@);
                assert(base + forest_view(node.children@).subrange(0, 0) =~= base);
            }
            let mut i: usize = 0;
            while i < node.children.len()
                invariant
                    0 <= i <= node.children.len(),
                    forest_view(node.children@).len() == node.children@.len(),
                    ref_forest_view(stack@) == base + forest_view(node.children@).subrange(
                        0,
                        i as int,
                    ),
                decreases node.children.len() - i,
            {
                let ghost before = stack@;
                stack.push(&node.children[i]);
                proof {
                    lemma_forest_view_points(node.children@);
                    let cs = forest_view(node.children@);
                    assert(cs.len() == node.children@.len());
                    assert(ref_forest_view(before).len() == before.len());
                    assert(ref_forest_view(before) == base + cs.subrange(0, i as int));
                    assert(before.len() == base.len() + i);
                    assert(stack@ == before.push(stack@[before.len() as int]));
                    assert_seqs_equal!(ref_forest_view(stack@) == base + cs.subrange(0, i + 1), k => {
                        assert(ref_forest_view(stack@)[k] == tree_view(*stack@[k]));
                        if k < before.len() {
                            assert(stack@[k] == before[k]);
                            assert(ref_forest_view(before)[k] == tree_view(*before[k]));
                        } else {
                            assert(*stack@[k] == node.children@[i as int]);
                            assert(cs[i as int] == tree_view(node.children@[i as int]));
                        }
                    });
                }
                i = i + 1;
            }
            proof {
                lemma_forest_view_points(node.children@);
                assert(forest_view(node.children@).subrange(
                    0,
                    node.children@.len() as int,
                ) =~= forest_view(node.children@));
                lemma_forest_count_add(base, forest_view(node.children@));
            }
        }
        proof {
            assert(ref_forest_view(stack@) =~= Seq::empty());
        }
        n
    }
}

/// The node count is a function of the abstract tree alone: two snapshots
/// whose trees agree report the same count, whatever transport produced them.
pub proof fn lemma_count_depends_on_view_only(a: A11yNode, b: A11yNode)
    requires
        tree_view(a) == tree_view(b),
    ensures
        tree_count(tree_view(a)) == tree_count(tree_view(b)),
{
}

} // verus!
