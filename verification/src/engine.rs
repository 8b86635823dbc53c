use vstd::assert_seqs_equal;
use vstd::prelude::*;

use crate::tree::{forest_view, lemma_forest_view_points, tree_view, A11yNode, NodeView};
use crate::tree::{forest_count, tree_count};

verus! {

/// Why a snapshot traversal stopped or could not produce a tree.
#[derive(Debug, Clone, Copy, PartialEq, Eq, Structural)]
pub enum SnapshotError {
    /// An identity (endpoint, path) was met twice in one traversal: the
    /// remote graph is not a tree, and node-count comparisons downstream
    /// would be meaningless.
    CycleOrDuplicate,
    /// A node reported more children than the fan-out limit allows.
    FanOutExceeded,
    /// The fold-back pass had no record to build a root from.
    EmptySnapshot,
}

/// The composite key that must stay unique across all nodes visited in one
/// traversal. Used only during discovery and discarded afterwards.
#[derive(Debug, Clone, PartialEq, Eq)]
pub struct NodeIdentity {
    pub connection_endpoint: String,
    pub object_path: String,
}

/// A finished record of the forward pass: a node's role and how many
/// children it reported. Children are not attached here; the fold-back pass
/// re-attaches them using only these counts.
#[derive(Debug, Clone, Copy, PartialEq, Eq)]
pub struct PartialNode {
    pub role: Option<u32>,
    pub child_count: usize,
}

/// Ghost image of a finished record, with the count as an unbounded natural.
pub ghost struct RecordView {
    pub role: Option<u32>,
    pub child_count: nat,
}

pub open spec fn record_view(p: PartialNode) -> RecordView {
    RecordView { role: p.role, child_count: p.child_count as nat }
}

pub open spec fn records_view(s: Seq<PartialNode>) -> Seq<RecordView> {
    s.map_values(|p: PartialNode| record_view(p))
}

pub open spec fn id_key(id: NodeIdentity) -> (Seq<char>, Seq<char>) {
    (id.connection_endpoint@, id.object_path@)
}

pub open spec fn id_keys(s: Seq<NodeIdentity>) -> Seq<(Seq<char>, Seq<char>)> {
    s.map_values(|id: NodeIdentity| id_key(id))
}

/// A node never reports more children than this; a traversal that meets a
/// larger listing aborts rather than queue unbounded work.
pub const FAN_OUT_LIMIT: usize = 65536;

/// The record an error-free forward pass appends for a finished node.
pub open spec fn record_of(t: NodeView) -> RecordView {
    RecordView { role: t.role, child_count: t.children.len() }
}

/// The flat finished-list that an error-free forward pass leaves behind for
/// a tree: the node's own record first, then the flattening of each child
/// subtree, last-listed child first — the order in which a LIFO work stack
/// finishes them.
pub open spec fn flatten(t: NodeView) -> Seq<RecordView>
    decreases t,
{
    seq![record_of(t)] + flatten_forest(t.children)
}

/// Flattening of a sequence of sibling subtrees, last sibling first.
pub open spec fn flatten_forest(s: Seq<NodeView>) -> Seq<RecordView>
    decreases s,
{
    if s.len() == 0 {
        Seq::empty()
    } else {
        flatten(s.last()) + flatten_forest(s.drop_last())
    }
}

/// The fold-back pass over a finished list, walking the records from the end
/// backward and maintaining a stack of fully built trees: each record takes
/// its recorded number of children from the top of the stack (fewer if the
/// stack runs short) and pushes the completed node.
pub open spec fn fold_records(recs: Seq<RecordView>, stack: Seq<NodeView>) -> Seq<NodeView>
    decreases recs.len(),
{
    if recs.len() == 0 {
        stack
    } else {
        let r = recs.last();
        let take = if r.child_count <= stack.len() {
            r.child_count
        } else {
            stack.len()
        };
        let node = NodeView {
            role: r.role,
            children: stack.subrange(stack.len() - take, stack.len() as int),
        };
        fold_records(recs.drop_last(), stack.subrange(0, stack.len() - take).push(node))
    }
}

/// A fold over a non-empty record list, or from a non-empty stack, always
/// leaves at least one tree: every step consumes at most what is there and
/// pushes one node back.
pub proof fn lemma_fold_records_nonempty(recs: Seq<RecordView>, stack: Seq<NodeView>)
    requires
        recs.len() > 0 || stack.len() > 0,
    ensures
        fold_records(recs, stack).len() > 0,
    decreases recs.len(),
{
    if recs.len() > 0 {
        let r = recs.last();
        let take = if r.child_count <= stack.len() {
            r.child_count
        } else {
            stack.len()
        };
        let node = NodeView {
            role: r.role,
            children: stack.subrange(stack.len() - take, stack.len() as int),
        };
        lemma_fold_records_nonempty(
            recs.drop_last(),
            stack.subrange(0, stack.len() - take).push(node),
        );
    }
}

/// Folding a concatenated record list folds the right half first: the fold
/// walks the list from its end.
pub proof fn lemma_fold_records_append(
    a: Seq<RecordView>,
    b: Seq<RecordView>,
    stack: Seq<NodeView>,
)
    ensures
        fold_records(a + b, stack) == fold_records(a, fold_records(b, stack)),
    decreases b.len(),
{
    if b.len() == 0 {
        assert(a + b =~= a);
    } else {
        let r = b.last();
        let take = if r.child_count <= stack.len() {
            r.child_count
        } else {
            stack.len()
        };
        let node = NodeView {
            role: r.role,
            children: stack.subrange(stack.len() - take, stack.len() as int),
        };
        let stack2 = stack.subrange(0, stack.len() - take).push(node);
        assert((a + b).last() == b.last());
        assert((a + b).drop_last() =~= a + b.drop_last());
        lemma_fold_records_append(a, b.drop_last(), stack2);
    }
}

/// Fold-back reconstruction is the exact inverse of flattening: folding the
/// flat finished-list of any tree onto a stack pushes exactly that tree back,
/// preserving every node's role and its children's order.
pub proof fn lemma_fold_back_inverts_flatten(t: NodeView, stack: Seq<NodeView>)
    ensures
        fold_records(flatten(t), stack) == stack.push(t),
    decreases t,
{
    lemma_fold_records_append(seq![record_of(t)], flatten_forest(t.children), stack);
    lemma_fold_forest_inverts_flatten(t.children, stack);
    let folded = stack + t.children;
    let c = t.children.len() as int;
    let r0 = record_of(t);
    assert(seq![r0].last() == r0);
    assert(r0.child_count <= folded.len());
    let node = NodeView {
        role: r0.role,
        children: folded.subrange(folded.len() - c, folded.len() as int),
    };
    assert(node.children =~= t.children);
    assert(node == t);
    assert(folded.subrange(0, folded.len() - c) =~= stack);
    assert(seq![r0].drop_last() =~= Seq::<RecordView>::empty());
    assert(fold_records(seq![r0], folded) == fold_records(
        seq![r0].drop_last(),
        folded.subrange(0, folded.len() - c).push(node),
    ));
    assert(fold_records(seq![r0], folded) == stack.push(t));
}

/// Folding the flattening of a sequence of sibling subtrees pushes exactly
/// those siblings, in their original order.
pub proof fn lemma_fold_forest_inverts_flatten(s: Seq<NodeView>, stack: Seq<NodeView>)
    ensures
        fold_records(flatten_forest(s), stack) == stack + s,
    decreases s,
{
    if s.len() == 0 {
        assert(stack + s =~= stack);
    } else {
        lemma_fold_records_append(flatten(s.last()), flatten_forest(s.drop_last()), stack);
        lemma_fold_forest_inverts_flatten(s.drop_last(), stack);
        lemma_fold_back_inverts_flatten(s.last(), stack + s.drop_last());
        assert((stack + s.drop_last()).push(s.last()) =~= stack + s);
    }
}

/// An error-free traversal appends exactly one finished record per node, so
/// the finished list of a tree is as long as the tree's node count.
pub proof fn lemma_flatten_len_is_count(t: NodeView)
    ensures
        flatten(t).len() == tree_count(t),
    decreases t,
{
    lemma_flatten_forest_len(t.children);
}

/// Forest version of `lemma_flatten_len_is_count`.
pub proof fn lemma_flatten_forest_len(s: Seq<NodeView>)
    ensures
        flatten_forest(s).len() == forest_count(s),
    decreases s,
{
    if s.len() > 0 {
        lemma_flatten_len_is_count(s.last());
        lemma_flatten_forest_len(s.drop_last());
    }
}

/// For any tree, an error-free traversal — one finished record per node, in
/// flattening order — folds back to exactly that tree, and the number of
/// records it wrote equals the tree's node count: the snapshot of an N-node
/// tree reports `node_count` N.
pub proof fn lemma_error_free_snapshot_count(t: NodeView)
    ensures
        fold_records(flatten(t), Seq::empty()) == seq![t],
        flatten(t).len() == tree_count(t),
{
    lemma_fold_back_inverts_flatten(t, Seq::empty());
    assert(Seq::<NodeView>::empty().push(t) =~= seq![t]);
    lemma_flatten_len_is_count(t);
}

/// The bookkeeping of one traversal: the identities visited so far, the flat
/// list of finished records, and how many per-node discovery failures were
/// absorbed. The RPC round trips themselves happen outside; each finished
/// node is reported here through exactly one `record_*` call.
pub struct Discovery {
    seen: Vec<NodeIdentity>,
    finished: Vec<PartialNode>,
    failed: usize,
}

impl Discovery {
    /// Identity keys of the nodes visited so far, in visiting order.
    pub closed spec fn seen_keys(self) -> Seq<(Seq<char>, Seq<char>)> {
        id_keys(self.seen@)
    }

    /// The finished records appended so far, in finishing order.
    pub closed spec fn records(self) -> Seq<RecordView> {
        records_view(self.finished@)
    }

    /// How many per-node discovery failures were absorbed so far.
    pub closed spec fn failures(self) -> nat {
        self.failed as nat
    }

    pub closed spec fn wf(self) -> bool {
        self.failed <= self.finished@.len()
    }

    /// Whether an identity was already visited in this traversal.
    pub open spec fn has_seen(self, key: (Seq<char>, Seq<char>)) -> bool {
        self.seen_keys().contains(key)
    }

    pub fn new() -> (d: Discovery)
        ensures
            d.wf(),
            d.seen_keys() == Seq::<(Seq<char>, Seq<char>)>::empty(),
            d.records() == Seq::<RecordView>::empty(),
            d.failures() == 0,
    {
        let d = Discovery { seen: Vec::new(), finished: Vec::new(), failed: 0 };
        proof {
            assert(d.seen_keys() =~= Seq::<(Seq<char>, Seq<char>)>::empty());
            assert(d.records() =~= Seq::<RecordView>::empty());
        }
        d
    }

    /// Registers a popped node's identity. A repeat identity means the remote
    /// graph is not a tree: the traversal aborts with `CycleOrDuplicate`, a
    /// hard stop that changes nothing beyond what was already discovered.
    pub fn visit(&mut self, id: NodeIdentity) -> (r: Result<(), SnapshotError>)
        requires
            old(self).wf(),
        ensures
            final(self).wf(),
            match r {
                Ok(()) => {
                    &&& !old(self).has_seen(id_key(id))
                    &&& final(self).seen_keys() == old(self).seen_keys().push(id_key(id))
                    &&& final(self).records() == old(self).records()
                    &&& final(self).failures() == old(self).failures()
                },
                Err(e) => {
                    &&& e == SnapshotError::CycleOrDuplicate
                    &&& old(self).has_seen(id_key(id))
                    &&& *final(self) == *old(self)
                },
            },
    {
        let ghost orig = *self;
        let mut i: usize = 0;
        while i < self.seen.len()
            invariant
                0 <= i <= self.seen.len(),
                *self == orig,
                orig.wf(),
                forall|j: int| 0 <= j < i ==> id_key(self.seen@[j]) != id_key(id),
            decreases self.seen.len() - i,
        {
            if self.seen[i].connection_endpoint == id.connection_endpoint && self.seen[i].object_path
                == id.object_path {
                proof {
                    assert(id_key(self.seen@[i as int]) == id_key(id));
                    assert(self.seen_keys()[i as int] == id_key(id));
                    assert(self.has_seen(id_key(id)));
                }
                return Err(SnapshotError::CycleOrDuplicate);
            }
            i = i + 1;
        }
        proof {
            assert(!self.has_seen(id_key(id))) by {
                if self.seen_keys().contains(id_key(id)) {
                    let j = choose|j: int|
                        0 <= j < self.seen_keys().len() && self.seen_keys()[j] == id_key(id);
                    assert(id_key(self.seen@[j]) == id_key(id));
                }
            }
        }
        let ghost pre = *self;
        self.seen.push(id);
        proof {
            assert(self.seen_keys() =~= pre.seen_keys().push(id_key(id)));
        }
        Ok(())
    }

    /// Guard on a node's reported child count, applied before any of its
    /// children are followed: a count beyond `FAN_OUT_LIMIT` aborts the
    /// snapshot with `FanOutExceeded`.
    pub fn check_fan_out(child_count: usize) -> (r: Result<(), SnapshotError>)
        ensures
            child_count <= FAN_OUT_LIMIT ==> r == Ok::<(), SnapshotError>(()),
            child_count > FAN_OUT_LIMIT ==> r == Err::<(), SnapshotError>(
                SnapshotError::FanOutExceeded,
            ),
    {
        if child_count > FAN_OUT_LIMIT {
            Err(SnapshotError::FanOutExceeded)
        } else {
            Ok(())
        }
    }

    /// Appends the finished record of a node that listed no children: a leaf
    /// of the output, never revisited.
    pub fn record_leaf(&mut self, role: Option<u32>)
        requires
            old(self).wf(),
        ensures
            final(self).wf(),
            final(self).records() == old(self).records().push(
                RecordView { role, child_count: 0 },
            ),
            final(self).seen_keys() == old(self).seen_keys(),
            final(self).failures() == old(self).failures(),
    {
        let ghost pre = *self;
        self.finished.push(PartialNode { role, child_count: 0 });
        proof {
            assert(self.records() =~= pre.records().push(RecordView { role, child_count: 0 }));
        }
    }

    /// Appends the finished record of a node whose children could not be
    /// discovered — its child listing failed, or one call of its
    /// child-resolution batch failed, which fails the whole batch. The node
    /// is kept as a childless entry, the rest of the tree survives, and the
    /// absorbed failure is surfaced in `failures`.
    pub fn record_unresolved(&mut self, role: Option<u32>)
        requires
            old(self).wf(),
        ensures
            final(self).wf(),
            final(self).records() == old(self).records().push(
                RecordView { role, child_count: 0 },
            ),
            final(self).seen_keys() == old(self).seen_keys(),
            final(self).failures() == old(self).failures() + 1,
    {
        let ghost pre = *self;
        self.finished.push(PartialNode { role, child_count: 0 });
        // The record just pushed keeps the failure counter strictly below
        // the record count, which itself fits in usize.
        let _records: usize = self.finished.len();
        self.failed = self.failed + 1;
        proof {
            assert(self.records() =~= pre.records().push(RecordView { role, child_count: 0 }));
        }
    }

    /// Appends the finished record of a node whose `child_count` children
    /// were all resolved and pushed onto the work stack. A count beyond the
    /// fan-out limit is refused and changes nothing.
    pub fn record_branch(&mut self, role: Option<u32>, child_count: usize) -> (r: Result<
        (),
        SnapshotError,
    >)
        requires
            old(self).wf(),
        ensures
            final(self).wf(),
            match r {
                Ok(()) => {
                    &&& child_count <= FAN_OUT_LIMIT
                    &&& final(self).records() == old(self).records().push(
                        RecordView { role, child_count: child_count as nat },
                    )
                    &&& final(self).seen_keys() == old(self).seen_keys()
                    &&& final(self).failures() == old(self).failures()
                },
                Err(e) => {
                    &&& e == SnapshotError::FanOutExceeded
                    &&& child_count > FAN_OUT_LIMIT
                    &&& *final(self) == *old(self)
                },
            },
    {
        if child_count > FAN_OUT_LIMIT {
            return Err(SnapshotError::FanOutExceeded);
        }
        let ghost pre = *self;
        self.finished.push(PartialNode { role, child_count });
        proof {
            assert(self.records() =~= pre.records().push(
                RecordView { role, child_count: child_count as nat },
            ));
        }
        Ok(())
    }

    /// How many finished records the traversal holds so far.
    pub fn record_count(&self) -> (n: usize)
        ensures
            n == self.records().len(),
    {
        self.finished.len()
    }

    /// How many per-node discovery failures were absorbed so far.
    pub fn failure_count(&self) -> (n: usize)
        ensures
            n == self.failures(),
    {
        self.failed
    }

    /// The fold-back pass: rebuilds the tree from the finished list, walking
    /// it from the end backward with a stack of fully built subtrees. The one
    /// tree left on the stack is the root; an empty finished list is the
    /// `EmptySnapshot` error.
    pub fn finish(self) -> (r: Result<A11yNode, SnapshotError>)
        ensures
            match r {
                Ok(root) => {
                    &&& self.records().len() > 0
                    &&& fold_records(self.records(), Seq::empty()).len() > 0
                    &&& tree_view(root) == fold_records(self.records(), Seq::empty()).last()
                },
                Err(e) => {
                    &&& e == SnapshotError::EmptySnapshot
                    &&& self.records().len() == 0
                },
            },
    {
        let Discovery { seen: _, finished: mut nodes, failed: _ } = self;
        let ghost all: Seq<RecordView> = records_view(nodes@);
        let mut fold_stack: Vec<A11yNode> = Vec::new();
        proof {
            assert(forest_view(fold_stack@) =~= Seq::<NodeView>::empty());
        }
        while nodes.len() > 0
            invariant
                fold_records(records_view(nodes@), forest_view(fold_stack@)) == fold_records(
                    all,
                    Seq::empty(),
                ),
            decreases nodes@.len(),
        {
            let ghost pre_recs = records_view(nodes@);
            let ghost pre_stack = forest_view(fold_stack@);
            proof {
                lemma_forest_view_points(fold_stack@);
            }
            let rec = nodes.pop().unwrap();
            let len = fold_stack.len();
            let take = if rec.child_count <= len {
                rec.child_count
            } else {
                len
            };
            let ghost pre_vec = fold_stack@;
            let children = fold_stack.split_off(len - take);
            let node = A11yNode { role: rec.role, children };
            proof {
                lemma_forest_view_points(pre_vec);
                lemma_forest_view_points(node.children@);
                lemma_forest_view_points(fold_stack@);
                assert(records_view(nodes@) =~= pre_recs.drop_last());
                assert(pre_recs.last() == record_view(rec));
                assert(forest_view(node.children@) =~= pre_stack.subrange(
                    pre_stack.len() - take,
                    pre_stack.len() as int,
                ));
                assert(forest_view(fold_stack@) =~= pre_stack.subrange(
                    0,
                    pre_stack.len() - take,
                ));
            }
            let ghost cut_vec = fold_stack@;
            fold_stack.push(node);
            proof {
                lemma_forest_view_points(fold_stack@);
                lemma_forest_view_points(cut_vec);
                assert(forest_view(fold_stack@) =~= forest_view(cut_vec).push(tree_view(node)));
                let r = pre_recs.last();
                let spec_take = if r.child_count <= pre_stack.len() {
                    r.child_count
                } else {
                    pre_stack.len()
                };
                assert(spec_take == take);
                assert(tree_view(node) == NodeView {
                    role: r.role,
                    children: pre_stack.subrange(
                        pre_stack.len() - spec_take,
                        pre_stack.len() as int,
                    ),
                });
                assert(fold_records(pre_recs, pre_stack) == fold_records(
                    records_view(nodes@),
                    forest_view(fold_stack@),
                ));
            }
        }
        proof {
            assert(records_view(nodes@) =~= Seq::<RecordView>::empty());
            assert(forest_view(fold_stack@) == fold_records(all, Seq::empty()));
            lemma_forest_view_points(fold_stack@);
        }
        match fold_stack.pop() {
            Some(root) => {
                proof {
                    assert(fold_records(all, Seq::empty()).len() > 0);
                    if all.len() == 0 {
                        assert(fold_records(all, Seq::empty()) =~= Seq::<NodeView>::empty());
                    }
                }
                Ok(root)
            },
            None => {
                proof {
                    if all.len() > 0 {
                        lemma_fold_records_nonempty(all, Seq::empty());
                    }
                }
                Err(SnapshotError::EmptySnapshot)
            },
        }
    }
}

} // verus!
