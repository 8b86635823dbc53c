use a11y_snapshot::engine::{Discovery, SnapshotError, FAN_OUT_LIMIT};
use a11y_snapshot::engine::NodeIdentity;
use a11y_snapshot::tree::A11yNode;

fn ident(endpoint: &str, path: &str) -> NodeIdentity {
    NodeIdentity { connection_endpoint: endpoint.to_string(), object_path: path.to_string() }
}

fn leaf(role: u32) -> A11yNode {
    A11yNode { role: Some(role), children: Vec::new() }
}

/// A flat tree: root with 3 leaf children, each with an empty child list.
#[test]
fn flat_tree_counts_four() {
    let mut d = Discovery::new();
    d.visit(ident(":1.7", "/org/a11y/atspi/accessible/root")).unwrap();
    assert_eq!(Discovery::check_fan_out(3), Ok(()));
    d.record_branch(Some(10), 3).unwrap();
    // The LIFO work stack pops the last-listed child first, so the records
    // of the three leaves arrive in reverse listing order.
    for k in [3u32, 2, 1] {
        let path = format!("/org/a11y/atspi/accessible/{k}");
        d.visit(ident(":1.7", &path)).unwrap();
        d.record_leaf(Some(k));
    }
    assert_eq!(d.record_count(), 4);
    assert_eq!(d.failure_count(), 0);
    let tree = d.finish().unwrap();
    assert_eq!(tree.node_count(), 4);
    assert_eq!(tree.role, Some(10));
    assert_eq!(tree.children.len(), 3);
    for c in &tree.children {
        assert!(c.children.is_empty());
    }
    // Children come back in listing order despite the reversed discovery.
    assert_eq!(tree.children[0].role, Some(1));
    assert_eq!(tree.children[1].role, Some(2));
    assert_eq!(tree.children[2].role, Some(3));
}

/// Fold-back rebuilds a hand-built finished list into the tree it flattens:
/// root -> [A -> [L], B], written down in flattening order.
#[test]
fn fold_back_inverts_known_flattening() {
    let mut d = Discovery::new();
    d.visit(ident(":1.9", "/root")).unwrap();
    d.record_branch(Some(0), 2).unwrap();
    d.visit(ident(":1.9", "/b")).unwrap();
    d.record_leaf(Some(3));
    d.visit(ident(":1.9", "/a")).unwrap();
    d.record_branch(Some(1), 1).unwrap();
    d.visit(ident(":1.9", "/a/l")).unwrap();
    d.record_leaf(Some(2));
    let tree = d.finish().unwrap();
    let expected = A11yNode {
        role: Some(0),
        children: vec![
            A11yNode { role: Some(1), children: vec![leaf(2)] },
            A11yNode { role: Some(3), children: Vec::new() },
        ],
    };
    assert_eq!(tree, expected);
    assert_eq!(tree.node_count(), 4);
}

/// A repeated (endpoint, path) identity aborts with `CycleOrDuplicate` and
/// leaves no trace beyond what was already discovered.
#[test]
fn duplicate_identity_aborts() {
    let mut d = Discovery::new();
    d.visit(ident(":1.7", "/n")).unwrap();
    d.record_leaf(None);
    let r = d.visit(ident(":1.7", "/n"));
    assert_eq!(r, Err(SnapshotError::CycleOrDuplicate));
    assert_eq!(d.record_count(), 1);
    assert_eq!(d.failure_count(), 0);
    // A fresh path, or the same path on another endpoint, is still new.
    assert!(d.visit(ident(":1.7", "/m")).is_ok());
    assert!(d.visit(ident(":1.8", "/n")).is_ok());
}

/// A node reporting more children than the fan-out limit fails the snapshot
/// before any of its children are followed.
#[test]
fn fan_out_guard() {
    assert_eq!(Discovery::check_fan_out(0), Ok(()));
    assert_eq!(Discovery::check_fan_out(FAN_OUT_LIMIT), Ok(()));
    assert_eq!(
        Discovery::check_fan_out(FAN_OUT_LIMIT + 1),
        Err(SnapshotError::FanOutExceeded)
    );
    let mut d = Discovery::new();
    d.visit(ident(":1.2", "/r")).unwrap();
    let r = d.record_branch(None, FAN_OUT_LIMIT + 1);
    assert_eq!(r, Err(SnapshotError::FanOutExceeded));
    assert_eq!(d.record_count(), 0);
}

/// One failing call in a child-resolution batch fails that subtree's
/// discovery, while an independently discovered sibling subtree stays
/// intact: the failed branch is kept childless and the failure is surfaced.
#[test]
fn failed_batch_keeps_siblings() {
    let mut d = Discovery::new();
    // Root lists children [A, B]; the stack pops B first.
    d.visit(ident(":1.5", "/root")).unwrap();
    d.record_branch(Some(0), 2).unwrap();
    // B resolves cleanly and lists one leaf child.
    d.visit(ident(":1.5", "/b")).unwrap();
    d.record_branch(Some(2), 1).unwrap();
    d.visit(ident(":1.5", "/b/leaf")).unwrap();
    d.record_leaf(Some(4));
    // Resolving A's own two children fails on the second call: the whole
    // batch fails, A is recorded childless.
    d.visit(ident(":1.5", "/a")).unwrap();
    d.record_unresolved(Some(1));
    assert_eq!(d.failure_count(), 1);
    let tree = d.finish().unwrap();
    assert_eq!(tree.node_count(), 4);
    let a = &tree.children[0];
    assert_eq!(a.role, Some(1));
    assert!(a.children.is_empty());
    let b = &tree.children[1];
    assert_eq!(b.role, Some(2));
    assert_eq!(b.children.len(), 1);
    assert_eq!(b.children[0].role, Some(4));
}

/// A traversal that never finished a node has no root to build.
#[test]
fn empty_snapshot_is_an_error() {
    let d = Discovery::new();
    assert_eq!(d.finish(), Err(SnapshotError::EmptySnapshot));
}

/// With surplus finished leaves the fold stack keeps the extras and the
/// first-written record becomes the root.
#[test]
fn surplus_records_yield_first_as_root() {
    let mut d = Discovery::new();
    d.visit(ident(":1.3", "/x")).unwrap();
    d.record_leaf(Some(7));
    d.visit(ident(":1.3", "/y")).unwrap();
    d.record_leaf(Some(8));
    let tree = d.finish().unwrap();
    assert_eq!(tree, leaf(7));
}

/// A record that asks for more children than the fold stack holds takes
/// what is there, as the reconstruction's saturating take pins it.
#[test]
fn fold_back_saturates_missing_children() {
    let mut d = Discovery::new();
    d.visit(ident(":1.4", "/r")).unwrap();
    d.record_branch(Some(0), 2).unwrap();
    d.visit(ident(":1.4", "/only")).unwrap();
    d.record_leaf(Some(5));
    let tree = d.finish().unwrap();
    assert_eq!(tree.children.len(), 1);
    assert_eq!(tree.children[0].role, Some(5));
    assert_eq!(tree.node_count(), 2);
}

/// Counting walks arbitrarily deep trees without recursion.
#[test]
fn node_count_on_a_deep_chain() {
    let mut t = leaf(0);
    for k in 1..1000u32 {
        t = A11yNode { role: Some(k), children: vec![t] };
    }
    assert_eq!(t.node_count(), 1000);
}

#[test]
fn node_count_counts_every_branch() {
    let t = A11yNode {
        role: None,
        children: vec![
            A11yNode { role: Some(1), children: vec![leaf(2), leaf(3)] },
            leaf(4),
            A11yNode { role: Some(5), children: vec![leaf(6)] },
        ],
    };
    assert_eq!(t.node_count(), 7);
}
