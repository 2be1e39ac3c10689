//! What a deleted path leaves behind in the tree of the next commit.

use vstd::prelude::*;
use crate::objects::builder::without_path;
use crate::objects::node_type::{
    Kind, NodeView, fuse_pass, fused, hashed, index_of_named, lemma_hashed_all,
};
use crate::objects::tree::TreeView;
use crate::search::lemma_first_match;

verus! {

/// Whether some node stands at the path `names` below `n`: a child bears
/// the first name, and the rest of the path leads on from it.
pub open spec fn has_path(n: NodeView, names: Seq<Seq<char>>) -> bool
    decreases names.len(),
{
    names.len() > 0 && exists|i: int|
        0 <= i < n.children().len() && (#[trigger] n.children()[i]).name() == names[0] && (
        names.len() == 1 || has_path(n.children()[i], names.drop_first()))
}

/// Whether, at each step along `names`, at most one child bears the name.
pub open spec fn one_per_name(n: NodeView, names: Seq<Seq<char>>) -> bool
    decreases names.len(),
{
    names.len() == 0 || {
        &&& forall|i: int, j: int|
            0 <= i < j < n.children().len() ==> !((#[trigger] n.children()[i]).name() == names[0]
                && (#[trigger] n.children()[j]).name() == names[0])
        &&& forall|i: int|
            0 <= i < n.children().len() && (#[trigger] n.children()[i]).name() == names[0]
                ==> one_per_name(n.children()[i], names.drop_first())
    }
}

/// A path that was taken out leads nowhere, where at most one child bears
/// the name at each of its steps.
pub proof fn lemma_path_taken_out(n: NodeView, names: Seq<Seq<char>>)
    requires
        names.len() > 0,
        one_per_name(n, names),
    ensures
        !has_path(without_path(n, names), names),
    decreases names.len(),
{
    let kids = n.children();
    match n {
        NodeView::Blob(_) => {},
        NodeView::Tree(_) => {
            let i = index_of_named(kids, names[0], Kind::Any);
            lemma_first_match(kids, |x: NodeView| x.answers(names[0], Kind::Any));
            if i < kids.len() && names.len() > 1 {
                lemma_path_taken_out(kids[i], names.drop_first());
            }
        },
    }
}

/// Taking nodes in keeps the name of the tree.
proof fn lemma_completed_name(t: TreeView, extra: Seq<NodeView>)
    ensures
        t.completed_all(extra).name == t.name,
        t.completed_all(extra).hash == t.hash,
    decreases extra.len(),
{
    if extra.len() > 0 {
        lemma_completed_name(t, extra.drop_last());
    }
}

/// Each child of a completed tree is a child of the tree or one of the
/// nodes that were taken in.
proof fn lemma_completed_children(t: TreeView, extra: Seq<NodeView>, c: NodeView)
    requires
        t.completed_all(extra).nodes.contains(c),
    ensures
        t.nodes.contains(c) || extra.contains(c),
    decreases extra.len(),
{
    if extra.len() > 0 {
        let front = t.completed_all(extra.drop_last());
        let node = extra.last();
        if c != node {
            if front.has_named(node.name(), Kind::Any) && node is Blob {
                lemma_first_match(front.nodes, |x: NodeView| x.answers(node.name(), node.kind()));
            }
            lemma_completed_children(t, extra.drop_last(), c);
        }
    }
}

/// Whether `c` came out of fusing one of the first `k` nodes of `snapshot`
/// with its partner among the children of `b`.
pub open spec fn outcome_of(c: NodeView, snapshot: Seq<NodeView>, b: NodeView, k: int) -> bool {
    exists|j: int|
        0 <= j < k && j < snapshot.len() && {
            let i = index_of_named(
                b.children(),
                (#[trigger] snapshot[j]).name(),
                snapshot[j].kind(),
            );
            0 <= i < b.children().len() && fused(snapshot[j], b.children()[i]) == Some(c)
        }
}

/// Fusing keeps the name and the kind of the first node.
proof fn lemma_fuse_pass_name(start: NodeView, snapshot: Seq<NodeView>, b: NodeView, k: int)
    ensures
        fuse_pass(start, snapshot, b, k).name() == start.name(),
        fuse_pass(start, snapshot, b, k).kind() == start.kind(),
    decreases k,
{
    if 0 < k <= snapshot.len() {
        lemma_fuse_pass_name(start, snapshot, b, k - 1);
    }
}

/// What `fuse` gives bears the name of the first node and is of its kind.
pub(crate) proof fn lemma_fused_name(a: NodeView, b: NodeView)
    requires
        fused(a, b) is Some,
    ensures
        fused(a, b)->Some_0.name() == a.name(),
        fused(a, b)->Some_0.kind() == a.kind(),
{
    let start = a.completed_from(b);
    match a {
        NodeView::Blob(_) => {},
        NodeView::Tree(t) => {
            lemma_completed_name(t, b.children());
        },
    }
    lemma_fuse_pass_name(start, start.children(), b, start.children().len() as int);
}

/// Each child after a pass of fusing is a child from before the pass, or
/// came out of fusing one.
proof fn lemma_fuse_pass_children(
    start: NodeView,
    snapshot: Seq<NodeView>,
    b: NodeView,
    k: int,
    c: NodeView,
)
    requires
        0 <= k <= snapshot.len(),
        fuse_pass(start, snapshot, b, k).children().contains(c),
    ensures
        start.children().contains(c) || outcome_of(c, snapshot, b, k),
    decreases k,
{
    if k > 0 {
        let acc = fuse_pass(start, snapshot, b, k - 1);
        let child = snapshot[k - 1];
        let i = index_of_named(b.children(), child.name(), child.kind());
        let inherited = if 0 <= i < b.children().len() {
            match fused(child, b.children()[i]) {
                Some(outcome) => {
                    if c == outcome {
                        false
                    } else {
                        match acc {
                            NodeView::Blob(_) => true,
                            NodeView::Tree(t) => {
                                let r = index_of_named(t.nodes, outcome.name(), outcome.kind());
                                if r < t.nodes.len() {
                                    lemma_first_match(
                                        t.nodes,
                                        |x: NodeView| x.answers(outcome.name(), outcome.kind()),
                                    );
                                }
                                true
                            },
                        }
                    }
                },
                None => true,
            }
        } else {
            true
        };
        if inherited {
            lemma_fuse_pass_children(start, snapshot, b, k - 1, c);
        }
    }
}

/// Fusing brings no path back: where neither of two nodes has a node at
/// `names`, what `fuse` gives for them has none.
pub proof fn lemma_fuse_keeps_out(a: NodeView, b: NodeView, names: Seq<Seq<char>>)
    requires
        names.len() > 0,
        !has_path(a, names),
        !has_path(b, names),
        fused(a, b) is Some,
    ensures
        !has_path(fused(a, b)->Some_0, names),
    decreases b,
{
    let start = a.completed_from(b);
    let snapshot = start.children();
    let r = fused(a, b)->Some_0;
    if has_path(r, names) {
        let k = choose|k: int|
            0 <= k < r.children().len() && (#[trigger] r.children()[k]).name() == names[0] && (
            names.len() == 1 || has_path(r.children()[k], names.drop_first()));
        let c = r.children()[k];
        lemma_fuse_pass_children(start, snapshot, b, snapshot.len() as int, c);
        if start.children().contains(c) {
            lemma_start_child(a, b, c);
        } else {
            let j = choose|j: int|
                0 <= j < snapshot.len() && j < snapshot.len() && {
                    let i = index_of_named(
                        b.children(),
                        (#[trigger] snapshot[j]).name(),
                        snapshot[j].kind(),
                    );
                    0 <= i < b.children().len() && fused(snapshot[j], b.children()[i]) == Some(c)
                };
            let child = snapshot[j];
            let i = index_of_named(b.children(), child.name(), child.kind());
            let partner = b.children()[i];
            lemma_first_match(b.children(), |x: NodeView| x.answers(child.name(), child.kind()));
            lemma_fused_name(child, partner);
            lemma_start_child(a, b, child);
            lemma_fuse_keeps_out(child, partner, names.drop_first());
        }
    }
}

/// Each child of a node that took the children of `b` in is a child of the
/// node or of `b`.
proof fn lemma_start_child(a: NodeView, b: NodeView, c: NodeView)
    requires
        a.completed_from(b).children().contains(c),
    ensures
        a.children().contains(c) || b.children().contains(c),
{
    match a {
        NodeView::Blob(_) => {},
        NodeView::Tree(t) => {
            lemma_completed_children(t, b.children(), c);
        },
    }
}

/// A deleted path stays out of the next commit. Where a path is taken out
/// of the tree of the last commit and out of the staged tree, and at most
/// one child bears the name at each of its steps in both, the tree that
/// `fuse` makes of the two has no node at that path.
pub proof fn lemma_deleted_path_stays_out(last: NodeView, staged: NodeView, names: Seq<Seq<char>>)
    requires
        names.len() > 0,
        one_per_name(last, names),
        one_per_name(staged, names),
        fused(without_path(last, names), without_path(staged, names)) is Some,
    ensures
        !has_path(without_path(last, names), names),
        !has_path(without_path(staged, names), names),
        !has_path(fused(without_path(last, names), without_path(staged, names))->Some_0, names),
{
    lemma_path_taken_out(last, names);
    lemma_path_taken_out(staged, names);
    lemma_fuse_keeps_out(without_path(last, names), without_path(staged, names), names);
}

/// Taking a path out keeps the name and the kind of the node.
pub(crate) proof fn lemma_without_path_name(n: NodeView, names: Seq<Seq<char>>)
    ensures
        without_path(n, names).name() == n.name(),
        without_path(n, names).kind() == n.kind(),
    decreases names.len(),
{
}

/// Taking one path out brings no other back: a node that has no node at
/// `names` has none after the path `other` was taken out of it.
pub proof fn lemma_removal_keeps_out(n: NodeView, other: Seq<Seq<char>>, names: Seq<Seq<char>>)
    requires
        !has_path(n, names),
    ensures
        !has_path(without_path(n, other), names),
    decreases other.len(),
{
    let after = without_path(n, other);
    if has_path(after, names) && other.len() > 0 {
        let k = choose|k: int|
            0 <= k < after.children().len() && (#[trigger] after.children()[k]).name() == names[0]
                && (names.len() == 1 || has_path(after.children()[k], names.drop_first()));
        match n {
            NodeView::Blob(_) => {},
            NodeView::Tree(t) => {
                let i = index_of_named(t.nodes, other[0], Kind::Any);
                lemma_first_match(t.nodes, |x: NodeView| x.answers(other[0], Kind::Any));
                if i < t.nodes.len() {
                    if other.len() == 1 {
                        let k2 = if k < i {
                            k
                        } else {
                            k + 1
                        };
                        assert(after.children()[k] == n.children()[k2]);
                    } else if k == i {
                        lemma_without_path_name(t.nodes[i], other.drop_first());
                        assert(n.children()[i].name() == names[0]);
                        if names.len() > 1 {
                            lemma_removal_keeps_out(
                                t.nodes[i],
                                other.drop_first(),
                                names.drop_first(),
                            );
                        }
                    } else {
                        assert(after.children()[k] == n.children()[k]);
                    }
                }
            },
        }
    }
}

/// Taking a path out keeps each name single: where at most one child bears
/// the name at each step along `names`, that is so after the path `other`
/// was taken out.
pub proof fn lemma_removal_keeps_single(
    n: NodeView,
    other: Seq<Seq<char>>,
    names: Seq<Seq<char>>,
)
    requires
        one_per_name(n, names),
    ensures
        one_per_name(without_path(n, other), names),
    decreases other.len(),
{
    let after = without_path(n, other);
    if names.len() > 0 && other.len() > 0 {
        match n {
            NodeView::Blob(_) => {},
            NodeView::Tree(t) => {
                let i = index_of_named(t.nodes, other[0], Kind::Any);
                lemma_first_match(t.nodes, |x: NodeView| x.answers(other[0], Kind::Any));
                if i < t.nodes.len() {
                    let kids = n.children();
                    let left = after.children();
                    if other.len() == 1 {
                        assert forall|k: int| 0 <= k < left.len() implies #[trigger] left[k]
                            == kids[if k < i {
                            k
                        } else {
                            k + 1
                        }] by {}
                        assert forall|a: int, b: int| 0 <= a < b < left.len() implies !((
                        #[trigger] left[a]).name() == names[0] && (#[trigger] left[b]).name()
                            == names[0]) by {
                            let a2 = if a < i {
                                a
                            } else {
                                a + 1
                            };
                            let b2 = if b < i {
                                b
                            } else {
                                b + 1
                            };
                            assert(left[a] == kids[a2] && left[b] == kids[b2]);
                        }
                        assert forall|k: int|
                            0 <= k < left.len() && (#[trigger] left[k]).name()
                                == names[0] implies one_per_name(left[k], names.drop_first()) by {
                            let k2 = if k < i {
                                k
                            } else {
                                k + 1
                            };
                            assert(left[k] == kids[k2]);
                        }
                    } else {
                        lemma_without_path_name(kids[i], other.drop_first());
                        assert forall|a: int, b: int| 0 <= a < b < left.len() implies !((
                        #[trigger] left[a]).name() == names[0] && (#[trigger] left[b]).name()
                            == names[0]) by {
                            assert(left[a].name() == kids[a].name());
                            assert(left[b].name() == kids[b].name());
                        }
                        assert forall|k: int|
                            0 <= k < left.len() && (#[trigger] left[k]).name()
                                == names[0] implies one_per_name(left[k], names.drop_first()) by {
                            assert(left[k].name() == kids[k].name());
                            if k == i {
                                lemma_removal_keeps_single(
                                    kids[i],
                                    other.drop_first(),
                                    names.drop_first(),
                                );
                            } else {
                                assert(left[k] == kids[k]);
                            }
                        }
                    }
                }
            },
        }
    }
}

/// Hashing brings no path back: a node that has no node at `names` has none
/// once it is hashed.
pub proof fn lemma_hash_keeps_out(n: NodeView, names: Seq<Seq<char>>)
    requires
        !has_path(n, names),
    ensures
        !has_path(hashed(n), names),
    decreases n,
{
    let after = hashed(n);
    if has_path(after, names) {
        let k = choose|k: int|
            0 <= k < after.children().len() && (#[trigger] after.children()[k]).name() == names[0]
                && (names.len() == 1 || has_path(after.children()[k], names.drop_first()));
        match n {
            NodeView::Blob(_) => {},
            NodeView::Tree(t) => {
                lemma_hashed_all(t.nodes);
                assert(after.children()[k] == hashed(t.nodes[k]));
                assert(n.children()[k].name() == names[0]);
                if names.len() > 1 {
                    lemma_hash_keeps_out(t.nodes[k], names.drop_first());
                }
            },
        }
    }
}

} // verus!
