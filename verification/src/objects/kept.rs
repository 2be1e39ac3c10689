//! What stays: a path of the older tree that no deletion touches stands in
//! the fused tree.

use vstd::prelude::*;
use crate::objects::builder::without_path;
use crate::objects::deletion::{has_path, lemma_fused_name, lemma_without_path_name};
use crate::objects::node_type::{
    Kind, NodeView, fuse_pass, fused, hashed, index_of_named, lemma_hashed_all,
};
use crate::objects::tree::TreeView;
use crate::objects::unique::{
    lemma_completed_unique, lemma_fuse_pass_unique, unique_children, well_formed,
};
use crate::search::lemma_first_match;

verus! {

/// Whether the path `names` is `other` or leads on from it.
pub open spec fn starts_with(names: Seq<Seq<char>>, other: Seq<Seq<char>>) -> bool {
    other.len() <= names.len() && names.take(other.len() as int) == other
}

/// Taking a path out leaves every other path: a node at `names` stays where
/// `names` neither is the path `other` nor leads on from it.
pub proof fn lemma_removal_keeps_paths(
    n: NodeView,
    other: Seq<Seq<char>>,
    names: Seq<Seq<char>>,
)
    requires
        has_path(n, names),
        other.len() == 0 || !starts_with(names, other),
    ensures
        has_path(without_path(n, other), names),
    decreases other.len(),
{
    let after = without_path(n, other);
    if other.len() > 0 {
        let w = choose|w: int|
            0 <= w < n.children().len() && (#[trigger] n.children()[w]).name() == names[0] && (
            names.len() == 1 || has_path(n.children()[w], names.drop_first()));
        match n {
            NodeView::Blob(_) => {},
            NodeView::Tree(t) => {
                let i = index_of_named(t.nodes, other[0], Kind::Any);
                lemma_first_match(t.nodes, |x: NodeView| x.answers(other[0], Kind::Any));
                if i < t.nodes.len() {
                    if other.len() == 1 {
                        assert(t.nodes[i].name() == other[0]);
                        if w == i {
                            assert(names.take(1) =~= other);
                        }
                        let w2 = if w < i {
                            w
                        } else {
                            w - 1
                        };
                        assert(after.children()[w2] == t.nodes[w]);
                    } else if w == i {
                        lemma_without_path_name(t.nodes[i], other.drop_first());
                        if names.len() > 1 {
                            if starts_with(names.drop_first(), other.drop_first()) {
                                assert(names.take(other.len() as int) =~= other) by {
                                    assert(names.drop_first().take(other.len() - 1)
                                        == other.drop_first());
                                    assert forall|x: int| 0 <= x < other.len() implies names[x]
                                        == other[x] by {
                                        if x > 0 {
                                            assert(names.drop_first().take(other.len() - 1)[x - 1]
                                                == other.drop_first()[x - 1]);
                                        }
                                    }
                                }
                            }
                            lemma_removal_keeps_paths(
                                t.nodes[i],
                                other.drop_first(),
                                names.drop_first(),
                            );
                        }
                        assert(after.children()[i].name() == names[0]);
                    } else {
                        assert(after.children()[w] == t.nodes[w]);
                    }
                } else {
                    assert(after.children()[w] == n.children()[w]);
                }
            },
        }
    }
}

/// Hashing keeps every path.
pub proof fn lemma_hash_keeps_paths(n: NodeView, names: Seq<Seq<char>>)
    requires
        has_path(n, names),
    ensures
        has_path(hashed(n), names),
    decreases n,
{
    let w = choose|w: int|
        0 <= w < n.children().len() && (#[trigger] n.children()[w]).name() == names[0] && (
        names.len() == 1 || has_path(n.children()[w], names.drop_first()));
    match n {
        NodeView::Blob(_) => {},
        NodeView::Tree(t) => {
            lemma_hashed_all(t.nodes);
            assert(hashed(n).children()[w] == hashed(t.nodes[w]));
            if names.len() > 1 {
                lemma_hash_keeps_paths(t.nodes[w], names.drop_first());
            }
            assert(hashed(n).children()[w].name() == names[0]);
        },
    }
}

/// Taking nodes in keeps every path of the tree.
proof fn lemma_completed_keeps_paths(t: TreeView, extra: Seq<NodeView>, names: Seq<Seq<char>>)
    requires
        has_path(NodeView::Tree(t), names),
    ensures
        has_path(NodeView::Tree(t.completed_all(extra)), names),
    decreases extra.len(),
{
    if extra.len() > 0 {
        lemma_completed_keeps_paths(t, extra.drop_last(), names);
        let front = t.completed_all(extra.drop_last());
        let node = extra.last();
        let done = front.completed(node);
        let before = NodeView::Tree(front);
        let w = choose|w: int|
            0 <= w < before.children().len() && (#[trigger] before.children()[w]).name()
                == names[0] && (names.len() == 1 || has_path(
                before.children()[w],
                names.drop_first(),
            ));
        let after = NodeView::Tree(done);
        if !front.has_named(node.name(), Kind::Any) {
            assert(after.children()[w] == front.nodes[w]);
        } else if node is Blob {
            let i = index_of_named(front.nodes, node.name(), node.kind());
            lemma_first_match(front.nodes, |x: NodeView| x.answers(node.name(), node.kind()));
            if i < front.nodes.len() {
                if w == i {
                    assert(front.nodes[i] is Blob);
                    assert(after.children()[w] == node);
                } else {
                    assert(after.children()[w] == front.nodes[w]);
                }
            } else {
                assert(after.children()[w] == front.nodes[w]);
            }
        } else {
            assert(after.children()[w] == front.nodes[w]);
        }
        assert(after.children()[w].name() == names[0]);
    }
}

/// Fusing keeps the paths of the first tree. Where no two children of one
/// tree have one name and one kind, in both trees, a node that stands at
/// `names` in the first stands there in what `fuse` gives for the two.
pub proof fn lemma_fuse_keeps_paths(a: NodeView, b: NodeView, names: Seq<Seq<char>>)
    requires
        well_formed(a),
        well_formed(b),
        has_path(a, names),
        fused(a, b) is Some,
    ensures
        has_path(fused(a, b)->Some_0, names),
    decreases b, 1int, 0int,
{
    match a {
        NodeView::Blob(_) => {},
        NodeView::Tree(t) => {
            lemma_completed_keeps_paths(t, b.children(), names);
            lemma_completed_unique(t, b.children());
            let start = a.completed_from(b);
            lemma_fuse_pass_keeps_paths(start, b, start.children().len() as int, names);
        },
    }
}

proof fn lemma_fuse_pass_keeps_paths(start: NodeView, b: NodeView, k: int, names: Seq<Seq<char>>)
    requires
        0 <= k <= start.children().len(),
        start is Tree,
        well_formed(start),
        well_formed(b),
        has_path(start, names),
    ensures
        has_path(fuse_pass(start, start.children(), b, k), names),
        well_formed(fuse_pass(start, start.children(), b, k)),
        fuse_pass(start, start.children(), b, k) is Tree,
        forall|j: int|
            k <= j < start.children().len() ==> fuse_pass(
                start,
                start.children(),
                b,
                k,
            ).children().contains(#[trigger] start.children()[j]),
    decreases b, 0int, k,
{
    let snapshot = start.children();
    lemma_fuse_pass_unique(start, snapshot, b, k);
    let now = fuse_pass(start, snapshot, b, k);
    if k == 0 {
        assert forall|j: int| 0 <= j < snapshot.len() implies now.children().contains(
            #[trigger] snapshot[j],
        ) by {
            assert(now.children()[j] == snapshot[j]);
        }
    } else {
        lemma_fuse_pass_keeps_paths(start, b, k - 1, names);
        let acc = fuse_pass(start, snapshot, b, k - 1);
        let child = snapshot[k - 1];
        let ip = index_of_named(b.children(), child.name(), child.kind());
        lemma_first_match(b.children(), |x: NodeView| x.answers(child.name(), child.kind()));
        let replaced = 0 <= ip < b.children().len() && fused(child, b.children()[ip]) is Some;
        if replaced {
            let partner = b.children()[ip];
            let outcome = fused(child, partner)->Some_0;
            lemma_fused_name(child, partner);
            let kids = acc.children();
            let r = index_of_named(kids, outcome.name(), outcome.kind());
            lemma_first_match(kids, |x: NodeView| x.answers(outcome.name(), outcome.kind()));
            assert(kids.contains(child));
            let c = choose|c: int| 0 <= c < kids.len() && kids[c] == child;
            assert(kids[c].answers(outcome.name(), outcome.kind()));
            assert(r <= c);
            assert(unique_children(kids));
            if r < c {
                assert(!(kids[r].name() == kids[c].name() && kids[r].kind() == kids[c].kind()));
            }
            assert(r == c);
            let left = kids.remove(r).push(outcome);
            assert(now.children() == left);
            let w = choose|w: int|
                0 <= w < kids.len() && (#[trigger] kids[w]).name() == names[0] && (names.len()
                    == 1 || has_path(kids[w], names.drop_first()));
            if w == r {
                if names.len() > 1 {
                    lemma_fuse_keeps_paths(child, partner, names.drop_first());
                }
                assert(left[left.len() - 1] == outcome);
                assert(now.children()[left.len() - 1].name() == names[0]);
            } else {
                let w2 = if w < r {
                    w
                } else {
                    w - 1
                };
                assert(left[w2] == kids[w]);
                assert(now.children()[w2].name() == names[0]);
            }
            assert forall|j: int| k <= j < snapshot.len() implies now.children().contains(
                #[trigger] snapshot[j],
            ) by {
                assert(kids.contains(snapshot[j]));
                let m = choose|m: int| 0 <= m < kids.len() && kids[m] == snapshot[j];
                assert(unique_children(snapshot));
                assert(!(snapshot[k - 1].name() == snapshot[j].name() && snapshot[k - 1].kind()
                    == snapshot[j].kind()));
                let m2 = if m < r {
                    m
                } else {
                    m - 1
                };
                assert(left[m2] == snapshot[j]);
            }
        } else {
            assert(now == acc);
        }
    }
}

} // verus!
