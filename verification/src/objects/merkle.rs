//! How a change of one node reaches the hash of every tree above it.

use vstd::prelude::*;
use crate::digest::digest_of;
use crate::objects::node_type::{NodeView, concat_hashes, hashed, hashed_all, lemma_hashed_all};

verus! {

/// Whether `path`, a list of child indices, leads from `n` to a node.
pub open spec fn leads(n: NodeView, path: Seq<int>) -> bool
    decreases path.len(),
{
    path.len() == 0 || (0 <= path[0] < n.children().len() && leads(
        n.children()[path[0]],
        path.drop_first(),
    ))
}

/// The node that `path` leads to from `n`.
pub open spec fn node_at(n: NodeView, path: Seq<int>) -> NodeView
    decreases path.len(),
{
    if path.len() == 0 {
        n
    } else {
        node_at(n.children()[path[0]], path.drop_first())
    }
}

/// The node `n` with `leaf` in the place of the node that `path` leads to.
pub open spec fn with_node_at(n: NodeView, path: Seq<int>, leaf: NodeView) -> NodeView
    decreases path.len(),
{
    if path.len() == 0 {
        leaf
    } else {
        match n {
            NodeView::Blob(_) => n,
            NodeView::Tree(t) => NodeView::Tree(
                t.with_nodes(
                    t.nodes.update(
                        path[0],
                        with_node_at(t.nodes[path[0]], path.drop_first(), leaf),
                    ),
                ),
            ),
        }
    }
}

/// Whether the digest tells the children of each tree along `path` before
/// the change from those after it: where the hashes of the children, one
/// after the other, differ, so do their digests.
pub open spec fn digests_tell_apart(n: NodeView, path: Seq<int>, leaf: NodeView) -> bool
    decreases path.len(),
{
    path.len() == 0 || {
        let before = concat_hashes(hashed_all(n.children()));
        let after = concat_hashes(hashed_all(with_node_at(n, path, leaf).children()));
        &&& before != after ==> digest_of(before) != digest_of(after)
        &&& digests_tell_apart(n.children()[path[0]], path.drop_first(), leaf)
    }
}

/// Whether putting `leaf` at the end of `path` changes the hash of `n` and
/// of every node along the path, and leaves every other child of these
/// nodes as it is.
pub open spec fn hash_changes_along(n: NodeView, path: Seq<int>, leaf: NodeView) -> bool
    decreases path.len(),
{
    let changed = with_node_at(n, path, leaf);
    &&& hashed(changed).hash() != hashed(n).hash()
    &&& path.len() > 0 ==> {
        &&& changed.children().len() == n.children().len()
        &&& forall|j: int|
            0 <= j < n.children().len() && j != path[0] ==> #[trigger] changed.children()[j]
                == n.children()[j]
        &&& hash_changes_along(n.children()[path[0]], path.drop_first(), leaf)
    }
}

proof fn lemma_concat_add(a: Seq<NodeView>, b: Seq<NodeView>)
    ensures
        concat_hashes(a + b) == concat_hashes(a) + concat_hashes(b),
    decreases b.len(),
{
    if b.len() > 0 {
        lemma_concat_add(a, b.drop_last());
        assert((a + b).drop_last() =~= a + b.drop_last());
    }
}

proof fn lemma_concat_one(x: NodeView)
    ensures
        concat_hashes(seq![x]) == x.hash(),
{
    let one = seq![x];
    assert(concat_hashes(one.drop_last()) =~= Seq::<char>::empty());
}

/// Another hash at one place gives another text of all the hashes.
proof fn lemma_concat_update(s: Seq<NodeView>, i: int, x: NodeView)
    requires
        0 <= i < s.len(),
        x.hash() != s[i].hash(),
    ensures
        concat_hashes(s.update(i, x)) != concat_hashes(s),
{
    let front = s.take(i);
    let back = s.skip(i + 1);
    assert(s =~= front + seq![s[i]] + back);
    assert(s.update(i, x) =~= front + seq![x] + back);
    lemma_concat_add(front + seq![s[i]], back);
    lemma_concat_add(front, seq![s[i]]);
    lemma_concat_add(front + seq![x], back);
    lemma_concat_add(front, seq![x]);
    lemma_concat_one(s[i]);
    lemma_concat_one(x);
    let p = concat_hashes(front);
    let q = concat_hashes(back);
    let before = p + s[i].hash() + q;
    let after = p + x.hash() + q;
    if before == after {
        assert(before.len() == after.len());
        assert(before.subrange(p.len() as int, (p.len() + x.hash().len()) as int) =~= s[i].hash());
        assert(after.subrange(p.len() as int, (p.len() + x.hash().len()) as int) =~= x.hash());
    }
}

/// A change of one node reaches the root: where the hash of the node at the
/// end of `path` changes, and the digest tells the children of each tree
/// above it before the change from those after it, the hash of every tree
/// along the path changes, up to `root`, and every other child of these
/// trees stays as it is, with its hash.
pub proof fn lemma_merkle_propagation(root: NodeView, path: Seq<int>, leaf: NodeView)
    requires
        leads(root, path),
        hashed(leaf).hash() != hashed(node_at(root, path)).hash(),
        digests_tell_apart(root, path, leaf),
    ensures
        hash_changes_along(root, path, leaf),
    decreases path.len(),
{
    if path.len() > 0 {
        let i = path[0];
        let rest = path.drop_first();
        let kids = root.children();
        let child = kids[i];
        lemma_merkle_propagation(child, rest, leaf);
        let child2 = with_node_at(child, rest, leaf);
        let kids2 = kids.update(i, child2);
        lemma_hashed_all(kids);
        lemma_hashed_all(kids2);
        assert(hashed_all(kids2) =~= hashed_all(kids).update(i, hashed(child2)));
        lemma_concat_update(hashed_all(kids), i, hashed(child2));
    }
}

} // verus!
