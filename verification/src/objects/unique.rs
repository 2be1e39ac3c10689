//! The rule of the tree: no two children of one name and one kind. What
//! builds, merges and fuses trees keeps the rule.

use vstd::prelude::*;
use crate::objects::builder::{inserted, without_path};
use crate::objects::node_type::{
    Kind, NodeView, fuse_pass, fused, hashed, hashed_all, index_of_named, lemma_hashed_all,
    merged, merged_children, with_missing,
};
use crate::objects::tree::TreeView;
use crate::search::lemma_first_match;

verus! {

/// Whether no two of `kids` have one name and one kind.
pub open spec fn unique_children(kids: Seq<NodeView>) -> bool {
    forall|i: int, j: int|
        0 <= i < j < kids.len() ==> !((#[trigger] kids[i]).name() == (#[trigger] kids[j]).name()
            && kids[i].kind() == kids[j].kind())
}

/// Whether the rule holds in `n` and in every tree below it.
pub open spec fn well_formed(n: NodeView) -> bool
    decreases n,
{
    match n {
        NodeView::Blob(_) => true,
        NodeView::Tree(t) => unique_children(t.nodes) && forall|i: int|
            0 <= i < t.nodes.len() ==> well_formed(#[trigger] t.nodes[i]),
    }
}

/// Whether the rule holds in each of `kids` and among them.
pub open spec fn well_formed_all(kids: Seq<NodeView>) -> bool {
    unique_children(kids) && forall|i: int| 0 <= i < kids.len() ==> well_formed(#[trigger] kids[i])
}

proof fn lemma_push_unique(kids: Seq<NodeView>, x: NodeView)
    requires
        well_formed_all(kids),
        well_formed(x),
        index_of_named(kids, x.name(), x.kind()) >= kids.len(),
    ensures
        well_formed_all(kids.push(x)),
{
    lemma_first_match(kids, |c: NodeView| c.answers(x.name(), x.kind()));
}

/// After the first child of a name and kind left, none answers to them.
proof fn lemma_removed_is_gone(kids: Seq<NodeView>, name: Seq<char>, kind: Kind)
    requires
        well_formed_all(kids),
        kind != Kind::Any,
        0 <= index_of_named(kids, name, kind) < kids.len(),
    ensures
        index_of_named(kids.remove(index_of_named(kids, name, kind)), name, kind) >= kids.remove(
            index_of_named(kids, name, kind),
        ).len(),
        well_formed_all(kids.remove(index_of_named(kids, name, kind))),
{
    let i = index_of_named(kids, name, kind);
    let p = |c: NodeView| c.answers(name, kind);
    lemma_first_match(kids, p);
    let left = kids.remove(i);
    lemma_first_match(left, p);
}

/// Building keeps the rule: a path set into a tree in which no two children
/// have one name and one kind gives such a tree.
pub proof fn lemma_insert_keeps_unique(
    n: NodeView,
    names: Seq<Seq<char>>,
    content: Option<Seq<char>>,
)
    requires
        well_formed(n),
        inserted(n, names, content) is Ok,
    ensures
        well_formed(inserted(n, names, content)->Ok_0),
    decreases names.len(),
{
    if names.len() > 0 {
        match n {
            NodeView::Blob(_) => {},
            NodeView::Tree(t) => {
                let name = names[0];
                let rest = names.drop_first();
                if names.len() == 1 && content is Some {
                    let blob = NodeView::Blob(
                        crate::objects::builder::fresh_blob(name, content->0),
                    );
                    let i = index_of_named(t.nodes, name, Kind::Blob);
                    lemma_first_match(t.nodes, |c: NodeView| c.answers(name, Kind::Blob));
                    if i < t.nodes.len() {
                        lemma_removed_is_gone(t.nodes, name, Kind::Blob);
                        lemma_push_unique(t.nodes.remove(i), blob);
                    } else {
                        lemma_push_unique(t.nodes, blob);
                    }
                } else if !t.has_named(name, Kind::Any) {
                    let empty = NodeView::Tree(
                        TreeView { hash: Seq::empty(), name, nodes: Seq::empty() },
                    );
                    lemma_insert_keeps_unique(empty, rest, content);
                    lemma_first_match(t.nodes, |c: NodeView| c.answers(name, Kind::Any));
                } else if t.has_named(name, Kind::Tree) {
                    let i = index_of_named(t.nodes, name, Kind::Tree);
                    lemma_first_match(t.nodes, |c: NodeView| c.answers(name, Kind::Tree));
                    lemma_insert_keeps_unique(t.nodes[i], rest, content);
                }
            },
        }
    }
}

/// Taking a path out keeps the rule.
pub proof fn lemma_remove_keeps_unique(n: NodeView, names: Seq<Seq<char>>)
    requires
        well_formed(n),
    ensures
        well_formed(without_path(n, names)),
    decreases names.len(),
{
    if names.len() > 0 {
        match n {
            NodeView::Blob(_) => {},
            NodeView::Tree(t) => {
                let i = index_of_named(t.nodes, names[0], Kind::Any);
                lemma_first_match(t.nodes, |c: NodeView| c.answers(names[0], Kind::Any));
                if i < t.nodes.len() && names.len() > 1 {
                    lemma_remove_keeps_unique(t.nodes[i], names.drop_first());
                }
            },
        }
    }
}

/// Hashing keeps the rule.
pub proof fn lemma_hash_keeps_unique(n: NodeView)
    requires
        well_formed(n),
    ensures
        well_formed(hashed(n)),
        hashed(n).name() == n.name(),
        hashed(n).kind() == n.kind(),
    decreases n,
{
    match n {
        NodeView::Blob(_) => {},
        NodeView::Tree(t) => {
            let kids = hashed_all(t.nodes);
            lemma_hashed_all(t.nodes);
            assert forall|i: int| 0 <= i < kids.len() implies well_formed(#[trigger] kids[i])
                && kids[i].name() == t.nodes[i].name() && kids[i].kind() == t.nodes[i].kind() by {
                lemma_hash_keeps_unique(t.nodes[i]);
            }
        },
    }
}

/// Merging keeps the rule: what `merge` gives for two trees in which no two
/// children have one name and one kind is such a tree, of the name and the
/// kind of the first.
pub proof fn lemma_merge_keeps_unique(a: NodeView, b: NodeView)
    requires
        well_formed(a),
        well_formed(b),
        merged(a, b) is Some,
    ensures
        well_formed(merged(a, b)->Some_0),
        merged(a, b)->Some_0.name() == a.name(),
        merged(a, b)->Some_0.kind() == a.kind(),
    decreases b, 1int,
{
    match (a, b) {
        (NodeView::Tree(x), NodeView::Tree(y)) => {
            lemma_merged_children_unique(x.nodes, b, x.nodes.len() as int);
            let firsts = merged_children(x.nodes, b, x.nodes.len() as int);
            lemma_with_missing_unique(firsts, y.nodes);
        },
        _ => {},
    }
}

proof fn lemma_merged_children_unique(nodes: Seq<NodeView>, b: NodeView, k: int)
    requires
        0 <= k <= nodes.len(),
        forall|i: int| 0 <= i < nodes.len() ==> well_formed(#[trigger] nodes[i]),
        well_formed(b),
    ensures
        merged_children(nodes, b, k).len() == k,
        forall|i: int|
            0 <= i < k ==> well_formed(#[trigger] merged_children(nodes, b, k)[i])
                && merged_children(nodes, b, k)[i].name() == nodes[i].name() && merged_children(
                nodes,
                b,
                k,
            )[i].kind() == nodes[i].kind(),
    decreases b, 0int, k,
{
    if k > 0 {
        lemma_merged_children_unique(nodes, b, k - 1);
        let child = nodes[k - 1];
        let i = index_of_named(b.children(), child.name(), child.kind());
        if 0 <= i < b.children().len() {
            let partner = b.children()[i];
            if merged(child, partner) is Some {
                lemma_merge_keeps_unique(child, partner);
            }
        }
    }
}

proof fn lemma_with_missing_unique(nodes: Seq<NodeView>, extra: Seq<NodeView>)
    requires
        well_formed_all(nodes),
        forall|i: int| 0 <= i < extra.len() ==> well_formed(#[trigger] extra[i]),
    ensures
        well_formed_all(with_missing(nodes, extra)),
    decreases extra.len(),
{
    if extra.len() > 0 {
        let front = extra.drop_last();
        lemma_with_missing_unique(nodes, front);
        let acc = with_missing(nodes, front);
        let e = extra.last();
        if index_of_named(acc, e.name(), e.kind()) >= acc.len() {
            lemma_push_unique(acc, e);
        }
    }
}

pub(crate) proof fn lemma_completed_unique(t: TreeView, extra: Seq<NodeView>)
    requires
        well_formed_all(t.nodes),
        forall|i: int| 0 <= i < extra.len() ==> well_formed(#[trigger] extra[i]),
    ensures
        well_formed_all(t.completed_all(extra).nodes),
        t.completed_all(extra).name == t.name,
    decreases extra.len(),
{
    if extra.len() > 0 {
        let rest = extra.drop_last();
        lemma_completed_unique(t, rest);
        let front = t.completed_all(rest);
        let node = extra.last();
        if !front.has_named(node.name(), Kind::Any) {
            lemma_first_match(front.nodes, |c: NodeView| c.answers(node.name(), Kind::Any));
        } else if node is Blob {
            lemma_first_match(front.nodes, |c: NodeView| c.answers(node.name(), node.kind()));
        }
    }
}

/// Fusing keeps the rule: what `fuse` gives for two trees in which no two
/// children have one name and one kind is such a tree, of the name and the
/// kind of the first.
pub proof fn lemma_fuse_keeps_unique(a: NodeView, b: NodeView)
    requires
        well_formed(a),
        well_formed(b),
        fused(a, b) is Some,
    ensures
        well_formed(fused(a, b)->Some_0),
        fused(a, b)->Some_0.name() == a.name(),
        fused(a, b)->Some_0.kind() == a.kind(),
    decreases b, 1int, 0int,
{
    let start = a.completed_from(b);
    match a {
        NodeView::Blob(_) => {},
        NodeView::Tree(t) => {
            lemma_completed_unique(t, b.children());
        },
    }
    lemma_fuse_pass_unique(start, start.children(), b, start.children().len() as int);
}

pub(crate) proof fn lemma_fuse_pass_unique(
    start: NodeView,
    snapshot: Seq<NodeView>,
    b: NodeView,
    k: int,
)
    requires
        0 <= k <= snapshot.len(),
        well_formed(start),
        well_formed(b),
        forall|i: int| 0 <= i < snapshot.len() ==> well_formed(#[trigger] snapshot[i]),
    ensures
        well_formed(fuse_pass(start, snapshot, b, k)),
        fuse_pass(start, snapshot, b, k).name() == start.name(),
        fuse_pass(start, snapshot, b, k).kind() == start.kind(),
    decreases b, 0int, k,
{
    if k > 0 {
        lemma_fuse_pass_unique(start, snapshot, b, k - 1);
        let acc = fuse_pass(start, snapshot, b, k - 1);
        let child = snapshot[k - 1];
        let i = index_of_named(b.children(), child.name(), child.kind());
        if 0 <= i < b.children().len() {
            let partner = b.children()[i];
            if fused(child, partner) is Some {
                lemma_fuse_keeps_unique(child, partner);
                let outcome = fused(child, partner)->Some_0;
                match acc {
                    NodeView::Blob(_) => {},
                    NodeView::Tree(t) => {
                        lemma_first_match(
                            t.nodes,
                            |c: NodeView| c.answers(outcome.name(), outcome.kind()),
                        );
                    },
                }
            }
        }
    }
}

} // verus!
