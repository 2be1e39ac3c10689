//! Where a merge sets conflict markers: in the blob of a file that both
//! trees hold with another content.

use vstd::prelude::*;
use crate::objects::blob::BlobView;
use crate::objects::node_type::{
    Kind, NodeView, hashed, index_of_named, lemma_hashed_all, merged, merged_children,
    with_missing,
};
use crate::objects::roundtrip::{lemma_read_back_all, read_back_all};
use crate::utils::{
    conflict_close, conflict_open, holds_text, lemma_holds_text_grows,
    lemma_merge_text_marks_conflict,
};

verus! {

/// Whether both lines of a conflict block stand in `text`: the line that
/// opens one and the line that closes one.
pub open spec fn is_marked(text: Seq<char>) -> bool {
    holds_text(text, conflict_open()) && holds_text(text, conflict_close())
}

/// Whether `n` is a blob whose content holds a conflict block.
pub open spec fn is_marked_blob(n: NodeView, name: Seq<char>) -> bool {
    match n {
        NodeView::Blob(b) => b.name == name && is_marked(b.content),
        NodeView::Tree(_) => false,
    }
}

/// Two blobs of different content merge into a blob with a conflict block.
pub proof fn lemma_blob_merge_marks(a: BlobView, b: BlobView)
    requires
        a.content != b.content,
    ensures
        a.merged_with(b).name == a.name,
        is_marked(a.merged_with(b).content),
{
    lemma_merge_text_marks_conflict(a.content, b.content);
}

proof fn lemma_merged_child(nodes: Seq<NodeView>, b: NodeView, k: int, i: int)
    requires
        0 <= i < k <= nodes.len(),
    ensures
        merged_children(nodes, b, k).len() == k,
        merged_children(nodes, b, k)[i] == merged_children(nodes, b, i + 1)[i],
    decreases k,
{
    if k > i + 1 {
        lemma_merged_child(nodes, b, k - 1, i);
    } else {
        lemma_merged_len(nodes, b, i);
    }
}

proof fn lemma_merged_len(nodes: Seq<NodeView>, b: NodeView, k: int)
    requires
        0 <= k <= nodes.len(),
    ensures
        merged_children(nodes, b, k).len() == k,
    decreases k,
{
    if k > 0 {
        lemma_merged_len(nodes, b, k - 1);
    }
}

proof fn lemma_with_missing_front(nodes: Seq<NodeView>, extra: Seq<NodeView>, i: int)
    requires
        0 <= i < nodes.len(),
    ensures
        with_missing(nodes, extra).len() >= nodes.len(),
        with_missing(nodes, extra)[i] == nodes[i],
    decreases extra.len(),
{
    if extra.len() > 0 {
        lemma_with_missing_front(nodes, extra.drop_last(), i);
    }
}

/// A merge marks the conflict. Where two trees are merged, the first holds
/// a blob at place `i`, the second a blob of that name, the two blobs are
/// not equal and differ in content, the merged tree holds at place `i` a
/// blob of that name whose content has a conflict block.
pub proof fn lemma_merge_marks_conflict(a: NodeView, b: NodeView, i: int)
    requires
        a is Tree,
        b is Tree,
        !(a.same(b) && a.name().len() > 0),
        0 <= i < a.children().len(),
        a.children()[i] is Blob,
        index_of_named(b.children(), a.children()[i].name(), Kind::Blob) < b.children().len(),
        ({
            let ours = a.children()[i];
            let theirs = b.children()[index_of_named(b.children(), ours.name(), Kind::Blob)];
            !(ours.same(theirs) && ours.name().len() > 0) && ours->Blob_0.content
                != theirs->Blob_0.content
        }),
    ensures
        merged(a, b) is Some,
        i < merged(a, b)->Some_0.children().len(),
        is_marked_blob(merged(a, b)->Some_0.children()[i], a.children()[i].name()),
{
    let kids = a.children();
    let ours = kids[i];
    let j = index_of_named(b.children(), ours.name(), Kind::Blob);
    crate::search::lemma_first_match(
        b.children(),
        |x: NodeView| x.answers(ours.name(), Kind::Blob),
    );
    let theirs = b.children()[j];
    lemma_blob_merge_marks(ours->Blob_0, theirs->Blob_0);
    assert(theirs.answers(ours.name(), Kind::Blob));
    assert(ours.kind() == Kind::Blob && theirs is Blob);
    let outcome = NodeView::Blob(ours->Blob_0.merged_with(theirs->Blob_0));
    assert(merged(ours, theirs) == Some(outcome));
    let firsts = merged_children(kids, b, kids.len() as int);
    lemma_merged_child(kids, b, kids.len() as int, i);
    lemma_merged_len(kids, b, i);
    assert(merged_children(kids, b, i + 1) == merged_children(kids, b, i).push(outcome));
    assert(firsts[i] == outcome);
    lemma_with_missing_front(firsts, b.children(), i);
    assert(merged(a, b)->Some_0.children() == with_missing(firsts, b.children()));
}

/// Hashing and reading back keep the conflict block: a blob with a conflict
/// block at place `i` of a tree is one at place `i` of the tree hashed and
/// read back from the store.
pub proof fn lemma_marks_are_read_back(n: NodeView, i: int, name: Seq<char>)
    requires
        0 <= i < n.children().len(),
        is_marked_blob(n.children()[i], name),
    ensures
        i < read_back_all(hashed(n).children()).len(),
        is_marked_blob(read_back_all(hashed(n).children())[i], name),
{
    match n {
        NodeView::Blob(_) => {},
        NodeView::Tree(t) => {
            lemma_hashed_all(t.nodes);
            lemma_read_back_all(hashed(n).children());
            let blob = t.nodes[i]->Blob_0;
            let empty = Seq::<char>::empty();
            assert(hashed(t.nodes[i]) == t.nodes[i]);
            assert(blob.object_text() =~= empty + blob.content + seq!['\n']);
            lemma_holds_text_grows(empty, blob.content, seq!['\n'], conflict_open());
            lemma_holds_text_grows(empty, blob.content, seq!['\n'], conflict_close());
        },
    }
}

} // verus!
