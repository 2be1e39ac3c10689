//! The first commit of one file, from `init` on: what the store, the log
//! and the stage hold afterwards.

use vstd::prelude::*;
use crate::digest::digest_of;
use crate::features::add::{added, inserted_all};
use crate::features::commit::{commit_tree, committed, root_of};
use crate::objects::blob::BlobView;
use crate::objects::builder::{StagedPathView, fresh_blob, inserted};
use crate::objects::commit::CommitView;
use crate::objects::node_type::{Kind, NodeView, concat_hashes, hashed, hashed_all};
use crate::objects::roundtrip::{holds, lemma_load_reads_back, one_line, read_back_all};
use crate::objects::transcript::{entry_line, stored, stored_all, tree_text};
use crate::objects::tree::TreeView;
use crate::repository::{BranchLogView, RepositoryView, null_hash};
use crate::search::lemma_first_match;

verus! {

/// The root tree that holds the one blob `b`, with the hash `hash`.
pub open spec fn tree_of_one(hash: Seq<char>, b: BlobView) -> NodeView {
    NodeView::Tree(TreeView { hash, name: Seq::empty(), nodes: seq![NodeView::Blob(b)] })
}

/// What the spec functions give for a list of one node.
proof fn lemma_one_node(x: NodeView, store: Map<Seq<char>, Seq<char>>)
    ensures
        hashed_all(seq![x]) == seq![hashed(x)],
        concat_hashes(seq![x]) == x.hash(),
        read_back_all(seq![x]) == seq![crate::objects::roundtrip::read_back(x)],
        tree_text(seq![x]) == entry_line(x),
        stored_all(store, seq![x]) == stored(store, x),
{
    let one = seq![x];
    let none = Seq::<NodeView>::empty();
    assert(one.drop_last() =~= none);
    assert(one.last() == x);
    assert(hashed_all(none) =~= none);
    assert(hashed_all(one) =~= seq![hashed(x)]);
    assert(concat_hashes(none) =~= Seq::<char>::empty());
    assert(concat_hashes(one) =~= x.hash());
    assert(read_back_all(none) =~= none);
    assert(read_back_all(one) =~= seq![crate::objects::roundtrip::read_back(x)]);
    assert(tree_text(none) =~= Seq::<char>::empty());
    assert(tree_text(one) =~= entry_line(x));
    assert(stored_all(store, none) == store);
}

/// The store that holds the tree of the one blob `b` and nothing else.
pub open spec fn store_of_one(tree: Seq<char>, b: BlobView) -> Map<Seq<char>, Seq<char>> {
    Map::<Seq<char>, Seq<char>>::empty().insert(
        tree,
        entry_line(NodeView::Blob(b)),
    ).insert(b.hash, b.object_text())
}

/// Adding one file to a new repository stages the tree of its blob.
proof fn lemma_add_one_file(name: Seq<char>, content: Seq<char>, fuel: nat)
    requires
        digest_of(digest_of(name + content)) != digest_of(name + content),
    ensures
        ({
            let blob = fresh_blob(name, content);
            let tree = digest_of(blob.hash);
            let path = StagedPathView { names: seq![name], content: Some(content) };
            added(RepositoryView::fresh(), fuel, seq![path]) == Ok::<
                RepositoryView,
                crate::error::Failure,
            >(
                RepositoryView {
                    objects: store_of_one(tree, blob),
                    staged: tree,
                    ..RepositoryView::fresh()
                },
            )
        }),
{
    let blob = fresh_blob(name, content);
    let tree = digest_of(blob.hash);
    let path = StagedPathView { names: seq![name], content: Some(content) };
    let fresh = RepositoryView::fresh();
    let empty_root = root_of(Seq::empty(), Seq::empty());
    let none = Seq::<NodeView>::empty();
    lemma_first_match(none, |x: NodeView| x.answers(name, Kind::Blob));
    let set = tree_of_one(Seq::empty(), blob);
    assert(none.push(NodeView::Blob(blob)) =~= seq![NodeView::Blob(blob)]);
    assert(inserted(empty_root, seq![name], Some(content)) == Ok::<
        NodeView,
        crate::error::Failure,
    >(set));
    assert(seq![path].drop_last() =~= Seq::<StagedPathView>::empty());
    assert(inserted_all(empty_root, Seq::<StagedPathView>::empty()) == Ok::<
        NodeView,
        crate::error::Failure,
    >(empty_root));
    assert(inserted_all(empty_root, seq![path]) == Ok::<NodeView, crate::error::Failure>(set));
    let start = Map::<Seq<char>, Seq<char>>::empty();
    lemma_one_node(NodeView::Blob(blob), start.insert(tree, entry_line(NodeView::Blob(blob))));
    assert(hashed(set) == tree_of_one(tree, blob));
    assert(stored(start, tree_of_one(tree, blob)) == store_of_one(tree, blob));
}

/// Committing the staged tree of one blob reads it back and commits over
/// its hash.
proof fn lemma_commit_one_file(repo: RepositoryView, blob: BlobView, fuel: nat, rel: Seq<char>)
    requires
        one_line(blob.name),
        one_line(blob.hash),
        blob.hash.len() == 40,
        digest_of(blob.hash) != blob.hash,
        digest_of(blob.hash) != null_hash(),
        repo.objects == store_of_one(digest_of(blob.hash), blob),
        repo.staged == digest_of(blob.hash),
        repo.head == null_hash(),
        repo.deleted.len() == 0,
    ensures
        committed(repo, fuel, rel) == Ok::<RepositoryView, crate::error::Failure>(
            repo.with_commit(CommitView::made(digest_of(blob.hash), null_hash(), repo.message)),
        ),
{
    let tree = digest_of(blob.hash);
    let done = tree_of_one(tree, blob);
    let objects = repo.objects;
    lemma_one_node(NodeView::Blob(blob), objects);
    assert(holds(objects, NodeView::Blob(blob)));
    assert(holds(objects, done));
    assert(crate::objects::roundtrip::readable_below(NodeView::Blob(blob)));
    assert(done.children()[0] == NodeView::Blob(blob));
    assert(crate::objects::roundtrip::readable_below(done));
    lemma_load_reads_back(objects, done, fuel);
    let back = crate::objects::roundtrip::read_back(NodeView::Blob(blob));
    let read = root_of(tree, seq![back]);
    lemma_one_node(back, objects);
    assert(hashed(read) == read);
    assert(commit_tree(repo, fuel, rel) == Ok::<NodeView, crate::error::Failure>(read));
    assert(stored(objects, read) == objects);
}

/// The first commit of one file. From a new repository, the file `name`
/// with the content `content` is added, the message `text` is set and
/// `commit` is called. Where the name and the digest of the file can stand
/// in a line, and the digest of the tree is neither the digest of the file
/// nor the null hash, all three succeed, and afterwards: the store holds
/// the content and a newline under the digest of name and content; it holds
/// the one line `blob`, that digest and the name under the digest of the
/// tree; the commit is over that tree, has the null hash as parent and is
/// the head; the log of `main` holds its hash and nothing else; nothing is
/// staged.
pub proof fn lemma_init_add_commit(
    name: Seq<char>,
    content: Seq<char>,
    text: Seq<char>,
    fuel: nat,
    rel: Seq<char>,
)
    requires
        one_line(name),
        one_line(digest_of(name + content)),
        digest_of(name + content).len() == 40,
        digest_of(digest_of(name + content)) != digest_of(name + content),
        digest_of(digest_of(name + content)) != null_hash(),
    ensures
        ({
            let file = digest_of(name + content);
            let tree = digest_of(file);
            let path = StagedPathView { names: seq![name], content: Some(content) };
            let staged = added(RepositoryView::fresh(), fuel, seq![path]);
            let made = CommitView::made(tree, null_hash(), text);
            &&& staged is Ok
            &&& staged->Ok_0.staged == tree
            &&& staged->Ok_0.objects.contains_key(file)
            &&& {
                let after = committed(
                    RepositoryView { message: text, ..staged->Ok_0 },
                    fuel,
                    rel,
                );
                &&& after is Ok
                &&& after->Ok_0.objects.contains_key(file)
                &&& after->Ok_0.objects[file] == content.push('\n')
                &&& after->Ok_0.objects.contains_key(tree)
                &&& after->Ok_0.objects[tree] == "blob "@ + file + " "@ + name + "\n"@
                &&& after->Ok_0.objects.contains_key(made.hash)
                &&& after->Ok_0.head == made.hash
                &&& after->Ok_0.refs == seq![
                    BranchLogView { name: "main"@, commits: seq![made.hash] },
                ]
                &&& after->Ok_0.staged == null_hash()
            }
        }),
{
    let file = digest_of(name + content);
    let tree = digest_of(file);
    let blob = fresh_blob(name, content);
    let path = StagedPathView { names: seq![name], content: Some(content) };
    lemma_add_one_file(name, content, fuel);
    let staged = added(RepositoryView::fresh(), fuel, seq![path])->Ok_0;
    let repo = RepositoryView { message: text, ..staged };
    lemma_commit_one_file(repo, blob, fuel, rel);
    let made = CommitView::made(tree, null_hash(), text);
    lemma_first_match(repo.refs, |l: BranchLogView| l.name == "main"@);
    assert(repo.refs.update(0, BranchLogView { name: "main"@, commits: seq![made.hash] })
        =~= seq![BranchLogView { name: "main"@, commits: seq![made.hash] }]);
    assert(Seq::<Seq<char>>::empty().push(made.hash) =~= seq![made.hash]);
    reveal_strlit("blob ");
    reveal_strlit("tree ");
}

} // verus!
