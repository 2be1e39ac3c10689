//! Making a commit of what is staged.

use vstd::prelude::*;
use crate::error::{DitError, Failure};
use crate::objects::builder::without_path;
use crate::objects::commit::{Commit, CommitView, lemma_commit_text_reads_back, read_commit};
use crate::objects::deletion::{
    has_path, lemma_fuse_keeps_out, lemma_fused_name, lemma_hash_keeps_out, lemma_path_taken_out,
    lemma_removal_keeps_out, lemma_removal_keeps_single, lemma_without_path_name, one_per_name,
};
use crate::objects::kept::{
    lemma_fuse_keeps_paths, lemma_hash_keeps_paths, lemma_removal_keeps_paths, starts_with,
};
use crate::objects::node_type::{NodeType, NodeView, fused, hashed};
use crate::objects::roundtrip::{
    agrees, extends, hash_tells_apart, lemma_holds_extends, lemma_load_reads_back,
    lemma_read_back_keeps_out, lemma_stored_holds, nested_within, read_back, read_back_all,
    readable_below,
};
use crate::objects::transcript::{lemma_stored_keeps, load_nodes, stored};
use crate::objects::tree::{Tree, TreeView};
use crate::objects::unique::{lemma_remove_keeps_unique, well_formed};
use crate::paths::{located, names_on, path_from_dit, path_names};
use crate::repository::{Repository, RepositoryView, null_hash};
use crate::text::texts_view;
use crate::utils::NULL_HASH;

verus! {

/// The error for a commit that would change nothing.
pub open spec fn nothing_to_commit() -> Failure {
    Failure::UnexpectedComportement("Fail to create commit"@)
}

/// The root tree that is stored under `hash` with the children `nodes`.
pub open spec fn root_of(hash: Seq<char>, nodes: Seq<NodeView>) -> NodeView {
    NodeView::Tree(TreeView { hash, name: Seq::empty(), nodes })
}

/// The node `n` without what stands at each of the paths `deleted`, which
/// are given from the directory `rel` below the root of the repository. A
/// path that leads out of the repository takes nothing away.
pub open spec fn without_paths(n: NodeView, rel: Seq<char>, deleted: Seq<Seq<char>>) -> NodeView
    decreases deleted.len(),
{
    if deleted.len() == 0 {
        n
    } else {
        let front = without_paths(n, rel, deleted.drop_last());
        match names_on(located(rel, deleted.last())) {
            Some(names) => without_path(front, names),
            None => front,
        }
    }
}

impl RepositoryView {
    /// The repository after the commit `c` was made: the commit is stored,
    /// unless an object has its hash; its hash is appended to the log of the
    /// current branch and is the head; nothing is staged.
    pub open spec fn with_commit(self, c: CommitView) -> RepositoryView {
        RepositoryView {
            objects: if self.objects.contains_key(c.hash) {
                self.objects
            } else {
                self.objects.insert(c.hash, c.object_text())
            },
            refs: self.logged(self.branch, c.hash),
            head: c.hash,
            staged: null_hash(),
            ..self
        }
    }
}

/// The tree that `commit` makes a commit over, hashed, read with trees at
/// most `fuel` deep. The paths to delete are taken out first. For the first
/// commit it is the staged tree; for every other the tree of the head fused
/// with the staged tree.
pub open spec fn commit_tree(repo: RepositoryView, fuel: nat, rel: Seq<char>) -> Result<
    NodeView,
    Failure,
> {
    if repo.head == null_hash() {
        match load_nodes(repo.objects, repo.staged, fuel) {
            Err(e) => Err(e),
            Ok(staged_nodes) => Ok(
                hashed(without_paths(root_of(repo.staged, staged_nodes), rel, repo.deleted)),
            ),
        }
    } else {
        match read_commit(repo.objects, repo.head) {
            Err(e) => Err(e),
            Ok(last) => match load_nodes(repo.objects, repo.staged, fuel) {
                Err(e) => Err(e),
                Ok(staged_nodes) => match load_nodes(repo.objects, last.tree, fuel) {
                    Err(e) => Err(e),
                    Ok(last_nodes) => {
                        let staged_root = without_paths(
                            root_of(repo.staged, staged_nodes),
                            rel,
                            repo.deleted,
                        );
                        let last_root = without_paths(
                            root_of(last.tree, last_nodes),
                            rel,
                            repo.deleted,
                        );
                        match fused(last_root, staged_root) {
                            None => Err(nothing_to_commit()),
                            Some(result) => Ok(hashed(result)),
                        }
                    },
                },
            },
        }
    }
}

/// The repository after `commit`, read with trees at most `fuel` deep.
/// Nothing changes where nothing is staged. Else the tree of the commit is
/// written to the store, and the commit over its hash is made on top of the
/// head: its parent is the head, the null hash for the first commit.
pub open spec fn committed(repo: RepositoryView, fuel: nat, rel: Seq<char>) -> Result<
    RepositoryView,
    Failure,
> {
    if repo.staged == null_hash() {
        Ok(repo)
    } else {
        match commit_tree(repo, fuel, rel) {
            Err(e) => Err(e),
            Ok(done) => Ok(
                (RepositoryView { objects: stored(repo.objects, done), ..repo }).with_commit(
                    CommitView::made(done.hash(), repo.head, repo.message),
                ),
            ),
        }
    }
}

impl Commit {
    /// Stores this commit, unless an object has its hash; appends its hash
    /// to the log of the current branch, makes it the head, and leaves
    /// nothing staged.
    pub fn transcript_commit_to_file(&self, repository: &mut Repository)
        ensures
            final(repository)@ == old(repository)@.with_commit(self@),
    {
        repository.objects.put(self.hash.clone(), self.write_commit());
        let branch = repository.branch.clone();
        repository.append_to_log(&branch, self.hash.clone());
        repository.head = self.hash.clone();
        repository.staged = String::from_str(NULL_HASH);
    }
}

/// Makes the commit over the tree `commit_tree_hash` with the parent
/// `last_commit_hash`, and returns it.
pub fn create_commit(
    description: String,
    last_commit_hash: String,
    commit_tree_hash: String,
    repository: &mut Repository,
) -> (out: Commit)
    ensures
        out@ == CommitView::made(commit_tree_hash@, last_commit_hash@, description@),
        final(repository)@ == old(repository)@.with_commit(out@),
{
    let parent = last_commit_hash;
    let tree = commit_tree_hash;
    let commit = Commit::new(tree, parent, description);
    commit.transcript_commit_to_file(repository);
    commit
}

/// Whether the current branch has no commit yet.
pub fn is_first_commit(repository: &Repository) -> (out: bool)
    ensures
        out == (repository@.head == null_hash()),
{
    repository.head == String::from_str(NULL_HASH)
}

/// Takes what stands at each of the paths `deleted` out of `root`.
pub fn remove_deleted(root: &mut NodeType, rel_to_dit: &String, deleted: &Vec<String>)
    ensures
        final(root)@ == without_paths(old(root)@, rel_to_dit@, texts_view(deleted@)),
{
    let ghost all = texts_view(deleted@);
    let mut i: usize = 0;
    while i < deleted.len()
        invariant
            0 <= i <= deleted@.len(),
            all == texts_view(deleted@),
            root@ == without_paths(old(root)@, rel_to_dit@, all.take(i as int)),
        decreases deleted@.len() - i,
    {
        proof {
            assert(all.take(i + 1).drop_last() =~= all.take(i as int));
        }
        let real_path = path_from_dit(&deleted[i], rel_to_dit);
        match path_names(&real_path) {
            Some(names) => {
                crate::objects::builder::find_element_to_remove(root, &names);
            },
            None => {},
        }
        i += 1;
    }
    proof {
        assert(all.take(i as int) =~= all);
    }
}

/// The root tree stored under `hash`, with all that is below it.
pub fn load_root(hash: &String, repository: &Repository) -> (out: Result<NodeType, DitError>)
    ensures
        match load_nodes(repository@.objects, hash@, repository.objects.objects@.len()) {
            Ok(nodes) => out is Ok && out->Ok_0@ == root_of(hash@, nodes),
            Err(e) => out is Err && out->Err_0@ == e,
        },
{
    let mut tree = Tree::default();
    match tree.get_tree_from_file(hash.clone(), &repository.objects) {
        Ok(()) => {
            tree.set_hash(hash.clone());
            Ok(NodeType::Tree(tree))
        },
        Err(e) => Err(e),
    }
}

/// Makes a commit of what is staged, with the stored message as
/// description. The paths to delete are given from the directory
/// `rel_to_dit` below the root of the repository. On an error the
/// repository stays as it is.
pub fn commit(repository: &mut Repository, rel_to_dit: &String) -> (out: Result<(), DitError>)
    ensures
        match committed(old(repository)@, old(repository).objects.objects@.len(), rel_to_dit@) {
            Ok(after) => out is Ok && final(repository)@ == after,
            Err(e) => out is Err && out->Err_0@ == e && final(repository)@ == old(repository)@,
        },
{
    if repository.staged == String::from_str(NULL_HASH) {
        return Ok(());
    }
    let description = repository.message.clone();
    let staged_hash = repository.staged.clone();
    let last_commit_hash = repository.head.clone();
    let mut result = if is_first_commit(repository) {
        let mut staged_root = match load_root(&staged_hash, repository) {
            Ok(n) => n,
            Err(e) => {
                return Err(e);
            },
        };
        remove_deleted(&mut staged_root, rel_to_dit, &repository.deleted);
        staged_root
    } else {
        let last_commit = match Commit::get_commit_from_file(
            last_commit_hash.clone(),
            &repository.objects,
        ) {
            Ok(c) => c,
            Err(e) => {
                return Err(e);
            },
        };
        let mut staged_root = match load_root(&staged_hash, repository) {
            Ok(n) => n,
            Err(e) => {
                return Err(e);
            },
        };
        let mut last_commit_root = match load_root(last_commit.get_tree(), repository) {
            Ok(n) => n,
            Err(e) => {
                return Err(e);
            },
        };
        remove_deleted(&mut last_commit_root, rel_to_dit, &repository.deleted);
        remove_deleted(&mut staged_root, rel_to_dit, &repository.deleted);
        match NodeType::fuse(last_commit_root, staged_root) {
            Some(fused) => fused,
            None => {
                return Err(DitError::unexpected("Fail to create commit"));
            },
        }
    };
    let commit_tree_hash = result.create_node_hash();
    result.transcript_to_files(&mut repository.objects);
    let _ = create_commit(description, last_commit_hash, commit_tree_hash, repository);
    Ok(())
}

/// Commits form a chain. A repository starts with the null hash as head.
/// Every commit that `commit` makes becomes the head, is appended to the
/// log of the current branch, and has the head before it as parent: the
/// null hash for the first commit, the hash of the commit before for every
/// other. Whatever the store held before, the commit before too, it holds
/// after as it was.
pub proof fn lemma_commit_chains(repo: RepositoryView, fuel: nat, rel: Seq<char>)
    requires
        repo.staged != null_hash(),
        committed(repo, fuel, rel) is Ok,
    ensures
        RepositoryView::fresh().head == null_hash(),
        exists|c: CommitView|
            {
                let after = committed(repo, fuel, rel)->Ok_0;
                &&& #[trigger] c.digest() == c.hash
                &&& c.parent == repo.head
                &&& after.head == c.hash
                &&& after.refs == repo.logged(repo.branch, c.hash)
                &&& after.staged == null_hash()
                &&& after.objects.contains_key(c.hash)
            },
        forall|h: Seq<char>| #[trigger]
            repo.objects.contains_key(h) ==> {
                let after = committed(repo, fuel, rel)->Ok_0;
                after.objects.contains_key(h) && after.objects[h] == repo.objects[h]
            },
{
    let after = committed(repo, fuel, rel)->Ok_0;
    let done = commit_tree(repo, fuel, rel)->Ok_0;
    let c = CommitView::made(done.hash(), repo.head, repo.message);
    assert(c.digest() == c.hash && c.parent == repo.head && after.head == c.hash);
    lemma_stored_keeps(repo.objects, done);
}

/// The staged tree as `commit` reads it from the store.
pub open spec fn staged_root(repo: RepositoryView, fuel: nat) -> NodeView {
    root_of(repo.staged, load_nodes(repo.objects, repo.staged, fuel)->Ok_0)
}

/// The tree of the head as `commit` reads it from the store.
pub open spec fn head_root(repo: RepositoryView, fuel: nat) -> NodeView {
    let last = read_commit(repo.objects, repo.head)->Ok_0;
    root_of(last.tree, load_nodes(repo.objects, last.tree, fuel)->Ok_0)
}

proof fn lemma_removals_keep_kind(n: NodeView, rel: Seq<char>, deleted: Seq<Seq<char>>)
    ensures
        without_paths(n, rel, deleted).kind() == n.kind(),
    decreases deleted.len(),
{
    if deleted.len() > 0 {
        lemma_removals_keep_kind(n, rel, deleted.drop_last());
        match names_on(located(rel, deleted.last())) {
            Some(other) => {
                lemma_without_path_name(without_paths(n, rel, deleted.drop_last()), other);
            },
            None => {},
        }
    }
}

/// The tree of a commit is a tree.
proof fn lemma_commit_tree_kind(repo: RepositoryView, fuel: nat, rel: Seq<char>)
    requires
        commit_tree(repo, fuel, rel) is Ok,
    ensures
        commit_tree(repo, fuel, rel)->Ok_0 is Tree,
{
    lemma_removals_keep_kind(staged_root(repo, fuel), rel, repo.deleted);
    if repo.head != null_hash() {
        lemma_removals_keep_kind(head_root(repo, fuel), rel, repo.deleted);
        lemma_fused_name(
            without_paths(head_root(repo, fuel), rel, repo.deleted),
            without_paths(staged_root(repo, fuel), rel, repo.deleted),
        );
    }
}

proof fn lemma_removals_keep_single(
    n: NodeView,
    rel: Seq<char>,
    deleted: Seq<Seq<char>>,
    names: Seq<Seq<char>>,
)
    requires
        one_per_name(n, names),
    ensures
        one_per_name(without_paths(n, rel, deleted), names),
    decreases deleted.len(),
{
    if deleted.len() > 0 {
        let front = without_paths(n, rel, deleted.drop_last());
        lemma_removals_keep_single(n, rel, deleted.drop_last(), names);
        match names_on(located(rel, deleted.last())) {
            Some(other) => {
                lemma_removal_keeps_single(front, other, names);
            },
            None => {},
        }
    }
}

proof fn lemma_removals_keep_out(
    n: NodeView,
    rel: Seq<char>,
    deleted: Seq<Seq<char>>,
    names: Seq<Seq<char>>,
)
    requires
        !has_path(n, names),
    ensures
        !has_path(without_paths(n, rel, deleted), names),
    decreases deleted.len(),
{
    if deleted.len() > 0 {
        let front = without_paths(n, rel, deleted.drop_last());
        lemma_removals_keep_out(n, rel, deleted.drop_last(), names);
        match names_on(located(rel, deleted.last())) {
            Some(other) => {
                lemma_removal_keeps_out(front, other, names);
            },
            None => {},
        }
    }
}

/// Each of the paths that are taken out leads nowhere afterwards, where at
/// most one child bears the name at each of its steps.
pub proof fn lemma_removals_take_out(
    n: NodeView,
    rel: Seq<char>,
    deleted: Seq<Seq<char>>,
    k: int,
)
    requires
        0 <= k < deleted.len(),
        names_on(located(rel, deleted[k])) is Some,
        names_on(located(rel, deleted[k]))->Some_0.len() > 0,
        one_per_name(n, names_on(located(rel, deleted[k]))->Some_0),
    ensures
        !has_path(without_paths(n, rel, deleted), names_on(located(rel, deleted[k]))->Some_0),
    decreases deleted.len(),
{
    let names = names_on(located(rel, deleted[k]))->Some_0;
    let front = without_paths(n, rel, deleted.drop_last());
    if k == deleted.len() - 1 {
        lemma_removals_keep_single(n, rel, deleted.drop_last(), names);
        lemma_path_taken_out(front, names);
    } else {
        assert(deleted.drop_last()[k] == deleted[k]);
        lemma_removals_take_out(n, rel, deleted.drop_last(), k);
        match names_on(located(rel, deleted.last())) {
            Some(other) => {
                lemma_removal_keeps_out(front, other, names);
            },
            None => {},
        }
    }
}

/// A deleted path stays out of the commit. Where a path is marked for
/// deletion, and at most one child bears the name at each of its steps in
/// the staged tree and in the tree of the head, the tree that `commit`
/// makes the commit over has no node at that path, whatever was staged
/// there and whatever the commit before held there.
pub proof fn lemma_commit_leaves_deleted_out(
    repo: RepositoryView,
    fuel: nat,
    rel: Seq<char>,
    k: int,
)
    requires
        repo.staged != null_hash(),
        commit_tree(repo, fuel, rel) is Ok,
        0 <= k < repo.deleted.len(),
        names_on(located(rel, repo.deleted[k])) is Some,
        names_on(located(rel, repo.deleted[k]))->Some_0.len() > 0,
        one_per_name(staged_root(repo, fuel), names_on(located(rel, repo.deleted[k]))->Some_0),
        repo.head != null_hash() ==> one_per_name(
            head_root(repo, fuel),
            names_on(located(rel, repo.deleted[k]))->Some_0,
        ),
    ensures
        !has_path(
            commit_tree(repo, fuel, rel)->Ok_0,
            names_on(located(rel, repo.deleted[k]))->Some_0,
        ),
{
    let names = names_on(located(rel, repo.deleted[k]))->Some_0;
    let staged = without_paths(staged_root(repo, fuel), rel, repo.deleted);
    lemma_removals_take_out(staged_root(repo, fuel), rel, repo.deleted, k);
    if repo.head == null_hash() {
        lemma_hash_keeps_out(staged, names);
    } else {
        let last = without_paths(head_root(repo, fuel), rel, repo.deleted);
        lemma_removals_take_out(head_root(repo, fuel), rel, repo.deleted, k);
        lemma_fuse_keeps_out(last, staged, names);
        lemma_hash_keeps_out(fused(last, staged)->Some_0, names);
    }
}

/// The tree of a commit is read back from the store as it was made. Where
/// the hash tells the nodes of the tree apart, the store agrees with the
/// tree, each node can stand in a line and the trees are nested no deeper
/// than `depth`, the store after `commit` gives, under the hash of the
/// tree, each child of the tree, a blob with its stored text as content;
/// and a path that the tree lacks, the tree that is read back lacks too.
pub proof fn lemma_commit_tree_is_read_back(
    repo: RepositoryView,
    fuel: nat,
    rel: Seq<char>,
    depth: nat,
)
    requires
        repo.staged != null_hash(),
        commit_tree(repo, fuel, rel) is Ok,
        hash_tells_apart(commit_tree(repo, fuel, rel)->Ok_0),
        agrees(repo.objects, commit_tree(repo, fuel, rel)->Ok_0, Set::empty()),
        readable_below(commit_tree(repo, fuel, rel)->Ok_0),
        nested_within(commit_tree(repo, fuel, rel)->Ok_0, depth),
    ensures
        ({
            let done = commit_tree(repo, fuel, rel)->Ok_0;
            let after = committed(repo, fuel, rel)->Ok_0;
            &&& load_nodes(after.objects, done.hash(), depth) == Ok::<Seq<NodeView>, Failure>(
                read_back_all(done.children()),
            )
            &&& forall|names: Seq<Seq<char>>|
                !has_path(done, names) ==> !#[trigger] has_path(
                    root_of(done.hash(), read_back_all(done.children())),
                    names,
                )
        }),
{
    let done = commit_tree(repo, fuel, rel)->Ok_0;
    let after = committed(repo, fuel, rel)->Ok_0;
    let written = stored(repo.objects, done);
    lemma_commit_tree_kind(repo, fuel, rel);
    lemma_stored_holds(repo.objects, done, done, Set::empty());
    assert(extends(after.objects, written));
    lemma_holds_extends(written, after.objects, done);
    lemma_load_reads_back(after.objects, done, depth);
    assert forall|names: Seq<Seq<char>>| !has_path(done, names) implies !#[trigger] has_path(
        root_of(done.hash(), read_back_all(done.children())),
        names,
    ) by {
        lemma_read_back_keeps_out(done, names);
        assert(read_back(done).children() == read_back_all(done.children()));
    }
}

/// Whether none of the paths `deleted` is the path `names` or a path above
/// it.
pub open spec fn untouched(names: Seq<Seq<char>>, rel: Seq<char>, deleted: Seq<Seq<char>>) -> bool {
    forall|k: int|
        0 <= k < deleted.len() ==> match names_on(located(rel, #[trigger] deleted[k])) {
            Some(other) => other.len() == 0 || !starts_with(names, other),
            None => true,
        }
}

proof fn lemma_removals_keep_paths(
    n: NodeView,
    rel: Seq<char>,
    deleted: Seq<Seq<char>>,
    names: Seq<Seq<char>>,
)
    requires
        has_path(n, names),
        well_formed(n),
        untouched(names, rel, deleted),
    ensures
        has_path(without_paths(n, rel, deleted), names),
        well_formed(without_paths(n, rel, deleted)),
    decreases deleted.len(),
{
    if deleted.len() > 0 {
        let rest = deleted.drop_last();
        assert forall|k: int| 0 <= k < rest.len() implies match names_on(
            located(rel, #[trigger] rest[k]),
        ) {
            Some(other) => other.len() == 0 || !starts_with(names, other),
            None => true,
        } by {
            assert(rest[k] == deleted[k]);
        }
        lemma_removals_keep_paths(n, rel, rest, names);
        let front = without_paths(n, rel, rest);
        assert(deleted[deleted.len() - 1] == deleted.last());
        match names_on(located(rel, deleted.last())) {
            Some(other) => {
                lemma_removal_keeps_paths(front, other, names);
                lemma_remove_keeps_unique(front, other);
            },
            None => {},
        }
    }
}

/// A commit keeps what the commit before held. Where no two children of
/// one tree have one name and one kind, in the tree of the head and in the
/// staged tree, a path of the tree of the head that is not marked for
/// deletion, nor stands below a path that is, stands in the tree that
/// `commit` makes the commit over.
pub proof fn lemma_commit_keeps_paths(
    repo: RepositoryView,
    fuel: nat,
    rel: Seq<char>,
    names: Seq<Seq<char>>,
)
    requires
        repo.staged != null_hash(),
        repo.head != null_hash(),
        commit_tree(repo, fuel, rel) is Ok,
        well_formed(head_root(repo, fuel)),
        well_formed(staged_root(repo, fuel)),
        has_path(head_root(repo, fuel), names),
        untouched(names, rel, repo.deleted),
    ensures
        has_path(commit_tree(repo, fuel, rel)->Ok_0, names),
{
    let last = without_paths(head_root(repo, fuel), rel, repo.deleted);
    let staged = without_paths(staged_root(repo, fuel), rel, repo.deleted);
    lemma_removals_keep_paths(head_root(repo, fuel), rel, repo.deleted, names);
    lemma_removals_keep_unique(staged_root(repo, fuel), rel, repo.deleted);
    lemma_fuse_keeps_paths(last, staged, names);
    lemma_hash_keeps_paths(fused(last, staged)->Some_0, names);
}

proof fn lemma_removals_keep_unique(n: NodeView, rel: Seq<char>, deleted: Seq<Seq<char>>)
    requires
        well_formed(n),
    ensures
        well_formed(without_paths(n, rel, deleted)),
    decreases deleted.len(),
{
    if deleted.len() > 0 {
        lemma_removals_keep_unique(n, rel, deleted.drop_last());
        match names_on(located(rel, deleted.last())) {
            Some(other) => {
                lemma_remove_keeps_unique(without_paths(n, rel, deleted.drop_last()), other);
            },
            None => {},
        }
    }
}

/// A new commit is read back and differs from the head before it. Where
/// the store holds nothing under the hash of the commit that `commit`
/// makes, and the hash of its tree and the head have forty characters, the
/// commit that the store holds under the new head is that commit, with the
/// head before as parent; and the new head is not the head before, where a
/// commit stands under that.
pub proof fn lemma_new_commit_is_read_back(repo: RepositoryView, fuel: nat, rel: Seq<char>)
    requires
        repo.staged != null_hash(),
        commit_tree(repo, fuel, rel) is Ok,
        commit_tree(repo, fuel, rel)->Ok_0.hash().len() == 40,
        repo.head.len() == 40,
        !stored(repo.objects, commit_tree(repo, fuel, rel)->Ok_0).contains_key(
            CommitView::made(
                commit_tree(repo, fuel, rel)->Ok_0.hash(),
                repo.head,
                repo.message,
            ).hash,
        ),
    ensures
        ({
            let done = commit_tree(repo, fuel, rel)->Ok_0;
            let made = CommitView::made(done.hash(), repo.head, repo.message);
            let after = committed(repo, fuel, rel)->Ok_0;
            &&& read_commit(after.objects, after.head) == Ok::<CommitView, Failure>(made)
            &&& made.parent == repo.head
            &&& repo.objects.contains_key(repo.head) ==> after.head != repo.head
        }),
{
    let done = commit_tree(repo, fuel, rel)->Ok_0;
    let made = CommitView::made(done.hash(), repo.head, repo.message);
    lemma_commit_text_reads_back(made);
    lemma_stored_keeps(repo.objects, done);
}

} // verus!
