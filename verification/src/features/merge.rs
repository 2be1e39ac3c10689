//! Merging a branch into the current one.

use vstd::prelude::*;
use crate::error::{DitError, Failure};
use crate::features::commit::{create_commit, load_root, root_of};
use crate::objects::branch::Branch;
use crate::objects::commit::{Commit, CommitView, read_commit};
use crate::objects::conflict::{
    is_marked_blob, lemma_marks_are_read_back, lemma_merge_marks_conflict,
};
use crate::objects::node_type::{Kind, NodeType, NodeView, hashed, index_of_named, merged};
use crate::objects::roundtrip::{
    agrees, extends, hash_tells_apart, lemma_holds_extends, lemma_load_reads_back,
    lemma_stored_holds, nested_within, read_back_all, readable_below,
};
use crate::objects::transcript::{load_nodes, stored};
use crate::repository::{Repository, RepositoryView};

verus! {

/// The description of the commit that merges the branch `target` into the
/// branch `current`.
pub open spec fn merge_description(current: Seq<char>, target: Seq<char>) -> Seq<char> {
    "merge "@ + current + " and "@ + target
}

/// The two trees that a merge of the branch `name` into the current one
/// merges, read with trees at most `fuel` deep: the tree of the head, and
/// the tree of the last commit of that branch.
pub open spec fn merge_pair(repo: RepositoryView, fuel: nat, name: Seq<char>) -> Result<
    (NodeView, NodeView),
    Failure,
> {
    match repo.branch_at(name) {
        Err(e) => Err(e),
        Ok(target) => match read_commit(repo.objects, repo.head) {
            Err(e) => Err(e),
            Ok(current_commit) => match read_commit(repo.objects, target.head) {
                Err(e) => Err(e),
                Ok(target_commit) => match load_nodes(repo.objects, target_commit.tree, fuel) {
                    Err(e) => Err(e),
                    Ok(theirs) => match load_nodes(repo.objects, current_commit.tree, fuel) {
                        Err(e) => Err(e),
                        Ok(ours) => Ok(
                            (
                                root_of(current_commit.tree, ours),
                                root_of(target_commit.tree, theirs),
                            ),
                        ),
                    },
                },
            },
        },
    }
}

/// The repository after the branch `name` was merged into the current one,
/// read with trees at most `fuel` deep: the trees of the two heads are
/// merged, the outcome is hashed and stored, and a commit over it is made
/// on top of the head, with the head as parent.
pub open spec fn branch_merged(repo: RepositoryView, fuel: nat, name: Seq<char>) -> Result<
    RepositoryView,
    Failure,
> {
    match merge_pair(repo, fuel, name) {
        Err(e) => Err(e),
        Ok((ours, theirs)) => match merged(ours, theirs) {
            None => Ok(repo),
            Some(outcome) => {
                let done = hashed(outcome);
                Ok(
                    (RepositoryView { objects: stored(repo.objects, done), ..repo }).with_commit(
                        CommitView::made(
                            done.hash(),
                            repo.head,
                            merge_description(repo.branch, name),
                        ),
                    ),
                )
            },
        },
    }
}

/// Merges the branch `name` into the current branch: the trees of the two
/// heads are merged, and a commit over the outcome is made on top of the
/// head. On an error the repository stays as it is.
pub fn merge(name: &String, repository: &mut Repository) -> (out: Result<(), DitError>)
    ensures
        match branch_merged(old(repository)@, old(repository).objects.objects@.len(), name@) {
            Ok(after) => out is Ok && final(repository)@ == after,
            Err(e) => out is Err && out->Err_0@ == e && final(repository)@ == old(repository)@,
        },
{
    let target_branch = match Branch::get_branch(name.clone(), repository) {
        Ok(b) => b,
        Err(e) => {
            return Err(e);
        },
    };
    let current_branch = Branch::get_current_branch(repository);
    let current_commit = match Commit::get_commit_from_file(
        current_branch.head.clone(),
        &repository.objects,
    ) {
        Ok(c) => c,
        Err(e) => {
            return Err(e);
        },
    };
    let target_commit = match Commit::get_commit_from_file(
        target_branch.head.clone(),
        &repository.objects,
    ) {
        Ok(c) => c,
        Err(e) => {
            return Err(e);
        },
    };
    let target_node = match load_root(&target_commit.tree, repository) {
        Ok(n) => n,
        Err(e) => {
            return Err(e);
        },
    };
    let current_node = match load_root(&current_commit.tree, repository) {
        Ok(n) => n,
        Err(e) => {
            return Err(e);
        },
    };
    match NodeType::merge(current_node, target_node) {
        Some(mut outcome) => {
            let tree = outcome.create_node_hash();
            outcome.transcript_to_files(&mut repository.objects);
            let mut desc = String::from_str("merge ");
            desc.append(current_branch.name.as_str());
            desc.append(" and ");
            desc.append(target_branch.name.as_str());
            let _ = create_commit(desc, current_branch.head.clone(), tree, repository);
            Ok(())
        },
        None => Ok(()),
    }
}

/// A merge of two branches marks the conflict in the stored tree. Where
/// the tree of the head holds a blob at place `i`, the tree of the other
/// branch holds a blob of that name, and the two are not equal and differ
/// in content, the merge makes a commit on top of the head and appends it
/// to the log of the current branch. Where, besides, the hash tells the
/// nodes of the merged tree apart, the store agrees with that tree, each
/// node can stand in a line and the trees are nested no deeper than
/// `depth`, the tree of that commit, read from the store after the merge,
/// holds at place `i` a blob of that name whose content has a conflict
/// block.
pub proof fn lemma_branch_merge_marks_conflict(
    repo: RepositoryView,
    fuel: nat,
    name: Seq<char>,
    i: int,
    depth: nat,
)
    requires
        merge_pair(repo, fuel, name) is Ok,
        ({
            let ours = merge_pair(repo, fuel, name)->Ok_0.0;
            let theirs = merge_pair(repo, fuel, name)->Ok_0.1;
            &&& 0 <= i < ours.children().len()
            &&& ours.children()[i] is Blob
            &&& index_of_named(theirs.children(), ours.children()[i].name(), Kind::Blob)
                < theirs.children().len()
            &&& {
                let mine = ours.children()[i];
                let other = theirs.children()[index_of_named(
                    theirs.children(),
                    mine.name(),
                    Kind::Blob,
                )];
                !(mine.same(other) && mine.name().len() > 0) && mine->Blob_0.content
                    != other->Blob_0.content
            }
            &&& {
                let done = hashed(merged(ours, theirs)->Some_0);
                &&& hash_tells_apart(done)
                &&& agrees(repo.objects, done, Set::empty())
                &&& readable_below(done)
                &&& nested_within(done, depth)
            }
        }),
    ensures
        branch_merged(repo, fuel, name) is Ok,
        ({
            let ours = merge_pair(repo, fuel, name)->Ok_0.0;
            let theirs = merge_pair(repo, fuel, name)->Ok_0.1;
            let done = hashed(merged(ours, theirs)->Some_0);
            let made = CommitView::made(
                done.hash(),
                repo.head,
                merge_description(repo.branch, name),
            );
            let after = branch_merged(repo, fuel, name)->Ok_0;
            &&& made.parent == repo.head
            &&& after.head == made.hash
            &&& after.refs == repo.logged(repo.branch, made.hash)
            &&& load_nodes(after.objects, made.tree, depth) == Ok::<Seq<NodeView>, Failure>(
                read_back_all(done.children()),
            )
            &&& i < read_back_all(done.children()).len()
            &&& is_marked_blob(read_back_all(done.children())[i], ours.children()[i].name())
        }),
{
    let ours = merge_pair(repo, fuel, name)->Ok_0.0;
    let theirs = merge_pair(repo, fuel, name)->Ok_0.1;
    lemma_merge_marks_conflict(ours, theirs, i);
    let outcome = merged(ours, theirs)->Some_0;
    let done = hashed(outcome);
    let after = branch_merged(repo, fuel, name)->Ok_0;
    let written = stored(repo.objects, done);
    lemma_marks_are_read_back(outcome, i, ours.children()[i].name());
    lemma_stored_holds(repo.objects, done, done, Set::empty());
    assert(extends(after.objects, written));
    lemma_holds_extends(written, after.objects, done);
    lemma_load_reads_back(after.objects, done, depth);
}

} // verus!
