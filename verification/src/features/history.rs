//! Reading the commits of a branch, and setting a commit out in the working
//! directory.

use vstd::prelude::*;
use crate::error::{DitError, Failure};
use crate::features::commit::{load_root, root_of};
use crate::objects::branch::{Branch, missing_branch};
use crate::objects::commit::{Commit, CommitView, read_commit};
use crate::objects::materialize::{FsAction, FsStep, creation_plan, deletion_plan, steps_view};
use crate::objects::node::{Node, commit_tree};
use crate::objects::transcript::load_nodes;
use crate::repository::{Repository, RepositoryView};
use crate::text::texts_view;

verus! {

/// The commits stored under `hashes`, in order; the first hash that fails
/// decides the error.
pub open spec fn commits_read(store: Map<Seq<char>, Seq<char>>, hashes: Seq<Seq<char>>) -> Result<
    Seq<CommitView>,
    Failure,
>
    decreases hashes.len(),
{
    if hashes.len() == 0 {
        Ok(Seq::empty())
    } else {
        match commits_read(store, hashes.drop_last()) {
            Err(e) => Err(e),
            Ok(front) => match read_commit(store, hashes.last()) {
                Err(e) => Err(e),
                Ok(c) => Ok(front.push(c)),
            },
        }
    }
}

/// Once a front part of `hashes` fails, all of `hashes` fails with its
/// error.
pub(crate) proof fn lemma_commits_read_fails(
    store: Map<Seq<char>, Seq<char>>,
    hashes: Seq<Seq<char>>,
    k: int,
)
    requires
        0 <= k <= hashes.len(),
        commits_read(store, hashes.take(k)) is Err,
    ensures
        commits_read(store, hashes) == commits_read(store, hashes.take(k)),
    decreases hashes.len() - k,
{
    if k < hashes.len() {
        assert(hashes.take(k + 1).drop_last() =~= hashes.take(k));
        lemma_commits_read_fails(store, hashes, k + 1);
    } else {
        assert(hashes.take(k) =~= hashes);
    }
}

/// The commits that the items of `v` hold.
pub open spec fn commits_view(v: Seq<Commit>) -> Seq<CommitView> {
    v.map_values(|c: Commit| c@)
}

/// Whether one of `commits` has the hash `hash`.
pub open spec fn has_commit(commits: Seq<CommitView>, hash: Seq<char>) -> bool {
    exists|i: int| 0 <= i < commits.len() && (#[trigger] commits[i]).hash == hash
}

impl RepositoryView {
    /// The commits of the branch `name`, read from the store in the order
    /// of its log.
    pub open spec fn commit_list(self, name: Seq<char>) -> Result<Seq<CommitView>, Failure> {
        if !self.has_branch(name) {
            Err(missing_branch())
        } else {
            commits_read(self.objects, self.commits_of(name))
        }
    }

    /// The steps that set the tree of the commit `c` out in the directory
    /// `dir`, read with trees at most `fuel` deep.
    pub open spec fn plan_to_create(self, c: CommitView, dir: Seq<char>, fuel: nat) -> Result<
        Seq<FsStep>,
        Failure,
    > {
        match load_nodes(self.objects, c.tree, fuel) {
            Ok(nodes) => Ok(creation_plan(root_of(c.tree, nodes), dir)),
            Err(e) => Err(e),
        }
    }

    /// The steps that take the tree of the commit `c` away from the
    /// directory `dir`, read with trees at most `fuel` deep.
    pub open spec fn plan_to_delete(self, c: CommitView, dir: Seq<char>, fuel: nat) -> Result<
        Seq<FsStep>,
        Failure,
    > {
        match load_nodes(self.objects, c.tree, fuel) {
            Ok(nodes) => Ok(deletion_plan(root_of(c.tree, nodes), dir)),
            Err(e) => Err(e),
        }
    }
}

impl Commit {
    /// The commits of the branch `branch_name`, in the order of its log.
    pub fn get_commit_list(branch_name: String, repository: &Repository) -> (out: Result<
        Vec<Commit>,
        DitError,
    >)
        ensures
            match out {
                Ok(commits) => repository@.commit_list(branch_name@) == Ok::<
                    Seq<CommitView>,
                    Failure,
                >(commits_view(commits@)),
                Err(e) => repository@.commit_list(branch_name@) == Err::<Seq<CommitView>, Failure>(
                    e@,
                ),
            },
    {
        let k = repository.position_of_branch(&branch_name);
        if k >= repository.refs.len() {
            return Err(DitError::io("branch not found"));
        }
        let log = &repository.refs[k].commits;
        let ghost all = texts_view(log@);
        let mut commits: Vec<Commit> = Vec::new();
        let mut i: usize = 0;
        proof {
            assert(commits_view(commits@) =~= Seq::<CommitView>::empty());
        }
        while i < log.len()
            invariant
                0 <= i <= log@.len(),
                all == texts_view(log@),
                repository@.has_branch(branch_name@),
                all == repository@.commits_of(branch_name@),
                commits_read(repository@.objects, all.take(i as int)) == Ok::<
                    Seq<CommitView>,
                    Failure,
                >(commits_view(commits@)),
            decreases log@.len() - i,
        {
            proof {
                assert(all.take(i + 1).drop_last() =~= all.take(i as int));
            }
            match Commit::get_commit_from_file(log[i].clone(), &repository.objects) {
                Ok(c) => {
                    proof {
                        assert(commits_view(commits@.push(c)) =~= commits_view(commits@).push(c@));
                    }
                    commits.push(c);
                },
                Err(e) => {
                    proof {
                        lemma_commits_read_fails(repository@.objects, all, i + 1);
                    }
                    return Err(e);
                },
            }
            i += 1;
        }
        proof {
            assert(all.take(i as int) =~= all);
        }
        Ok(commits)
    }

    /// Whether the current branch has a commit with the hash `hash`.
    pub fn commit_exist(hash: &String, repository: &Repository) -> (out: Result<bool, DitError>)
        ensures
            match repository@.commit_list(repository@.branch) {
                Ok(commits) => out is Ok && out->Ok_0 == has_commit(commits, hash@),
                Err(e) => out is Err && out->Err_0@ == e,
            },
    {
        let branch = Branch::get_current_branch(repository);
        let commits = match Commit::get_commit_list(branch.name, repository) {
            Ok(commits) => commits,
            Err(e) => {
                return Err(e);
            },
        };
        let mut i: usize = 0;
        while i < commits.len()
            invariant
                0 <= i <= commits@.len(),
                repository@.commit_list(repository@.branch) == Ok::<Seq<CommitView>, Failure>(
                    commits_view(commits@),
                ),
                forall|j: int| 0 <= j < i ==> (#[trigger] commits_view(commits@)[j]).hash != hash@,
            decreases commits@.len() - i,
        {
            if commits[i].hash == *hash {
                proof {
                    assert(commits_view(commits@)[i as int].hash == hash@);
                }
                return Ok(true);
            }
            i += 1;
        }
        Ok(false)
    }

    /// The commits of `branch` as a tree: the first commit of the log is
    /// the root, each other commit stands below its parent. Nothing comes
    /// back for a branch without a commit.
    pub fn create_commit_tree(branch: Branch, repository: &Repository) -> (out: Result<
        Option<Node>,
        DitError,
    >)
        ensures
            match repository@.commit_list(branch@.name) {
                Ok(commits) => out is Ok && (match out->Ok_0 {
                    Some(root) => commit_tree(commits, commits.len() as int) == Some(root@),
                    None => commit_tree(commits, commits.len() as int) is None,
                }),
                Err(e) => out is Err && out->Err_0@ == e,
            },
    {
        let commits = match Commit::get_commit_list(branch.name, repository) {
            Ok(commits) => commits,
            Err(e) => {
                return Err(e);
            },
        };
        let ghost all = commits_view(commits@);
        let mut root: Option<Node> = None;
        let mut i: usize = 0;
        while i < commits.len()
            invariant
                0 <= i <= commits@.len(),
                all == commits_view(commits@),
                match root {
                    Some(r) => commit_tree(all, i as int) == Some(r@),
                    None => commit_tree(all, i as int) is None,
                },
            decreases commits@.len() - i,
        {
            let node = Node::new(commits[i].clone(), Vec::new());
            let mut top = match root {
                Some(r) => r,
                None => node.clone(),
            };
            top.add_child_to_tree(&node);
            root = Some(top);
            i += 1;
        }
        Ok(root)
    }

    /// The steps that set the tree of this commit out in the directory
    /// `project_path`.
    pub fn recreate_files(&self, project_path: String, repository: &Repository) -> (out: Result<
        Vec<FsAction>,
        DitError,
    >)
        ensures
            match repository@.plan_to_create(
                self@,
                project_path@,
                repository.objects.objects@.len(),
            ) {
                Ok(plan) => out is Ok && steps_view(out->Ok_0@) == plan,
                Err(e) => out is Err && out->Err_0@ == e,
            },
    {
        match load_root(&self.tree, repository) {
            Ok(root) => Ok(root.create_element(project_path)),
            Err(e) => Err(e),
        }
    }

    /// The steps that take the tree of this commit away from the directory
    /// `project_path`.
    pub fn delete_files(&self, project_path: String, repository: &Repository) -> (out: Result<
        Vec<FsAction>,
        DitError,
    >)
        ensures
            match repository@.plan_to_delete(
                self@,
                project_path@,
                repository.objects.objects@.len(),
            ) {
                Ok(plan) => out is Ok && steps_view(out->Ok_0@) == plan,
                Err(e) => out is Err && out->Err_0@ == e,
            },
    {
        match load_root(&self.tree, repository) {
            Ok(root) => Ok(root.delete_element(project_path)),
            Err(e) => Err(e),
        }
    }
}

} // verus!
