//! Going back to a commit of the current branch.

use vstd::prelude::*;
use crate::error::{DitError, Failure};
use crate::features::checkout::Switch;
use crate::features::history::has_commit;
use crate::objects::commit::{Commit, read_commit};
use crate::objects::materialize::{FsAction, steps_view};
use crate::repository::{Repository, RepositoryView, null_hash};
use crate::utils::NULL_HASH;

verus! {

/// The return to the commit `hash` of the current branch, with the working
/// directory at `dir`. Nothing happens where the branch has no such commit,
/// or no commit at all. Else the tree of the head is taken away, the tree
/// of that commit is set out, and that commit is the head.
pub open spec fn reverted(
    repo: RepositoryView,
    fuel: nat,
    hash: Seq<char>,
    dir: Seq<char>,
) -> Result<Switch, Failure> {
    match repo.commit_list(repo.branch) {
        Err(e) => Err(e),
        Ok(commits) => if !has_commit(commits, hash) || repo.head == null_hash() {
            Ok(Switch { repository: repo, plan: Seq::empty() })
        } else {
            match read_commit(repo.objects, repo.head) {
                Err(e) => Err(e),
                Ok(current) => match repo.plan_to_delete(current, dir, fuel) {
                    Err(e) => Err(e),
                    Ok(away) => match read_commit(repo.objects, hash) {
                        Err(e) => Err(e),
                        Ok(target) => match repo.plan_to_create(target, dir, fuel) {
                            Err(e) => Err(e),
                            Ok(out) => Ok(
                                Switch {
                                    repository: RepositoryView { head: target.hash, ..repo },
                                    plan: away + out,
                                },
                            ),
                        },
                    },
                },
            }
        },
    }
}

/// Goes back to the commit `hash` of the current branch, and returns the
/// steps that bring the working directory at `project_path` from the head
/// to that commit. On an error the repository stays as it is.
pub fn revert(hash: String, project_path: &String, repository: &mut Repository) -> (out: Result<
    Vec<FsAction>,
    DitError,
>)
    ensures
        match reverted(
            old(repository)@,
            old(repository).objects.objects@.len(),
            hash@,
            project_path@,
        ) {
            Ok(switch) => out is Ok && steps_view(out->Ok_0@) == switch.plan && final(repository)@
                == switch.repository,
            Err(e) => out is Err && out->Err_0@ == e && final(repository)@ == old(repository)@,
        },
{
    let known = match Commit::commit_exist(&hash, repository) {
        Ok(known) => known,
        Err(e) => {
            return Err(e);
        },
    };
    if !known || repository.head == String::from_str(NULL_HASH) {
        return Ok(Vec::new());
    }
    let current = match Commit::get_commit_from_file(repository.head.clone(), &repository.objects) {
        Ok(c) => c,
        Err(e) => {
            return Err(e);
        },
    };
    let mut plan = match current.delete_files(project_path.clone(), repository) {
        Ok(plan) => plan,
        Err(e) => {
            return Err(e);
        },
    };
    let commit = match Commit::get_commit_from_file(hash, &repository.objects) {
        Ok(c) => c,
        Err(e) => {
            return Err(e);
        },
    };
    let mut out = match commit.recreate_files(project_path.clone(), repository) {
        Ok(out) => out,
        Err(e) => {
            return Err(e);
        },
    };
    plan.append(&mut out);
    repository.head = commit.hash.clone();
    Ok(plan)
}

} // verus!
