//! Switching to a branch.

use vstd::prelude::*;
use crate::error::{DitError, Failure};
use crate::objects::branch::Branch;
use crate::objects::commit::{Commit, read_commit};
use crate::objects::materialize::{FsAction, FsStep, steps_view};
use crate::repository::{Repository, RepositoryView, null_hash};
use crate::utils::NULL_HASH;

verus! {

/// What a switch gives: the repository after it, and the steps to take on
/// the working directory.
pub struct Switch {
    pub repository: RepositoryView,
    pub plan: Seq<FsStep>,
}

/// The switch to the branch `name`, with the working directory at `dir`.
/// Nothing happens where the branch has no log. Else the tree of the head
/// is taken away, the tree of the last commit of the branch is set out, and
/// the branch is the current one with that commit as head; a branch
/// without a commit is the current one with the null hash as head.
pub open spec fn checked_out(
    repo: RepositoryView,
    fuel: nat,
    name: Seq<char>,
    dir: Seq<char>,
) -> Result<Switch, Failure> {
    if !repo.has_branch(name) {
        Ok(Switch { repository: repo, plan: Seq::empty() })
    } else {
        match read_commit(repo.objects, repo.head) {
            Err(e) => Err(e),
            Ok(current) => match repo.plan_to_delete(current, dir, fuel) {
                Err(e) => Err(e),
                Ok(away) => match repo.commit_list(name) {
                    Err(e) => Err(e),
                    Ok(commits) => if commits.len() == 0 {
                        Ok(
                            Switch {
                                repository: RepositoryView {
                                    branch: name,
                                    head: null_hash(),
                                    ..repo
                                },
                                plan: away,
                            },
                        )
                    } else {
                        match repo.plan_to_create(commits.last(), dir, fuel) {
                            Err(e) => Err(e),
                            Ok(out) => Ok(
                                Switch {
                                    repository: RepositoryView {
                                        branch: name,
                                        head: commits.last().hash,
                                        ..repo
                                    },
                                    plan: away + out,
                                },
                            ),
                        }
                    },
                },
            },
        }
    }
}

/// Switches to the branch `name`, and returns the steps that bring the
/// working directory at `project_path` from the head to the last commit of
/// that branch. On an error the repository stays as it is.
pub fn checkout(name: &String, project_path: &String, repository: &mut Repository) -> (out: Result<
    Vec<FsAction>,
    DitError,
>)
    ensures
        match checked_out(
            old(repository)@,
            old(repository).objects.objects@.len(),
            name@,
            project_path@,
        ) {
            Ok(switch) => out is Ok && steps_view(out->Ok_0@) == switch.plan && final(repository)@
                == switch.repository,
            Err(e) => out is Err && out->Err_0@ == e && final(repository)@ == old(repository)@,
        },
{
    if !Branch::exist(name.clone(), repository) {
        return Ok(Vec::new());
    }
    let current = match Commit::get_commit_from_file(repository.head.clone(), &repository.objects) {
        Ok(c) => c,
        Err(e) => {
            return Err(e);
        },
    };
    let mut plan = match current.delete_files(project_path.clone(), repository) {
        Ok(plan) => plan,
        Err(e) => {
            return Err(e);
        },
    };
    let branch_commits = match Commit::get_commit_list(name.clone(), repository) {
        Ok(commits) => commits,
        Err(e) => {
            return Err(e);
        },
    };
    if branch_commits.len() == 0 {
        Branch::set_info_file(name.clone(), String::from_str(NULL_HASH), repository);
        return Ok(plan);
    }
    let last = &branch_commits[branch_commits.len() - 1];
    let mut out = match last.recreate_files(project_path.clone(), repository) {
        Ok(out) => out,
        Err(e) => {
            return Err(e);
        },
    };
    plan.append(&mut out);
    Branch::set_info_file(name.clone(), last.hash.clone(), repository);
    Ok(plan)
}

} // verus!
