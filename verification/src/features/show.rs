//! Showing the commits of the current branch.

use vstd::prelude::*;
use crate::error::DitError;
use crate::objects::branch::Branch;
use crate::objects::commit::Commit;
use crate::objects::node::{Node, commit_tree};
use crate::repository::Repository;

verus! {

/// The commits of the current branch as a tree, to show.
pub fn show_commit(repository: &Repository) -> (out: Result<Option<Node>, DitError>)
    ensures
        match repository@.commit_list(repository@.branch) {
            Ok(commits) => out is Ok && (match out->Ok_0 {
                Some(root) => commit_tree(commits, commits.len() as int)
                    == Some(root@),
                None => commit_tree(commits, commits.len() as int) is None,
            }),
            Err(e) => out is Err && out->Err_0@ == e,
        },
{
    let branch = Branch::get_current_branch(repository);
    Commit::create_commit_tree(branch, repository)
}

} // verus!
