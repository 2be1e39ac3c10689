//! Taking paths out of what is staged.

use vstd::prelude::*;
use crate::error::{DitError, Failure};
use crate::features::add::{restaged, stage_root};
use crate::features::commit::{load_root, remove_deleted, root_of, without_paths};
use crate::objects::transcript::load_nodes;
use crate::repository::{Repository, RepositoryView, null_hash};
use crate::text::texts_view;
use crate::utils::NULL_HASH;

verus! {

/// The repository after `rm`, read with trees at most `fuel` deep. Nothing
/// changes where there is no path to take out, or nothing is staged.
pub open spec fn unstaged(
    repo: RepositoryView,
    fuel: nat,
    rel: Seq<char>,
    elements: Seq<Seq<char>>,
) -> Result<RepositoryView, Failure> {
    if elements.len() == 0 || repo.staged == null_hash() {
        Ok(repo)
    } else {
        match load_nodes(repo.objects, repo.staged, fuel) {
            Err(e) => Err(e),
            Ok(nodes) => Ok(
                restaged(repo, without_paths(root_of(repo.staged, nodes), rel, elements)),
            ),
        }
    }
}

/// Takes each of the paths `elements`, given from the directory
/// `rel_to_dit` below the root of the repository, out of the staged tree,
/// and stages the tree anew. On an error the repository stays as it is.
pub fn rm(elements: Vec<String>, rel_to_dit: &String, repository: &mut Repository) -> (out: Result<
    (),
    DitError,
>)
    ensures
        match unstaged(
            old(repository)@,
            old(repository).objects.objects@.len(),
            rel_to_dit@,
            texts_view(elements@),
        ) {
            Ok(after) => out is Ok && final(repository)@ == after,
            Err(e) => out is Err && out->Err_0@ == e && final(repository)@ == old(repository)@,
        },
{
    if elements.len() == 0 || repository.staged == String::from_str(NULL_HASH) {
        return Ok(());
    }
    let staged_hash = repository.staged.clone();
    let mut root = match load_root(&staged_hash, repository) {
        Ok(root) => root,
        Err(e) => {
            return Err(e);
        },
    };
    remove_deleted(&mut root, rel_to_dit, &elements);
    stage_root(root, repository);
    Ok(())
}

} // verus!
