//! Marking paths for deletion at the next commit.

use vstd::prelude::*;
use crate::repository::{Repository, RepositoryView, null_hash};
use crate::text::texts_view;
use crate::utils::NULL_HASH;

verus! {

/// Marks each of `elements` for deletion at the next commit. Nothing is
/// marked where nothing is staged.
pub fn delete(elements: Vec<String>, repository: &mut Repository)
    ensures
        old(repository)@.staged == null_hash() ==> final(repository)@ == old(repository)@,
        old(repository)@.staged != null_hash() ==> final(repository)@ == (RepositoryView {
            deleted: old(repository)@.deleted + texts_view(elements@),
            ..old(repository)@
        }),
{
    if repository.staged == String::from_str(NULL_HASH) {
        return ;
    }
    let mut elements = elements;
    proof {
        assert(texts_view(repository.deleted@ + elements@) =~= texts_view(repository.deleted@)
            + texts_view(elements@));
    }
    repository.deleted.append(&mut elements);
}

/// The paths that are marked for deletion, in the order in which they were
/// marked.
pub fn get_deleted_elements(repository: &Repository) -> (out: Option<Vec<String>>)
    ensures
        out is Some,
        texts_view(out->Some_0@) == repository@.deleted,
{
    let mut out: Vec<String> = Vec::new();
    let mut i: usize = 0;
    while i < repository.deleted.len()
        invariant
            0 <= i <= repository.deleted@.len(),
            out@.len() == i,
            forall|j: int| 0 <= j < i ==> (#[trigger] out@[j])@ == repository.deleted@[j]@,
        decreases repository.deleted@.len() - i,
    {
        out.push(repository.deleted[i].clone());
        i += 1;
    }
    Some(out)
}

} // verus!
