//! The description of the next commit.

use vstd::prelude::*;
use crate::repository::{Repository, RepositoryView};

verus! {

/// Keeps `message` as the description of the next commit.
pub fn message(message: String, repository: &mut Repository)
    ensures
        final(repository)@ == (RepositoryView { message: message@, ..old(repository)@ }),
{
    repository.message = message;
}

} // verus!
