//! Making a branch.

use vstd::prelude::*;
use crate::error::DitError;
use crate::objects::branch::{Branch, bad_name, branch_taken, name_ok};
use crate::repository::Repository;

verus! {

/// Makes the branch `name` at the head of the current branch, and makes it
/// the current one. A name that cannot name a branch, or that a branch
/// bears, is an error and changes nothing.
pub fn new_branch(name: &String, repository: &mut Repository) -> (out: Result<(), DitError>)
    ensures
        !name_ok(name@) ==> out is Err && out->Err_0@ == bad_name() && final(repository)@ == old(
            repository,
        )@,
        name_ok(name@) && old(repository)@.has_branch(name@) ==> out is Err && out->Err_0@
            == branch_taken() && final(repository)@ == old(repository)@,
        name_ok(name@) && !old(repository)@.has_branch(name@) ==> out is Ok && final(repository)@
            == old(repository)@.branched(name@, old(repository)@.head),
{
    let head = repository.head.clone();
    match Branch::new_branch(name.clone(), head, repository) {
        Ok(_) => Ok(()),
        Err(e) => Err(e),
    }
}

} // verus!
