//! A new repository, the places of its files, and what is current in it.

use vstd::prelude::*;
use crate::error::{DitError, Failure};
use crate::repository::{BranchLog, BranchLogView, Repository, RepositoryView, refs_view};
use crate::store::ObjectStore;
use crate::text::{chars_of, slice_chars, string_of, texts_view};
use crate::utils::NULL_HASH;

verus! {

/// A repository as `init` leaves it: no object, the branch `main` without a
/// commit and current, nothing staged.
pub fn init_repository() -> (out: Repository)
    ensures
        out@ == RepositoryView::fresh(),
        out.objects.objects@.len() == 0,
{
    let mut refs: Vec<BranchLog> = Vec::new();
    let log = BranchLog { name: String::from_str("main"), commits: Vec::new() };
    proof {
        assert(texts_view(log.commits@) =~= Seq::<Seq<char>>::empty());
        assert(refs_view(refs@.push(log)) =~= seq![
            BranchLogView { name: "main"@, commits: Seq::empty() },
        ]);
    }
    refs.push(log);
    let out = Repository {
        objects: ObjectStore::new(),
        refs,
        branch: String::from_str("main"),
        head: String::from_str(NULL_HASH),
        staged: String::from_str(NULL_HASH),
        deleted: Vec::new(),
        message: String::new(),
    };
    out
}

/// Whether there is a repository.
pub fn is_init(repository: &Option<Repository>) -> (out: bool)
    ensures
        out == (repository is Some),
{
    repository.is_some()
}

/// The repository, where there is one; the error `NotInitialized` where
/// there is none.
pub fn initialized(repository: Option<Repository>) -> (out: Result<Repository, DitError>)
    ensures
        match repository {
            Some(found) => out is Ok && out->Ok_0 == found,
            None => out is Err && out->Err_0@ == Failure::NotInitialized,
        },
{
    match repository {
        Some(found) => Ok(found),
        None => Err(DitError::NotInitialized),
    }
}

/// The directory that holds a repository, seen from the directory above it.
pub fn find_dit() -> (out: String)
    ensures
        out@ == "./.dit"@,
{
    String::from_str("./.dit")
}

/// The directory of the stored objects.
pub fn find_objects() -> (out: String)
    ensures
        out@ == "./.dit"@ + "/objects"@,
{
    let mut out = find_dit();
    out.append("/objects");
    out
}

/// The directory of the branch logs.
pub fn find_refs() -> (out: String)
    ensures
        out@ == "./.dit"@ + "/refs"@,
{
    let mut out = find_dit();
    out.append("/refs");
    out
}

/// The file that holds the hash of the staged tree.
pub fn find_staged() -> (out: String)
    ensures
        out@ == "./.dit"@ + "/staged"@,
{
    let mut out = find_dit();
    out.append("/staged");
    out
}

/// The file that holds the current branch and its head.
pub fn find_info() -> (out: String)
    ensures
        out@ == "./.dit"@ + "/info"@,
{
    let mut out = find_dit();
    out.append("/info");
    out
}

/// The hash of the staged tree; the null hash where nothing is staged.
pub fn get_staged_hash(repository: &Repository) -> (out: String)
    ensures
        out@ == repository@.staged,
{
    repository.staged.clone()
}

/// The hash of the head of the current branch; the null hash before the
/// first commit.
pub fn get_head_hash(repository: &Repository) -> (out: String)
    ensures
        out@ == repository@.head,
{
    repository.head.clone()
}

/// The error for a hash that is too short to name a file.
pub open spec fn short_hash() -> Failure {
    Failure::UnexpectedComportement("hash of less than two characters"@)
}

/// The file of the object that `hash` addresses: in the directory that the
/// first two characters name, the file that the others name.
pub open spec fn object_path(objects_path: Seq<char>, hash: Seq<char>) -> Seq<char> {
    objects_path + "/"@ + hash.subrange(0, 2) + "/"@ + hash.skip(2)
}

/// The file of the object that `hash` addresses, below `objects_path`.
pub fn get_object_path(objects_path: &String, hash: &String) -> (out: Result<String, DitError>)
    ensures
        hash@.len() >= 2 ==> out is Ok && out->Ok_0@ == object_path(objects_path@, hash@),
        hash@.len() < 2 ==> out is Err && out->Err_0@ == short_hash(),
{
    let chars = chars_of(hash.as_str());
    if chars.len() < 2 {
        return Err(DitError::unexpected("hash of less than two characters"));
    }
    let shard = string_of(&slice_chars(&chars, 0, 2));
    let file = string_of(&slice_chars(&chars, 2, chars.len()));
    let mut out = objects_path.clone();
    out.append("/");
    out.append(shard.as_str());
    out.append("/");
    out.append(file.as_str());
    Ok(out)
}

/// The error for a hash under which nothing is stored.
pub open spec fn not_found() -> Failure {
    Failure::IoError("object not found in the store"@)
}

/// The text of the object that `hash` addresses.
pub fn open_object_file(hash: String, repository: &Repository) -> (out: Result<String, DitError>)
    ensures
        match out {
            Ok(text) => repository@.objects.contains_key(hash@) && text@
                == repository@.objects[hash@],
            Err(e) => !repository@.objects.contains_key(hash@) && e@
                == not_found(),
        },
{
    match repository.objects.get(&hash) {
        Some(text) => Ok(text.clone()),
        None => Err(DitError::io("object not found in the store")),
    }
}

} // verus!
