//! A branch: a name and the commit at its head.

use vstd::prelude::*;
use crate::error::{DitError, Failure};
use crate::repository::{
    BranchLog, BranchLogView, Repository, RepositoryView, null_hash, refs_view,
};
use crate::text::{chars_of, texts_view};
use crate::utils::NULL_HASH;

verus! {

/// A branch and the hash of the commit at its head; the null hash where the
/// branch has no commit.
#[derive(Debug)]
pub struct Branch {
    pub head: String,
    pub name: String,
}

/// A branch, as two texts.
pub struct BranchView {
    pub head: Seq<char>,
    pub name: Seq<char>,
}

impl View for Branch {
    type V = BranchView;

    open spec fn view(&self) -> BranchView {
        BranchView { head: self.head@, name: self.name@ }
    }
}

/// Whether `name` can name a branch: it holds no slash and no backslash.
pub open spec fn name_ok(name: Seq<char>) -> bool {
    forall|i: int| 0 <= i < name.len() ==> name[i] != '/' && name[i] != '\\'
}

/// The error for a name that holds a slash.
pub open spec fn bad_name() -> Failure {
    Failure::UnexpectedComportement("Branch name must not contains '/'."@)
}

/// The error for a name that a branch bears.
pub open spec fn branch_taken() -> Failure {
    Failure::UnexpectedComportement(
        "Branch with same name already exist, cannot create the branch"@,
    )
}

/// The error for a branch that has no log.
pub open spec fn missing_branch() -> Failure {
    Failure::IoError("branch not found"@)
}

/// The error for a branch without a commit.
pub open spec fn empty_branch() -> Failure {
    Failure::UnexpectedComportement("empty branch log"@)
}

impl RepositoryView {
    /// The repository after the branch `name` was made at `head` and became
    /// the current one: its log holds `head`, unless that is the null hash.
    pub open spec fn branched(self, name: Seq<char>, head: Seq<char>) -> RepositoryView {
        RepositoryView {
            refs: self.refs.push(
                BranchLogView {
                    name,
                    commits: if head == null_hash() {
                        Seq::empty()
                    } else {
                        seq![head]
                    },
                },
            ),
            branch: name,
            head,
            ..self
        }
    }

    /// The branch `name` with the last commit of its log as head.
    pub open spec fn branch_at(self, name: Seq<char>) -> Result<BranchView, Failure> {
        if !self.has_branch(name) {
            Err(missing_branch())
        } else if self.commits_of(name).len() == 0 {
            Err(empty_branch())
        } else {
            Ok(BranchView { head: self.commits_of(name).last(), name })
        }
    }
}

impl Branch {
    pub fn get_name(&self) -> (out: &String)
        ensures
            out@ == self@.name,
    {
        &self.name
    }

    pub fn get_head(&self) -> (out: &String)
        ensures
            out@ == self@.head,
    {
        &self.head
    }

    /// Whether `name` can name a branch.
    pub fn is_name_ok(name: &String) -> (out: bool)
        ensures
            out == name_ok(name@),
    {
        let chars = chars_of(name.as_str());
        let mut i: usize = 0;
        while i < chars.len()
            invariant
                0 <= i <= chars@.len(),
                chars@ == name@,
                forall|j: int| 0 <= j < i ==> chars@[j] != '/' && chars@[j] != '\\',
            decreases chars@.len() - i,
        {
            if chars[i] == '/' || chars[i] == '\\' {
                return false;
            }
            i += 1;
        }
        true
    }

    /// Whether the branch `name` has a log.
    pub fn exist(name: String, repository: &Repository) -> (out: bool)
        ensures
            out == repository@.has_branch(name@),
    {
        repository.position_of_branch(&name) < repository.refs.len()
    }

    /// Makes `name` the current branch, with `head` as its head.
    pub fn set_info_file(name: String, head: String, repository: &mut Repository)
        ensures
            final(repository)@ == (RepositoryView { branch: name@, head: head@, ..old(repository)@ }),
    {
        repository.branch = name;
        repository.head = head;
    }

    /// Makes the branch `name` at `head`, and makes it the current one. A
    /// name that cannot name a branch, or that a branch bears, is an error
    /// and changes nothing.
    pub fn new_branch(name: String, head: String, repository: &mut Repository) -> (out: Result<
        Branch,
        DitError,
    >)
        ensures
            !name_ok(name@) ==> out is Err && out->Err_0@ == bad_name() && final(repository)@
                == old(repository)@,
            name_ok(name@) && old(repository)@.has_branch(name@) ==> out is Err && out->Err_0@
                == branch_taken() && final(repository)@ == old(repository)@,
            name_ok(name@) && !old(repository)@.has_branch(name@) ==> out is Ok && out->Ok_0@ == (
            BranchView { head: head@, name: name@ }) && final(repository)@ == old(
                repository,
            )@.branched(name@, head@),
    {
        if !Branch::is_name_ok(&name) {
            return Err(DitError::unexpected("Branch name must not contains '/'."));
        }
        if Branch::exist(name.clone(), repository) {
            return Err(
                DitError::unexpected(
                    "Branch with same name already exist, cannot create the branch",
                ),
            );
        }
        let mut commits: Vec<String> = Vec::new();
        let is_null = head == String::from_str(NULL_HASH);
        if !is_null {
            commits.push(head.clone());
        }
        let log = BranchLog { name: name.clone(), commits };
        proof {
            assert(texts_view(log.commits@) =~= (if head@ == null_hash() {
                Seq::<Seq<char>>::empty()
            } else {
                seq![head@]
            }));
            assert(refs_view(repository.refs@.push(log)) =~= old(repository)@.branched(
                name@,
                head@,
            ).refs);
        }
        repository.refs.push(log);
        Branch::set_info_file(name.clone(), head.clone(), repository);
        Ok(Branch { head, name })
    }

    /// The current branch and its head.
    pub fn get_current_branch(repository: &Repository) -> (out: Branch)
        ensures
            out@ == (BranchView { head: repository@.head, name: repository@.branch }),
    {
        Branch { head: repository.head.clone(), name: repository.branch.clone() }
    }

    /// The branch `name`, with the last commit of its log as head.
    pub fn get_branch(name: String, repository: &Repository) -> (out: Result<Branch, DitError>)
        ensures
            match out {
                Ok(branch) => repository@.branch_at(name@) == Ok::<BranchView, Failure>(branch@),
                Err(e) => repository@.branch_at(name@) == Err::<BranchView, Failure>(e@),
            },
    {
        let i = repository.position_of_branch(&name);
        if i >= repository.refs.len() {
            return Err(DitError::io("branch not found"));
        }
        let commits = &repository.refs[i].commits;
        if commits.len() == 0 {
            return Err(DitError::unexpected("empty branch log"));
        }
        let head = commits[commits.len() - 1].clone();
        Ok(Branch { head, name })
    }
}

} // verus!
