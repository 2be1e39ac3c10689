//! The repository as a value: the stored objects, the logs of the branches,
//! and what is current.

use vstd::prelude::*;
use crate::search::{first_match, lemma_first_match, lemma_first_match_is};
use crate::store::ObjectStore;
use crate::text::texts_view;
use crate::utils::NULL_HASH;

verus! {

/// The log of a branch: its name and the hashes of its commits, in the
/// order in which they were made.
#[derive(Debug)]
pub struct BranchLog {
    pub name: String,
    pub commits: Vec<String>,
}

/// The log of a branch, as a value.
pub struct BranchLogView {
    pub name: Seq<char>,
    pub commits: Seq<Seq<char>>,
}

impl View for BranchLog {
    type V = BranchLogView;

    open spec fn view(&self) -> BranchLogView {
        BranchLogView { name: self.name@, commits: texts_view(self.commits@) }
    }
}

/// The logs that the items of `refs` hold.
pub open spec fn refs_view(refs: Seq<BranchLog>) -> Seq<BranchLogView> {
    refs.map_values(|l: BranchLog| l@)
}

/// All that a repository keeps: the stored objects, the log of each branch,
/// the current branch and its head, the hash of the staged tree, the paths
/// to delete at the next commit, and the message for it.
#[derive(Debug)]
pub struct Repository {
    pub objects: ObjectStore,
    pub refs: Vec<BranchLog>,
    pub branch: String,
    pub head: String,
    pub staged: String,
    pub deleted: Vec<String>,
    pub message: String,
}

/// A repository, as a value.
pub struct RepositoryView {
    pub objects: Map<Seq<char>, Seq<char>>,
    pub refs: Seq<BranchLogView>,
    pub branch: Seq<char>,
    pub head: Seq<char>,
    pub staged: Seq<char>,
    pub deleted: Seq<Seq<char>>,
    pub message: Seq<char>,
}

impl View for Repository {
    type V = RepositoryView;

    open spec fn view(&self) -> RepositoryView {
        RepositoryView {
            objects: self.objects@,
            refs: refs_view(self.refs@),
            branch: self.branch@,
            head: self.head@,
            staged: self.staged@,
            deleted: texts_view(self.deleted@),
            message: self.message@,
        }
    }
}

/// The null hash, as a text.
pub open spec fn null_hash() -> Seq<char> {
    NULL_HASH@
}

/// The index of the first log of the branch `name`, or the number of logs.
pub open spec fn log_index(refs: Seq<BranchLogView>, name: Seq<char>) -> int {
    first_match(refs, |l: BranchLogView| l.name == name)
}

impl RepositoryView {
    /// A repository after `init`: no object, the branch `main` without a
    /// commit, nothing staged.
    pub open spec fn fresh() -> RepositoryView {
        RepositoryView {
            objects: Map::empty(),
            refs: seq![BranchLogView { name: "main"@, commits: Seq::empty() }],
            branch: "main"@,
            head: null_hash(),
            staged: null_hash(),
            deleted: Seq::empty(),
            message: Seq::empty(),
        }
    }

    /// Whether the branch `name` has a log.
    pub open spec fn has_branch(self, name: Seq<char>) -> bool {
        log_index(self.refs, name) < self.refs.len()
    }

    /// The commits of the branch `name`, in order.
    pub open spec fn commits_of(self, name: Seq<char>) -> Seq<Seq<char>> {
        self.refs[log_index(self.refs, name)].commits
    }

    /// The logs with `hash` appended to that of the branch `name`; where the
    /// branch has none, a log with this one commit is added.
    pub open spec fn logged(self, name: Seq<char>, hash: Seq<char>) -> Seq<BranchLogView> {
        let i = log_index(self.refs, name);
        if 0 <= i < self.refs.len() {
            self.refs.update(i, BranchLogView { name, commits: self.refs[i].commits.push(hash) })
        } else {
            self.refs.push(BranchLogView { name, commits: seq![hash] })
        }
    }
}

impl Repository {
    /// The index of the first log of the branch `name`, or the number of
    /// logs.
    pub fn position_of_branch(&self, name: &String) -> (i: usize)
        ensures
            i == log_index(self@.refs, name@),
            i <= self.refs@.len(),
    {
        let mut i: usize = 0;
        while i < self.refs.len() && !(self.refs[i].name == *name)
            invariant
                0 <= i <= self.refs@.len(),
                forall|j: int| 0 <= j < i ==> (#[trigger] refs_view(self.refs@)[j]).name != name@,
            decreases self.refs@.len() - i,
        {
            i += 1;
        }
        proof {
            lemma_first_match_is(self@.refs, |l: BranchLogView| l.name == name@, i as int);
        }
        i
    }

    /// Appends `hash` to the log of the branch `name`.
    pub fn append_to_log(&mut self, name: &String, hash: String)
        ensures
            final(self)@ == (RepositoryView { refs: old(self)@.logged(name@, hash@), ..old(self)@ }),
    {
        let i = self.position_of_branch(name);
        if i < self.refs.len() {
            let ghost before = self.refs@;
            self.refs[i].commits.push(hash);
            proof {
                lemma_first_match(old(self)@.refs, |l: BranchLogView| l.name == name@);
                assert(texts_view(before[i as int].commits@.push(hash)) =~= texts_view(
                    before[i as int].commits@,
                ).push(hash@));
                assert(refs_view(self.refs@) =~= old(self)@.logged(name@, hash@));
            }
        } else {
            let mut commits: Vec<String> = Vec::new();
            commits.push(hash);
            let log = BranchLog { name: name.clone(), commits };
            proof {
                assert(texts_view(seq![hash]) =~= seq![hash@]);
                assert(refs_view(self.refs@.push(log)) =~= old(self)@.logged(name@, hash@));
            }
            self.refs.push(log);
        }
    }
}

} // verus!
