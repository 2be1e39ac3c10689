//! A commit: the hash of a tree, the hash of the commit before it, and a
//! description.

use vstd::prelude::*;
use crate::digest::{digest_of, hash_text};
use crate::error::{DitError, Failure};
use crate::store::ObjectStore;
use crate::text::{chars_of, same_chars, slice_chars, string_of};

verus! {

/// A commit. `parent` is the null hash where no commit came before.
#[derive(Debug)]
pub struct Commit {
    pub hash: String,
    pub tree: String,
    pub parent: String,
    pub description: String,
}

/// What a commit holds, as four texts.
pub struct CommitView {
    pub hash: Seq<char>,
    pub tree: Seq<char>,
    pub parent: Seq<char>,
    pub description: Seq<char>,
}

impl CommitView {
    /// The digest that addresses this commit: that of the tree's hash, the
    /// parent's hash and the description, one after the other.
    pub open spec fn digest(self) -> Seq<char> {
        digest_of(self.tree + self.parent + self.description)
    }

    /// The commit over these three, with the hash that addresses it.
    pub open spec fn made(tree: Seq<char>, parent: Seq<char>, description: Seq<char>) -> CommitView {
        CommitView { hash: digest_of(tree + parent + description), tree, parent, description }
    }

    /// The text under which the commit is stored: a line for the tree, a
    /// line for the parent, and the description as it is.
    pub open spec fn object_text(self) -> Seq<char> {
        "tree "@ + self.tree + "\n"@ + "pare "@ + self.parent + "\n"@ + self.description
    }
}

impl View for Commit {
    type V = CommitView;

    open spec fn view(&self) -> CommitView {
        CommitView {
            hash: self.hash@,
            tree: self.tree@,
            parent: self.parent@,
            description: self.description@,
        }
    }
}

impl Clone for Commit {
    fn clone(&self) -> (out: Self)
        ensures
            out@ == self@,
    {
        Commit {
            hash: self.hash.clone(),
            tree: self.tree.clone(),
            parent: self.parent.clone(),
            description: self.description.clone(),
        }
    }
}

/// What the text of a commit object says: the tree, the parent and the
/// description. The first line is `tree`, a space and forty characters, the
/// second `pare`, a space and forty characters; what follows is the
/// description. Any other text says nothing.
pub open spec fn parse_commit(text: Seq<char>) -> Option<(Seq<char>, Seq<char>, Seq<char>)> {
    if text.len() < 92 || text.subrange(0, 5) != "tree "@ || text[45] != '\n' || text.subrange(
        46,
        51,
    ) != "pare "@ || text[91] != '\n' {
        None
    } else {
        Some((text.subrange(5, 45), text.subrange(51, 91), text.skip(92)))
    }
}

/// The error for a hash under which no commit is stored.
pub open spec fn missing_commit() -> Failure {
    Failure::UnexpectedComportement("missing object for a referenced hash"@)
}

/// The error for an object that is no commit.
pub open spec fn malformed_commit() -> Failure {
    Failure::UnexpectedComportement("malformed commit object"@)
}

/// The commit stored under `hash`.
pub open spec fn read_commit(store: Map<Seq<char>, Seq<char>>, hash: Seq<char>) -> Result<
    CommitView,
    Failure,
> {
    if !store.contains_key(hash) {
        Err(missing_commit())
    } else {
        match parse_commit(store[hash]) {
            None => Err(malformed_commit()),
            Some((tree, parent, description)) => Ok(CommitView::made(tree, parent, description)),
        }
    }
}

impl Commit {
    /// The commit over `tree`, `parent` and `description`, with the hash
    /// that addresses it.
    pub fn new(tree: String, parent: String, description: String) -> (out: Commit)
        ensures
            out@ == CommitView::made(tree@, parent@, description@),
            out@.hash.len() == 40,
    {
        let mut commit = Commit { hash: String::new(), tree, parent, description };
        let _ = commit.generate_id();
        commit
    }

    /// Sets the hash to the digest of tree, parent and description, and
    /// returns it.
    pub fn generate_id(&mut self) -> (out: String)
        ensures
            final(self)@ == (CommitView { hash: old(self)@.digest(), ..old(self)@ }),
            out@ == old(self)@.digest(),
            out@.len() == 40,
    {
        let mut content = self.tree.clone();
        content.append(self.parent.as_str());
        content.append(self.description.as_str());
        let hash = hash_text(content.as_str());
        self.hash = hash.clone();
        hash
    }

    pub fn get_hash(&self) -> (out: &String)
        ensures
            out@ == self@.hash,
    {
        &self.hash
    }

    pub fn set_hash(&mut self, hash: String)
        ensures
            final(self)@ == (CommitView { hash: hash@, ..old(self)@ }),
    {
        self.hash = hash;
    }

    pub fn get_parent(&self) -> (out: &String)
        ensures
            out@ == self@.parent,
    {
        &self.parent
    }

    pub fn set_parent(&mut self, parent: String)
        ensures
            final(self)@ == (CommitView { parent: parent@, ..old(self)@ }),
    {
        self.parent = parent;
    }

    pub fn get_tree(&self) -> (out: &String)
        ensures
            out@ == self@.tree,
    {
        &self.tree
    }

    pub fn set_tree(&mut self, tree: String)
        ensures
            final(self)@ == (CommitView { tree: tree@, ..old(self)@ }),
    {
        self.tree = tree;
    }

    pub fn get_description(&self) -> (out: &String)
        ensures
            out@ == self@.description,
    {
        &self.description
    }

    pub fn set_description(&mut self, description: String)
        ensures
            final(self)@ == (CommitView { description: description@, ..old(self)@ }),
    {
        self.description = description;
    }

    /// The line that shows this commit: its hash and its description.
    pub fn display(&self) -> (out: String)
        ensures
            out@ == crate::objects::display::commit_line(self@),
    {
        let mut out = String::from_str("hash: ");
        out.append(self.hash.as_str());
        out.append(" \n description: ");
        out.append(self.description.as_str());
        out
    }

    /// The text under which the commit is stored.
    pub fn write_commit(&self) -> (out: String)
        ensures
            out@ == self@.object_text(),
    {
        let mut out = String::from_str("tree ");
        out.append(self.tree.as_str());
        out.append("\n");
        out.append("pare ");
        out.append(self.parent.as_str());
        out.append("\n");
        out.append(self.description.as_str());
        out
    }

    /// Reads the commit stored under `hash`.
    pub fn get_commit_from_file(hash: String, store: &ObjectStore) -> (out: Result<Commit, DitError>)
        ensures
            match out {
                Ok(commit) => read_commit(store@, hash@) == Ok::<CommitView, Failure>(commit@),
                Err(e) => read_commit(store@, hash@) == Err::<CommitView, Failure>(e@),
            },
    {
        let text = match store.get(&hash) {
            Some(text) => chars_of(text.as_str()),
            None => {
                return Err(DitError::unexpected("missing object for a referenced hash"));
            },
        };
        if text.len() < 92 || text[45] != '\n' || text[91] != '\n' {
            return Err(DitError::unexpected("malformed commit object"));
        }
        if !same_chars(&slice_chars(&text, 0, 5), &chars_of("tree ")) || !same_chars(
            &slice_chars(&text, 46, 51),
            &chars_of("pare "),
        ) {
            return Err(DitError::unexpected("malformed commit object"));
        }
        let tree = string_of(&slice_chars(&text, 5, 45));
        let parent = string_of(&slice_chars(&text, 51, 91));
        let description = string_of(&slice_chars(&text, 92, text.len()));
        Ok(Commit::new(tree, parent, description))
    }
}

/// What is written is read back: the text of a commit over two hashes of
/// forty characters says the tree, the parent and the description of that
/// commit.
pub proof fn lemma_commit_text_reads_back(c: CommitView)
    requires
        c.tree.len() == 40,
        c.parent.len() == 40,
    ensures
        parse_commit(c.object_text()) == Some((c.tree, c.parent, c.description)),
{
    reveal_strlit("tree ");
    reveal_strlit("pare ");
    reveal_strlit("\n");
    let text = c.object_text();
    assert(text.subrange(0, 5) =~= "tree "@);
    assert(text.subrange(46, 51) =~= "pare "@);
}

} // verus!
