//! A blob: one file's name and content, addressed by the digest of both.

use vstd::prelude::*;
use crate::digest::{digest_of, hash_text};
use crate::objects::node_type::NodeType;
use crate::utils::{merge_text, merged_text};

verus! {

/// One file: its name, its content and the digest that addresses it. An empty
/// `hash` means that the blob has not been hashed yet.
#[derive(Debug)]
pub struct Blob {
    pub hash: String,
    pub name: String,
    pub content: String,
}

/// What a blob holds, as three texts.
pub struct BlobView {
    pub hash: Seq<char>,
    pub name: Seq<char>,
    pub content: Seq<char>,
}

impl BlobView {
    /// The digest that addresses this blob: that of its name followed by its
    /// content.
    pub open spec fn digest(self) -> Seq<char> {
        digest_of(self.name + self.content)
    }

    /// Equality of blobs: by digest once both are hashed, by name before.
    pub open spec fn same(self, other: BlobView) -> bool {
        if self.hash.len() > 0 && other.hash.len() > 0 {
            self.hash == other.hash
        } else {
            self.name == other.name
        }
    }

    /// The text under which the blob is stored: its content and a newline.
    pub open spec fn object_text(self) -> Seq<char> {
        self.content.push('\n')
    }

    /// This blob merged with `other`: the content is the merged text of
    /// both contents, the name stays, and the hash is the digest of the
    /// name and the new content.
    pub open spec fn merged_with(self, other: BlobView) -> BlobView {
        let content = merged_text(self.content, other.content);
        BlobView { hash: digest_of(self.name + content), name: self.name, content }
    }
}

impl View for Blob {
    type V = BlobView;

    open spec fn view(&self) -> BlobView {
        BlobView { hash: self.hash@, name: self.name@, content: self.content@ }
    }
}

impl Clone for Blob {
    fn clone(&self) -> (out: Self)
        ensures
            out@ == self@,
    {
        Blob { hash: self.hash.clone(), name: self.name.clone(), content: self.content.clone() }
    }
}

impl PartialEq for Blob {
    fn eq(&self, other: &Self) -> (out: bool) {
        if !self.hash.as_str().is_empty() && !other.hash.as_str().is_empty() {
            self.hash == other.hash
        } else {
            self.name == other.name
        }
    }
}

impl vstd::std_specs::cmp::PartialEqSpecImpl for Blob {
    open spec fn obeys_eq_spec() -> bool {
        true
    }

    open spec fn eq_spec(&self, other: &Self) -> bool {
        self@.same(other@)
    }
}

impl Blob {
    pub fn new(name: String, content: String, hash: String) -> (out: Blob)
        ensures
            out@ == (BlobView { hash: hash@, name: name@, content: content@ }),
    {
        Blob { hash, name, content }
    }

    pub fn set_name(&mut self, name: String)
        ensures
            final(self)@ == (BlobView { name: name@, ..old(self)@ }),
    {
        self.name = name;
    }

    pub fn get_name(&self) -> (out: &String)
        ensures
            out@ == self@.name,
    {
        &self.name
    }

    pub fn get_hash(&self) -> (out: &String)
        ensures
            out@ == self@.hash,
    {
        &self.hash
    }

    pub fn set_hash(&mut self, hash: String)
        ensures
            final(self)@ == (BlobView { hash: hash@, ..old(self)@ }),
    {
        self.hash = hash;
    }

    pub fn set_content(&mut self, content: String)
        ensures
            final(self)@ == (BlobView { content: content@, ..old(self)@ }),
    {
        self.content = content;
    }

    pub fn get_content(&self) -> (out: &String)
        ensures
            out@ == self@.content,
    {
        &self.content
    }

    /// Sets the hash to the digest of the name followed by the content.
    pub fn create_hash(&mut self)
        ensures
            final(self)@ == (BlobView { hash: old(self)@.digest(), ..old(self)@ }),
            final(self)@.hash.len() == 40,
    {
        let mut total = self.name.clone();
        total.append(self.content.as_str());
        self.hash = hash_text(total.as_str());
    }

    /// Puts the merged text of this content and that of `blob` in the place
    /// of the content, and hashes the blob anew. The name stays.
    pub fn merge(&mut self, blob: Blob)
        ensures
            final(self)@ == old(self)@.merged_with(blob@),
    {
        self.content = merge_text(self.content.clone(), blob.content);
        self.create_hash();
    }

    pub fn is_blob(node: &NodeType) -> (out: bool)
        ensures
            out == (node@ is Blob),
    {
        match node {
            NodeType::Blob(_) => true,
            _ => false,
        }
    }
}

/// Merging a blob with one of the same content keeps the content as it is,
/// character for character.
pub proof fn lemma_blob_merge_same(a: BlobView, b: BlobView)
    requires
        a.content == b.content,
    ensures
        a.merged_with(b).content == a.content,
        a.merged_with(b).name == a.name,
{
    crate::utils::lemma_merge_text_identity(a.content);
}

/// Hashing is a function of name and content: two blobs that agree on both
/// are given one hash.
pub proof fn lemma_blob_hash_deterministic(a: BlobView, b: BlobView)
    requires
        a.name == b.name,
        a.content == b.content,
    ensures
        a.digest() == b.digest(),
{
}

} // verus!
