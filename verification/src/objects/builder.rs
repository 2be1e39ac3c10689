//! Building the tree of a repository path by path, and taking paths out.

use vstd::prelude::*;
use crate::error::{DitError, Failure};
use crate::objects::blob::{Blob, BlobView};
use crate::objects::node_type::{
    Kind, NodeType, NodeView, index_of_named, lemma_nodes_view, nodes_view,
};
use crate::objects::tree::{Tree, TreeView, lemma_nodes_view_ops};
use crate::text::texts_view;

verus! {

/// A path of the working directory to stage: the names from the root of the
/// repository down to it, and the content where it is a file. Without a
/// content it is a directory.
#[derive(Debug)]
pub struct StagedPath {
    pub names: Vec<String>,
    pub content: Option<String>,
}

/// A path to stage, as a value.
pub struct StagedPathView {
    pub names: Seq<Seq<char>>,
    pub content: Option<Seq<char>>,
}

impl View for StagedPath {
    type V = StagedPathView;

    open spec fn view(&self) -> StagedPathView {
        StagedPathView {
            names: texts_view(self.names@),
            content: match self.content {
                Some(c) => Some(c@),
                None => None,
            },
        }
    }
}

/// The error for a directory whose name a file of the tree bears.
pub open spec fn name_taken() -> Failure {
    Failure::UnexpectedComportement("Error while finding directory, already existing"@)
}

/// The blob for a file called `name` with this content, hashed.
pub open spec fn fresh_blob(name: Seq<char>, content: Seq<char>) -> BlobView {
    BlobView { hash: crate::digest::digest_of(name + content), name, content }
}

/// The node `n` with the path `names` set into it. The last name is the
/// file, where there is a content: its blob is appended, and the blob that
/// bore its name leaves. Every other name is a directory: the tree of that
/// name is entered; where no child bears the name, an empty tree is made,
/// entered and appended. A directory whose name only other children bear is
/// an error. Nothing is set into a blob.
pub open spec fn inserted(n: NodeView, names: Seq<Seq<char>>, content: Option<Seq<char>>) -> Result<
    NodeView,
    Failure,
>
    decreases names.len(),
{
    if names.len() == 0 {
        Ok(n)
    } else {
        match n {
            NodeView::Blob(_) => Ok(n),
            NodeView::Tree(t) => {
                let name = names[0];
                if names.len() == 1 && content is Some {
                    let blob = NodeView::Blob(fresh_blob(name, content->0));
                    let freed = t.without_named(name, Kind::Blob);
                    Ok(NodeView::Tree(freed.with_nodes(freed.nodes.push(blob))))
                } else if !t.has_named(name, Kind::Any) {
                    let empty = NodeView::Tree(
                        TreeView { hash: Seq::empty(), name, nodes: Seq::empty() },
                    );
                    match inserted(empty, names.drop_first(), content) {
                        Ok(child) => Ok(NodeView::Tree(t.with_nodes(t.nodes.push(child)))),
                        Err(e) => Err(e),
                    }
                } else if t.has_named(name, Kind::Tree) {
                    let i = index_of_named(t.nodes, name, Kind::Tree);
                    match inserted(t.nodes[i], names.drop_first(), content) {
                        Ok(child) => Ok(NodeView::Tree(t.with_nodes(t.nodes.update(i, child)))),
                        Err(e) => Err(e),
                    }
                } else {
                    Err(name_taken())
                }
            },
        }
    }
}

/// The node `n` without what stands at the path `names`: at each level the
/// first child of that name is entered, and at the last it is taken out.
/// Where the path leads nowhere, nothing changes.
pub open spec fn without_path(n: NodeView, names: Seq<Seq<char>>) -> NodeView
    decreases names.len(),
{
    if names.len() == 0 {
        n
    } else {
        match n {
            NodeView::Blob(_) => n,
            NodeView::Tree(t) => {
                let i = index_of_named(t.nodes, names[0], Kind::Any);
                if i < 0 || i >= t.nodes.len() {
                    n
                } else if names.len() == 1 {
                    NodeView::Tree(t.with_nodes(t.nodes.remove(i)))
                } else {
                    NodeView::Tree(
                        t.with_nodes(t.nodes.update(i, without_path(t.nodes[i], names.drop_first()))),
                    )
                }
            },
        }
    }
}

impl NodeType {
    /// Sets the path `element` into this node. On an error the node stays
    /// as it is.
    pub fn create_repository_tree(&mut self, element: &StagedPath) -> (out: Result<(), DitError>)
        ensures
            match inserted(old(self)@, element@.names, element@.content) {
                Ok(node) => out is Ok && final(self)@ == node,
                Err(e) => out is Err && out->Err_0@ == e && final(self)@ == old(self)@,
            },
    {
        proof {
            assert(element@.names.skip(0) =~= element@.names);
        }
        self._create_repository_tree(element, 0)
    }

    /// Sets what is left of the path `element` from its name number `from`
    /// on into this node; nothing where the path has no such name.
    pub fn _create_repository_tree(&mut self, element: &StagedPath, from: usize) -> (out: Result<
        (),
        DitError,
    >)
        ensures
            from >= element@.names.len() ==> out is Ok && final(self)@ == old(self)@,
            from < element@.names.len() ==> match inserted(
                old(self)@,
                element@.names.skip(from as int),
                element@.content,
            ) {
                Ok(node) => out is Ok && final(self)@ == node,
                Err(e) => out is Err && out->Err_0@ == e && final(self)@ == old(self)@,
            },
        decreases element.names@.len() - from,
    {
        if from >= element.names.len() {
            return Ok(());
        }
        self.create_specific_node(element, from)
    }

    /// Sets the name number `from` of the path into this node: as a file
    /// where it is the last and there is a content, as a directory
    /// otherwise.
    fn create_specific_node(&mut self, element: &StagedPath, from: usize) -> (out: Result<
        (),
        DitError,
    >)
        requires
            from < element.names@.len(),
        ensures
            match inserted(old(self)@, element@.names.skip(from as int), element@.content) {
                Ok(node) => out is Ok && final(self)@ == node,
                Err(e) => out is Err && out->Err_0@ == e && final(self)@ == old(self)@,
            },
        decreases element.names@.len() - from, 1int,
    {
        let name = &element.names[from];
        let count = element.names.len();
        let next = from + 1;
        if next == count {
            match &element.content {
                Some(content) => {
                    self.create_blob_node(name, content);
                    return Ok(());
                },
                None => {},
            }
        }
        self.create_tree_node(element, from, next)
    }

    /// Appends the hashed blob of the file `file_name` to a tree, in the
    /// place of the blob that bore its name.
    fn create_blob_node(&mut self, file_name: &String, content: &String)
        ensures
            final(self)@ == match old(self)@ {
                NodeView::Blob(_) => old(self)@,
                NodeView::Tree(t) => {
                    let freed = t.without_named(file_name@, Kind::Blob);
                    NodeView::Tree(
                        freed.with_nodes(
                            freed.nodes.push(NodeView::Blob(fresh_blob(file_name@, content@))),
                        ),
                    )
                },
            },
    {
        let mut file_blob = Blob::new(file_name.clone(), content.clone(), String::new());
        file_blob.create_hash();
        let node = NodeType::Blob(file_blob);
        match self {
            NodeType::Tree(tree) => {
                tree.remove_blob_same_name(file_name.clone());
                tree.add_node(node);
            },
            NodeType::Blob(_) => {},
        }
    }

    /// Enters the directory that is name number `from` of the path, made
    /// where no child bears its name, and sets the rest of the path, from
    /// name number `next` on, into it.
    fn create_tree_node(&mut self, element: &StagedPath, from: usize, next: usize) -> (out:
        Result<(), DitError>)
        requires
            from < element.names@.len(),
            next == from + 1,
            !(from + 1 == element.names@.len() && element.content is Some),
        ensures
            match inserted(old(self)@, element@.names.skip(from as int), element@.content) {
                Ok(node) => out is Ok && final(self)@ == node,
                Err(e) => out is Err && out->Err_0@ == e && final(self)@ == old(self)@,
            },
        decreases element.names@.len() - from, 0int,
    {
        let ghost names = element@.names.skip(from as int);
        proof {
            assert(names.drop_first() =~= element@.names.skip(from + 1));
        }
        let name = &element.names[from];
        match self {
            NodeType::Blob(_) => Ok(()),
            NodeType::Tree(tree) => {
                proof {
                    lemma_nodes_view(tree.nodes@);
                }
                if tree.position_named(name, Kind::Any) >= tree.nodes.len() {
                    let mut node = NodeType::Tree(
                        Tree::new(name.clone(), Vec::new(), String::new()),
                    );
                    match node._create_repository_tree(element, next) {
                        Ok(()) => {
                            tree.add_node(node);
                            Ok(())
                        },
                        Err(e) => Err(e),
                    }
                } else {
                    let i = tree.position_named(name, Kind::Tree);
                    if i < tree.nodes.len() {
                        let ghost before = tree.nodes@;
                        let out = tree.nodes[i]._create_repository_tree(element, next);
                        proof {
                            lemma_nodes_view_ops(before, i as int, tree.nodes@[i as int]);
                            if out is Err {
                                assert(nodes_view(tree.nodes@) =~= nodes_view(before));
                            }
                        }
                        out
                    } else {
                        Err(DitError::unexpected("Error while finding directory, already existing"))
                    }
                }
            },
        }
    }

    /// Takes what stands at the path `names`, from its name number `from`
    /// on, out of this node.
    fn remove_path(&mut self, names: &Vec<String>, from: usize)
        requires
            from <= names@.len(),
        ensures
            final(self)@ == without_path(old(self)@, texts_view(names@).skip(from as int)),
        decreases names@.len() - from,
    {
        let ghost rest = texts_view(names@).skip(from as int);
        if from >= names.len() {
            return ;
        }
        proof {
            assert(rest.drop_first() =~= texts_view(names@).skip(from + 1));
        }
        match self {
            NodeType::Blob(_) => {},
            NodeType::Tree(tree) => {
                proof {
                    lemma_nodes_view(tree.nodes@);
                }
                let i = tree.position_named(&names[from], Kind::Any);
                if i < tree.nodes.len() {
                    if from + 1 == names.len() {
                        tree.remove_at(i);
                    } else {
                        let ghost before = tree.nodes@;
                        tree.nodes[i].remove_path(names, from + 1);
                        proof {
                            lemma_nodes_view_ops(before, i as int, tree.nodes@[i as int]);
                        }
                    }
                }
            },
        }
    }
}

/// Takes what stands at the path `paths` out of `root`: at each level the
/// first child of that name is entered, and at the last it is taken out.
pub fn find_element_to_remove(root: &mut NodeType, paths: &Vec<String>)
    ensures
        final(root)@ == without_path(old(root)@, texts_view(paths@)),
{
    proof {
        assert(texts_view(paths@).skip(0) =~= texts_view(paths@));
    }
    root.remove_path(paths, 0);
}

} // verus!
