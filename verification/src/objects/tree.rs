//! A tree: a directory, as an ordered list of named children.

use vstd::prelude::*;
use crate::objects::node_type::{
    Kind, NodeType, NodeView, clone_nodes, index_of_equal, index_of_named, lemma_nodes_view,
    nodes_view,
};
use crate::search::lemma_first_match_is;

verus! {

/// A directory: its name, its children in insertion order, and the digest of
/// the children's digests.
#[derive(Debug)]
pub struct Tree {
    pub hash: String,
    pub name: String,
    pub nodes: Vec<NodeType>,
}

/// What a tree holds: two texts and the children.
pub struct TreeView {
    pub hash: Seq<char>,
    pub name: Seq<char>,
    pub nodes: Seq<NodeView>,
}

impl TreeView {
    /// The same tree with other children.
    pub open spec fn with_nodes(self, nodes: Seq<NodeView>) -> TreeView {
        TreeView { nodes, ..self }
    }

    /// Whether some child has this name and a wanted kind.
    pub open spec fn has_named(self, name: Seq<char>, want: Kind) -> bool {
        index_of_named(self.nodes, name, want) < self.nodes.len()
    }

    /// Whether some child is equal to `node`.
    pub open spec fn has_equal(self, node: NodeView) -> bool {
        index_of_equal(self.nodes, node) < self.nodes.len()
    }

    /// The tree after `replace_node`: the first child of `node`'s name and
    /// kind gives way to `node`; without such a child nothing changes.
    pub open spec fn replaced(self, node: NodeView) -> TreeView {
        let i = index_of_named(self.nodes, node.name(), node.kind());
        if i < self.nodes.len() {
            self.with_nodes(self.nodes.update(i, node))
        } else {
            self
        }
    }

    /// The tree without its first child equal to `node`.
    pub open spec fn removed(self, node: NodeView) -> TreeView {
        let i = index_of_equal(self.nodes, node);
        if i < self.nodes.len() {
            self.with_nodes(self.nodes.remove(i))
        } else {
            self
        }
    }

    /// The tree without its first child of this name and of a wanted kind.
    pub open spec fn without_named(self, name: Seq<char>, want: Kind) -> TreeView {
        let i = index_of_named(self.nodes, name, want);
        if i < self.nodes.len() {
            self.with_nodes(self.nodes.remove(i))
        } else {
            self
        }
    }

    /// The tree after `complete_node`: a node whose name no child bears is
    /// appended; a blob takes the place of the first blob of its name; a tree
    /// whose name is taken is left out.
    pub open spec fn completed(self, node: NodeView) -> TreeView {
        if !self.has_named(node.name(), Kind::Any) {
            self.with_nodes(self.nodes.push(node))
        } else if node is Blob {
            self.replaced(node)
        } else {
            self
        }
    }

    /// The tree after `complete_node` with each of `extra`, in order.
    pub open spec fn completed_all(self, extra: Seq<NodeView>) -> TreeView
        decreases extra.len(),
    {
        if extra.len() == 0 {
            self
        } else {
            self.completed_all(extra.drop_last()).completed(extra.last())
        }
    }
}

impl View for Tree {
    type V = TreeView;

    open spec fn view(&self) -> TreeView {
        TreeView { hash: self.hash@, name: self.name@, nodes: nodes_view(self.nodes@) }
    }
}

impl Clone for Tree {
    fn clone(&self) -> (out: Self)
        ensures
            out@ == self@,
    {
        Tree { hash: self.hash.clone(), name: self.name.clone(), nodes: clone_nodes(&self.nodes) }
    }
}

impl PartialEq for Tree {
    fn eq(&self, other: &Self) -> (out: bool) {
        self.hash == other.hash
    }
}

impl vstd::std_specs::cmp::PartialEqSpecImpl for Tree {
    open spec fn obeys_eq_spec() -> bool {
        true
    }

    open spec fn eq_spec(&self, other: &Self) -> bool {
        self@.hash == other@.hash
    }
}

/// Pushing, updating and removing commute with `nodes_view`.
pub(crate) proof fn lemma_nodes_view_ops(s: Seq<NodeType>, i: int, x: NodeType)
    ensures
        nodes_view(s.push(x)) == nodes_view(s).push(x@),
        0 <= i < s.len() ==> nodes_view(s.update(i, x)) == nodes_view(s).update(i, x@),
        0 <= i < s.len() ==> nodes_view(s.remove(i)) == nodes_view(s).remove(i),
{
    lemma_nodes_view(s);
    lemma_nodes_view(s.push(x));
    if 0 <= i < s.len() {
        lemma_nodes_view(s.update(i, x));
        lemma_nodes_view(s.remove(i));
    }
}

impl Tree {
    pub fn new(name: String, nodes: Vec<NodeType>, hash: String) -> (out: Tree)
        ensures
            out@ == (TreeView { hash: hash@, name: name@, nodes: nodes_view(nodes@) }),
    {
        Tree { hash, name, nodes }
    }

    /// The empty tree without a name: the root before anything is staged.
    pub fn default() -> (out: Tree)
        ensures
            out@ == (TreeView { hash: Seq::empty(), name: Seq::empty(), nodes: Seq::empty() }),
    {
        Tree { hash: String::new(), name: String::new(), nodes: Vec::new() }
    }

    /// Appends `node` to the children.
    pub fn add_node(&mut self, node: NodeType)
        ensures
            final(self)@ == old(self)@.with_nodes(old(self)@.nodes.push(node@)),
    {
        proof {
            lemma_nodes_view_ops(self.nodes@, 0, node);
        }
        self.nodes.push(node);
    }

    /// The index of the first child equal to `node`, or the number of
    /// children.
    pub fn position_equal(&self, node: &NodeType) -> (i: usize)
        ensures
            i == index_of_equal(self@.nodes, node@),
            i <= self.nodes@.len(),
    {
        let mut i: usize = 0;
        proof {
            lemma_nodes_view(self.nodes@);
        }
        while i < self.nodes.len() && !(self.nodes[i] == *node)
            invariant
                0 <= i <= self.nodes@.len(),
                nodes_view(self.nodes@).len() == self.nodes@.len(),
                forall|j: int|
                    0 <= j < self.nodes@.len() ==> #[trigger] nodes_view(self.nodes@)[j]
                        == self.nodes@[j]@,
                forall|j: int| 0 <= j < i ==> !(#[trigger] nodes_view(self.nodes@)[j]).same(node@),
            decreases self.nodes@.len() - i,
        {
            i += 1;
        }
        proof {
            lemma_first_match_is(self@.nodes, |x: NodeView| x.same(node@), i as int);
        }
        i
    }

    /// The index of the first child called `name` and of a wanted kind, or
    /// the number of children.
    pub fn position_named(&self, name: &String, want: Kind) -> (i: usize)
        ensures
            i == index_of_named(self@.nodes, name@, want),
            i <= self.nodes@.len(),
    {
        let mut i: usize = 0;
        proof {
            lemma_nodes_view(self.nodes@);
        }
        while i < self.nodes.len() && !self.nodes[i].answers(name, want)
            invariant
                0 <= i <= self.nodes@.len(),
                nodes_view(self.nodes@).len() == self.nodes@.len(),
                forall|j: int|
                    0 <= j < self.nodes@.len() ==> #[trigger] nodes_view(self.nodes@)[j]
                        == self.nodes@[j]@,
                forall|j: int|
                    0 <= j < i ==> !(#[trigger] nodes_view(self.nodes@)[j]).answers(name@, want),
            decreases self.nodes@.len() - i,
        {
            i += 1;
        }
        proof {
            lemma_first_match_is(self@.nodes, |x: NodeView| x.answers(name@, want), i as int);
        }
        i
    }

    /// The first child that is equal to `node`, where `node` is a tree.
    pub fn find_node(&mut self, node: &NodeType) -> (out: Option<&mut NodeType>)
        ensures
            match out {
                Some(found) => {
                    let i = index_of_equal(old(self)@.nodes, node@);
                    &&& node@ is Tree
                    &&& i < old(self)@.nodes.len()
                    &&& found@ == old(self)@.nodes[i]
                    &&& final(self)@ == old(self)@.with_nodes(
                        old(self)@.nodes.update(i, final(found)@),
                    )
                },
                None => {
                    &&& !(node@ is Tree && old(self)@.has_equal(node@))
                    &&& final(self)@ == old(self)@
                },
            },
    {
        let i = self.position_equal(node);
        if Tree::is_tree(node) {
            self.child_at(i)
        } else {
            None
        }
    }

    /// The child at index `i`, where there is one.
    pub fn child_at(&mut self, i: usize) -> (out: Option<&mut NodeType>)
        ensures
            match out {
                Some(found) => {
                    &&& i < old(self)@.nodes.len()
                    &&& found@ == old(self)@.nodes[i as int]
                    &&& final(self)@ == old(self)@.with_nodes(
                        old(self)@.nodes.update(i as int, final(found)@),
                    )
                },
                None => {
                    &&& i >= old(self)@.nodes.len()
                    &&& final(self)@ == old(self)@
                },
            },
    {
        proof {
            lemma_nodes_view(self.nodes@);
        }
        if i < self.nodes.len() {
            let found = &mut self.nodes[i];
            proof {
                lemma_nodes_view_ops(old(self).nodes@, i as int, *final(found));
            }
            Some(found)
        } else {
            None
        }
    }

    /// The index of the first child equal to `node`.
    pub fn find_node_index(&self, node: &NodeType) -> (out: Option<usize>)
        ensures
            match out {
                Some(i) => i == index_of_equal(self@.nodes, node@) && i < self@.nodes.len(),
                None => !self@.has_equal(node@),
            },
    {
        let i = self.position_equal(node);
        proof {
            lemma_nodes_view(self.nodes@);
        }
        if i < self.nodes.len() {
            Some(i)
        } else {
            None
        }
    }

    /// The first child called `file_name`.
    pub fn find_node_by_name(&mut self, file_name: String) -> (out: Option<&mut NodeType>)
        ensures
            match out {
                Some(found) => {
                    let i = index_of_named(old(self)@.nodes, file_name@, Kind::Any);
                    &&& i < old(self)@.nodes.len()
                    &&& found@ == old(self)@.nodes[i]
                    &&& final(self)@ == old(self)@.with_nodes(
                        old(self)@.nodes.update(i, final(found)@),
                    )
                },
                None => {
                    &&& !old(self)@.has_named(file_name@, Kind::Any)
                    &&& final(self)@ == old(self)@
                },
            },
    {
        let i = self.position_named(&file_name, Kind::Any);
        self.child_at(i)
    }

    /// The first tree among the children that is called `file_name`.
    pub fn find_tree_by_name(&mut self, file_name: String) -> (out: Option<&mut NodeType>)
        ensures
            match out {
                Some(found) => {
                    let i = index_of_named(old(self)@.nodes, file_name@, Kind::Tree);
                    &&& i < old(self)@.nodes.len()
                    &&& found@ == old(self)@.nodes[i]
                    &&& final(self)@ == old(self)@.with_nodes(
                        old(self)@.nodes.update(i, final(found)@),
                    )
                },
                None => {
                    &&& !old(self)@.has_named(file_name@, Kind::Tree)
                    &&& final(self)@ == old(self)@
                },
            },
    {
        let i = self.position_named(&file_name, Kind::Tree);
        self.child_at(i)
    }

    /// The first blob among the children that is called `file_name`.
    pub fn find_blob_by_name(&mut self, file_name: String) -> (out: Option<&mut NodeType>)
        ensures
            match out {
                Some(found) => {
                    let i = index_of_named(old(self)@.nodes, file_name@, Kind::Blob);
                    &&& i < old(self)@.nodes.len()
                    &&& found@ == old(self)@.nodes[i]
                    &&& final(self)@ == old(self)@.with_nodes(
                        old(self)@.nodes.update(i, final(found)@),
                    )
                },
                None => {
                    &&& !old(self)@.has_named(file_name@, Kind::Blob)
                    &&& final(self)@ == old(self)@
                },
            },
    {
        let i = self.position_named(&file_name, Kind::Blob);
        self.child_at(i)
    }

    /// Puts `node` in the place of the first child of its name and kind.
    pub fn replace_node(&mut self, node: NodeType)
        ensures
            final(self)@ == old(self)@.replaced(node@),
    {
        let kind = node.kind();
        let i = match &node {
            NodeType::Blob(b) => self.position_named(&b.name, kind),
            NodeType::Tree(t) => self.position_named(&t.name, kind),
        };
        proof {
            lemma_nodes_view(self.nodes@);
        }
        if i < self.nodes.len() {
            proof {
                lemma_nodes_view_ops(self.nodes@, i as int, node);
            }
            self.nodes[i] = node;
        }
    }

    /// Removes the first child equal to `node`.
    pub fn remove_node(&mut self, node: &NodeType)
        ensures
            final(self)@ == old(self)@.removed(node@),
    {
        let i = self.position_equal(node);
        self.remove_at(i);
    }

    /// Removes the child at index `i`, where there is one.
    pub fn remove_at(&mut self, i: usize)
        ensures
            i < old(self)@.nodes.len() ==> final(self)@ == old(self)@.with_nodes(
                old(self)@.nodes.remove(i as int),
            ),
            i >= old(self)@.nodes.len() ==> final(self)@ == old(self)@,
    {
        proof {
            lemma_nodes_view(self.nodes@);
        }
        if i < self.nodes.len() {
            proof {
                lemma_nodes_view_ops(self.nodes@, i as int, self.nodes@[0]);
            }
            let _ = self.nodes.remove(i);
        }
    }

    /// Removes the first blob called `name`.
    pub fn remove_blob_same_name(&mut self, name: String)
        ensures
            final(self)@ == old(self)@.without_named(name@, Kind::Blob),
    {
        let i = self.position_named(&name, Kind::Blob);
        self.remove_at(i);
    }

    /// Whether some child is equal to `node`.
    pub fn contains(&self, node: &NodeType) -> (out: bool)
        ensures
            out == self@.has_equal(node@),
    {
        proof {
            lemma_nodes_view(self.nodes@);
        }
        self.position_equal(node) < self.nodes.len()
    }

    /// Whether some child that is equal to `node` exists, where `node` is a
    /// tree.
    pub fn exist_node(&mut self, node: &NodeType) -> (out: bool)
        ensures
            out == (node@ is Tree && old(self)@.has_equal(node@)),
            final(self)@ == old(self)@,
    {
        proof {
            lemma_nodes_view(self.nodes@);
        }
        Tree::is_tree(node) && self.position_equal(node) < self.nodes.len()
    }

    /// Whether some child is called `name`.
    pub fn exist_node_with_same_name(&mut self, name: String) -> (out: bool)
        ensures
            out == old(self)@.has_named(name@, Kind::Any),
            final(self)@ == old(self)@,
    {
        proof {
            lemma_nodes_view(self.nodes@);
        }
        self.position_named(&name, Kind::Any) < self.nodes.len()
    }

    /// Whether some child has the name and the kind of `node`.
    pub fn exist_node_with_same_name_and_type(&mut self, node: &NodeType) -> (out: bool)
        ensures
            out == old(self)@.has_named(node@.name(), node@.kind()),
            final(self)@ == old(self)@,
    {
        proof {
            lemma_nodes_view(self.nodes@);
        }
        let kind = node.kind();
        let i = match node {
            NodeType::Blob(b) => self.position_named(&b.name, kind),
            NodeType::Tree(t) => self.position_named(&t.name, kind),
        };
        i < self.nodes.len()
    }

    pub fn is_tree(n1: &NodeType) -> (out: bool)
        ensures
            out == (n1@ is Tree),
    {
        match n1 {
            NodeType::Tree(_) => true,
            _ => false,
        }
    }

    /// Takes `node` in: appended where its name is free, in the place of the
    /// blob of its name where it is a blob, not at all otherwise.
    pub fn complete_node(&mut self, node: NodeType)
        ensures
            final(self)@ == old(self)@.completed(node@),
    {
        proof {
            lemma_nodes_view(self.nodes@);
        }
        let i = match &node {
            NodeType::Blob(b) => self.position_named(&b.name, Kind::Any),
            NodeType::Tree(t) => self.position_named(&t.name, Kind::Any),
        };
        if i >= self.nodes.len() {
            self.add_node(node);
        } else if Tree::is_blob_node(&node) {
            self.replace_node(node);
        }
    }

    fn is_blob_node(node: &NodeType) -> (out: bool)
        ensures
            out == (node@ is Blob),
    {
        match node {
            NodeType::Blob(_) => true,
            _ => false,
        }
    }

    /// Takes each child of `node` in, in order, as `complete_node` does.
    pub fn complete_node_from_another_node(&mut self, node: NodeType)
        ensures
            final(self)@ == old(self)@.completed_all(node@.children()),
    {
        match node {
            NodeType::Blob(_) => {},
            NodeType::Tree(t) => {
                let ghost all = nodes_view(t.nodes@);
                let mut i: usize = 0;
                proof {
                    lemma_nodes_view(t.nodes@);
                }
                while i < t.nodes.len()
                    invariant
                        0 <= i <= t.nodes@.len(),
                        all.len() == t.nodes@.len(),
                        forall|j: int| 0 <= j < all.len() ==> #[trigger] all[j] == t.nodes@[j]@,
                        self@ == old(self)@.completed_all(all.take(i as int)),
                    decreases t.nodes@.len() - i,
                {
                    let next = t.nodes[i].clone();
                    proof {
                        assert(all.take(i + 1).drop_last() =~= all.take(i as int));
                    }
                    self.complete_node(next);
                    i += 1;
                }
                proof {
                    assert(all.take(i as int) =~= all);
                }
            },
        }
    }

    /// The children, to read and to change.
    pub fn get_mut_nodes(&mut self) -> (out: &mut Vec<NodeType>)
        ensures
            nodes_view(out@) == old(self)@.nodes,
            final(self)@ == old(self)@.with_nodes(nodes_view(final(out)@)),
    {
        &mut self.nodes
    }

    /// A copy of the children.
    pub fn get_nodes(&self) -> (out: Vec<NodeType>)
        ensures
            nodes_view(out@) == self@.nodes,
    {
        clone_nodes(&self.nodes)
    }

    pub fn get_hash(&self) -> (out: &String)
        ensures
            out@ == self@.hash,
    {
        &self.hash
    }

    pub fn get_name(&self) -> (out: &String)
        ensures
            out@ == self@.name,
    {
        &self.name
    }

    pub fn set_name(&mut self, name: String)
        ensures
            final(self)@ == (TreeView { name: name@, ..old(self)@ }),
    {
        self.name = name;
    }

    pub fn set_hash(&mut self, hash: String)
        ensures
            final(self)@ == (TreeView { hash: hash@, ..old(self)@ }),
    {
        self.hash = hash;
    }
}

} // verus!
