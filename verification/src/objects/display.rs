//! The lines that show a node, and those that show the tree of commits.

use vstd::prelude::*;
use crate::digest::hex_digit;
use crate::objects::blob::{Blob, BlobView};
use crate::objects::commit::CommitView;
use crate::objects::node::{CommitTree, Node, lemma_trees_view, trees_view};
use crate::objects::node_type::{
    NodeType, NodeView, lemma_children_below, lemma_nodes_view, nodes_view,
};
use crate::objects::tree::{Tree, TreeView};
use crate::text::{string_of, texts_view};

verus! {

/// The number `n` in decimal digits.
pub open spec fn decimal(n: nat) -> Seq<char>
    decreases n,
{
    if n < 10 {
        seq![hex_digit(n as int)]
    } else {
        decimal(n / 10).push(hex_digit((n % 10) as int))
    }
}

/// The line that shows a blob.
pub open spec fn blob_line(b: BlobView) -> Seq<char> {
    "hash: "@ + b.hash + ", name: "@ + b.name
}

/// The line that shows a tree: its hash, its name and the number of its
/// children.
pub open spec fn tree_line(t: TreeView) -> Seq<char> {
    "hash: "@ + t.hash + ", name: "@ + t.name + ", nodes: "@ + decimal(t.nodes.len())
}

/// The lines that show a node: its own line, and then the lines of its
/// children, in order.
pub open spec fn shown(n: NodeView) -> Seq<Seq<char>>
    decreases n, 1int,
{
    match n {
        NodeView::Blob(b) => seq![blob_line(b)],
        NodeView::Tree(t) => seq![tree_line(t)] + shown_all(t.nodes),
    }
}

/// The lines that show each of `nodes`, in order.
pub open spec fn shown_all(nodes: Seq<NodeView>) -> Seq<Seq<char>>
    decreases nodes, 0int,
{
    if nodes.len() == 0 {
        Seq::empty()
    } else {
        shown_all(nodes.drop_last()) + shown(nodes.last())
    }
}

/// The line that shows a commit.
pub open spec fn commit_line(c: CommitView) -> Seq<char> {
    "hash: "@ + c.hash + " \n description: "@ + c.description
}

/// The lines that show a tree of commits: each commit before the commits on
/// top of it.
pub open spec fn shown_commits(t: CommitTree) -> Seq<Seq<char>>
    decreases t, 1int,
{
    seq![commit_line(t.commit)] + shown_commits_all(t.children)
}

/// The lines that show each of `trees`, in order.
pub open spec fn shown_commits_all(trees: Seq<CommitTree>) -> Seq<Seq<char>>
    decreases trees, 0int,
{
    if trees.len() == 0 {
        Seq::empty()
    } else {
        shown_commits_all(trees.drop_last()) + shown_commits(trees.last())
    }
}

/// The decimal digit for `d`.
fn digit_of(d: usize) -> (out: char)
    requires
        d < 10,
    ensures
        out == hex_digit(d as int),
{
    if d == 0 {
        '0'
    } else if d == 1 {
        '1'
    } else if d == 2 {
        '2'
    } else if d == 3 {
        '3'
    } else if d == 4 {
        '4'
    } else if d == 5 {
        '5'
    } else if d == 6 {
        '6'
    } else if d == 7 {
        '7'
    } else if d == 8 {
        '8'
    } else {
        '9'
    }
}

/// The number `n` in decimal digits.
pub fn decimal_of(n: usize) -> (out: Vec<char>)
    ensures
        out@ == decimal(n as nat),
    decreases n,
{
    if n < 10 {
        let mut out: Vec<char> = Vec::new();
        out.push(digit_of(n));
        out
    } else {
        let mut out = decimal_of(n / 10);
        out.push(digit_of(n % 10));
        out
    }
}

impl Blob {
    /// The line that shows this blob.
    pub fn display(&self) -> (out: String)
        ensures
            out@ == blob_line(self@),
    {
        let mut out = String::from_str("hash: ");
        out.append(self.hash.as_str());
        out.append(", name: ");
        out.append(self.name.as_str());
        out
    }
}

impl Tree {
    /// The line that shows this tree, without its children.
    pub fn display_line(&self) -> (out: String)
        ensures
            out@ == tree_line(self@),
    {
        let mut out = String::from_str("hash: ");
        out.append(self.hash.as_str());
        out.append(", name: ");
        out.append(self.name.as_str());
        out.append(", nodes: ");
        proof {
            lemma_nodes_view(self.nodes@);
        }
        let count = string_of(&decimal_of(self.nodes.len()));
        out.append(count.as_str());
        out
    }

    /// The lines that show this tree and all that is below it.
    pub fn display(&self) -> (out: Vec<String>)
        ensures
            texts_view(out@) == shown(NodeView::Tree(self@)),
    {
        NodeType::Tree(self.clone()).display()
    }
}

impl NodeType {
    /// Appends the lines that show this node to `lines`.
    pub fn display_into(&self, lines: &mut Vec<String>)
        ensures
            texts_view(final(lines)@) == texts_view(old(lines)@) + shown(self@),
        decreases self@,
    {
        match self {
            NodeType::Blob(b) => {
                let line = b.display();
                lines.push(line);
            },
            NodeType::Tree(t) => {
                let line = t.display_line();
                let ghost all = nodes_view(t.nodes@);
                proof {
                    lemma_nodes_view(t.nodes@);
                }
                lines.push(line);
                let ghost head = texts_view(lines@);
                let mut i: usize = 0;
                while i < t.nodes.len()
                    invariant
                        0 <= i <= t.nodes@.len(),
                        self@ == NodeView::Tree(t@),
                        all == nodes_view(t.nodes@),
                        all.len() == t.nodes@.len(),
                        forall|j: int| 0 <= j < all.len() ==> #[trigger] all[j] == t.nodes@[j]@,
                        texts_view(lines@) == head + shown_all(all.take(i as int)),
                    decreases t.nodes@.len() - i,
                {
                    proof {
                        assert(all.take(i + 1).drop_last() =~= all.take(i as int));
                        lemma_children_below(self@, i as int);
                    }
                    t.nodes[i].display_into(lines);
                    i += 1;
                }
                proof {
                    assert(all.take(i as int) =~= all);
                }
            },
        }
    }

    /// The lines that show this node and all that is below it.
    pub fn display(&self) -> (out: Vec<String>)
        ensures
            texts_view(out@) == shown(self@),
    {
        let mut lines: Vec<String> = Vec::new();
        self.display_into(&mut lines);
        lines
    }
}

impl Node {
    /// Appends the lines that show this tree of commits to `lines`.
    pub fn display_into(&self, lines: &mut Vec<String>)
        ensures
            texts_view(final(lines)@) == texts_view(old(lines)@) + shown_commits(self@),
        decreases self@,
    {
        let line = self.commit.display();
        let ghost all = trees_view(self.children@);
        proof {
            lemma_trees_view(self.children@);
        }
        lines.push(line);
        let ghost head = texts_view(lines@);
        let mut i: usize = 0;
        while i < self.children.len()
            invariant
                0 <= i <= self.children@.len(),
                all == trees_view(self.children@),
                all == self@.children,
                all.len() == self.children@.len(),
                forall|j: int| 0 <= j < all.len() ==> #[trigger] all[j] == self.children@[j]@,
                texts_view(lines@) == head + shown_commits_all(all.take(i as int)),
            decreases self.children@.len() - i,
        {
            proof {
                assert(all.take(i + 1).drop_last() =~= all.take(i as int));
                let whole = self@;
                assert(decreases_to!(whole.children => whole.children[i as int]));
            }
            let ghost before = texts_view(lines@);
            self.children[i].display_into(lines);
            i += 1;
        }
        proof {
            assert(all.take(i as int) =~= all);
        }
    }

    /// The lines that show this tree of commits: each commit before the
    /// commits on top of it.
    pub fn display(&self) -> (out: Vec<String>)
        ensures
            texts_view(out@) == shown_commits(self@),
    {
        let mut lines: Vec<String> = Vec::new();
        self.display_into(&mut lines);
        lines
    }
}

} // verus!
