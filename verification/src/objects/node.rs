//! The commits of a branch as a tree, each below the commit before it.

use vstd::prelude::*;
use crate::objects::commit::{Commit, CommitView};

verus! {

/// A commit and the commits that were made on top of it.
#[derive(Debug)]
pub struct Node {
    pub commit: Commit,
    pub children: Vec<Node>,
}

/// A commit and the commits on top of it, as a value.
pub struct CommitTree {
    pub commit: CommitView,
    pub children: Seq<CommitTree>,
}

/// The tree that `n` stands for.
pub open spec fn tree_view(n: Node) -> CommitTree
    decreases n,
{
    CommitTree { commit: n.commit@, children: trees_view(n.children@) }
}

/// The trees that the items of `s` stand for, in order.
pub open spec fn trees_view(s: Seq<Node>) -> Seq<CommitTree>
    decreases s,
{
    if s.len() == 0 {
        Seq::empty()
    } else {
        trees_view(s.drop_last()).push(tree_view(s.last()))
    }
}

impl View for Node {
    type V = CommitTree;

    open spec fn view(&self) -> CommitTree {
        tree_view(*self)
    }
}

/// `trees_view` maps item by item.
pub(crate) proof fn lemma_trees_view(s: Seq<Node>)
    ensures
        trees_view(s).len() == s.len(),
        forall|i: int| 0 <= i < s.len() ==> #[trigger] trees_view(s)[i] == s[i]@,
    decreases s.len(),
{
    if s.len() > 0 {
        lemma_trees_view(s.drop_last());
    }
}

/// Whether some commit of the tree `t` has the hash `hash`.
pub open spec fn holds_hash(t: CommitTree, hash: Seq<char>) -> bool
    decreases t, 1int,
{
    t.commit.hash == hash || holds_hash_any(t.children, hash, t.children.len() as int)
}

/// Whether some commit of the first `k` trees of `s` has the hash `hash`.
pub open spec fn holds_hash_any(s: Seq<CommitTree>, hash: Seq<char>, k: int) -> bool
    decreases s, 0int, k,
{
    if k <= 0 || k > s.len() {
        false
    } else {
        holds_hash_any(s, hash, k - 1) || holds_hash(s[k - 1], hash)
    }
}

/// The tree `t` with `node` set below the first commit, walking each commit
/// before its children and the children in order, whose hash is the parent
/// of `node`. Without such a commit the tree stays as it is.
pub open spec fn grafted(t: CommitTree, node: CommitTree) -> CommitTree
    decreases t, 1int,
{
    if t.commit.hash == node.commit.parent {
        CommitTree { commit: t.commit, children: t.children.push(node) }
    } else {
        CommitTree {
            commit: t.commit,
            children: grafted_first(t.children, node, t.children.len() as int),
        }
    }
}

/// The first `k` trees of `s`, with `node` set into the first of them that
/// holds the parent of `node`.
pub open spec fn grafted_first(s: Seq<CommitTree>, node: CommitTree, k: int) -> Seq<CommitTree>
    decreases s, 0int, k,
{
    if k <= 0 || k > s.len() {
        Seq::empty()
    } else {
        let front = grafted_first(s, node, k - 1);
        if holds_hash_any(s, node.commit.parent, k - 1) {
            front.push(s[k - 1])
        } else {
            front.push(grafted(s[k - 1], node))
        }
    }
}

/// The tree of the first `k` commits of `commits`: the first commit is the
/// root, and each commit after it is set below the commit that is its
/// parent.
pub open spec fn commit_tree(commits: Seq<CommitView>, k: int) -> Option<CommitTree>
    decreases k,
{
    if k <= 0 || k > commits.len() {
        None
    } else {
        let node = CommitTree { commit: commits[k - 1], children: Seq::empty() };
        match commit_tree(commits, k - 1) {
            None => Some(grafted(node, node)),
            Some(root) => Some(grafted(root, node)),
        }
    }
}

/// A copy of each node of `v`, in order.
pub fn clone_trees(v: &Vec<Node>) -> (out: Vec<Node>)
    ensures
        trees_view(out@) == trees_view(v@),
    decreases v,
{
    let mut out: Vec<Node> = Vec::new();
    let mut i: usize = 0;
    while i < v.len()
        invariant
            0 <= i <= v.len(),
            out@.len() == i,
            forall|j: int| 0 <= j < i ==> out@[j]@ == v@[j]@,
        decreases v.len() - i,
    {
        let c = v[i].clone();
        out.push(c);
        i += 1;
    }
    proof {
        lemma_trees_view(out@);
        lemma_trees_view(v@);
    }
    out
}

impl Clone for Node {
    fn clone(&self) -> (out: Self)
        ensures
            out@ == self@,
        decreases *self,
    {
        Node { commit: self.commit.clone(), children: clone_trees(&self.children) }
    }
}

impl Node {
    pub fn new(commit: Commit, children: Vec<Node>) -> (out: Node)
        ensures
            out@ == (CommitTree { commit: commit@, children: trees_view(children@) }),
    {
        Node { commit, children }
    }

    /// Sets a copy of `node` below the first commit of this tree whose hash
    /// is the parent of `node`, and says whether there was one.
    pub fn graft(&mut self, node: &Node) -> (out: bool)
        ensures
            final(self)@ == grafted(old(self)@, node@),
            out == holds_hash(old(self)@, node@.commit.parent),
        decreases old(self)@,
    {
        let ghost whole = self@;
        if self.commit.hash == node.commit.parent {
            proof {
                lemma_trees_view(self.children@);
            }
            self.children.push(node.clone());
            proof {
                lemma_trees_view(self.children@);
                assert(trees_view(self.children@) =~= whole.children.push(node@));
            }
            return true;
        }
        let ghost before = trees_view(self.children@);
        let mut found = false;
        let mut i: usize = 0;
        proof {
            lemma_trees_view(self.children@);
        }
        while i < self.children.len() && !found
            invariant
                0 <= i <= self.children@.len(),
                whole == old(self)@,
                whole.children == before,
                self.commit@ == whole.commit,
                self.children@.len() == before.len(),
                found == holds_hash_any(before, node@.commit.parent, i as int),
                forall|j: int|
                    0 <= j < i ==> (#[trigger] self.children@[j])@ == grafted_first(
                        before,
                        node@,
                        i as int,
                    )[j],
                grafted_first(before, node@, i as int).len() == i,
                forall|j: int|
                    i <= j < before.len() ==> (#[trigger] self.children@[j])@ == before[j],
            decreases self.children@.len() - i,
        {
            found = self.children[i].graft(node);
            i += 1;
        }
        proof {
            lemma_graft_rest(before, node@, i as int, before.len() as int);
            lemma_trees_view(self.children@);
            assert(trees_view(self.children@) =~= grafted_first(
                before,
                node@,
                before.len() as int,
            ));
        }
        found
    }

    /// Sets a copy of `node` below the first commit of this tree whose hash
    /// is the parent of `node`.
    pub fn add_child_to_tree(&mut self, node: &Node)
        ensures
            final(self)@ == grafted(old(self)@, node@),
    {
        let _ = self.graft(node);
    }
}

/// Once the parent was found among the first `k` trees, the trees from `k`
/// on stay as they are.
pub(crate) proof fn lemma_graft_rest(s: Seq<CommitTree>, node: CommitTree, k: int, m: int)
    requires
        0 <= k <= m <= s.len(),
        k < m ==> holds_hash_any(s, node.commit.parent, k),
    ensures
        grafted_first(s, node, m).len() == m,
        forall|j: int|
            0 <= j < k ==> #[trigger] grafted_first(s, node, m)[j] == grafted_first(s, node, k)[j],
        forall|j: int| k <= j < m ==> #[trigger] grafted_first(s, node, m)[j] == s[j],
        k < m ==> holds_hash_any(s, node.commit.parent, m),
    decreases m - k,
{
    lemma_graft_len(s, node, k);
    if k < m {
        lemma_graft_rest(s, node, k, m - 1);
    }
}

/// `grafted_first` keeps the number of trees.
pub(crate) proof fn lemma_graft_len(s: Seq<CommitTree>, node: CommitTree, k: int)
    requires
        0 <= k <= s.len(),
    ensures
        grafted_first(s, node, k).len() == k,
    decreases k,
{
    if k > 0 {
        lemma_graft_len(s, node, k - 1);
    }
}

} // verus!
