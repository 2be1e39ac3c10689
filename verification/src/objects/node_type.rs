//! A node of the repository tree: a blob or a tree.

use vstd::prelude::*;
use crate::digest::{digest_of, hash_text};
use crate::objects::blob::{Blob, BlobView};
use crate::objects::tree::{Tree, TreeView};
use crate::search::{first_match, lemma_first_match};

verus! {

/// A node of the repository tree.
#[derive(Debug)]
pub enum NodeType {
    Blob(Blob),
    Tree(Tree),
}

/// What a node holds.
pub enum NodeView {
    Blob(BlobView),
    Tree(TreeView),
}

/// Which kind of child a search by name accepts.
#[derive(Clone, Copy, Debug, PartialEq, Eq, Structural)]
pub enum Kind {
    Any,
    Blob,
    Tree,
}

impl NodeView {
    pub open spec fn name(self) -> Seq<char> {
        match self {
            NodeView::Blob(b) => b.name,
            NodeView::Tree(t) => t.name,
        }
    }

    pub open spec fn hash(self) -> Seq<char> {
        match self {
            NodeView::Blob(b) => b.hash,
            NodeView::Tree(t) => t.hash,
        }
    }

    /// The children of a tree; a blob has none.
    pub open spec fn children(self) -> Seq<NodeView> {
        match self {
            NodeView::Blob(_) => Seq::empty(),
            NodeView::Tree(t) => t.nodes,
        }
    }

    /// The kind of this node.
    pub open spec fn kind(self) -> Kind {
        match self {
            NodeView::Blob(_) => Kind::Blob,
            NodeView::Tree(_) => Kind::Tree,
        }
    }

    /// Equality of nodes: two blobs by `BlobView::same`, two trees by their
    /// hashes, a blob and a tree never.
    pub open spec fn same(self, other: NodeView) -> bool {
        match (self, other) {
            (NodeView::Blob(a), NodeView::Blob(b)) => a.same(b),
            (NodeView::Tree(a), NodeView::Tree(b)) => a.hash == b.hash,
            _ => false,
        }
    }

    /// Whether both are blobs or both are trees.
    pub open spec fn same_kind(self, other: NodeView) -> bool {
        self.kind() == other.kind()
    }

    /// Whether a search for `name` among children of kind `want` accepts this
    /// node.
    pub open spec fn answers(self, name: Seq<char>, want: Kind) -> bool {
        self.name() == name && (want == Kind::Any || want == self.kind())
    }
}

/// The first child equal to `node`, or the number of children.
pub open spec fn index_of_equal(nodes: Seq<NodeView>, node: NodeView) -> int {
    first_match(nodes, |x: NodeView| x.same(node))
}

/// The first child with this name and of a wanted kind, or the number of
/// children.
pub open spec fn index_of_named(nodes: Seq<NodeView>, name: Seq<char>, want: Kind) -> int {
    first_match(nodes, |x: NodeView| x.answers(name, want))
}

/// The node that `n` stands for.
pub open spec fn node_view(n: NodeType) -> NodeView
    decreases n,
{
    match n {
        NodeType::Blob(b) => NodeView::Blob(b@),
        NodeType::Tree(t) => NodeView::Tree(
            TreeView { hash: t.hash@, name: t.name@, nodes: nodes_view(t.nodes@) },
        ),
    }
}

/// The nodes that the items of `s` stand for, in order.
pub open spec fn nodes_view(s: Seq<NodeType>) -> Seq<NodeView>
    decreases s,
{
    if s.len() == 0 {
        Seq::empty()
    } else {
        nodes_view(s.drop_last()).push(node_view(s.last()))
    }
}

impl View for NodeType {
    type V = NodeView;

    open spec fn view(&self) -> NodeView {
        node_view(*self)
    }
}

/// `nodes_view` maps item by item.
pub(crate) proof fn lemma_nodes_view(s: Seq<NodeType>)
    ensures
        nodes_view(s).len() == s.len(),
        forall|i: int| 0 <= i < s.len() ==> #[trigger] nodes_view(s)[i] == s[i]@,
    decreases s.len(),
{
    if s.len() > 0 {
        lemma_nodes_view(s.drop_last());
    }
}

/// The children of a node, and each of them, stand below the node.
pub(crate) proof fn lemma_children_below(n: NodeView, i: int)
    ensures
        n is Tree ==> decreases_to!(n => n.children()),
        0 <= i < n.children().len() ==> decreases_to!(n => n.children()[i]),
{
    match n {
        NodeView::Tree(t) => {
            assert(decreases_to!(n => t));
            assert(decreases_to!(t => t.nodes));
            if 0 <= i < t.nodes.len() {
                assert(decreases_to!(t.nodes => t.nodes[i]));
            }
        },
        NodeView::Blob(_) => {},
    }
}

/// A copy of each node of `v`, in order.
pub fn clone_nodes(v: &Vec<NodeType>) -> (out: Vec<NodeType>)
    ensures
        nodes_view(out@) == nodes_view(v@),
    decreases v,
{
    let mut out: Vec<NodeType> = Vec::new();
    let mut i: usize = 0;
    while i < v.len()
        invariant
            0 <= i <= v.len(),
            out@.len() == i,
            forall|j: int| 0 <= j < i ==> out@[j]@ == v@[j]@,
        decreases v.len() - i,
    {
        let c = v[i].clone();
        out.push(c);
        i += 1;
    }
    proof {
        lemma_nodes_view(out@);
        lemma_nodes_view(v@);
    }
    out
}

impl Clone for NodeType {
    fn clone(&self) -> (out: Self)
        ensures
            out@ == self@,
        decreases *self,
    {
        match self {
            NodeType::Blob(b) => NodeType::Blob(b.clone()),
            NodeType::Tree(t) => NodeType::Tree(
                Tree { hash: t.hash.clone(), name: t.name.clone(), nodes: clone_nodes(&t.nodes) },
            ),
        }
    }
}

impl PartialEq for NodeType {
    fn eq(&self, other: &Self) -> (out: bool) {
        match (self, other) {
            (NodeType::Blob(a), NodeType::Blob(b)) => a == b,
            (NodeType::Tree(a), NodeType::Tree(b)) => a == b,
            _ => false,
        }
    }
}

impl vstd::std_specs::cmp::PartialEqSpecImpl for NodeType {
    open spec fn obeys_eq_spec() -> bool {
        true
    }

    open spec fn eq_spec(&self, other: &Self) -> bool {
        self@.same(other@)
    }
}

} // verus!

verus! {

impl NodeView {
    /// The node after `NodeType::replace`: in a tree, the first child of
    /// `node`'s name and kind leaves and `node` is appended; without such a
    /// child, and in a blob, nothing changes.
    pub open spec fn replaced_last(self, node: NodeView) -> NodeView {
        match self {
            NodeView::Blob(_) => self,
            NodeView::Tree(t) => {
                let i = index_of_named(t.nodes, node.name(), node.kind());
                if i < t.nodes.len() {
                    NodeView::Tree(t.with_nodes(t.nodes.remove(i).push(node)))
                } else {
                    self
                }
            },
        }
    }

    /// The first child that has the name and the kind of `reference`.
    pub open spec fn partner_of(self, reference: NodeView) -> Option<NodeView> {
        let i = index_of_named(self.children(), reference.name(), reference.kind());
        if i < self.children().len() {
            Some(self.children()[i])
        } else {
            None
        }
    }

    /// The node with the children of `other` taken in: a tree takes each as
    /// `Tree::complete_node` does, a blob takes none.
    pub open spec fn completed_from(self, other: NodeView) -> NodeView {
        match self {
            NodeView::Blob(_) => self,
            NodeView::Tree(t) => NodeView::Tree(t.completed_all(other.children())),
        }
    }
}

/// The digests of `s`, one after the other.
pub open spec fn concat_hashes(s: Seq<NodeView>) -> Seq<char>
    decreases s.len(),
{
    if s.len() == 0 {
        Seq::empty()
    } else {
        concat_hashes(s.drop_last()) + s.last().hash()
    }
}

/// The node with every tree in it hashed, the deepest first: a tree's hash
/// is the digest of its children's hashes in order; a blob keeps the hash
/// that it has.
pub open spec fn hashed(n: NodeView) -> NodeView
    decreases n, 1int,
{
    match n {
        NodeView::Blob(_) => n,
        NodeView::Tree(t) => {
            let kids = hashed_all(t.nodes);
            NodeView::Tree(
                TreeView { hash: digest_of(concat_hashes(kids)), name: t.name, nodes: kids },
            )
        },
    }
}

/// Each node of `s` hashed.
pub open spec fn hashed_all(s: Seq<NodeView>) -> Seq<NodeView>
    decreases s, 0int,
{
    if s.len() == 0 {
        Seq::empty()
    } else {
        hashed_all(s.drop_last()).push(hashed(s.last()))
    }
}

/// `hashed_all` maps item by item.
pub(crate) proof fn lemma_hashed_all(s: Seq<NodeView>)
    ensures
        hashed_all(s).len() == s.len(),
        forall|i: int| 0 <= i < s.len() ==> #[trigger] hashed_all(s)[i] == hashed(s[i]),
    decreases s.len(),
{
    if s.len() > 0 {
        lemma_hashed_all(s.drop_last());
    }
}

/// What `fuse` gives for `a` and `b`. Nothing where the two are equal.
/// Otherwise `a`, with the children of `b` taken in as
/// `Tree::complete_node` does, and then each child that has a partner in `b`
/// fused with it: the outcome leaves its place and is appended.
pub open spec fn fused(a: NodeView, b: NodeView) -> Option<NodeView>
    decreases b, 1int, 0int,
{
    if a.same(b) {
        None
    } else {
        let start = a.completed_from(b);
        Some(fuse_pass(start, start.children(), b, start.children().len() as int))
    }
}

/// `start` after the first `k` nodes of `snapshot` were fused with their
/// partners among the children of `b`.
pub open spec fn fuse_pass(
    start: NodeView,
    snapshot: Seq<NodeView>,
    b: NodeView,
    k: int,
) -> NodeView
    decreases b, 0int, k,
{
    if k <= 0 || k > snapshot.len() {
        start
    } else {
        let acc = fuse_pass(start, snapshot, b, k - 1);
        let child = snapshot[k - 1];
        let i = index_of_named(b.children(), child.name(), child.kind());
        if 0 <= i < b.children().len() {
            match fused(child, b.children()[i]) {
                Some(outcome) => acc.replaced_last(outcome),
                None => acc,
            }
        } else {
            acc
        }
    }
}

/// What `merge` gives for `a` and `b`. Nothing where the two are equal and
/// `a` has a name, and nothing for a blob and a tree. Two blobs give the
/// first with the merged text of both contents, hashed anew. Two trees give
/// the first, each child merged with its partner in the second, and then
/// the children of the second whose name and kind the first lacks.
pub open spec fn merged(a: NodeView, b: NodeView) -> Option<NodeView>
    decreases b, 1int,
{
    if a.same(b) && a.name().len() > 0 {
        None
    } else {
        match (a, b) {
            (NodeView::Blob(x), NodeView::Blob(y)) => Some(NodeView::Blob(x.merged_with(y))),
            (NodeView::Tree(x), NodeView::Tree(y)) => Some(
                NodeView::Tree(
                    x.with_nodes(
                        with_missing(merged_children(x.nodes, b, x.nodes.len() as int), y.nodes),
                    ),
                ),
            ),
            _ => None,
        }
    }
}

/// The first `k` nodes of `nodes`, each merged with its partner among the
/// children of `b`; a node without a partner, or equal to it, stays as it
/// is.
pub open spec fn merged_children(nodes: Seq<NodeView>, b: NodeView, k: int) -> Seq<NodeView>
    decreases b, 0int, k,
{
    if k <= 0 || k > nodes.len() {
        Seq::empty()
    } else {
        let child = nodes[k - 1];
        let i = index_of_named(b.children(), child.name(), child.kind());
        let kept = if 0 <= i < b.children().len() {
            match merged(child, b.children()[i]) {
                Some(outcome) => outcome,
                None => child,
            }
        } else {
            child
        };
        merged_children(nodes, b, k - 1).push(kept)
    }
}

/// `nodes`, and after them each node of `extra` whose name and kind no node
/// before it has.
pub open spec fn with_missing(nodes: Seq<NodeView>, extra: Seq<NodeView>) -> Seq<NodeView>
    decreases extra.len(),
{
    if extra.len() == 0 {
        nodes
    } else {
        let acc = with_missing(nodes, extra.drop_last());
        let e = extra.last();
        if index_of_named(acc, e.name(), e.kind()) < acc.len() {
            acc
        } else {
            acc.push(e)
        }
    }
}

} // verus!

verus! {

impl NodeType {
    /// The kind of this node.
    pub fn kind(&self) -> (out: Kind)
        ensures
            out == self@.kind(),
    {
        match self {
            NodeType::Blob(_) => Kind::Blob,
            NodeType::Tree(_) => Kind::Tree,
        }
    }

    /// The name of this node, borrowed.
    pub fn name_ref(&self) -> (out: &String)
        ensures
            out@ == self@.name(),
    {
        match self {
            NodeType::Blob(b) => &b.name,
            NodeType::Tree(t) => &t.name,
        }
    }

    /// Whether this node is called `name` and is of a wanted kind.
    pub fn answers(&self, name: &String, want: Kind) -> (out: bool)
        ensures
            out == self@.answers(name@, want),
    {
        *self.name_ref() == *name && (want == Kind::Any || want == self.kind())
    }

    pub fn get_name(&self) -> (out: String)
        ensures
            out@ == self@.name(),
    {
        self.name_ref().clone()
    }

    pub fn get_hash(&self) -> (out: String)
        ensures
            out@ == self@.hash(),
    {
        match self {
            NodeType::Tree(t) => t.hash.clone(),
            NodeType::Blob(b) => b.hash.clone(),
        }
    }

    /// A copy of the children of a tree; a blob has none.
    pub fn get_nodes(&self) -> (out: Vec<NodeType>)
        ensures
            nodes_view(out@) == self@.children(),
    {
        match self {
            NodeType::Tree(t) => clone_nodes(&t.nodes),
            NodeType::Blob(_) => Vec::new(),
        }
    }

    /// Appends `node` to the children of a tree; a blob stays as it is.
    pub fn add_node(&mut self, node: NodeType)
        ensures
            final(self)@ == match old(self)@ {
                NodeView::Tree(t) => NodeView::Tree(t.with_nodes(t.nodes.push(node@))),
                NodeView::Blob(_) => old(self)@,
            },
    {
        match self {
            NodeType::Tree(t) => {
                t.add_node(node);
            },
            NodeType::Blob(_) => {},
        }
    }

    /// Removes the first child of a tree that is equal to `node`; a blob
    /// stays as it is.
    pub fn remove_node(&mut self, node: &NodeType)
        ensures
            final(self)@ == match old(self)@ {
                NodeView::Tree(t) => NodeView::Tree(t.removed(node@)),
                NodeView::Blob(_) => old(self)@,
            },
    {
        match self {
            NodeType::Tree(t) => {
                t.remove_node(node);
            },
            NodeType::Blob(_) => {},
        }
    }

    /// In a tree, takes out the first child of `node`'s name and kind, and
    /// appends `node`. Without such a child, and in a blob, nothing changes.
    pub fn replace(&mut self, node: NodeType)
        ensures
            final(self)@ == old(self)@.replaced_last(node@),
    {
        match self {
            NodeType::Tree(t) => {
                let i = t.position_named(node.name_ref(), node.kind());
                proof {
                    lemma_nodes_view(t.nodes@);
                }
                if i < t.nodes.len() {
                    t.remove_at(i);
                    t.add_node(node);
                }
            },
            NodeType::Blob(_) => {},
        }
    }

    /// Whether both are blobs or both are trees.
    pub fn is_same_type(n1: &NodeType, n2: &NodeType) -> (out: bool)
        ensures
            out == n1@.same_kind(n2@),
    {
        match (n1, n2) {
            (NodeType::Blob(_), NodeType::Blob(_)) => true,
            (NodeType::Tree(_), NodeType::Tree(_)) => true,
            _ => false,
        }
    }

    /// A copy of the first child of `node` that has the name and the kind of
    /// `reference`.
    pub fn find_node_with_same_name(reference: &NodeType, node: &NodeType) -> (out: Option<
        NodeType,
    >)
        ensures
            match out {
                Some(found) => node@.partner_of(reference@) == Some(found@),
                None => node@.partner_of(reference@) is None,
            },
    {
        match node {
            NodeType::Tree(t) => {
                let i = t.position_named(reference.name_ref(), reference.kind());
                proof {
                    lemma_nodes_view(t.nodes@);
                }
                if i < t.nodes.len() {
                    Some(t.nodes[i].clone())
                } else {
                    None
                }
            },
            NodeType::Blob(_) => {
                None
            },
        }
    }

    /// Takes each child of `node` in, as `Tree::complete_node` does; a blob
    /// takes none.
    pub fn complete_node_from_another_node(&mut self, node: NodeType)
        ensures
            final(self)@ == old(self)@.completed_from(node@),
    {
        match self {
            NodeType::Tree(tree) => {
                tree.complete_node_from_another_node(node);
            },
            _ => (),
        }
    }

    /// Hashes every tree in this node, the deepest first, and returns the
    /// hash of the node itself.
    pub fn create_node_hash(&mut self) -> (out: String)
        ensures
            final(self)@ == hashed(old(self)@),
            out@ == hashed(old(self)@).hash(),
        decreases old(self)@,
    {
        match self {
            NodeType::Blob(b) => b.hash.clone(),
            NodeType::Tree(t) => {
                let ghost before = nodes_view(t.nodes@);
                let ghost whole = old(self)@;
                let mut total = String::new();
                let mut i: usize = 0;
                proof {
                    lemma_nodes_view(t.nodes@);
                }
                while i < t.nodes.len()
                    invariant
                        0 <= i <= t.nodes@.len(),
                        whole is Tree,
                        whole == old(self)@,
                        whole.children() == before,
                        t.name@ == whole.name(),
                        t.nodes@.len() == before.len(),
                        forall|j: int|
                            0 <= j < i ==> (#[trigger] t.nodes@[j])@ == hashed(before[j]),
                        forall|j: int|
                            i <= j < before.len() ==> (#[trigger] t.nodes@[j])@ == before[j],
                        total@ == concat_hashes(hashed_all(before.take(i as int))),
                    decreases t.nodes@.len() - i,
                {
                    let h = t.nodes[i].create_node_hash();
                    proof {
                        lemma_hashed_all(before.take(i + 1));
                        lemma_hashed_all(before.take(i as int));
                        assert(hashed_all(before.take(i + 1)).drop_last() =~= hashed_all(
                            before.take(i as int),
                        ));
                    }
                    total.append(h.as_str());
                    i += 1;
                }
                let hash = hash_text(total.as_str());
                proof {
                    assert(before.take(i as int) =~= before);
                    lemma_hashed_all(before);
                    lemma_nodes_view(t.nodes@);
                    assert(nodes_view(t.nodes@) =~= hashed_all(before));
                }
                t.hash = hash.clone();
                hash
            },
        }
    }
}

} // verus!

verus! {

/// `merged_children` and `with_missing` keep what `nodes` holds.
pub(crate) proof fn lemma_merged_children_len(nodes: Seq<NodeView>, b: NodeView, k: int)
    requires
        0 <= k <= nodes.len(),
    ensures
        merged_children(nodes, b, k).len() == k,
    decreases k,
{
    if k > 0 {
        lemma_merged_children_len(nodes, b, k - 1);
    }
}

impl NodeType {
    /// Reconciles `r1`, the older tree, with `r2`, the newer one. Nothing
    /// comes back where the two are equal. Otherwise `r1` comes back with
    /// the children of `r2` taken in: a child whose name `r1` lacks is
    /// added, a blob of `r2` takes the place of the blob of its name, and a
    /// child that has a partner in `r2` is fused with it in turn.
    pub fn fuse(r1: NodeType, r2: NodeType) -> (out: Option<NodeType>)
        ensures
            match out {
                Some(node) => fused(r1@, r2@) == Some(node@),
                None => fused(r1@, r2@) is None,
            },
        decreases r2@,
    {
        if r1 == r2 {
            return None;
        }
        let mut new = r1;
        new.complete_node_from_another_node(r2.clone());
        let ghost start = new@;
        let snapshot = new.get_nodes();
        let ghost snap = nodes_view(snapshot@);
        let mut k: usize = 0;
        proof {
            lemma_nodes_view(snapshot@);
        }
        while k < snapshot.len()
            invariant
                0 <= k <= snapshot@.len(),
                snap == nodes_view(snapshot@),
                snap.len() == snapshot@.len(),
                forall|j: int| 0 <= j < snap.len() ==> #[trigger] snap[j] == snapshot@[j]@,
                new@ == fuse_pass(start, snap, r2@, k as int),
            decreases snapshot@.len() - k,
        {
            let child = &snapshot[k];
            match NodeType::find_node_with_same_name(child, &r2) {
                Some(partner) => {
                    proof {
                        lemma_first_match(
                            r2@.children(),
                            |x: NodeView| x.answers(child@.name(), child@.kind()),
                        );
                    }
                    match NodeType::fuse(child.clone(), partner) {
                        Some(outcome) => {
                            new.replace(outcome);
                        },
                        None => {},
                    }
                },
                None => {},
            }
            k += 1;
        }
        Some(new)
    }

    /// Merges `n2` into `n1`. Nothing comes back where the two are equal and
    /// `n1` has a name, nor for a blob and a tree. Two blobs give the first
    /// with the merged text of both contents, hashed anew. Two trees give
    /// the first, each
    /// child merged with its partner in the second, followed by the children
    /// of the second whose name and kind the first lacks.
    pub fn merge(n1: NodeType, n2: NodeType) -> (out: Option<NodeType>)
        ensures
            match out {
                Some(node) => merged(n1@, n2@) == Some(node@),
                None => merged(n1@, n2@) is None,
            },
        decreases n2@,
    {
        if n1 == n2 && !n1.name_ref().as_str().is_empty() {
            return None;
        }
        let ghost whole = n2@;
        match (n1, n2) {
            (NodeType::Blob(mut b1), NodeType::Blob(b2)) => {
                b1.merge(b2);
                Some(NodeType::Blob(b1))
            },
            (NodeType::Tree(mut t1), NodeType::Tree(t2)) => {
                let ghost before = nodes_view(t1.nodes@);
                let ghost others = nodes_view(t2.nodes@);
                let mut k: usize = 0;
                proof {
                    lemma_nodes_view(t1.nodes@);
                    lemma_nodes_view(t2.nodes@);
                }
                while k < t1.nodes.len()
                    invariant
                        0 <= k <= t1.nodes@.len(),
                        whole == NodeView::Tree(t2@),
                        whole == n2@,
                        others == nodes_view(t2.nodes@),
                        others.len() == t2.nodes@.len(),
                        forall|j: int|
                            0 <= j < others.len() ==> #[trigger] others[j] == t2.nodes@[j]@,
                        t1.nodes@.len() == before.len(),
                        t1.name@ == n1@.name(),
                        t1.hash@ == n1@.hash(),
                        before == n1@.children(),
                        forall|j: int|
                            0 <= j < k ==> (#[trigger] t1.nodes@[j])@ == merged_children(
                                before,
                                whole,
                                k as int,
                            )[j],
                        merged_children(before, whole, k as int).len() == k,
                        forall|j: int|
                            k <= j < before.len() ==> (#[trigger] t1.nodes@[j])@ == before[j],
                    decreases t1.nodes@.len() - k,
                {
                    let i = t2.position_named(t1.nodes[k].name_ref(), t1.nodes[k].kind());
                    proof {
                        lemma_merged_children_len(before, whole, k + 1);
                    }
                    if i < t2.nodes.len() {
                        match NodeType::merge(t1.nodes[k].clone(), t2.nodes[i].clone()) {
                            Some(outcome) => {
                                t1.nodes[k] = outcome;
                            },
                            None => {},
                        }
                    }
                    k += 1;
                }
                let ghost firsts = nodes_view(t1.nodes@);
                let mut j: usize = 0;
                proof {
                    lemma_nodes_view(t1.nodes@);
                    assert(firsts =~= merged_children(before, whole, before.len() as int));
                }
                while j < t2.nodes.len()
                    invariant
                        0 <= j <= t2.nodes@.len(),
                        others == nodes_view(t2.nodes@),
                        others.len() == t2.nodes@.len(),
                        forall|x: int|
                            0 <= x < others.len() ==> #[trigger] others[x] == t2.nodes@[x]@,
                        t1@ == (TreeView {
                            hash: n1@.hash(),
                            name: n1@.name(),
                            nodes: with_missing(firsts, others.take(j as int)),
                        }),
                    decreases t2.nodes@.len() - j,
                {
                    proof {
                        assert(others.take(j + 1).drop_last() =~= others.take(j as int));
                    }
                    if !t1.exist_node_with_same_name_and_type(&t2.nodes[j]) {
                        t1.add_node(t2.nodes[j].clone());
                    }
                    j += 1;
                }
                proof {
                    assert(others.take(j as int) =~= others);
                }
                Some(NodeType::Tree(t1))
            },
            _ => None,
        }
    }
}

/// Fusing a node with itself changes nothing: no node comes back.
pub proof fn lemma_fuse_self(a: NodeView)
    ensures
        fused(a, a) is None,
{
}

} // verus!
