//! Writing nodes to the object store, and reading them back.

use vstd::prelude::*;
use crate::error::{DitError, Failure};
use crate::objects::blob::{Blob, BlobView};
use crate::objects::node_type::{
    Kind, NodeType, NodeView, lemma_children_below, lemma_nodes_view, nodes_view,
};
use crate::objects::tree::{Tree, TreeView};
use crate::store::ObjectStore;
use crate::text::{chars_of, lines_view, raw_lines, same_chars, slice_chars, split_chars, string_of};

verus! {

/// The line that stands for a child in the text of its tree: the kind, the
/// hash and the name, with a space between them and a newline at the end.
pub open spec fn entry_line(n: NodeView) -> Seq<char> {
    (if n is Tree {
        "tree "@
    } else {
        "blob "@
    }) + n.hash() + " "@ + n.name() + "\n"@
}

/// The text under which a tree with these children is stored: one line for
/// each child, in order.
pub open spec fn tree_text(nodes: Seq<NodeView>) -> Seq<char>
    decreases nodes.len(),
{
    if nodes.len() == 0 {
        Seq::empty()
    } else {
        tree_text(nodes.drop_last()) + entry_line(nodes.last())
    }
}

/// The store after `n` was written to it. A node whose hash is taken is not
/// written, and neither is anything below it. A blob is written as its
/// content and a newline; a tree as its text, and then its children in
/// order.
pub open spec fn stored(store: Map<Seq<char>, Seq<char>>, n: NodeView) -> Map<Seq<char>, Seq<char>>
    decreases n, 1int,
{
    match n {
        NodeView::Blob(b) => if store.contains_key(b.hash) {
            store
        } else {
            store.insert(b.hash, b.object_text())
        },
        NodeView::Tree(t) => if store.contains_key(t.hash) {
            store
        } else {
            stored_all(store.insert(t.hash, tree_text(t.nodes)), t.nodes)
        },
    }
}

/// The store after each of `nodes` was written to it, in order.
pub open spec fn stored_all(store: Map<Seq<char>, Seq<char>>, nodes: Seq<NodeView>) -> Map<
    Seq<char>,
    Seq<char>,
>
    decreases nodes, 0int,
{
    if nodes.len() == 0 {
        store
    } else {
        stored(stored_all(store, nodes.drop_last()), nodes.last())
    }
}

/// What a line of a tree's text says: the kind, the hash and the name of a
/// child. The kind is the first four characters, `blob` or `tree`; the hash
/// the forty from the sixth on; the name what follows the forty-seventh. A
/// space stands before the hash and behind it. Any other line says nothing.
pub open spec fn parse_entry(line: Seq<char>) -> Option<(Kind, Seq<char>, Seq<char>)> {
    if line.len() < 46 || line[4] != ' ' || line[45] != ' ' {
        None
    } else if line.subrange(0, 4) == "blob"@ {
        Some((Kind::Blob, line.subrange(5, 45), line.skip(46)))
    } else if line.subrange(0, 4) == "tree"@ {
        Some((Kind::Tree, line.subrange(5, 45), line.skip(46)))
    } else {
        None
    }
}

/// The error for a hash that a tree refers to and under which nothing is
/// stored.
pub open spec fn missing_object() -> Failure {
    Failure::UnexpectedComportement("missing object for a referenced hash"@)
}

/// The error for a line of a tree's text that names no child.
pub open spec fn malformed_line() -> Failure {
    Failure::UnexpectedComportement("malformed line in a tree object"@)
}

/// The error for trees that are nested deeper than the store has objects.
pub open spec fn nested_too_deep() -> Failure {
    Failure::UnexpectedComportement("tree objects refer to each other in a circle"@)
}

/// The children of the tree stored under `hash`, each with all that is below
/// it, read through at most `fuel` levels of trees below this one.
pub open spec fn load_nodes(store: Map<Seq<char>, Seq<char>>, hash: Seq<char>, fuel: nat) -> Result<
    Seq<NodeView>,
    Failure,
>
    decreases fuel, 2int, 0int,
{
    if !store.contains_key(hash) {
        Err(missing_object())
    } else {
        load_lines(store, raw_lines(store[hash]), fuel)
    }
}

/// The children that `lines` name, in order; the first line that fails
/// decides the error.
pub open spec fn load_lines(
    store: Map<Seq<char>, Seq<char>>,
    lines: Seq<Seq<char>>,
    fuel: nat,
) -> Result<Seq<NodeView>, Failure>
    decreases fuel, 1int, lines.len(),
{
    if lines.len() == 0 {
        Ok(Seq::empty())
    } else {
        match load_lines(store, lines.drop_last(), fuel) {
            Err(e) => Err(e),
            Ok(front) => match load_entry(store, lines.last(), fuel) {
                Err(e) => Err(e),
                Ok(node) => Ok(front.push(node)),
            },
        }
    }
}

/// The child that `line` names: a blob with the text stored under its hash
/// as content, or a tree with the children stored under its hash.
pub open spec fn load_entry(store: Map<Seq<char>, Seq<char>>, line: Seq<char>, fuel: nat) -> Result<
    NodeView,
    Failure,
>
    decreases fuel, 0int, 0int,
{
    match parse_entry(line) {
        None => Err(malformed_line()),
        Some((kind, hash, name)) => if kind == Kind::Blob {
            if store.contains_key(hash) {
                Ok(NodeView::Blob(BlobView { hash, name, content: store[hash] }))
            } else {
                Err(missing_object())
            }
        } else if fuel == 0 {
            Err(nested_too_deep())
        } else {
            match load_nodes(store, hash, (fuel - 1) as nat) {
                Err(e) => Err(e),
                Ok(nodes) => Ok(NodeView::Tree(TreeView { hash, name, nodes })),
            }
        },
    }
}

/// What `line` says, where it names a child.
pub fn read_entry(line: &Vec<char>) -> (out: Option<(Kind, String, String)>)
    ensures
        match out {
            Some((kind, hash, name)) => parse_entry(line@) == Some((kind, hash@, name@)),
            None => parse_entry(line@) is None,
        },
{
    if line.len() < 46 || line[4] != ' ' || line[45] != ' ' {
        return None;
    }
    let word = slice_chars(line, 0, 4);
    let kind = if same_chars(&word, &chars_of("blob")) {
        Kind::Blob
    } else if same_chars(&word, &chars_of("tree")) {
        Kind::Tree
    } else {
        return None;
    };
    let hash = string_of(&slice_chars(line, 5, 45));
    let name = string_of(&slice_chars(line, 46, line.len()));
    Some((kind, hash, name))
}

/// The children of the tree stored under `hash`, read through at most `fuel`
/// levels of trees below this one.
pub fn load_children(store: &ObjectStore, hash: &String, fuel: usize) -> (out: Result<
    Vec<NodeType>,
    DitError,
>)
    ensures
        match out {
            Ok(nodes) => load_nodes(store@, hash@, fuel as nat) == Ok::<Seq<NodeView>, Failure>(
                nodes_view(nodes@),
            ),
            Err(e) => load_nodes(store@, hash@, fuel as nat) == Err::<Seq<NodeView>, Failure>(e@),
        },
    decreases fuel,
{
    let text = match store.get(hash) {
        Some(text) => text,
        None => {
            return Err(DitError::unexpected("missing object for a referenced hash"));
        },
    };
    let lines = split_chars(&chars_of(text.as_str()), '\n', true);
    let ghost all = lines_view(lines@);
    let mut nodes: Vec<NodeType> = Vec::new();
    let mut i: usize = 0;
    while i < lines.len()
        invariant
            0 <= i <= lines@.len(),
            all == lines_view(lines@),
            store@.contains_key(hash@),
            all == raw_lines(store@[hash@]),
            load_lines(store@, all.take(i as int), fuel as nat) == Ok::<Seq<NodeView>, Failure>(
                nodes_view(nodes@),
            ),
        decreases lines@.len() - i,
    {
        proof {
            lemma_load_lines_step(store@, all, fuel as nat, i as int);
        }
        let node = match read_entry(&lines[i]) {
            None => {
                proof {
                    lemma_load_lines_fails(store@, all, fuel as nat, i + 1);
                }
                return Err(DitError::unexpected("malformed line in a tree object"));
            },
            Some((kind, child_hash, name)) => {
                if kind == Kind::Blob {
                    match store.get(&child_hash) {
                        Some(content) => NodeType::Blob(
                            Blob { hash: child_hash, name, content: content.clone() },
                        ),
                        None => {
                            proof {
                                lemma_load_lines_fails(store@, all, fuel as nat, i + 1);
                            }
                            return Err(DitError::unexpected("missing object for a referenced hash"));
                        },
                    }
                } else if fuel == 0 {
                    proof {
                        lemma_load_lines_fails(store@, all, fuel as nat, i + 1);
                    }
                    return Err(
                        DitError::unexpected("tree objects refer to each other in a circle"),
                    );
                } else {
                    match load_children(store, &child_hash, fuel - 1) {
                        Ok(kids) => NodeType::Tree(Tree { hash: child_hash, name, nodes: kids }),
                        Err(e) => {
                            proof {
                                lemma_load_lines_fails(store@, all, fuel as nat, i + 1);
                            }
                            return Err(e);
                        },
                    }
                }
            },
        };
        proof {
            crate::objects::tree::lemma_nodes_view_ops(nodes@, 0, node);
        }
        nodes.push(node);
        i += 1;
    }
    proof {
        assert(all.take(i as int) =~= all);
    }
    Ok(nodes)
}

/// One more line: the front decides, and then the line itself.
pub(crate) proof fn lemma_load_lines_step(
    store: Map<Seq<char>, Seq<char>>,
    lines: Seq<Seq<char>>,
    fuel: nat,
    k: int,
)
    requires
        0 <= k < lines.len(),
    ensures
        load_lines(store, lines.take(k + 1), fuel) == match load_lines(store, lines.take(k), fuel) {
            Err(e) => Err::<Seq<NodeView>, Failure>(e),
            Ok(front) => match load_entry(store, lines[k], fuel) {
                Err(e) => Err(e),
                Ok(node) => Ok(front.push(node)),
            },
        },
{
    assert(lines.take(k + 1).drop_last() =~= lines.take(k));
}

/// Once a front part of `lines` fails, all of `lines` fails with its error.
pub(crate) proof fn lemma_load_lines_fails(
    store: Map<Seq<char>, Seq<char>>,
    lines: Seq<Seq<char>>,
    fuel: nat,
    k: int,
)
    requires
        0 <= k <= lines.len(),
        load_lines(store, lines.take(k), fuel) is Err,
    ensures
        load_lines(store, lines, fuel) == load_lines(store, lines.take(k), fuel),
    decreases lines.len() - k,
{
    if k < lines.len() {
        assert(lines.take(k + 1).drop_last() =~= lines.take(k));
        lemma_load_lines_fails(store, lines, fuel, k + 1);
    } else {
        assert(lines.take(k) =~= lines);
    }
}

/// `nodes_view` of two sequences joined.
pub(crate) proof fn lemma_nodes_view_add(a: Seq<NodeType>, b: Seq<NodeType>)
    ensures
        nodes_view(a + b) == nodes_view(a) + nodes_view(b),
{
    lemma_nodes_view(a);
    lemma_nodes_view(b);
    lemma_nodes_view(a + b);
}

impl Blob {
    /// The text under which the blob is stored: its content and a newline.
    pub fn object_text(&self) -> (out: String)
        ensures
            out@ == self@.object_text(),
    {
        let mut out = self.content.clone();
        out.append("\n");
        proof {
            reveal_strlit("\n");
        }
        out
    }

    /// Stores the blob under its hash, unless an object is stored there.
    pub fn write_content_to_file(&self, store: &mut ObjectStore)
        ensures
            final(store)@ == stored(old(store)@, NodeView::Blob(self@)),
    {
        store.put(self.hash.clone(), self.object_text());
    }
}

/// The line that stands for `node` in the text of its tree.
pub fn entry_line_of(node: &NodeType) -> (out: String)
    ensures
        out@ == entry_line(node@),
{
    let mut out = match node {
        NodeType::Tree(_) => String::from_str("tree "),
        NodeType::Blob(_) => String::from_str("blob "),
    };
    let hash = node.get_hash();
    out.append(hash.as_str());
    out.append(" ");
    out.append(node.name_ref().as_str());
    out.append("\n");
    out
}

impl Tree {
    /// The text under which the tree is stored: one line for each child.
    pub fn object_text(&self) -> (out: String)
        ensures
            out@ == tree_text(self@.nodes),
    {
        let ghost all = nodes_view(self.nodes@);
        let mut out = String::new();
        let mut i: usize = 0;
        proof {
            lemma_nodes_view(self.nodes@);
        }
        while i < self.nodes.len()
            invariant
                0 <= i <= self.nodes@.len(),
                all == nodes_view(self.nodes@),
                all.len() == self.nodes@.len(),
                forall|j: int| 0 <= j < all.len() ==> #[trigger] all[j] == self.nodes@[j]@,
                out@ == tree_text(all.take(i as int)),
            decreases self.nodes@.len() - i,
        {
            proof {
                assert(all.take(i + 1).drop_last() =~= all.take(i as int));
            }
            let line = entry_line_of(&self.nodes[i]);
            out.append(line.as_str());
            i += 1;
        }
        proof {
            assert(all.take(i as int) =~= all);
        }
        out
    }

    /// Writes each child to the store, in order.
    pub fn write_tree_node_to_file(&self, store: &mut ObjectStore)
        ensures
            final(store)@ == stored_all(old(store)@, self@.nodes),
        decreases self@.nodes, 0int,
    {
        let ghost all = nodes_view(self.nodes@);
        let mut i: usize = 0;
        proof {
            lemma_nodes_view(self.nodes@);
        }
        while i < self.nodes.len()
            invariant
                0 <= i <= self.nodes@.len(),
                all == nodes_view(self.nodes@),
                all == self@.nodes,
                all.len() == self.nodes@.len(),
                forall|j: int| 0 <= j < all.len() ==> #[trigger] all[j] == self.nodes@[j]@,
                store@ == stored_all(old(store)@, all.take(i as int)),
            decreases self.nodes@.len() - i,
        {
            proof {
                assert(all.take(i + 1).drop_last() =~= all.take(i as int));
                assert(decreases_to!(all => all[i as int]));
            }
            self.nodes[i].transcript_to_files(store);
            i += 1;
        }
        proof {
            assert(all.take(i as int) =~= all);
        }
    }

    /// Reads the children of the tree stored under `staged_hash`, each with
    /// all that is below it, and appends them to the children of this tree.
    /// On an error this tree stays as it is.
    pub fn get_tree_from_file(&mut self, staged_hash: String, store: &ObjectStore) -> (out: Result<
        (),
        DitError,
    >)
        ensures
            match load_nodes(store@, staged_hash@, store.objects@.len()) {
                Ok(nodes) => out is Ok && final(self)@ == old(self)@.with_nodes(
                    old(self)@.nodes + nodes,
                ),
                Err(e) => out is Err && out->Err_0@ == e && final(self)@ == old(self)@,
            },
    {
        match load_children(store, &staged_hash, store.objects.len()) {
            Ok(mut nodes) => {
                proof {
                    lemma_nodes_view_add(self.nodes@, nodes@);
                }
                self.nodes.append(&mut nodes);
                Ok(())
            },
            Err(e) => Err(e),
        }
    }

    /// Appends the blob stored under `hash` to the children, under the name
    /// `file_name` and with the stored text as content.
    pub fn get_blob_from_file(
        &mut self,
        file_name: String,
        hash: String,
        store: &ObjectStore,
    ) -> (out: Result<(), DitError>)
        ensures
            store@.contains_key(hash@) ==> out is Ok && final(self)@ == old(self)@.with_nodes(
                old(self)@.nodes.push(
                    NodeView::Blob(
                        BlobView { hash: hash@, name: file_name@, content: store@[hash@] },
                    ),
                ),
            ),
            !store@.contains_key(hash@) ==> out is Err && out->Err_0@ == missing_object()
                && final(self)@ == old(self)@,
    {
        match store.get(&hash) {
            Some(content) => {
                let blob = Blob::new(file_name, content.clone(), hash);
                self.add_node(NodeType::Blob(blob));
                Ok(())
            },
            None => Err(DitError::unexpected("missing object for a referenced hash")),
        }
    }
}

impl NodeType {
    /// Writes this node and all that is below it to the store. A node whose
    /// hash is taken is not written, and neither is anything below it.
    pub fn transcript_to_files(&self, store: &mut ObjectStore)
        ensures
            final(store)@ == stored(old(store)@, self@),
        decreases self@, 1int,
    {
        match self {
            NodeType::Tree(tree) => {
                if !store.contains(&tree.hash) {
                    store.put(tree.hash.clone(), tree.object_text());
                    proof {
                        lemma_children_below(self@, 0);
                    }
                    tree.write_tree_node_to_file(store);
                }
            },
            NodeType::Blob(blob) => {
                blob.write_content_to_file(store);
            },
        }
    }
}

/// Writing is write-once: whatever the store holds before `n` is written,
/// it holds after, under the same hash and with the same text.
pub proof fn lemma_stored_keeps(store: Map<Seq<char>, Seq<char>>, n: NodeView)
    ensures
        forall|h: Seq<char>| #[trigger]
            store.contains_key(h) ==> stored(store, n).contains_key(h) && stored(store, n)[h]
                == store[h],
    decreases n, 1int,
{
    match n {
        NodeView::Blob(_) => {},
        NodeView::Tree(t) => {
            if !store.contains_key(t.hash) {
                let first = store.insert(t.hash, tree_text(t.nodes));
                lemma_stored_all_keeps(first, t.nodes);
                assert forall|h: Seq<char>| #[trigger] store.contains_key(h) implies stored(
                    store,
                    n,
                ).contains_key(h) && stored(store, n)[h] == store[h] by {
                    assert(first.contains_key(h));
                }
            }
        },
    }
}

/// Writing several nodes is write-once too.
pub(crate) proof fn lemma_stored_all_keeps(store: Map<Seq<char>, Seq<char>>, nodes: Seq<NodeView>)
    ensures
        forall|h: Seq<char>| #[trigger]
            store.contains_key(h) ==> stored_all(store, nodes).contains_key(h) && stored_all(
                store,
                nodes,
            )[h] == store[h],
    decreases nodes, 0int,
{
    if nodes.len() > 0 {
        let front = stored_all(store, nodes.drop_last());
        lemma_stored_all_keeps(store, nodes.drop_last());
        lemma_stored_keeps(front, nodes.last());
    }
}

/// Writing a node whose hash is taken is no operation: the store after is
/// the store before.
pub proof fn lemma_stored_again(store: Map<Seq<char>, Seq<char>>, n: NodeView)
    requires
        store.contains_key(n.hash()),
    ensures
        stored(store, n) == store,
{
}

/// Writing a node a second time changes nothing.
pub proof fn lemma_stored_twice(store: Map<Seq<char>, Seq<char>>, n: NodeView)
    ensures
        stored(stored(store, n), n) == stored(store, n),
{
    match n {
        NodeView::Blob(_) => {},
        NodeView::Tree(t) => {
            if !store.contains_key(t.hash) {
                let first = store.insert(t.hash, tree_text(t.nodes));
                lemma_stored_all_keeps(first, t.nodes);
                assert(first.contains_key(t.hash));
            }
        },
    }
}

/// What is written is read back: the line of a child with a hash of forty
/// characters, without the newline at its end, says the kind, the hash and
/// the name of that child.
pub proof fn lemma_entry_line_reads_back(n: NodeView)
    requires
        n.hash().len() == 40,
    ensures
        parse_entry(entry_line(n).drop_last()) == Some((n.kind(), n.hash(), n.name())),
{
    reveal_strlit("tree ");
    reveal_strlit("blob ");
    reveal_strlit("tree");
    reveal_strlit("blob");
    reveal_strlit(" ");
    reveal_strlit("\n");
    let line = entry_line(n).drop_last();
    if n is Tree {
        assert(line.subrange(0, 4) =~= "tree"@);
        assert("tree"@[0] != "blob"@[0]);
    } else {
        assert(line.subrange(0, 4) =~= "blob"@);
    }
}

} // verus!
