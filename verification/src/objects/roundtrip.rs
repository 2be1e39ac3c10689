//! Reading back what was written: a tree that the store holds whole is read
//! from it as it is.

use vstd::prelude::*;
use crate::error::Failure;
use crate::objects::blob::BlobView;
use crate::objects::node_type::NodeView;
use crate::objects::transcript::{
    entry_line, lemma_entry_line_reads_back, load_entry, load_lines, load_nodes, tree_text,
};
use crate::objects::tree::TreeView;
use crate::search::lemma_first_match_is;
use crate::text::{is_char, raw_lines};

verus! {

/// The text under which a node is stored.
pub open spec fn text_of(m: NodeView) -> Seq<char> {
    match m {
        NodeView::Blob(b) => b.object_text(),
        NodeView::Tree(t) => tree_text(t.nodes),
    }
}

/// Whether the store holds `m` under its hash, and all that is below it.
pub open spec fn holds(store: Map<Seq<char>, Seq<char>>, m: NodeView) -> bool
    decreases m,
{
    &&& store.contains_key(m.hash())
    &&& store[m.hash()] == text_of(m)
    &&& forall|i: int| 0 <= i < m.children().len() ==> holds(store, #[trigger] m.children()[i])
}

/// Whether `text` holds no newline.
pub open spec fn one_line(text: Seq<char>) -> bool {
    forall|i: int| 0 <= i < text.len() ==> text[i] != '\n'
}

/// Whether every node below `m` can stand in a line of a tree's text: its
/// hash has forty characters, and neither hash nor name holds a newline.
pub open spec fn readable_below(m: NodeView) -> bool
    decreases m,
{
    forall|i: int|
        0 <= i < m.children().len() ==> {
            let c = #[trigger] m.children()[i];
            &&& c.hash().len() == 40
            &&& one_line(c.hash())
            &&& one_line(c.name())
            &&& readable_below(c)
        }
}

/// Whether the trees below `m` are nested at most `fuel` deep.
pub open spec fn nested_within(m: NodeView, fuel: nat) -> bool
    decreases m,
{
    forall|i: int|
        0 <= i < m.children().len() && (#[trigger] m.children()[i]) is Tree ==> fuel > 0
            && nested_within(m.children()[i], (fuel - 1) as nat)
}

/// The node `m` as it is read from the store: a blob has the text that it
/// was stored under, its content and a newline, as content.
pub open spec fn read_back(m: NodeView) -> NodeView
    decreases m, 1int,
{
    match m {
        NodeView::Blob(b) => NodeView::Blob(BlobView { content: b.object_text(), ..b }),
        NodeView::Tree(t) => NodeView::Tree(TreeView { nodes: read_back_all(t.nodes), ..t }),
    }
}

/// Each of `nodes` as it is read from the store.
pub open spec fn read_back_all(nodes: Seq<NodeView>) -> Seq<NodeView>
    decreases nodes, 0int,
{
    if nodes.len() == 0 {
        Seq::empty()
    } else {
        read_back_all(nodes.drop_last()).push(read_back(nodes.last()))
    }
}

/// The lines of the text of a tree with the children `nodes`.
pub open spec fn lines_for(nodes: Seq<NodeView>) -> Seq<Seq<char>> {
    Seq::new(nodes.len(), |i: int| entry_line(nodes[i]).drop_last())
}

proof fn lemma_entry_line_shape(c: NodeView)
    requires
        one_line(c.hash()),
        one_line(c.name()),
    ensures
        entry_line(c).len() > 0,
        entry_line(c).last() == '\n',
        one_line(entry_line(c).drop_last()),
{
    reveal_strlit("tree ");
    reveal_strlit("blob ");
    reveal_strlit(" ");
    reveal_strlit("\n");
}

proof fn lemma_tree_text_front(c: NodeView, rest: Seq<NodeView>)
    ensures
        tree_text(seq![c] + rest) == entry_line(c) + tree_text(rest),
    decreases rest.len(),
{
    let whole = seq![c] + rest;
    if rest.len() == 0 {
        assert(tree_text(whole.drop_last()) =~= Seq::<char>::empty());
    } else {
        lemma_tree_text_front(c, rest.drop_last());
        assert(whole.drop_last() =~= seq![c] + rest.drop_last());
    }
}

/// The text of a tree falls into the lines of its children.
proof fn lemma_tree_text_lines(nodes: Seq<NodeView>)
    requires
        forall|i: int|
            0 <= i < nodes.len() ==> one_line((#[trigger] nodes[i]).hash()) && one_line(
                nodes[i].name(),
            ),
    ensures
        raw_lines(tree_text(nodes)) == lines_for(nodes),
    decreases nodes.len(),
{
    if nodes.len() > 0 {
        let c = nodes[0];
        let rest = nodes.drop_first();
        assert(nodes =~= seq![c] + rest);
        lemma_tree_text_front(c, rest);
        lemma_entry_line_shape(c);
        lemma_tree_text_lines(rest);
        let line = entry_line(c).drop_last();
        let text = tree_text(nodes);
        let k = line.len() as int;
        assert(text =~= line.push('\n') + tree_text(rest));
        lemma_first_match_is(text, is_char('\n'), k);
        assert(text.take(k) =~= line);
        assert(text.skip(k + 1) =~= tree_text(rest));
    }
}

/// A tree that the store holds whole is read back as it is: where the store
/// holds the tree and all below it, and each node below can stand in a line,
/// and the trees are nested no deeper than `fuel`, reading the children of
/// the tree gives each of them, a blob with its stored text as content.
pub proof fn lemma_load_reads_back(store: Map<Seq<char>, Seq<char>>, t: NodeView, fuel: nat)
    requires
        t is Tree,
        holds(store, t),
        readable_below(t),
        nested_within(t, fuel),
    ensures
        load_nodes(store, t.hash(), fuel) == Ok::<Seq<NodeView>, Failure>(
            read_back_all(t.children()),
        ),
    decreases t, 1int,
{
    let kids = t.children();
    lemma_tree_text_lines(kids);
    lemma_load_lines_read_back(store, t, fuel, kids.len() as int);
    assert(kids.take(kids.len() as int) =~= kids);
}

proof fn lemma_load_lines_read_back(
    store: Map<Seq<char>, Seq<char>>,
    t: NodeView,
    fuel: nat,
    k: int,
)
    requires
        t is Tree,
        holds(store, t),
        readable_below(t),
        nested_within(t, fuel),
        0 <= k <= t.children().len(),
    ensures
        load_lines(store, lines_for(t.children().take(k)), fuel) == Ok::<Seq<NodeView>, Failure>(
            read_back_all(t.children().take(k)),
        ),
    decreases t, 0int, k,
{
    let kids = t.children();
    if k > 0 {
        lemma_load_lines_read_back(store, t, fuel, k - 1);
        let c = kids[k - 1];
        let lines = lines_for(kids.take(k));
        assert(lines.drop_last() =~= lines_for(kids.take(k - 1)));
        assert(kids.take(k).drop_last() =~= kids.take(k - 1));
        lemma_entry_line_reads_back(c);
        assert(holds(store, c));
        match c {
            NodeView::Blob(_) => {
                assert(load_entry(store, lines.last(), fuel) == Ok::<NodeView, Failure>(
                    read_back(c),
                ));
            },
            NodeView::Tree(_) => {
                lemma_load_reads_back(store, c, (fuel - 1) as nat);
            },
        }
    }
}

/// Whether `d` is `n` or stands somewhere below it.
pub open spec fn within(d: NodeView, n: NodeView) -> bool
    decreases n,
{
    d == n || exists|i: int| 0 <= i < n.children().len() && within(d, #[trigger] n.children()[i])
}

/// Whether the hash tells the nodes of `root` apart: two nodes of one hash
/// are stored as one text and have the same children.
pub open spec fn hash_tells_apart(root: NodeView) -> bool {
    forall|a: NodeView, b: NodeView|
        #![trigger within(a, root), within(b, root)]
        within(a, root) && within(b, root) && a.hash() == b.hash() ==> text_of(a) == text_of(b)
            && a.children() == b.children()
}

/// Whether whatever the store holds under the hash of a node of `root` is
/// that node and all below it; the hashes in `pending` are left out.
pub open spec fn agrees(
    store: Map<Seq<char>, Seq<char>>,
    root: NodeView,
    pending: Set<Seq<char>>,
) -> bool {
    forall|d: NodeView|
        #![trigger within(d, root)]
        within(d, root) && store.contains_key(d.hash()) && !pending.contains(d.hash()) ==> holds(
            store,
            d,
        )
}

/// Whether `after` holds all that `before` holds, under the same hashes.
pub open spec fn extends(
    after: Map<Seq<char>, Seq<char>>,
    before: Map<Seq<char>, Seq<char>>,
) -> bool {
    forall|h: Seq<char>| #[trigger]
        before.contains_key(h) ==> after.contains_key(h) && after[h] == before[h]
}

/// The number of levels of trees in `n`.
pub open spec fn height(n: NodeView) -> nat
    decreases n, 1int,
{
    match n {
        NodeView::Blob(_) => 0,
        NodeView::Tree(t) => 1 + height_all(t.nodes),
    }
}

/// The greatest height among `nodes`.
pub open spec fn height_all(nodes: Seq<NodeView>) -> nat
    decreases nodes, 0int,
{
    if nodes.len() == 0 {
        0
    } else if height_all(nodes.drop_last()) >= height(nodes.last()) {
        height_all(nodes.drop_last())
    } else {
        height(nodes.last())
    }
}

proof fn lemma_height_all(nodes: Seq<NodeView>, i: int)
    requires
        0 <= i < nodes.len(),
    ensures
        height(nodes[i]) <= height_all(nodes),
    decreases nodes.len(),
{
    if i < nodes.len() - 1 {
        lemma_height_all(nodes.drop_last(), i);
    }
}

proof fn lemma_within_height(d: NodeView, n: NodeView)
    requires
        within(d, n),
    ensures
        height(d) <= height(n),
    decreases n,
{
    if d != n {
        let i = choose|i: int| 0 <= i < n.children().len() && within(d, #[trigger] n.children()[i]);
        lemma_within_height(d, n.children()[i]);
        lemma_height_all(n.children(), i);
    }
}

proof fn lemma_within_child(d: NodeView, n: NodeView, i: int)
    requires
        0 <= i < n.children().len(),
        within(d, n.children()[i]),
    ensures
        within(d, n),
{
}

proof fn lemma_within_trans(d: NodeView, m: NodeView, n: NodeView)
    requires
        within(d, m),
        within(m, n),
    ensures
        within(d, n),
    decreases n,
{
    if m != n {
        let i = choose|i: int| 0 <= i < n.children().len() && within(m, #[trigger] n.children()[i]);
        lemma_within_trans(d, m, n.children()[i]);
    }
}

proof fn lemma_holds_below(store: Map<Seq<char>, Seq<char>>, d: NodeView, n: NodeView)
    requires
        holds(store, n),
        within(d, n),
    ensures
        holds(store, d),
    decreases n,
{
    if d != n {
        let i = choose|i: int| 0 <= i < n.children().len() && within(d, #[trigger] n.children()[i]);
        lemma_holds_below(store, d, n.children()[i]);
    }
}

pub(crate) proof fn lemma_holds_extends(
    before: Map<Seq<char>, Seq<char>>,
    after: Map<Seq<char>, Seq<char>>,
    n: NodeView,
)
    requires
        holds(before, n),
        extends(after, before),
    ensures
        holds(after, n),
    decreases n,
{
    assert forall|i: int| 0 <= i < n.children().len() implies holds(
        after,
        #[trigger] n.children()[i],
    ) by {
        lemma_holds_extends(before, after, n.children()[i]);
    }
}

/// No node below a tree has the hash of the tree, where the hash tells the
/// nodes apart.
proof fn lemma_hash_not_below(root: NodeView, t: NodeView, d: NodeView, i: int)
    requires
        hash_tells_apart(root),
        within(t, root),
        0 <= i < t.children().len(),
        within(d, t.children()[i]),
    ensures
        d.hash() != t.hash(),
{
    if d.hash() == t.hash() {
        lemma_within_trans(d, t, root);
        lemma_within_height(d, t.children()[i]);
        lemma_height_all(t.children(), i);
    }
}

/// What is written: `stored` adds to the store and takes nothing away.
proof fn lemma_stored_extends(store: Map<Seq<char>, Seq<char>>, n: NodeView)
    ensures
        extends(crate::objects::transcript::stored(store, n), store),
{
    crate::objects::transcript::lemma_stored_keeps(store, n);
}

/// Writing a tree leaves the store holding it: where whatever the store
/// holds under a hash of `root` is that node whole, and the hash tells the
/// nodes of `root` apart, the store holds `n`, a node of `root`, and all
/// below it once `n` is written, and still agrees with `root`.
pub proof fn lemma_stored_holds(
    store: Map<Seq<char>, Seq<char>>,
    root: NodeView,
    n: NodeView,
    pending: Set<Seq<char>>,
)
    requires
        hash_tells_apart(root),
        within(n, root),
        agrees(store, root, pending),
        forall|d: NodeView| within(d, n) ==> !pending.contains(#[trigger] d.hash()),
    ensures
        holds(crate::objects::transcript::stored(store, n), n),
        agrees(crate::objects::transcript::stored(store, n), root, pending),
    decreases n, 1int,
{
    let after = crate::objects::transcript::stored(store, n);
    if !store.contains_key(n.hash()) {
        match n {
            NodeView::Blob(_) => {
                assert forall|d: NodeView|
                    #![trigger within(d, root)]
                    within(d, root) && after.contains_key(d.hash()) && !pending.contains(
                        d.hash(),
                    ) implies holds(after, d) by {
                    if d.hash() != n.hash() {
                        lemma_holds_extends(store, after, d);
                    }
                }
            },
            NodeView::Tree(t) => {
                let first = store.insert(t.hash, tree_text(t.nodes));
                let waiting = pending.insert(t.hash);
                assert forall|d: NodeView|
                    #![trigger within(d, root)]
                    within(d, root) && first.contains_key(d.hash()) && !waiting.contains(
                        d.hash(),
                    ) implies holds(first, d) by {
                    lemma_holds_extends(store, first, d);
                }
                lemma_stored_all_holds(first, root, n, waiting, t.nodes.len() as int);
                assert(t.nodes.take(t.nodes.len() as int) =~= t.nodes);
                assert(first.contains_key(t.hash));
            },
        }
    }
}

proof fn lemma_stored_all_holds(
    store: Map<Seq<char>, Seq<char>>,
    root: NodeView,
    t: NodeView,
    pending: Set<Seq<char>>,
    k: int,
)
    requires
        hash_tells_apart(root),
        within(t, root),
        t is Tree,
        pending.contains(t.hash()),
        agrees(store, root, pending),
        0 <= k <= t.children().len(),
        forall|d: NodeView| within(d, t) ==> d == t || !pending.remove(t.hash()).contains(
            #[trigger] d.hash(),
        ),
    ensures
        agrees(
            crate::objects::transcript::stored_all(store, t.children().take(k)),
            root,
            pending,
        ),
        extends(crate::objects::transcript::stored_all(store, t.children().take(k)), store),
        forall|i: int|
            0 <= i < k ==> holds(
                crate::objects::transcript::stored_all(store, t.children().take(k)),
                #[trigger] t.children()[i],
            ),
    decreases t, 0int, k,
{
    let kids = t.children();
    if k > 0 {
        lemma_stored_all_holds(store, root, t, pending, k - 1);
        let before = crate::objects::transcript::stored_all(store, kids.take(k - 1));
        let c = kids[k - 1];
        assert(kids.take(k).drop_last() =~= kids.take(k - 1));
        let after = crate::objects::transcript::stored_all(store, kids.take(k));
        lemma_within_child(c, t, k - 1);
        lemma_within_trans(c, t, root);
        assert forall|d: NodeView| within(d, c) implies !pending.contains(
            #[trigger] d.hash(),
        ) by {
            lemma_hash_not_below(root, t, d, k - 1);
        }
        lemma_stored_holds(before, root, c, pending);
        lemma_stored_extends(before, c);
        assert forall|i: int| 0 <= i < k implies holds(after, #[trigger] kids[i]) by {
            if i < k - 1 {
                lemma_holds_extends(before, after, kids[i]);
            }
        }
    }
}

/// What is written is read back: a tree that is written to a store which
/// agrees with it is read from the store as it is, a blob with its stored
/// text as content.
pub proof fn lemma_written_is_read_back(store: Map<Seq<char>, Seq<char>>, t: NodeView, fuel: nat)
    requires
        t is Tree,
        hash_tells_apart(t),
        agrees(store, t, Set::empty()),
        readable_below(t),
        nested_within(t, fuel),
    ensures
        load_nodes(crate::objects::transcript::stored(store, t), t.hash(), fuel) == Ok::<
            Seq<NodeView>,
            Failure,
        >(read_back_all(t.children())),
{
    lemma_stored_holds(store, t, t, Set::empty());
    lemma_load_reads_back(crate::objects::transcript::stored(store, t), t, fuel);
}

/// `read_back_all` maps item by item.
pub(crate) proof fn lemma_read_back_all(nodes: Seq<NodeView>)
    ensures
        read_back_all(nodes).len() == nodes.len(),
        forall|i: int| 0 <= i < nodes.len() ==> #[trigger] read_back_all(nodes)[i] == read_back(
            nodes[i],
        ),
    decreases nodes.len(),
{
    if nodes.len() > 0 {
        lemma_read_back_all(nodes.drop_last());
    }
}

/// Reading back brings no path back: a node that has no node at `names`
/// has none as it is read from the store.
pub proof fn lemma_read_back_keeps_out(n: NodeView, names: Seq<Seq<char>>)
    requires
        !crate::objects::deletion::has_path(n, names),
    ensures
        !crate::objects::deletion::has_path(read_back(n), names),
    decreases n,
{
    let after = read_back(n);
    if crate::objects::deletion::has_path(after, names) {
        let k = choose|k: int|
            0 <= k < after.children().len() && (#[trigger] after.children()[k]).name() == names[0]
                && (names.len() == 1 || crate::objects::deletion::has_path(
                after.children()[k],
                names.drop_first(),
            ));
        match n {
            NodeView::Blob(_) => {},
            NodeView::Tree(t) => {
                lemma_read_back_all(t.nodes);
                assert(after.children()[k] == read_back(t.nodes[k]));
                assert(n.children()[k].name() == names[0]);
                if names.len() > 1 {
                    lemma_read_back_keeps_out(t.nodes[k], names.drop_first());
                }
            },
        }
    }
}

} // verus!
