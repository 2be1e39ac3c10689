//! From a tree to the steps that set it out in the working directory, or
//! take it away.

use vstd::prelude::*;
use crate::objects::blob::Blob;
use crate::objects::node_type::{
    NodeType, NodeView, lemma_children_below, lemma_nodes_view, nodes_view,
};
use crate::objects::tree::Tree;

verus! {

/// One step on the working directory.
#[derive(Debug)]
pub enum FsAction {
    /// Make the directory at this path, unless it is there.
    EnsureDir(String),
    /// Write this content to the file at this path.
    WriteFile(String, String),
    /// Remove the file at this path, if it is there.
    RemoveFile(String),
    /// Remove the directory at this path with all that it holds, if it is
    /// there.
    RemoveDirAll(String),
}

/// A step on the working directory, as a value.
pub enum FsStep {
    EnsureDir(Seq<char>),
    WriteFile(Seq<char>, Seq<char>),
    RemoveFile(Seq<char>),
    RemoveDirAll(Seq<char>),
}

impl View for FsAction {
    type V = FsStep;

    open spec fn view(&self) -> FsStep {
        match self {
            FsAction::EnsureDir(p) => FsStep::EnsureDir(p@),
            FsAction::WriteFile(p, c) => FsStep::WriteFile(p@, c@),
            FsAction::RemoveFile(p) => FsStep::RemoveFile(p@),
            FsAction::RemoveDirAll(p) => FsStep::RemoveDirAll(p@),
        }
    }
}

/// The steps that the items of `v` hold.
pub open spec fn steps_view(v: Seq<FsAction>) -> Seq<FsStep> {
    v.map_values(|a: FsAction| a@)
}

/// The path of what is called `name` in the directory `dir`. The root of a
/// repository has no name: its path is `dir` itself.
pub open spec fn joined(dir: Seq<char>, name: Seq<char>) -> Seq<char> {
    if name.len() == 0 {
        dir
    } else {
        dir + "/"@ + name
    }
}

/// The steps that set `n` out in the directory `dir`. A blob: the file of
/// its name is removed and written anew with its content. A tree: its
/// directory is made, unless it is the root, and its children are set out in
/// it, in order.
pub open spec fn creation_plan(n: NodeView, dir: Seq<char>) -> Seq<FsStep>
    decreases n, 1int,
{
    match n {
        NodeView::Blob(b) => seq![
            FsStep::RemoveFile(joined(dir, b.name)),
            FsStep::WriteFile(joined(dir, b.name), b.content),
        ],
        NodeView::Tree(t) => {
            let path = joined(dir, t.name);
            let head = if t.name.len() == 0 {
                Seq::empty()
            } else {
                seq![FsStep::EnsureDir(path)]
            };
            head + creation_plan_all(t.nodes, path)
        },
    }
}

/// The steps that set each of `nodes` out in the directory `dir`.
pub open spec fn creation_plan_all(nodes: Seq<NodeView>, dir: Seq<char>) -> Seq<FsStep>
    decreases nodes, 0int,
{
    if nodes.len() == 0 {
        Seq::empty()
    } else {
        creation_plan_all(nodes.drop_last(), dir) + creation_plan(nodes.last(), dir)
    }
}

/// The steps that take `n` away from the directory `dir`. A blob: its file
/// is removed. A tree with a name: its directory is removed with all that
/// it holds. The root: its children are taken away, in order.
pub open spec fn deletion_plan(n: NodeView, dir: Seq<char>) -> Seq<FsStep>
    decreases n, 1int,
{
    match n {
        NodeView::Blob(b) => seq![FsStep::RemoveFile(joined(dir, b.name))],
        NodeView::Tree(t) => if t.name.len() == 0 {
            deletion_plan_all(t.nodes, dir)
        } else {
            seq![FsStep::RemoveDirAll(joined(dir, t.name))]
        },
    }
}

/// The steps that take each of `nodes` away from the directory `dir`.
pub open spec fn deletion_plan_all(nodes: Seq<NodeView>, dir: Seq<char>) -> Seq<FsStep>
    decreases nodes, 0int,
{
    if nodes.len() == 0 {
        Seq::empty()
    } else {
        deletion_plan_all(nodes.drop_last(), dir) + deletion_plan(nodes.last(), dir)
    }
}

/// The path of what is called `name` in the directory `dir`.
pub fn join_path(dir: &String, name: &String) -> (out: String)
    ensures
        out@ == joined(dir@, name@),
{
    let mut out = dir.clone();
    if !name.as_str().is_empty() {
        out.append("/");
        out.append(name.as_str());
    }
    out
}

impl NodeType {
    /// Appends the steps that set this node out in `dir` to `plan`.
    pub fn plan_creation(&self, dir: &String, plan: &mut Vec<FsAction>)
        ensures
            steps_view(final(plan)@) == steps_view(old(plan)@) + creation_plan(self@, dir@),
        decreases self@,
    {
        match self {
            NodeType::Blob(b) => {
                let path = join_path(dir, &b.name);
                let first = FsAction::RemoveFile(path.clone());
                let second = FsAction::WriteFile(path, b.content.clone());
                plan.push(first);
                plan.push(second);
            },
            NodeType::Tree(t) => {
                let path = join_path(dir, &t.name);
                let ghost all = nodes_view(t.nodes@);
                let ghost head = if t.name@.len() == 0 {
                    Seq::<FsStep>::empty()
                } else {
                    seq![FsStep::EnsureDir(path@)]
                };
                if !t.name.as_str().is_empty() {
                    let step = FsAction::EnsureDir(path.clone());
                    plan.push(step);
                }
                let mut i: usize = 0;
                proof {
                    lemma_nodes_view(t.nodes@);
                }
                while i < t.nodes.len()
                    invariant
                        0 <= i <= t.nodes@.len(),
                        self@ == NodeView::Tree(t@),
                        all == nodes_view(t.nodes@),
                        all.len() == t.nodes@.len(),
                        forall|j: int| 0 <= j < all.len() ==> #[trigger] all[j] == t.nodes@[j]@,
                        steps_view(plan@) == steps_view(old(plan)@) + head + creation_plan_all(
                            all.take(i as int),
                            path@,
                        ),
                    decreases t.nodes@.len() - i,
                {
                    proof {
                        assert(all.take(i + 1).drop_last() =~= all.take(i as int));
                        lemma_children_below(self@, i as int);
                    }
                    t.nodes[i].plan_creation(&path, plan);
                    i += 1;
                }
                proof {
                    assert(all.take(i as int) =~= all);
                }
            },
        }
    }

    /// Appends the steps that take this node away from `dir` to `plan`.
    pub fn plan_deletion(&self, dir: &String, plan: &mut Vec<FsAction>)
        ensures
            steps_view(final(plan)@) == steps_view(old(plan)@) + deletion_plan(self@, dir@),
        decreases self@,
    {
        match self {
            NodeType::Blob(b) => {
                let step = FsAction::RemoveFile(join_path(dir, &b.name));
                plan.push(step);
            },
            NodeType::Tree(t) => {
                if !t.name.as_str().is_empty() {
                    let step = FsAction::RemoveDirAll(join_path(dir, &t.name));
                    plan.push(step);
                } else {
                    let ghost all = nodes_view(t.nodes@);
                    let mut i: usize = 0;
                    proof {
                        lemma_nodes_view(t.nodes@);
                    }
                    while i < t.nodes.len()
                        invariant
                            0 <= i <= t.nodes@.len(),
                            self@ == NodeView::Tree(t@),
                            all == nodes_view(t.nodes@),
                            all.len() == t.nodes@.len(),
                            forall|j: int| 0 <= j < all.len() ==> #[trigger] all[j] == t.nodes@[j]@,
                            steps_view(plan@) == steps_view(old(plan)@) + deletion_plan_all(
                                all.take(i as int),
                                dir@,
                            ),
                        decreases t.nodes@.len() - i,
                    {
                        proof {
                            assert(all.take(i + 1).drop_last() =~= all.take(i as int));
                            lemma_children_below(self@, i as int);
                        }
                        t.nodes[i].plan_deletion(dir, plan);
                        i += 1;
                    }
                    proof {
                        assert(all.take(i as int) =~= all);
                    }
                }
            },
        }
    }

    /// The steps that set this node out in the directory `path_buf`.
    pub fn create_element(&self, path_buf: String) -> (out: Vec<FsAction>)
        ensures
            steps_view(out@) == creation_plan(self@, path_buf@),
    {
        let mut plan: Vec<FsAction> = Vec::new();
        self.plan_creation(&path_buf, &mut plan);
        plan
    }

    /// The steps that take this node away from the directory `path_buf`.
    pub fn delete_element(&self, path_buf: String) -> (out: Vec<FsAction>)
        ensures
            steps_view(out@) == deletion_plan(self@, path_buf@),
    {
        let mut plan: Vec<FsAction> = Vec::new();
        self.plan_deletion(&path_buf, &mut plan);
        plan
    }
}

impl Tree {
    /// The steps that set this tree out in the directory `directory_path`.
    pub fn create_directory_from_tree(&self, directory_path: String) -> (out: Vec<FsAction>)
        ensures
            steps_view(out@) == creation_plan(NodeView::Tree(self@), directory_path@),
    {
        NodeType::Tree(self.clone()).create_element(directory_path)
    }

    /// The steps that take this tree away from the directory
    /// `directory_path`.
    pub fn delete_directory(&self, directory_path: String) -> (out: Vec<FsAction>)
        ensures
            steps_view(out@) == deletion_plan(NodeView::Tree(self@), directory_path@),
    {
        NodeType::Tree(self.clone()).delete_element(directory_path)
    }
}

impl Blob {
    /// The steps that write this blob to its file in `directory_path`.
    pub fn create_file_from_blob(&self, directory_path: String) -> (out: Vec<FsAction>)
        ensures
            steps_view(out@) == creation_plan(NodeView::Blob(self@), directory_path@),
    {
        NodeType::Blob(self.clone()).create_element(directory_path)
    }

    /// The steps that remove the file of this blob from `directory_path`.
    pub fn delete_file(&self, directory_path: String) -> (out: Vec<FsAction>)
        ensures
            steps_view(out@) == deletion_plan(NodeView::Blob(self@), directory_path@),
    {
        NodeType::Blob(self.clone()).delete_element(directory_path)
    }
}

} // verus!
