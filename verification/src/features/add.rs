//! Staging paths of the working directory.

use vstd::prelude::*;
use crate::error::{DitError, Failure};
use crate::features::commit::{load_root, root_of};
use crate::objects::builder::{StagedPath, StagedPathView, inserted};
use crate::objects::node_type::{NodeType, NodeView, hashed};
use crate::objects::transcript::{load_nodes, stored};
use crate::objects::tree::Tree;
use crate::repository::{Repository, RepositoryView, null_hash};
use crate::utils::NULL_HASH;

verus! {

/// The paths that the items of `v` hold.
pub open spec fn staged_view(v: Seq<StagedPath>) -> Seq<StagedPathView> {
    v.map_values(|p: StagedPath| p@)
}

/// The node `n` with each of `elements` set into it, in order; the first
/// path that fails decides the error.
pub open spec fn inserted_all(n: NodeView, elements: Seq<StagedPathView>) -> Result<
    NodeView,
    Failure,
>
    decreases elements.len(),
{
    if elements.len() == 0 {
        Ok(n)
    } else {
        match inserted_all(n, elements.drop_last()) {
            Err(e) => Err(e),
            Ok(front) => inserted(front, elements.last().names, elements.last().content),
        }
    }
}

/// Once a front part of `elements` fails, all of `elements` fails with its
/// error.
pub(crate) proof fn lemma_inserted_all_fails(n: NodeView, elements: Seq<StagedPathView>, k: int)
    requires
        0 <= k <= elements.len(),
        inserted_all(n, elements.take(k)) is Err,
    ensures
        inserted_all(n, elements) == inserted_all(n, elements.take(k)),
    decreases elements.len() - k,
{
    if k < elements.len() {
        assert(elements.take(k + 1).drop_last() =~= elements.take(k));
        lemma_inserted_all_fails(n, elements, k + 1);
    } else {
        assert(elements.take(k) =~= elements);
    }
}

/// The tree that staging starts from: the empty root where nothing is
/// staged, else the children stored under the staged hash.
pub open spec fn staging_root(repo: RepositoryView, fuel: nat) -> Result<NodeView, Failure> {
    if repo.staged == null_hash() {
        Ok(root_of(Seq::empty(), Seq::empty()))
    } else {
        match load_nodes(repo.objects, repo.staged, fuel) {
            Ok(nodes) => Ok(root_of(repo.staged, nodes)),
            Err(e) => Err(e),
        }
    }
}

/// The repository with the tree `root` staged: the tree is hashed and
/// written to the store, and its hash is the staged hash.
pub open spec fn restaged(repo: RepositoryView, root: NodeView) -> RepositoryView {
    RepositoryView {
        objects: stored(repo.objects, hashed(root)),
        staged: hashed(root).hash(),
        ..repo
    }
}

/// The repository after `add`, read with trees at most `fuel` deep. Nothing
/// changes where there is no path to add.
pub open spec fn added(repo: RepositoryView, fuel: nat, elements: Seq<StagedPathView>) -> Result<
    RepositoryView,
    Failure,
> {
    if elements.len() == 0 {
        Ok(repo)
    } else {
        match staging_root(repo, fuel) {
            Err(e) => Err(e),
            Ok(root) => match inserted_all(root, elements) {
                Err(e) => Err(e),
                Ok(done) => Ok(restaged(repo, done)),
            },
        }
    }
}

/// The tree that staging starts from.
pub fn load_staging_root(repository: &Repository) -> (out: Result<NodeType, DitError>)
    ensures
        match staging_root(repository@, repository.objects.objects@.len()) {
            Ok(root) => out is Ok && out->Ok_0@ == root,
            Err(e) => out is Err && out->Err_0@ == e,
        },
{
    if repository.staged == String::from_str(NULL_HASH) {
        let tree = Tree::default();
        Ok(NodeType::Tree(tree))
    } else {
        load_root(&repository.staged, repository)
    }
}

/// Hashes `root`, writes it to the store and makes its hash the staged
/// hash.
pub fn stage_root(mut root: NodeType, repository: &mut Repository)
    ensures
        final(repository)@ == restaged(old(repository)@, root@),
{
    let root_hash = root.create_node_hash();
    root.transcript_to_files(&mut repository.objects);
    repository.staged = root_hash;
}

/// Stages each of `elements`: it is set into the staged tree, and the tree
/// is hashed, written to the store and staged anew. On an error the
/// repository stays as it is.
pub fn add(elements: Vec<StagedPath>, repository: &mut Repository) -> (out: Result<(), DitError>)
    ensures
        match added(
            old(repository)@,
            old(repository).objects.objects@.len(),
            staged_view(elements@),
        ) {
            Ok(after) => out is Ok && final(repository)@ == after,
            Err(e) => out is Err && out->Err_0@ == e && final(repository)@ == old(repository)@,
        },
{
    if elements.len() == 0 {
        return Ok(());
    }
    let mut root = match load_staging_root(repository) {
        Ok(root) => root,
        Err(e) => {
            return Err(e);
        },
    };
    match add_elements(&elements, &mut root) {
        Ok(()) => {
            stage_root(root, repository);
            Ok(())
        },
        Err(e) => Err(e),
    }
}

/// Sets each of `elements` into `root`, in order, up to the first that
/// fails.
pub fn add_elements(elements: &Vec<StagedPath>, root: &mut NodeType) -> (out: Result<(), DitError>)
    ensures
        match inserted_all(old(root)@, staged_view(elements@)) {
            Ok(done) => out is Ok && final(root)@ == done,
            Err(e) => out is Err && out->Err_0@ == e,
        },
{
    let ghost all = staged_view(elements@);
    let mut i: usize = 0;
    while i < elements.len()
        invariant
            0 <= i <= elements@.len(),
            all == staged_view(elements@),
            inserted_all(old(root)@, all.take(i as int)) == Ok::<NodeView, Failure>(root@),
        decreases elements@.len() - i,
    {
        proof {
            assert(all.take(i + 1).drop_last() =~= all.take(i as int));
        }
        match root.create_repository_tree(&elements[i]) {
            Ok(()) => {},
            Err(e) => {
                proof {
                    lemma_inserted_all_fails(old(root)@, all, i + 1);
                }
                return Err(e);
            },
        }
        i += 1;
    }
    proof {
        assert(all.take(i as int) =~= all);
    }
    Ok(())
}

} // verus!
