use dit::digest::hash_text;
use dit::error::DitError;
use dit::features::checkout::checkout;
use dit::features::create_branch::new_branch;
use dit::features::delete::{delete, get_deleted_elements};
use dit::features::merge::merge;
use dit::features::message::message;
use dit::features::revert::revert;
use dit::features::rm::rm;
use dit::features::show::show_commit;
use dit::features::commit::{commit, create_commit, is_first_commit};
use dit::features::init::{
    find_dit, find_info, find_objects, find_refs, find_staged, get_head_hash, get_staged_hash,
    init_repository, initialized, is_init,
};
use dit::objects::branch::Branch;
use dit::objects::builder::StagedPath;
use dit::objects::commit::Commit;
use dit::objects::materialize::FsAction;
use dit::objects::node_type::NodeType;
use dit::objects::tree::Tree;
use dit::repository::Repository;
use dit::utils::NULL_HASH;

fn file(path: &[&str], content: &str) -> StagedPath {
    StagedPath {
        names: path.iter().map(|s| s.to_string()).collect(),
        content: Some(content.to_string()),
    }
}

fn stage(repo: &mut Repository, files: Vec<StagedPath>) {
    dit::features::add::add(files, repo).unwrap();
}

fn commit_with(repo: &mut Repository, text: &str) {
    message(text.to_string(), repo);
    commit(repo, &String::new()).unwrap();
}

fn log<'a>(repo: &'a Repository, branch: &str) -> &'a Vec<String> {
    &repo.refs.iter().find(|l| l.name == branch).unwrap().commits
}

fn tree_of(repo: &Repository, commit_hash: &str) -> Tree {
    let c = Commit::get_commit_from_file(commit_hash.to_string(), &repo.objects).unwrap();
    let mut t = Tree::default();
    t.get_tree_from_file(c.get_tree().clone(), &repo.objects).unwrap();
    t
}

fn names(nodes: &[NodeType]) -> Vec<String> {
    nodes.iter().map(|n| n.get_name()).collect()
}

fn content_of(tree: &Tree, name: &str) -> String {
    match tree.get_nodes().iter().find(|n| n.get_name() == name).unwrap() {
        NodeType::Blob(b) => b.content.clone(),
        NodeType::Tree(_) => panic!("a blob was expected"),
    }
}

#[test]
fn a_fresh_repository() {
    let repo = init_repository();
    assert_eq!(get_head_hash(&repo), NULL_HASH);
    assert_eq!(get_staged_hash(&repo), NULL_HASH);
    assert_eq!(NULL_HASH, "0".repeat(40));
    assert!(is_first_commit(&repo));
    assert_eq!(repo.branch, "main");
    assert!(log(&repo, "main").is_empty());
    assert!(repo.objects.objects.is_empty());
    assert!(is_init(&Some(repo)));
    assert!(!is_init(&None));
}

#[test]
fn without_a_repository_nothing_is_initialized() {
    let err = initialized(None).unwrap_err();
    assert!(matches!(err, DitError::NotInitialized));
    assert_eq!(err.message(), "Repository dit not initialized");
    assert_eq!(initialized(Some(init_repository())).unwrap().branch, "main");
}

#[test]
fn the_places_of_a_repository() {
    assert_eq!(find_dit(), "./.dit");
    assert_eq!(find_objects(), "./.dit/objects");
    assert_eq!(find_refs(), "./.dit/refs");
    assert_eq!(find_staged(), "./.dit/staged");
    assert_eq!(find_info(), "./.dit/info");
}

#[test]
fn init_add_commit() {
    let mut repo = init_repository();
    stage(&mut repo, vec![file(&["file.txt"], "hello")]);
    let blob_hash = "c9abcbf05b7f20b73021cff6cc372f4cd292d9dd".to_string();
    assert_eq!(blob_hash, hash_text("file.txthello"));
    assert_eq!(repo.objects.get(&blob_hash), Some(&"hello\n".to_string()));
    assert_eq!(get_staged_hash(&repo), "1b1093cc8a71165f8b2df94659c1bf74e7911ed0");
    assert_eq!(get_head_hash(&repo), NULL_HASH);

    commit_with(&mut repo, "c1");
    let commit_hash = "c428c797f22676b337e42803d3ecb724dacafa45".to_string();
    assert!(repo.objects.contains(&blob_hash));
    assert_eq!(log(&repo, "main"), &vec![commit_hash.clone()]);
    assert_eq!(get_staged_hash(&repo), NULL_HASH);
    assert_eq!(get_head_hash(&repo), commit_hash);
    assert_eq!(
        repo.objects.get(&commit_hash),
        Some(
            &"tree 1b1093cc8a71165f8b2df94659c1bf74e7911ed0\npare 0000000000000000000000000000000000000000\nc1"
                .to_string()
        )
    );
    assert_eq!(
        repo.objects.get(&"1b1093cc8a71165f8b2df94659c1bf74e7911ed0".to_string()),
        Some(&"blob c9abcbf05b7f20b73021cff6cc372f4cd292d9dd file.txt\n".to_string())
    );
}

#[test]
fn commits_form_a_chain() {
    let mut repo = init_repository();
    assert_eq!(repo.head, NULL_HASH);
    stage(&mut repo, vec![file(&["file.txt"], "hello")]);
    commit_with(&mut repo, "c1");
    let first = Commit::get_commit_from_file(repo.head.clone(), &repo.objects).unwrap();
    assert_eq!(first.get_hash(), &repo.head);
    assert_eq!(first.get_parent(), NULL_HASH);
    assert!(!is_first_commit(&repo));

    stage(&mut repo, vec![file(&["other.txt"], "x")]);
    commit_with(&mut repo, "c2");
    let second = Commit::get_commit_from_file(repo.head.clone(), &repo.objects).unwrap();
    assert_eq!(second.get_hash(), "2fd8a3eb369dee6a5510f886ae888728a2544ab5");
    assert_eq!(second.get_parent(), first.get_hash());
    assert_eq!(second.get_tree(), "3fb0486107e342fed2398e740e8403bd1265aab4");
    assert_eq!(second.get_description(), "c2");
    assert_eq!(log(&repo, "main"), &vec![first.get_hash().clone(), second.get_hash().clone()]);
    assert_eq!(names(&tree_of(&repo, &repo.head).get_nodes()), vec!["file.txt", "other.txt"]);
}

#[test]
fn commit_without_anything_staged_changes_nothing() {
    let mut repo = init_repository();
    commit_with(&mut repo, "nothing");
    assert_eq!(repo.head, NULL_HASH);
    assert!(log(&repo, "main").is_empty());
    assert!(repo.objects.objects.is_empty());
}

#[test]
fn a_commit_of_what_the_head_holds_is_an_error() {
    let mut repo = init_repository();
    stage(&mut repo, vec![file(&["file.txt"], "hello")]);
    commit_with(&mut repo, "c1");
    let head = repo.head.clone();
    stage(&mut repo, vec![file(&["file.txt"], "hello")]);
    message("again".to_string(), &mut repo);
    let err = commit(&mut repo, &String::new()).unwrap_err();
    assert!(matches!(err, DitError::UnexpectedComportement(_)));
    assert_eq!(err.message(), "Fail to create commit");
    assert_eq!(repo.head, head);
}

#[test]
fn a_changed_file_is_committed_with_its_new_content() {
    let mut repo = init_repository();
    stage(&mut repo, vec![file(&["a"], "one"), file(&["b"], "same")]);
    commit_with(&mut repo, "c1");
    stage(&mut repo, vec![file(&["a"], "two")]);
    commit_with(&mut repo, "c2");
    let t = tree_of(&repo, &repo.head);
    assert_eq!(names(&t.get_nodes()), vec!["a", "b"]);
    assert_eq!(content_of(&t, "a"), "two\n");
    assert_eq!(content_of(&t, "b"), "same\n");
}

#[test]
fn a_deleted_path_stays_out_of_the_next_commit() {
    let mut repo = init_repository();
    stage(&mut repo, vec![file(&["a.txt"], "A"), file(&["d", "b.txt"], "B"), file(&["d", "c.txt"], "C")]);
    commit_with(&mut repo, "c1");
    stage(&mut repo, vec![file(&["a.txt"], "A2"), file(&["d", "b.txt"], "B2"), file(&["new"], "N")]);
    delete(vec!["a.txt".to_string(), "./d/../d/b.txt".to_string()], &mut repo);
    assert_eq!(
        get_deleted_elements(&repo),
        Some(vec!["a.txt".to_string(), "./d/../d/b.txt".to_string()])
    );
    commit_with(&mut repo, "c2");
    let t = tree_of(&repo, &repo.head);
    assert_eq!(names(&t.get_nodes()), vec!["new", "d"]);
    assert_eq!(names(&t.get_nodes()[1].get_nodes()), vec!["c.txt"]);
}

#[test]
fn a_deleted_path_stays_out_of_the_first_commit() {
    let mut repo = init_repository();
    stage(&mut repo, vec![file(&["a.txt"], "A"), file(&["d", "b.txt"], "B"), file(&["keep"], "K")]);
    delete(vec!["a.txt".to_string(), "d/b.txt".to_string()], &mut repo);
    commit_with(&mut repo, "c1");
    let first = Commit::get_commit_from_file(repo.head.clone(), &repo.objects).unwrap();
    assert_eq!(first.get_parent(), NULL_HASH);
    let t = tree_of(&repo, &repo.head);
    assert_eq!(names(&t.get_nodes()), vec!["d", "keep"]);
    assert!(t.get_nodes()[0].get_nodes().is_empty());
    assert_eq!(content_of(&t, "keep"), "K\n");
    assert_eq!(repo.staged, NULL_HASH);
}

#[test]
fn the_first_commit_of_a_missing_tree_is_an_error() {
    let mut repo = init_repository();
    repo.staged = hash_text("nothing is stored here");
    message("c1".to_string(), &mut repo);
    let err = commit(&mut repo, &String::new()).unwrap_err();
    assert!(matches!(err, DitError::UnexpectedComportement(_)));
    assert_eq!(repo.head, NULL_HASH);
    assert!(log(&repo, "main").is_empty());
}

#[test]
fn a_path_to_delete_is_read_from_the_directory_it_was_given_in() {
    let mut repo = init_repository();
    stage(&mut repo, vec![file(&["d", "b.txt"], "B"), file(&["keep"], "K")]);
    commit_with(&mut repo, "c1");
    stage(&mut repo, vec![file(&["keep"], "K2")]);
    delete(vec!["b.txt".to_string()], &mut repo);
    message("c2".to_string(), &mut repo);
    commit(&mut repo, &"d".to_string()).unwrap();
    let t = tree_of(&repo, &repo.head);
    assert_eq!(names(&t.get_nodes()), vec!["d", "keep"]);
    assert!(t.get_nodes()[0].get_nodes().is_empty());
}

#[test]
fn delete_marks_nothing_where_nothing_is_staged() {
    let mut repo = init_repository();
    delete(vec!["a".to_string()], &mut repo);
    assert_eq!(get_deleted_elements(&repo), Some(vec![]));
}

#[test]
fn rm_takes_a_path_out_of_what_is_staged() {
    let mut repo = init_repository();
    rm(vec!["a".to_string()], &String::new(), &mut repo).unwrap();
    assert_eq!(repo.staged, NULL_HASH);
    stage(&mut repo, vec![file(&["a"], "1"), file(&["d", "b"], "2")]);
    let before = repo.staged.clone();
    rm(vec![], &String::new(), &mut repo).unwrap();
    assert_eq!(repo.staged, before);
    rm(vec!["d/b".to_string()], &String::new(), &mut repo).unwrap();
    let mut t = Tree::default();
    t.get_tree_from_file(repo.staged.clone(), &repo.objects).unwrap();
    assert_eq!(names(&t.get_nodes()), vec!["a", "d"]);
    assert!(t.get_nodes()[1].get_nodes().is_empty());
    assert_ne!(repo.staged, before);
}

#[test]
fn add_of_no_path_changes_nothing() {
    let mut repo = init_repository();
    stage(&mut repo, vec![]);
    assert_eq!(repo.staged, NULL_HASH);
    assert!(repo.objects.objects.is_empty());
}

#[test]
fn add_that_fails_changes_nothing() {
    let mut repo = init_repository();
    stage(&mut repo, vec![file(&["x"], "1")]);
    let before = repo.staged.clone();
    let err =
        dit::features::add::add(vec![file(&["y"], "2"), file(&["x", "z"], "3")], &mut repo)
            .unwrap_err();
    assert!(matches!(err, DitError::UnexpectedComportement(_)));
    assert_eq!(repo.staged, before);
}

#[test]
fn create_commit_stores_logs_and_moves_the_head() {
    let mut repo = init_repository();
    repo.staged = "something".to_string();
    let c = create_commit("d".to_string(), "p".to_string(), "t".to_string(), &mut repo);
    assert_eq!(c.get_hash(), &hash_text("tpd"));
    assert_eq!(repo.head, hash_text("tpd"));
    assert_eq!(repo.staged, NULL_HASH);
    assert_eq!(log(&repo, "main"), &vec![hash_text("tpd")]);
    assert_eq!(repo.objects.get(&hash_text("tpd")), Some(&"tree t\npare p\nd".to_string()));
    let objects = repo.objects.objects.len();
    let again = create_commit("d".to_string(), "p".to_string(), "t".to_string(), &mut repo);
    assert_eq!(again.get_hash(), c.get_hash());
    assert_eq!(repo.objects.objects.len(), objects);
    assert_eq!(log(&repo, "main").len(), 2);
}

#[test]
fn a_branch_starts_at_the_head_and_becomes_the_current_one() {
    let mut repo = init_repository();
    new_branch(&"early".to_string(), &mut repo).unwrap();
    assert_eq!(repo.branch, "early");
    assert!(log(&repo, "early").is_empty());
    stage(&mut repo, vec![file(&["f"], "1")]);
    commit_with(&mut repo, "c1");
    let head = repo.head.clone();
    new_branch(&"feature".to_string(), &mut repo).unwrap();
    assert_eq!(repo.branch, "feature");
    assert_eq!(repo.head, head);
    assert_eq!(log(&repo, "feature"), &vec![head.clone()]);
    assert!(Branch::exist("feature".to_string(), &repo));
    assert!(!Branch::exist("nope".to_string(), &repo));
    let current = Branch::get_current_branch(&repo);
    assert_eq!((current.get_name().as_str(), current.get_head()), ("feature", &head));
    assert_eq!(Branch::get_branch("feature".to_string(), &repo).unwrap().get_head(), &head);
}

#[test]
fn a_branch_needs_a_free_name_without_slash() {
    let mut repo = init_repository();
    for bad in ["a/b", "a\\b", "/"] {
        assert!(!Branch::is_name_ok(&bad.to_string()));
        let err = new_branch(&bad.to_string(), &mut repo).unwrap_err();
        assert_eq!(err.message(), "Branch name must not contains '/'.");
    }
    assert!(Branch::is_name_ok(&"fine-name".to_string()));
    let err = new_branch(&"main".to_string(), &mut repo).unwrap_err();
    assert_eq!(err.message(), "Branch with same name already exist, cannot create the branch");
    assert_eq!(repo.refs.len(), 1);
    assert_eq!(repo.branch, "main");
}

#[test]
fn get_branch_fails_for_a_branch_without_log_or_commit() {
    let repo = init_repository();
    let err = Branch::get_branch("nope".to_string(), &repo).unwrap_err();
    assert!(matches!(err, DitError::IoError(_)));
    let err = Branch::get_branch("main".to_string(), &repo).unwrap_err();
    assert_eq!(err.message(), "empty branch log");
}

fn show(plan: &[FsAction]) -> Vec<String> {
    plan.iter()
        .map(|a| match a {
            FsAction::EnsureDir(p) => format!("mkdir {p}"),
            FsAction::WriteFile(p, c) => format!("write {p} {c:?}"),
            FsAction::RemoveFile(p) => format!("rm {p}"),
            FsAction::RemoveDirAll(p) => format!("rmdir {p}"),
        })
        .collect()
}

fn two_branches() -> Repository {
    let mut repo = init_repository();
    stage(&mut repo, vec![file(&["f.txt"], "base\nshared"), file(&["d", "old"], "o")]);
    commit_with(&mut repo, "c1");
    new_branch(&"other".to_string(), &mut repo).unwrap();
    stage(&mut repo, vec![file(&["f.txt"], "theirs\nshared"), file(&["theirs.txt"], "t")]);
    commit_with(&mut repo, "on other");
    assert!(checkout(&"main".to_string(), &"/w".to_string(), &mut repo).is_ok());
    stage(&mut repo, vec![file(&["f.txt"], "ours\nshared")]);
    commit_with(&mut repo, "on main");
    repo
}

#[test]
fn checkout_switches_the_branch_and_plans_the_working_directory() {
    let mut repo = init_repository();
    stage(&mut repo, vec![file(&["f.txt"], "base"), file(&["d", "old"], "o")]);
    commit_with(&mut repo, "c1");
    let c1 = repo.head.clone();
    new_branch(&"other".to_string(), &mut repo).unwrap();
    stage(&mut repo, vec![file(&["f.txt"], "theirs")]);
    commit_with(&mut repo, "c2");
    let c2 = repo.head.clone();
    let plan = checkout(&"main".to_string(), &"/w".to_string(), &mut repo).unwrap();
    assert_eq!((repo.branch.as_str(), &repo.head), ("main", &c1));
    assert_eq!(
        show(&plan),
        vec![
            "rm /w/f.txt",
            "rmdir /w/d",
            "rm /w/f.txt",
            "write /w/f.txt \"base\\n\"",
            "mkdir /w/d",
            "rm /w/d/old",
            "write /w/d/old \"o\\n\""
        ]
    );
    let plan = checkout(&"other".to_string(), &"/w".to_string(), &mut repo).unwrap();
    assert_eq!((repo.branch.as_str(), &repo.head), ("other", &c2));
    assert!(show(&plan).contains(&"write /w/f.txt \"theirs\\n\"".to_string()));
    let plan = checkout(&"nope".to_string(), &"/w".to_string(), &mut repo).unwrap();
    assert!(plan.is_empty());
    assert_eq!(repo.branch, "other");
}

#[test]
fn checkout_before_the_first_commit_finds_no_commit_at_the_head() {
    let mut repo = init_repository();
    let err = checkout(&"main".to_string(), &"/w".to_string(), &mut repo).unwrap_err();
    assert!(matches!(err, DitError::UnexpectedComportement(_)));
    assert_eq!(err.message(), "missing object for a referenced hash");
    assert_eq!(repo.branch, "main");
}

#[test]
fn revert_goes_back_to_a_commit_of_the_branch() {
    let mut repo = init_repository();
    assert!(revert("x".to_string(), &"/w".to_string(), &mut repo).unwrap().is_empty());
    stage(&mut repo, vec![file(&["f"], "one")]);
    commit_with(&mut repo, "c1");
    let c1 = repo.head.clone();
    stage(&mut repo, vec![file(&["f"], "two")]);
    commit_with(&mut repo, "c2");
    let c2 = repo.head.clone();
    assert!(Commit::commit_exist(&c1, &repo).unwrap());
    assert!(!Commit::commit_exist(&"unknown".to_string(), &repo).unwrap());
    let plan = revert("unknown".to_string(), &"/w".to_string(), &mut repo).unwrap();
    assert!(plan.is_empty());
    assert_eq!(repo.head, c2);
    let plan = revert(c1.clone(), &"/w".to_string(), &mut repo).unwrap();
    assert_eq!(show(&plan), vec!["rm /w/f", "rm /w/f", "write /w/f \"one\\n\""]);
    assert_eq!(repo.head, c1);
    assert_eq!(log(&repo, "main"), &vec![c1, c2]);
}

#[test]
fn merge_of_two_branches_marks_the_conflict() {
    let mut repo = two_branches();
    let ours = repo.head.clone();
    merge(&"other".to_string(), &mut repo).unwrap();
    assert_ne!(repo.head, ours);
    let made = Commit::get_commit_from_file(repo.head.clone(), &repo.objects).unwrap();
    assert_eq!(made.get_parent(), &ours);
    assert_eq!(made.get_description(), "merge main and other");
    assert_eq!(log(&repo, "main").last(), Some(&repo.head));
    let t = tree_of(&repo, &repo.head);
    assert_eq!(names(&t.get_nodes()), vec!["f.txt", "d", "theirs.txt"]);
    let merged = content_of(&t, "f.txt");
    assert!(merged.contains("<<<<<<") && merged.contains(">>>>>>"));
    assert_eq!(
        merged,
        "<<<<<< HEAD (current change)\nours\n======\ntheirs\n>>>>>> (incoming change)\nshared\n\n"
    );
}

#[test]
fn merge_with_a_branch_that_has_no_log_is_an_io_error() {
    let mut repo = two_branches();
    let before = repo.head.clone();
    let err = merge(&"nope".to_string(), &mut repo).unwrap_err();
    assert!(matches!(err, DitError::IoError(_)));
    assert_eq!(repo.head, before);
}

#[test]
fn the_commits_of_a_branch_as_a_tree() {
    let mut repo = init_repository();
    assert!(show_commit(&repo).unwrap().is_none());
    stage(&mut repo, vec![file(&["f"], "one")]);
    commit_with(&mut repo, "c1");
    let c1 = repo.head.clone();
    stage(&mut repo, vec![file(&["f"], "two")]);
    commit_with(&mut repo, "c2");
    let c2 = repo.head.clone();
    revert(c1.clone(), &"/w".to_string(), &mut repo).unwrap();
    stage(&mut repo, vec![file(&["f"], "three")]);
    commit_with(&mut repo, "c3");
    let c3 = repo.head.clone();
    let root = show_commit(&repo).unwrap().unwrap();
    assert_eq!(root.commit.get_hash(), &c1);
    let kids: Vec<&String> = root.children.iter().map(|n| n.commit.get_hash()).collect();
    assert_eq!(kids, vec![&c2, &c3]);
    assert_eq!(
        root.display(),
        vec![
            format!("hash: {c1} \n description: c1"),
            format!("hash: {c2} \n description: c2"),
            format!("hash: {c3} \n description: c3")
        ]
    );
    let list = Commit::get_commit_list("main".to_string(), &repo).unwrap();
    assert_eq!(list.len(), 3);
    assert!(Commit::get_commit_list("nope".to_string(), &repo).is_err());
}
