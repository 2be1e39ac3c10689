use dit::error::DitError;
use dit::objects::blob::Blob;
use dit::objects::builder::{find_element_to_remove, StagedPath};
use dit::objects::materialize::FsAction;
use dit::objects::node_type::NodeType;
use dit::objects::tree::Tree;

fn blob(name: &str, content: &str, hash: &str) -> NodeType {
    NodeType::Blob(Blob::new(name.to_string(), content.to_string(), hash.to_string()))
}

fn tree(name: &str, nodes: Vec<NodeType>, hash: &str) -> Tree {
    Tree::new(name.to_string(), nodes, hash.to_string())
}

fn names(nodes: &[NodeType]) -> Vec<String> {
    nodes.iter().map(|n| n.get_name()).collect()
}

fn file(path: &[&str], content: &str) -> StagedPath {
    StagedPath {
        names: path.iter().map(|s| s.to_string()).collect(),
        content: Some(content.to_string()),
    }
}

fn dir(path: &[&str]) -> StagedPath {
    StagedPath { names: path.iter().map(|s| s.to_string()).collect(), content: None }
}

#[test]
fn finders_return_the_first_match() {
    let mut t = tree(
        "",
        vec![blob("x", "1", "h1"), NodeType::Tree(tree("x", vec![], "h2")), blob("y", "2", "h3")],
        "",
    );
    assert!(Blob::is_blob(t.find_node_by_name("x".to_string()).unwrap()));
    assert!(Tree::is_tree(t.find_tree_by_name("x".to_string()).unwrap()));
    assert!(t.find_tree_by_name("y".to_string()).is_none());
    assert_eq!(t.find_blob_by_name("y".to_string()).unwrap().get_hash(), "h3");
    assert!(t.find_blob_by_name("z".to_string()).is_none());
    assert_eq!(t.find_node_index(&blob("other", "", "h3")), Some(2));
    assert_eq!(t.find_node_index(&blob("other", "", "h9")), None);
    assert!(t.find_node(&NodeType::Tree(tree("any", vec![], "h2"))).is_some());
    assert!(t.find_node(&blob("x", "1", "h1")).is_none());
    assert!(t.contains(&blob("q", "", "h1")));
    assert!(!t.contains(&blob("q", "", "nope")));
    assert!(t.exist_node(&NodeType::Tree(tree("any", vec![], "h2"))));
    assert!(!t.exist_node(&blob("x", "1", "h1")));
    assert!(t.exist_node_with_same_name("y".to_string()));
    assert!(!t.exist_node_with_same_name("q".to_string()));
    assert!(t.exist_node_with_same_name_and_type(&blob("y", "", "")));
    assert!(!t.exist_node_with_same_name_and_type(&NodeType::Tree(tree("y", vec![], ""))));
}

#[test]
fn a_finder_hands_out_the_child_itself() {
    let mut t = tree("", vec![NodeType::Tree(tree("d", vec![], "h"))], "");
    t.find_tree_by_name("d".to_string()).unwrap().add_node(blob("new", "", ""));
    assert_eq!(names(&t.get_nodes()[0].get_nodes()), vec!["new"]);
    t.get_mut_nodes().push(blob("pushed", "", ""));
    assert_eq!(names(&t.get_nodes()), vec!["d", "pushed"]);
}

#[test]
fn replace_node_keeps_the_place_and_replace_moves_to_the_end() {
    let mut t = tree("", vec![blob("a", "old", "h1"), blob("b", "", "h2")], "");
    t.replace_node(blob("a", "new", "h3"));
    assert_eq!(names(&t.get_nodes()), vec!["a", "b"]);
    assert_eq!(t.get_nodes()[0].get_hash(), "h3");
    t.replace_node(blob("zzz", "", ""));
    t.replace_node(NodeType::Tree(tree("a", vec![], "")));
    assert_eq!(names(&t.get_nodes()), vec!["a", "b"]);
    assert!(Blob::is_blob(&t.get_nodes()[0]));

    let mut n = NodeType::Tree(t);
    n.replace(blob("a", "newer", "h4"));
    assert_eq!(names(&n.get_nodes()), vec!["b", "a"]);
    assert_eq!(n.get_nodes()[1].get_hash(), "h4");
    n.replace(blob("zzz", "", ""));
    assert_eq!(names(&n.get_nodes()), vec!["b", "a"]);
}

#[test]
fn remove_takes_the_first_equal_child() {
    let mut t = tree("", vec![blob("a", "", "h1"), blob("b", "", "h2"), blob("c", "", "h1")], "");
    t.remove_node(&blob("whatever", "", "h1"));
    assert_eq!(names(&t.get_nodes()), vec!["b", "c"]);
    t.remove_node(&blob("b", "", "other"));
    assert_eq!(names(&t.get_nodes()), vec!["b", "c"]);
    t.remove_blob_same_name("c".to_string());
    assert_eq!(names(&t.get_nodes()), vec!["b"]);
    t.remove_blob_same_name("c".to_string());
    assert_eq!(names(&t.get_nodes()), vec!["b"]);
    let mut n = NodeType::Tree(t);
    n.remove_node(&blob("", "", "h2"));
    assert!(n.get_nodes().is_empty());
}

#[test]
fn complete_node_adds_replaces_or_leaves_out() {
    let mut t = tree("", vec![blob("a", "old", "h1"), NodeType::Tree(tree("d", vec![], "hd"))], "");
    t.complete_node(blob("new", "", "hn"));
    t.complete_node(blob("a", "fresh", "h2"));
    t.complete_node(NodeType::Tree(tree("d", vec![blob("x", "", "")], "other")));
    t.complete_node(blob("d", "a file called d", "hf"));
    let kids = t.get_nodes();
    assert_eq!(names(&kids), vec!["a", "d", "new"]);
    assert_eq!(kids[0].get_hash(), "h2");
    assert_eq!(kids[1].get_hash(), "hd");
    let mut u = tree("", vec![], "");
    u.complete_node_from_another_node(NodeType::Tree(t));
    assert_eq!(names(&u.get_nodes()), vec!["a", "d", "new"]);
    u.complete_node_from_another_node(blob("b", "", ""));
    assert_eq!(u.get_nodes().len(), 3);
}

#[test]
fn same_type_and_same_name() {
    let b = blob("n", "", "");
    let t = NodeType::Tree(tree("n", vec![b.clone(), NodeType::Tree(tree("n", vec![], "in"))], ""));
    assert!(NodeType::is_same_type(&b, &b));
    assert!(!NodeType::is_same_type(&b, &t));
    assert_eq!(NodeType::find_node_with_same_name(&t, &t).unwrap().get_hash(), "in");
    assert!(Blob::is_blob(&NodeType::find_node_with_same_name(&b, &t).unwrap()));
    assert!(NodeType::find_node_with_same_name(&blob("m", "", ""), &t).is_none());
    assert!(NodeType::find_node_with_same_name(&b, &b).is_none());
}

#[test]
fn a_file_is_set_into_the_directories_above_it() {
    let mut root = NodeType::Tree(Tree::default());
    root.create_repository_tree(&file(&["src", "lib", "a.rs"], "A")).unwrap();
    root.create_repository_tree(&file(&["src", "lib", "b.rs"], "B")).unwrap();
    root.create_repository_tree(&file(&["top.txt"], "T")).unwrap();
    assert_eq!(names(&root.get_nodes()), vec!["src", "top.txt"]);
    let lib = root.get_nodes()[0].get_nodes();
    assert_eq!(names(&lib), vec!["lib"]);
    let files = lib[0].get_nodes();
    assert_eq!(names(&files), vec!["a.rs", "b.rs"]);
    assert_eq!(files[0].get_hash(), dit::digest::hash_text("a.rsA"));
}

#[test]
fn a_staged_file_takes_the_place_of_the_blob_of_its_name() {
    let mut root = NodeType::Tree(Tree::default());
    root.create_repository_tree(&file(&["a"], "1")).unwrap();
    root.create_repository_tree(&file(&["b"], "2")).unwrap();
    root.create_repository_tree(&file(&["a"], "3")).unwrap();
    let kids = root.get_nodes();
    assert_eq!(names(&kids), vec!["b", "a"]);
    assert_eq!(kids[1].get_hash(), dit::digest::hash_text("a3"));
}

#[test]
fn a_directory_is_made_once_and_may_be_empty() {
    let mut root = NodeType::Tree(Tree::default());
    root.create_repository_tree(&dir(&["d"])).unwrap();
    root.create_repository_tree(&dir(&["d"])).unwrap();
    root.create_repository_tree(&StagedPath { names: vec![], content: Some("x".to_string()) })
        .unwrap();
    assert_eq!(names(&root.get_nodes()), vec!["d"]);
    assert!(Tree::is_tree(&root.get_nodes()[0]));
    assert!(root.get_nodes()[0].get_nodes().is_empty());
}

#[test]
fn a_directory_under_the_name_of_a_file_is_an_error() {
    let mut root = NodeType::Tree(Tree::default());
    root.create_repository_tree(&file(&["x"], "1")).unwrap();
    let err = root.create_repository_tree(&file(&["x", "y"], "2")).unwrap_err();
    assert!(matches!(err, DitError::UnexpectedComportement(_)));
    assert_eq!(err.message(), "Error while finding directory, already existing");
    assert_eq!(names(&root.get_nodes()), vec!["x"]);
    assert!(Blob::is_blob(&root.get_nodes()[0]));
}

#[test]
fn a_file_may_stand_beside_a_directory_of_its_name() {
    let mut root = NodeType::Tree(Tree::default());
    root.create_repository_tree(&file(&["x", "y"], "2")).unwrap();
    root.create_repository_tree(&file(&["x"], "1")).unwrap();
    let kids = root.get_nodes();
    assert_eq!(names(&kids), vec!["x", "x"]);
    assert!(Tree::is_tree(&kids[0]) && Blob::is_blob(&kids[1]));
}

#[test]
fn nothing_is_set_into_a_blob() {
    let mut b = blob("b", "c", "h");
    b.create_repository_tree(&file(&["x"], "1")).unwrap();
    b.add_node(blob("child", "", ""));
    assert!(b.get_nodes().is_empty());
    assert_eq!(b.get_name(), "b");
}

#[test]
fn a_path_is_taken_out() {
    let mut root = NodeType::Tree(Tree::default());
    root.create_repository_tree(&file(&["d", "a"], "1")).unwrap();
    root.create_repository_tree(&file(&["d", "b"], "2")).unwrap();
    root.create_repository_tree(&file(&["c"], "3")).unwrap();
    find_element_to_remove(&mut root, &vec!["d".to_string(), "a".to_string()]);
    assert_eq!(names(&root.get_nodes()), vec!["d", "c"]);
    assert_eq!(names(&root.get_nodes()[0].get_nodes()), vec!["b"]);
    find_element_to_remove(&mut root, &vec!["d".to_string(), "zzz".to_string()]);
    find_element_to_remove(&mut root, &vec!["zzz".to_string(), "b".to_string()]);
    find_element_to_remove(&mut root, &vec![]);
    assert_eq!(names(&root.get_nodes()[0].get_nodes()), vec!["b"]);
    find_element_to_remove(&mut root, &vec!["d".to_string()]);
    assert_eq!(names(&root.get_nodes()), vec!["c"]);
}

fn show(plan: &[FsAction]) -> Vec<String> {
    plan.iter()
        .map(|a| match a {
            FsAction::EnsureDir(p) => format!("mkdir {p}"),
            FsAction::WriteFile(p, c) => format!("write {p} {c}"),
            FsAction::RemoveFile(p) => format!("rm {p}"),
            FsAction::RemoveDirAll(p) => format!("rmdir {p}"),
        })
        .collect()
}

fn working_tree() -> NodeType {
    NodeType::Tree(tree(
        "",
        vec![
            blob("top", "T", ""),
            NodeType::Tree(tree(
                "d",
                vec![blob("in", "I", ""), NodeType::Tree(tree("e", vec![], ""))],
                "",
            )),
        ],
        "",
    ))
}

#[test]
fn the_plan_to_set_a_tree_out() {
    assert_eq!(
        show(&working_tree().create_element("/w".to_string())),
        vec![
            "rm /w/top",
            "write /w/top T",
            "mkdir /w/d",
            "rm /w/d/in",
            "write /w/d/in I",
            "mkdir /w/d/e"
        ]
    );
    assert_eq!(
        show(&Blob::new("f".to_string(), "c".to_string(), String::new())
            .create_file_from_blob("dir".to_string())),
        vec!["rm dir/f", "write dir/f c"]
    );
    assert_eq!(
        show(&tree("named", vec![], "").create_directory_from_tree("p".to_string())),
        vec!["mkdir p/named"]
    );
}

#[test]
fn the_plan_to_take_a_tree_away() {
    assert_eq!(
        show(&working_tree().delete_element("/w".to_string())),
        vec!["rm /w/top", "rmdir /w/d"]
    );
    assert_eq!(
        show(&Blob::new("f".to_string(), "c".to_string(), String::new())
            .delete_file("dir".to_string())),
        vec!["rm dir/f"]
    );
    assert_eq!(show(&tree("named", vec![blob("x", "", "")], "").delete_directory("p".to_string())), vec!["rmdir p/named"]);
    assert!(show(&Tree::default().delete_directory("p".to_string())).is_empty());
}

#[test]
fn the_lines_that_show_a_tree() {
    let t = NodeType::Tree(tree("r", vec![blob("b", "c", "hb"), NodeType::Tree(tree("d", vec![], "hd"))], "hr"));
    assert_eq!(
        t.display(),
        vec!["hash: hr, name: r, nodes: 2", "hash: hb, name: b", "hash: hd, name: d, nodes: 0"]
    );
    let many: Vec<NodeType> = (0..12).map(|i| blob(&format!("f{i}"), "", "")).collect();
    assert_eq!(tree("m", many, "h").display()[0], "hash: h, name: m, nodes: 12");
    assert_eq!(dit::objects::display::decimal_of(9070), vec!['9', '0', '7', '0']);
}

#[test]
fn getters_and_setters() {
    let mut b = Blob::new("n".to_string(), "c".to_string(), "h".to_string());
    assert_eq!((b.get_name().as_str(), b.get_content().as_str(), b.get_hash().as_str()), ("n", "c", "h"));
    b.set_name("n2".to_string());
    b.set_content("c2".to_string());
    b.set_hash("h2".to_string());
    assert_eq!((b.get_name().as_str(), b.get_content().as_str(), b.get_hash().as_str()), ("n2", "c2", "h2"));
    let mut t = Tree::new("n".to_string(), vec![NodeType::Blob(b)], "h".to_string());
    assert_eq!((t.get_name().as_str(), t.get_hash().as_str(), t.get_nodes().len()), ("n", "h", 1));
    t.set_name("m".to_string());
    t.set_hash("k".to_string());
    t.add_node(blob("x", "", ""));
    assert_eq!((t.get_name().as_str(), t.get_hash().as_str(), t.get_nodes().len()), ("m", "k", 2));
    let d = Tree::default();
    assert_eq!((d.get_name().as_str(), d.get_hash().as_str(), d.get_nodes().len()), ("", "", 0));
}
