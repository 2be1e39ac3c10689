use dit::objects::blob::Blob;
use dit::objects::node_type::NodeType;
use dit::objects::tree::Tree;

fn blob(name: &str, content: &str, hash: &str) -> Blob {
    Blob::new(name.to_string(), content.to_string(), hash.to_string())
}

fn tree(name: &str, nodes: Vec<NodeType>, hash: &str) -> Tree {
    Tree::new(name.to_string(), nodes, hash.to_string())
}

fn basic_setup() -> (NodeType, NodeType, NodeType) {
    let blob1 = blob("file1.txt", "Ceci est le contenu du fichier 1.", "hash_blob_1");
    let blob3 = blob("file3.txt", "Ceci est le contenu du fichier 3.", "hash_blob_3");
    let tree1 = tree("hello", vec![NodeType::Blob(blob1.clone())], "hash_tree1");
    let tree2 = tree("", vec![NodeType::Tree(tree1)], "");
    let tree3 = tree("zio", vec![NodeType::Blob(blob3.clone())], "hash_tree3");
    let tree4 = tree("", vec![NodeType::Tree(tree3.clone())], "");
    let tree5 = tree("", vec![NodeType::Tree(tree3), NodeType::Tree(tree2.clone())], "");
    (NodeType::Tree(tree2), NodeType::Tree(tree4), NodeType::Tree(tree5))
}

fn multiple_same_name_setup() -> (NodeType, NodeType, NodeType) {
    let blob1 = blob("file1.txt", "Ceci est le contenu du fichier 1.", "hash_blob_1");
    let blob3 = blob("file3.txt", "Ceci est le contenu du fichier 3.", "hash_blob_3");
    let tree1 = tree("hello", vec![NodeType::Blob(blob1.clone())], "hash_tree1");
    let tree2 = tree("", vec![NodeType::Tree(tree1)], "");
    let tree3 = tree(
        "zio",
        vec![NodeType::Blob(blob3.clone()), NodeType::Blob(blob1.clone())],
        "hash_tree3",
    );
    let tree4 = tree("", vec![NodeType::Tree(tree3.clone())], "");
    let tree5 = tree("", vec![NodeType::Tree(tree3), NodeType::Tree(tree2.clone())], "");
    (NodeType::Tree(tree2), NodeType::Tree(tree4), NodeType::Tree(tree5))
}

fn multiple_same_name_different_content_setup() -> (NodeType, NodeType, NodeType) {
    let blob1 = blob("file1.txt", "Ceci est le contenu du fichier 1.", "hash_blob_1");
    let blob2 = blob("file1.txt", "Ceci est le contenu du fichier 1\nHAHAHAHAHAH.", "hash_blob_1");
    let blob3 = blob("file3.txt", "Ceci est le contenu du fichier 3.", "hash_blob_3");
    let tree1 = tree("hello", vec![NodeType::Blob(blob1.clone())], "hash_tree1");
    let tree2 = tree("", vec![NodeType::Tree(tree1)], "");
    let tree3 = tree(
        "zio",
        vec![NodeType::Blob(blob3.clone()), NodeType::Blob(blob2.clone())],
        "hash_tree3",
    );
    let tree4 = tree("", vec![NodeType::Tree(tree3.clone())], "");
    let tree5 = tree("", vec![NodeType::Tree(tree3), NodeType::Tree(tree2.clone())], "");
    (NodeType::Tree(tree2), NodeType::Tree(tree4), NodeType::Tree(tree5))
}

#[test]
fn basic() {
    let (n1, n2, n3) = basic_setup();
    assert_eq!(NodeType::merge(n1, n2).unwrap(), n3)
}

#[test]
fn multiple_same_name_same_content() {
    let (n1, n2, n3) = multiple_same_name_setup();
    assert_eq!(NodeType::merge(n1, n2).unwrap(), n3)
}

#[test]
fn multiple_same_name_different_content() {
    let (n1, n2, n3) = multiple_same_name_different_content_setup();
    assert_eq!(NodeType::merge(n1, n2).unwrap(), n3)
}

fn names(node: &NodeType) -> Vec<String> {
    node.get_nodes().iter().map(|n| n.get_name()).collect()
}

#[test]
fn merge_appends_children_that_the_first_lacks() {
    let (n1, n2, _) = basic_setup();
    let merged = NodeType::merge(n1, n2).unwrap();
    assert_eq!(names(&merged), vec!["hello".to_string(), "zio".to_string()]);
}

#[test]
fn merge_of_two_blobs_merges_their_texts() {
    let a = NodeType::Blob(blob("f", "a\nb\n", "h1"));
    let b = NodeType::Blob(blob("f", "a\nc\n", "h2"));
    match NodeType::merge(a, b).unwrap() {
        NodeType::Blob(m) => {
            assert_eq!(m.name, "f");
            assert_eq!(
                m.content,
                "a\n<<<<<< HEAD (current change)\nb\n======\nc\n>>>>>> (incoming change)\n"
            );
            assert_eq!(m.hash, dit::digest::hash_text(&format!("f{}", m.content)));
        }
        NodeType::Tree(_) => panic!("a blob was expected"),
    }
}

#[test]
fn merge_of_equal_named_nodes_gives_nothing() {
    let a = NodeType::Blob(blob("f", "a\n", "h1"));
    let b = NodeType::Blob(blob("f", "b\n", "h1"));
    assert!(NodeType::merge(a, b).is_none());
    let t1 = NodeType::Tree(tree("d", vec![], "same"));
    let t2 = NodeType::Tree(tree("d", vec![NodeType::Blob(blob("x", "", "hx"))], "same"));
    assert!(NodeType::merge(t1, t2).is_none());
}

#[test]
fn merge_of_a_blob_and_a_tree_gives_nothing() {
    let a = NodeType::Blob(blob("f", "a\n", "h1"));
    let t = NodeType::Tree(tree("f", vec![], "h2"));
    assert!(NodeType::merge(a.clone(), t.clone()).is_none());
    assert!(NodeType::merge(t, a).is_none());
}

#[test]
fn merge_keeps_one_blob_of_a_name_and_marks_the_conflict() {
    let ours = NodeType::Tree(tree(
        "",
        vec![
            NodeType::Blob(blob("f.txt", "one\n", "ha")),
            NodeType::Blob(blob("only_ours", "x\n", "hx")),
        ],
        "",
    ));
    let theirs = NodeType::Tree(tree(
        "",
        vec![
            NodeType::Blob(blob("only_theirs", "y\n", "hy")),
            NodeType::Blob(blob("f.txt", "two\n", "hb")),
        ],
        "",
    ));
    let merged = NodeType::merge(ours, theirs).unwrap();
    assert_eq!(
        names(&merged),
        vec!["f.txt".to_string(), "only_ours".to_string(), "only_theirs".to_string()]
    );
    match &merged.get_nodes()[0] {
        NodeType::Blob(b) => {
            assert!(b.content.contains("<<<<<<"));
            assert!(b.content.contains(">>>>>>"));
            assert_eq!(
                b.content,
                "<<<<<< HEAD (current change)\none\n======\ntwo\n>>>>>> (incoming change)\n"
            );
        }
        NodeType::Tree(_) => panic!("a blob was expected"),
    }
}

#[test]
fn merge_descends_into_trees_of_one_name() {
    let ours = NodeType::Tree(tree(
        "",
        vec![NodeType::Tree(tree("d", vec![NodeType::Blob(blob("a", "1\n", "ha"))], "hd1"))],
        "",
    ));
    let theirs = NodeType::Tree(tree(
        "",
        vec![NodeType::Tree(tree("d", vec![NodeType::Blob(blob("b", "2\n", "hb"))], "hd2"))],
        "",
    ));
    let merged = NodeType::merge(ours, theirs).unwrap();
    assert_eq!(names(&merged), vec!["d".to_string()]);
    assert_eq!(names(&merged.get_nodes()[0]), vec!["a".to_string(), "b".to_string()]);
}

#[test]
fn fuse_of_a_tree_with_itself_gives_nothing() {
    let (n1, _, _) = multiple_same_name_setup();
    assert!(NodeType::fuse(n1.clone(), n1).is_none());
    let t = NodeType::Tree(tree("d", vec![NodeType::Blob(blob("a", "1\n", "ha"))], "hd"));
    assert!(NodeType::fuse(t.clone(), t).is_none());
}

#[test]
fn fuse_keeps_adds_and_replaces() {
    let old = NodeType::Tree(tree(
        "",
        vec![
            NodeType::Blob(blob("kept", "k\n", "hk")),
            NodeType::Blob(blob("changed", "old\n", "h_old")),
            NodeType::Tree(tree("dir", vec![NodeType::Blob(blob("in", "1\n", "h1"))], "hd_old")),
        ],
        "root_old",
    ));
    let new = NodeType::Tree(tree(
        "",
        vec![
            NodeType::Blob(blob("changed", "new\n", "h_new")),
            NodeType::Blob(blob("added", "a\n", "ha")),
            NodeType::Tree(tree("dir", vec![NodeType::Blob(blob("more", "2\n", "h2"))], "hd_new")),
        ],
        "root_new",
    ));
    let fused = NodeType::fuse(old, new).unwrap();
    assert_eq!(
        names(&fused),
        vec!["kept".to_string(), "changed".to_string(), "added".to_string(), "dir".to_string()]
    );
    let kids = fused.get_nodes();
    match &kids[1] {
        NodeType::Blob(b) => {
            assert_eq!(b.content, "new\n");
            assert_eq!(b.hash, "h_new");
        }
        NodeType::Tree(_) => panic!("a blob was expected"),
    }
    assert_eq!(names(&kids[3]), vec!["in".to_string(), "more".to_string()]);
}

#[test]
fn fuse_of_two_unequal_blobs_gives_the_first() {
    let a = NodeType::Blob(blob("f", "a\n", "h1"));
    let b = NodeType::Blob(blob("f", "b\n", "h2"));
    match NodeType::fuse(a, b).unwrap() {
        NodeType::Blob(m) => assert_eq!(m.content, "a\n"),
        NodeType::Tree(_) => panic!("a blob was expected"),
    }
}

#[test]
fn blobs_are_equal_by_hash_once_hashed_and_by_name_before() {
    assert_eq!(blob("a", "x", "h"), blob("b", "y", "h"));
    assert_ne!(blob("a", "x", "h1"), blob("a", "x", "h2"));
    assert_eq!(blob("a", "x", ""), blob("a", "y", "h2"));
    assert_ne!(blob("a", "x", ""), blob("b", "x", ""));
}

#[test]
fn trees_are_equal_by_hash() {
    assert_eq!(tree("a", vec![], "h"), tree("b", vec![NodeType::Blob(blob("x", "", ""))], "h"));
    assert_ne!(tree("a", vec![], "h1"), tree("a", vec![], "h2"));
    assert_ne!(NodeType::Tree(tree("a", vec![], "h")), NodeType::Blob(blob("a", "", "h")));
}
