use dit::digest::hash_text;
use dit::objects::blob::Blob;
use dit::objects::node_type::NodeType;
use dit::objects::tree::Tree;

fn blob(name: &str, content: &str) -> Blob {
    let mut b = Blob::new(name.to_string(), content.to_string(), String::new());
    b.create_hash();
    b
}

#[test]
fn hash_text_of_known_texts() {
    assert_eq!(hash_text(""), "da39a3ee5e6b4b0d3255bfef95601890afd80709");
    assert_eq!(hash_text("abc"), "a9993e364706816aba3e25717850c26c9cd0d89d");
    assert_eq!(
        hash_text("The quick brown fox jumps over the lazy dog"),
        "2fd4e1c67a2d28fced849ee1bb76e7391b93eb12"
    );
    assert_eq!(hash_text("é"), "bf15be717ac1b080b4f1c456692825891ff5073d");
}

#[test]
fn hash_text_is_forty_lowercase_hex_characters() {
    let h = hash_text("anything");
    assert_eq!(h.len(), 40);
    assert!(h.chars().all(|c| c.is_ascii_digit() || ('a'..='f').contains(&c)));
    assert_ne!(h, "anything");
}

#[test]
fn blob_hash_is_the_digest_of_name_and_content() {
    let b = blob("file.txt", "hello");
    assert_eq!(b.get_hash(), "c9abcbf05b7f20b73021cff6cc372f4cd292d9dd");
    assert_eq!(b.get_hash(), &hash_text("file.txthello"));
}

#[test]
fn hashing_the_same_blob_twice_gives_the_same_hash() {
    let a = blob("file.txt", "hello");
    let mut b = blob("file.txt", "hello");
    b.create_hash();
    assert_eq!(a.get_hash(), b.get_hash());
    assert_ne!(blob("file.txt", "hello2").get_hash(), a.get_hash());
    assert_ne!(blob("file2.txt", "hello").get_hash(), a.get_hash());
}

#[test]
fn tree_hash_is_the_digest_of_the_hashes_of_its_children() {
    let sub = Tree::new(
        "sub".to_string(),
        vec![NodeType::Blob(blob("a.txt", "A"))],
        String::new(),
    );
    let mut root = NodeType::Tree(Tree::new(
        String::new(),
        vec![NodeType::Tree(sub), NodeType::Blob(blob("b.txt", "B"))],
        String::new(),
    ));
    let h = root.create_node_hash();
    assert_eq!(h, "69c82320be3d0343dae527a61508443800146c61");
    assert_eq!(root.get_hash(), h);
    let kids = root.get_nodes();
    assert_eq!(kids[0].get_hash(), "7dcfed3c2943ed95919f9933ccf5117d2e0e4d31");
    assert_eq!(kids[1].get_hash(), "0993c1c796cb270c78f4ca034e7f59b4352b94ae");
}

#[test]
fn hash_of_a_tree_without_children_is_the_digest_of_the_empty_text() {
    let mut root = NodeType::Tree(Tree::default());
    assert_eq!(root.create_node_hash(), "da39a3ee5e6b4b0d3255bfef95601890afd80709");
}

#[test]
fn create_node_hash_keeps_the_hash_of_a_blob() {
    let mut b = NodeType::Blob(Blob::new("n".to_string(), "c".to_string(), "mine".to_string()));
    assert_eq!(b.create_node_hash(), "mine");
    assert_eq!(b.get_hash(), "mine");
}

fn two_level(content: &str) -> NodeType {
    let left = Tree::new(
        "left".to_string(),
        vec![NodeType::Blob(blob("leaf", content))],
        String::new(),
    );
    let right = Tree::new(
        "right".to_string(),
        vec![NodeType::Blob(blob("other", "same"))],
        String::new(),
    );
    let mut root = NodeType::Tree(Tree::new(
        String::new(),
        vec![NodeType::Tree(left), NodeType::Tree(right)],
        String::new(),
    ));
    root.create_node_hash();
    root
}

#[test]
fn a_changed_leaf_changes_every_hash_above_it_and_no_other() {
    let before = two_level("one");
    let after = two_level("two");
    assert_ne!(before.get_hash(), after.get_hash());
    let (b, a) = (before.get_nodes(), after.get_nodes());
    assert_ne!(b[0].get_hash(), a[0].get_hash());
    assert_ne!(b[0].get_nodes()[0].get_hash(), a[0].get_nodes()[0].get_hash());
    assert_eq!(b[1].get_hash(), a[1].get_hash());
    assert_eq!(b[1].get_nodes()[0].get_hash(), a[1].get_nodes()[0].get_hash());
}

#[test]
fn the_order_of_the_children_counts_for_the_hash() {
    let x = NodeType::Blob(blob("x", "1"));
    let y = NodeType::Blob(blob("y", "2"));
    let mut xy = NodeType::Tree(Tree::new(String::new(), vec![x.clone(), y.clone()], String::new()));
    let mut yx = NodeType::Tree(Tree::new(String::new(), vec![y, x], String::new()));
    assert_ne!(xy.create_node_hash(), yx.create_node_hash());
}
