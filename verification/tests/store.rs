use dit::error::DitError;
use dit::features::init::{get_object_path, init_repository, open_object_file};
use dit::objects::blob::Blob;
use dit::objects::node_type::NodeType;
use dit::objects::transcript::{load_children, read_entry};
use dit::objects::tree::Tree;
use dit::objects::node_type::Kind;
use dit::store::ObjectStore;
use dit::text::chars_of;

fn blob(name: &str, content: &str) -> NodeType {
    let mut b = Blob::new(name.to_string(), content.to_string(), String::new());
    b.create_hash();
    NodeType::Blob(b)
}

fn sample() -> NodeType {
    let sub = Tree::new("sub".to_string(), vec![blob("a.txt", "A")], String::new());
    let mut root = NodeType::Tree(Tree::new(
        String::new(),
        vec![NodeType::Tree(sub), blob("b.txt", "B")],
        String::new(),
    ));
    root.create_node_hash();
    root
}

fn dump(store: &ObjectStore) -> Vec<(String, String)> {
    store.objects.iter().map(|o| (o.hash.clone(), o.text.clone())).collect()
}

#[test]
fn put_stores_a_text_once() {
    let mut store = ObjectStore::new();
    assert!(!store.contains(&"h".to_string()));
    assert!(store.get(&"h".to_string()).is_none());
    store.put("h".to_string(), "first".to_string());
    assert!(store.contains(&"h".to_string()));
    assert_eq!(store.get(&"h".to_string()), Some(&"first".to_string()));
    let before = dump(&store);
    store.put("h".to_string(), "second".to_string());
    assert_eq!(dump(&store), before);
    assert_eq!(store.get(&"h".to_string()), Some(&"first".to_string()));
}

#[test]
fn transcript_writes_each_node_under_its_hash() {
    let root = sample();
    let mut store = ObjectStore::new();
    root.transcript_to_files(&mut store);
    assert_eq!(
        dump(&store),
        vec![
            (
                "69c82320be3d0343dae527a61508443800146c61".to_string(),
                "tree 7dcfed3c2943ed95919f9933ccf5117d2e0e4d31 sub\nblob 0993c1c796cb270c78f4ca034e7f59b4352b94ae b.txt\n".to_string()
            ),
            (
                "7dcfed3c2943ed95919f9933ccf5117d2e0e4d31".to_string(),
                "blob 1bb6038dc29291f67498e0e17e464859da43632f a.txt\n".to_string()
            ),
            ("1bb6038dc29291f67498e0e17e464859da43632f".to_string(), "A\n".to_string()),
            ("0993c1c796cb270c78f4ca034e7f59b4352b94ae".to_string(), "B\n".to_string()),
        ]
    );
}

#[test]
fn transcript_of_what_is_stored_changes_nothing() {
    let root = sample();
    let mut store = ObjectStore::new();
    root.transcript_to_files(&mut store);
    let before = dump(&store);
    root.transcript_to_files(&mut store);
    assert_eq!(dump(&store), before);
}

#[test]
fn transcript_skips_what_is_below_a_stored_tree() {
    let root = sample();
    let mut store = ObjectStore::new();
    store.put(root.get_hash(), "taken".to_string());
    root.transcript_to_files(&mut store);
    assert_eq!(dump(&store), vec![(root.get_hash(), "taken".to_string())]);
}

#[test]
fn a_tree_is_read_back_as_it_was_written() {
    let root = sample();
    let mut store = ObjectStore::new();
    root.transcript_to_files(&mut store);
    let mut tree = Tree::default();
    tree.get_tree_from_file(root.get_hash(), &store).unwrap();
    let kids = tree.get_nodes();
    assert_eq!(kids.len(), 2);
    assert_eq!(kids[0].get_name(), "sub");
    assert_eq!(kids[0].get_hash(), "7dcfed3c2943ed95919f9933ccf5117d2e0e4d31");
    assert!(Tree::is_tree(&kids[0]));
    match &kids[0].get_nodes()[0] {
        NodeType::Blob(b) => {
            assert_eq!(b.name, "a.txt");
            assert_eq!(b.content, "A\n");
            assert_eq!(b.hash, "1bb6038dc29291f67498e0e17e464859da43632f");
        }
        NodeType::Tree(_) => panic!("a blob was expected"),
    }
    assert!(Blob::is_blob(&kids[1]));
    assert_eq!(kids[1].get_name(), "b.txt");
}

#[test]
fn reading_a_tree_that_is_not_stored_is_an_unexpected_condition() {
    let store = ObjectStore::new();
    let mut tree = Tree::default();
    let err = tree.get_tree_from_file("missing".to_string(), &store).unwrap_err();
    assert!(matches!(err, DitError::UnexpectedComportement(_)));
    assert_eq!(err.message(), "missing object for a referenced hash");
    assert!(tree.get_nodes().is_empty());
}

#[test]
fn reading_a_tree_with_a_missing_blob_is_an_unexpected_condition() {
    let mut store = ObjectStore::new();
    store.put(
        "t".to_string(),
        "blob 1bb6038dc29291f67498e0e17e464859da43632f a.txt\n".to_string(),
    );
    let err = load_children(&store, &"t".to_string(), 5).unwrap_err();
    assert!(matches!(err, DitError::UnexpectedComportement(_)));
    assert_eq!(err.message(), "missing object for a referenced hash");
}

#[test]
fn a_malformed_line_is_an_unexpected_condition() {
    for text in ["blob tooshort\n", "tree 7dcfed3c2943ed95919f9933ccf5117d2e0e4d31\n", "\n"] {
        let mut store = ObjectStore::new();
        store.put("t".to_string(), text.to_string());
        let mut tree = Tree::default();
        let err = tree.get_tree_from_file("t".to_string(), &store).unwrap_err();
        assert!(matches!(err, DitError::UnexpectedComportement(_)));
        assert_eq!(err.message(), "malformed line in a tree object");
    }
}

#[test]
fn trees_that_refer_to_each_other_in_a_circle_are_an_error() {
    let h = "7dcfed3c2943ed95919f9933ccf5117d2e0e4d31";
    let mut store = ObjectStore::new();
    store.put(h.to_string(), format!("tree {h} again\n"));
    let mut tree = Tree::default();
    let err = tree.get_tree_from_file(h.to_string(), &store).unwrap_err();
    assert_eq!(err.message(), "tree objects refer to each other in a circle");
}

#[test]
fn read_entry_takes_a_line_apart() {
    let h = "7dcfed3c2943ed95919f9933ccf5117d2e0e4d31";
    let (kind, hash, name) = read_entry(&chars_of(&format!("tree {h} my dir"))).unwrap();
    assert_eq!(kind, Kind::Tree);
    assert_eq!(hash, h);
    assert_eq!(name, "my dir");
    let (kind, _, name) = read_entry(&chars_of(&format!("blob {h} "))).unwrap();
    assert_eq!(kind, Kind::Blob);
    assert_eq!(name, "");
    assert!(read_entry(&chars_of(&format!("tree {h}"))).is_none());
    assert!(read_entry(&chars_of(&format!("blub {h} x"))).is_none());
    assert!(read_entry(&chars_of(&format!("tree_{h} x"))).is_none());
    assert!(read_entry(&chars_of(&format!("tree {h}_x"))).is_none());
}

#[test]
fn get_blob_from_file_appends_the_stored_blob() {
    let mut store = ObjectStore::new();
    store.put("hb".to_string(), "text\n".to_string());
    let mut tree = Tree::default();
    tree.get_blob_from_file("f".to_string(), "hb".to_string(), &store).unwrap();
    match &tree.get_nodes()[0] {
        NodeType::Blob(b) => {
            assert_eq!((b.name.as_str(), b.hash.as_str(), b.content.as_str()), ("f", "hb", "text\n"));
        }
        NodeType::Tree(_) => panic!("a blob was expected"),
    }
    let err = tree.get_blob_from_file("g".to_string(), "none".to_string(), &store).unwrap_err();
    assert!(matches!(err, DitError::UnexpectedComportement(_)));
    assert_eq!(tree.get_nodes().len(), 1);
}

#[test]
fn object_path_is_shard_and_file() {
    let h = "c9abcbf05b7f20b73021cff6cc372f4cd292d9dd".to_string();
    assert_eq!(
        get_object_path(&"./.dit/objects".to_string(), &h).unwrap(),
        "./.dit/objects/c9/abcbf05b7f20b73021cff6cc372f4cd292d9dd"
    );
    assert_eq!(get_object_path(&"o".to_string(), &"ab".to_string()).unwrap(), "o/ab/");
    let err = get_object_path(&"o".to_string(), &"a".to_string()).unwrap_err();
    assert!(matches!(err, DitError::UnexpectedComportement(_)));
}

#[test]
fn open_object_file_gives_the_text_or_not_found() {
    let mut repo = init_repository();
    repo.objects.put("h".to_string(), "text".to_string());
    assert_eq!(open_object_file("h".to_string(), &repo).unwrap(), "text");
    let err = open_object_file("0000000000000000000000000000000000000000".to_string(), &repo)
        .unwrap_err();
    assert!(matches!(err, DitError::IoError(_)));
    assert_eq!(err.message(), "IO error: object not found in the store");
}
