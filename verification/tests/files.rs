use dit::error::DitError;
use dit::features::init::init_repository;
use dit::features::persist::{
    lines_to_text, load_repository, read_hash_file, save_repository, text_lines, write_hash_file,
    NamedText, RepositoryFiles,
};
use dit::features::message::message;
use dit::objects::commit::Commit;
use dit::store::{ObjectStore, StoredObject};

const H1: &str = "c9abcbf05b7f20b73021cff6cc372f4cd292d9dd";
const H2: &str = "1b1093cc8a71165f8b2df94659c1bf74e7911ed0";
const NULL: &str = "0000000000000000000000000000000000000000";

#[test]
fn a_hash_is_read_at_its_place() {
    let info = format!("HEAD {H1} main");
    assert_eq!(read_hash_file(&info, 5).unwrap(), H1);
    assert_eq!(read_hash_file(&H2.to_string(), 0).unwrap(), H2);
    let err = read_hash_file(&H2.to_string(), 1).unwrap_err();
    assert!(matches!(err, DitError::UnexpectedComportement(_)));
    assert!(read_hash_file(&String::new(), 0).is_err());
}

#[test]
fn a_hash_is_written_over_the_one_before() {
    let info = format!("HEAD {H1} main");
    assert_eq!(write_hash_file(&H2.to_string(), &info, 5), format!("HEAD {H2} main"));
    assert_eq!(write_hash_file(&H2.to_string(), &H1.to_string(), 0), H2);
    assert_eq!(write_hash_file(&H2.to_string(), &String::new(), 0), H2);
    assert_eq!(write_hash_file(&"xy".to_string(), &"abc".to_string(), 2), "abxy");
    assert_eq!(write_hash_file(&"xy".to_string(), &"abc".to_string(), 7), "abcxy");
}

#[test]
fn lines_and_text() {
    assert_eq!(text_lines(&"a\nb\n\nc".to_string()), vec!["a", "b", "c"]);
    assert_eq!(lines_to_text(&vec!["a".to_string(), "b".to_string()]), "a\nb\n");
    assert_eq!(lines_to_text(&vec![]), "");
}

#[test]
fn a_repository_is_written_to_its_files() {
    let mut repo = init_repository();
    dit::features::add::add(
        vec![dit::objects::builder::StagedPath {
            names: vec!["file.txt".to_string()],
            content: Some("hello".to_string()),
        }],
        &mut repo,
    )
    .unwrap();
    dit::features::delete::delete(vec!["x".to_string(), "y/z".to_string()], &mut repo);
    message("c1".to_string(), &mut repo);
    let files = save_repository(repo);
    assert_eq!(files.info, format!("HEAD {NULL} main"));
    assert_eq!(files.staged, H2);
    assert_eq!(files.deleted, "x\ny/z\n");
    assert_eq!(files.commit, "c1");
    assert_eq!(files.refs.len(), 1);
    assert_eq!((files.refs[0].name.as_str(), files.refs[0].text.as_str()), ("main", ""));
    assert_eq!(files.objects.len(), 2);
    assert_eq!(files.objects[1].hash, H1);
}

#[test]
fn a_repository_is_read_from_its_files() {
    let files = RepositoryFiles {
        objects: vec![StoredObject { hash: H1.to_string(), text: "hello\n".to_string() }],
        refs: vec![
            NamedText { name: "main".to_string(), text: format!("{H1}\n{H2}\n") },
            NamedText { name: "empty".to_string(), text: String::new() },
        ],
        info: format!("HEAD {H2} main"),
        staged: NULL.to_string(),
        deleted: "a\nb\n".to_string(),
        commit: "msg".to_string(),
    };
    let repo = load_repository(files).unwrap();
    assert_eq!((repo.branch.as_str(), repo.head.as_str(), repo.staged.as_str()), ("main", H2, NULL));
    assert_eq!(repo.refs[0].commits, vec![H1, H2]);
    assert!(repo.refs[1].commits.is_empty());
    assert_eq!(repo.deleted, vec!["a", "b"]);
    assert_eq!(repo.message, "msg");
    assert_eq!(repo.objects.get(&H1.to_string()), Some(&"hello\n".to_string()));
}

#[test]
fn what_was_written_is_read_back() {
    let mut repo = init_repository();
    dit::features::add::add(
        vec![dit::objects::builder::StagedPath {
            names: vec!["file.txt".to_string()],
            content: Some("hello".to_string()),
        }],
        &mut repo,
    )
    .unwrap();
    message("c1".to_string(), &mut repo);
    dit::features::commit::commit(&mut repo, &String::new()).unwrap();
    let head = repo.head.clone();
    let back = load_repository(save_repository(repo)).unwrap();
    assert_eq!(back.head, head);
    assert_eq!(back.branch, "main");
    assert_eq!(back.staged, NULL);
    assert_eq!(back.refs[0].commits, vec![head.clone()]);
    assert!(Commit::get_commit_from_file(head, &back.objects).is_ok());
}

#[test]
fn malformed_files_are_an_unexpected_condition() {
    let files = |info: &str, staged: &str| RepositoryFiles {
        objects: vec![],
        refs: vec![],
        info: info.to_string(),
        staged: staged.to_string(),
        deleted: String::new(),
        commit: String::new(),
    };
    let err = load_repository(files(&format!("HEAD {H1} main"), "short")).unwrap_err();
    assert_eq!(err.message(), "no hash at this place of the file");
    for info in ["", "HEAD", &format!("HEAD {H1}"), &format!("head {H1} main"), &format!("HEAD {H1}_main")] {
        let err = load_repository(files(info, NULL)).unwrap_err();
        assert_eq!(err.message(), "malformed info file");
    }
}

#[test]
fn a_commit_is_read_from_its_text() {
    let mut store = ObjectStore::new();
    store.put("c".to_string(), format!("tree {H1}\npare {H2}\nline one\nline two"));
    let c = Commit::get_commit_from_file("c".to_string(), &store).unwrap();
    assert_eq!(c.get_tree(), H1);
    assert_eq!(c.get_parent(), H2);
    assert_eq!(c.get_description(), "line one\nline two");
    assert_eq!(c.get_hash(), &dit::digest::hash_text(&format!("{H1}{H2}line one\nline two")));
    assert_eq!(c.write_commit(), format!("tree {H1}\npare {H2}\nline one\nline two"));
    assert_eq!(c.display(), format!("hash: {} \n description: line one\nline two", c.get_hash()));
}

#[test]
fn a_commit_that_is_missing_or_malformed() {
    let mut store = ObjectStore::new();
    let err = Commit::get_commit_from_file(NULL.to_string(), &store).unwrap_err();
    assert!(matches!(err, DitError::UnexpectedComportement(_)));
    assert_eq!(err.message(), "missing object for a referenced hash");
    for (i, text) in [
        String::new(),
        format!("tree {H1}\npare {H2}"),
        format!("tree {H1}\nparent {H2}\n"),
        format!("blob {H1}\npare {H2}\n"),
        format!("tree {H1} pare {H2}\n"),
    ]
    .iter()
    .enumerate()
    {
        store.put(format!("k{i}"), text.clone());
        let err = Commit::get_commit_from_file(format!("k{i}"), &store).unwrap_err();
        assert_eq!(err.message(), "malformed commit object");
    }
    store.put("ok".to_string(), format!("tree {H1}\npare {H2}\n"));
    assert_eq!(Commit::get_commit_from_file("ok".to_string(), &store).unwrap().get_description(), "");
}

#[test]
fn commit_setters_and_generate_id() {
    let mut c = Commit::new("t".to_string(), "p".to_string(), "d".to_string());
    assert_eq!(c.get_hash(), &dit::digest::hash_text("tpd"));
    c.set_tree("tree2".to_string());
    c.set_parent("parent2".to_string());
    c.set_description("text2".to_string());
    c.set_hash("h".to_string());
    assert_eq!(
        (c.get_tree().as_str(), c.get_parent().as_str(), c.get_description().as_str(), c.get_hash().as_str()),
        ("tree2", "parent2", "text2", "h")
    );
    assert_eq!(c.generate_id(), dit::digest::hash_text("tree2parent2text2"));
    assert_eq!(c.get_hash(), &dit::digest::hash_text("tree2parent2text2"));
}

#[test]
fn the_sentences_of_the_errors() {
    assert_eq!(DitError::NotInitialized.message(), "Repository dit not initialized");
    assert_eq!(DitError::io("gone").message(), "IO error: gone");
    assert_eq!(DitError::unexpected("odd").message(), "odd");
    assert!(matches!(DitError::unexpected("odd").clone(), DitError::UnexpectedComportement(_)));
}
