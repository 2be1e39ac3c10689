use dit::paths::{clean_path, normalize_path, path_from_dit, path_names};

fn normal(path: &str) -> String {
    normalize_path(path.to_string())
}

#[test]
fn normalize_path_resolves_dots() {
    assert_eq!(normal("a/b/c"), "a/b/c");
    assert_eq!(normal("a/./b"), "a/b");
    assert_eq!(normal("./a"), "a");
    assert_eq!(normal("a/../b"), "b");
    assert_eq!(normal("a/b/../../c"), "c");
    assert_eq!(normal("a//b/"), "a/b");
    assert_eq!(normal(""), "");
    assert_eq!(normal("."), "");
}

#[test]
fn normalize_path_drops_a_parent_that_nothing_stands_before() {
    assert_eq!(normal(".."), "");
    assert_eq!(normal("../a"), "a");
    assert_eq!(normal("a/../../b"), "b");
}

#[test]
fn normalize_path_keeps_a_parent_behind_the_root() {
    assert_eq!(normal("/a/b"), "/a/b");
    assert_eq!(normal("/"), "/");
    assert_eq!(normal("/.."), "/..");
    assert_eq!(normal("/../.."), "/../..");
    assert_eq!(normal("/../a/.."), "/..");
    assert_eq!(normal("/a/.."), "/");
}

#[test]
fn path_from_dit_starts_at_the_root_of_the_repository() {
    assert_eq!(path_from_dit(&"f.txt".to_string(), &"".to_string()), "f.txt");
    assert_eq!(path_from_dit(&"f.txt".to_string(), &"sub/dir".to_string()), "sub/dir/f.txt");
    assert_eq!(path_from_dit(&"../f.txt".to_string(), &"sub/dir".to_string()), "sub/f.txt");
    assert_eq!(path_from_dit(&"/abs/f".to_string(), &"sub".to_string()), "/abs/f");
}

#[test]
fn clean_path_locates_each_path() {
    assert_eq!(
        clean_path(vec!["a".to_string(), "./b/../c".to_string()], &"d".to_string()),
        vec!["d/a", "d/c"]
    );
    assert!(clean_path(vec![], &"d".to_string()).is_empty());
}

#[test]
fn path_names_are_the_names_down_to_the_path() {
    assert_eq!(
        path_names(&"a/b/./c.txt".to_string()),
        Some(vec!["a".to_string(), "b".to_string(), "c.txt".to_string()])
    );
    assert_eq!(path_names(&"".to_string()), Some(vec![]));
    assert_eq!(path_names(&"/abs/f".to_string()), None);
    assert_eq!(path_names(&"/..".to_string()), None);
}
