use dit::objects::blob::Blob;

const OPEN: &str = "<<<<<< HEAD (current change)\n";
const MID: &str = "======\n";
const CLOSE: &str = ">>>>>> (incoming change)\n";

fn merged(a: &str, b: &str) -> String {
    dit::utils::merge_text(a.to_string(), b.to_string())
}

#[test]
fn merge_text() {
    let text1 = "def add(a, b):\n    return a + b\n\n# Test\nprint(add(2, 3))".to_string();

    let text2 = "def add(a, b):\n    return a + b + 1\n\n# Test\nprint(add(2, 4))".to_string();

    let mut b1 = Blob::new("blob1".to_string(), text1, "".to_string());
    let b2 = Blob::new("blob2".to_string(), text2, "".to_string());

    let result = "def add(a, b):\n<<<<<< HEAD (current change)\n    return a + b\n======\n    return a + b + 1\n>>>>>> (incoming change)\n\n# Test\n<<<<<< HEAD (current change)\nprint(add(2, 3))\n======\nprint(add(2, 4))\n>>>>>> (incoming change)\n".to_string();

    b1.merge(b2);
    println!("{}", b1.content);
    println!("{}", result);

    assert_eq!(b1.content, result);
}

#[test]
fn merge_text_of_equal_texts_gives_the_text_back() {
    for t in [
        "",
        "a",
        "a\n",
        "a\nb\nc\n",
        "a\n\nb\n",
        "\n",
        "\n\n",
        "\n\na\n\n\nb",
        "x y z\n    indented\n",
        "<<<<<< HEAD (current change)\n",
    ] {
        assert_eq!(merged(t, t), t);
    }
}

#[test]
fn merge_text_keeps_the_empty_lines_that_both_texts_have() {
    assert_eq!(
        merged("a\n\nb\n\nz\n", "a\n\nc\n\nz\n"),
        format!("a\n\n{OPEN}b\n{MID}c\n{CLOSE}\nz\n")
    );
}

#[test]
fn merge_text_sets_an_empty_line_of_one_text_in_a_block() {
    assert_eq!(merged("a\n\nb\n", "a\nb\n"), format!("a\n{OPEN}\n{MID}{CLOSE}b\n"));
}

#[test]
fn merge_text_closes_a_last_line_without_newline_inside_a_block() {
    assert_eq!(merged("a\nb", "a\nc"), format!("a\n{OPEN}b\n{MID}c\n{CLOSE}"));
    assert_eq!(merged("a\nb", "a\n"), format!("a\n{OPEN}b\n{MID}{CLOSE}"));
    assert_eq!(merged("a", "a\n"), format!("{OPEN}a\n{MID}a\n{CLOSE}"));
    assert_eq!(merged("b\na", "a"), format!("{OPEN}b\n{MID}{CLOSE}a"));
}

#[test]
fn merge_text_conflict_shape() {
    let out = merged("a\nb\n", "a\nc\n");
    assert_eq!(out, format!("a\n{OPEN}b\n{MID}c\n{CLOSE}"));
    assert_eq!(out.matches("<<<<<<").count(), 1);
    assert_eq!(out.matches("======").count(), 1);
    assert_eq!(out.matches(">>>>>>").count(), 1);
    assert_eq!(out.lines().filter(|l| *l == "a").count(), 1);
    assert!(out.starts_with("a\n"));
}

#[test]
fn merge_text_closes_a_block_that_is_open_at_the_end() {
    assert_eq!(merged("a\nb\n", "a\n"), format!("a\n{OPEN}b\n{MID}{CLOSE}"));
    assert_eq!(merged("a\n", "a\nc\n"), format!("a\n{OPEN}{MID}c\n{CLOSE}"));
}

#[test]
fn merge_text_of_texts_without_a_common_line() {
    assert_eq!(merged("a\nb\n", "c\nd\n"), format!("{OPEN}a\nb\n{MID}c\nd\n{CLOSE}"));
    assert_eq!(merged("", "c\n"), format!("{OPEN}{MID}c\n{CLOSE}"));
    assert_eq!(merged("a\n", ""), format!("{OPEN}a\n{MID}{CLOSE}"));
}

#[test]
fn merge_text_closes_a_block_before_a_common_line() {
    assert_eq!(
        merged("x\nkeep\ny\n", "keep\n"),
        format!("{OPEN}x\n{MID}{CLOSE}keep\n{OPEN}y\n{MID}{CLOSE}")
    );
    assert_eq!(
        merged("keep\n", "x\nkeep\ny\n"),
        format!("{OPEN}{MID}x\n{CLOSE}keep\n{OPEN}{MID}y\n{CLOSE}")
    );
}

#[test]
fn merge_text_keeps_the_longest_common_run_of_lines() {
    assert_eq!(
        merged("a\nb\nc\nd\n", "b\nc\nd\na\n"),
        format!("{OPEN}a\n{MID}{CLOSE}b\nc\nd\n{OPEN}{MID}a\n{CLOSE}")
    );
}

#[test]
fn blob_merge_of_equal_contents_keeps_the_content() {
    for t in ["", "a", "a\n\nb\n", "x\n\n\ny"] {
        let mut b1 = Blob::new("n1".to_string(), t.to_string(), "h1".to_string());
        let b2 = Blob::new("n2".to_string(), t.to_string(), "h2".to_string());
        b1.merge(b2);
        assert_eq!(b1.get_content(), t);
        assert!(!b1.get_content().contains("<<<<<<"));
        assert!(!b1.get_content().contains("======"));
        assert!(!b1.get_content().contains(">>>>>>"));
    }
}

#[test]
fn blob_merge_keeps_the_name_and_hashes_anew() {
    let mut b1 = Blob::new("n1".to_string(), "a\n".to_string(), "h1".to_string());
    let b2 = Blob::new("n2".to_string(), "b\n".to_string(), "h2".to_string());
    b1.merge(b2);
    assert_eq!(b1.get_name(), "n1");
    assert_eq!(b1.get_content(), &format!("{OPEN}a\n{MID}b\n{CLOSE}"));
    assert_eq!(b1.get_hash(), &dit::digest::hash_text(&format!("n1{OPEN}a\n{MID}b\n{CLOSE}")));
}
