use dit::diff::{diff_lines, Side};
use dit::text::{chars_of, split_chars, split_lines, string_of};

fn lines(text: &str) -> Vec<Vec<char>> {
    split_lines(&chars_of(text))
}

fn steps(a: &str, b: &str) -> Vec<(Side, String)> {
    diff_lines(&lines(a), &lines(b))
        .iter()
        .map(|c| (c.side, string_of(&c.line)))
        .collect()
}

fn step(side: Side, line: &str) -> (Side, String) {
    (side, line.to_string())
}

#[test]
fn diff_of_equal_texts_is_all_common() {
    assert_eq!(
        steps("a\nb\n", "a\nb\n"),
        vec![step(Side::Common, "a\n"), step(Side::Common, "b\n")]
    );
    assert_eq!(steps("", ""), vec![]);
}

#[test]
fn diff_puts_the_left_line_before_the_right_one() {
    assert_eq!(
        steps("a\nb\n", "a\nc\n"),
        vec![
            step(Side::Common, "a\n"),
            step(Side::OnlyLeft, "b\n"),
            step(Side::OnlyRight, "c\n")
        ]
    );
}

#[test]
fn diff_against_nothing() {
    assert_eq!(
        steps("a\nb\n", ""),
        vec![step(Side::OnlyLeft, "a\n"), step(Side::OnlyLeft, "b\n")]
    );
    assert_eq!(steps("", "a\n"), vec![step(Side::OnlyRight, "a\n")]);
}

#[test]
fn diff_holds_both_texts_whole() {
    let (a, b) = ("k\na\nb\nc\nk2\n", "a\nx\nc\nk2\ny\n");
    let d = steps(a, b);
    let left: Vec<String> =
        d.iter().filter(|s| s.0 != Side::OnlyRight).map(|s| s.1.clone()).collect();
    let right: Vec<String> =
        d.iter().filter(|s| s.0 != Side::OnlyLeft).map(|s| s.1.clone()).collect();
    assert_eq!(left, vec!["k\n", "a\n", "b\n", "c\n", "k2\n"]);
    assert_eq!(right, vec!["a\n", "x\n", "c\n", "k2\n", "y\n"]);
    assert_eq!(left.concat(), a);
    assert_eq!(right.concat(), b);
    assert_eq!(d.iter().filter(|s| s.0 == Side::Common).count(), 3);
}

#[test]
fn split_lines_cuts_behind_every_newline() {
    let got: Vec<String> = lines("a\n\n b\nc").iter().map(string_of).collect();
    assert_eq!(got, vec!["a\n", "\n", " b\n", "c"]);
    let got: Vec<String> = lines("\n\n").iter().map(string_of).collect();
    assert_eq!(got, vec!["\n", "\n"]);
    assert!(lines("").is_empty());
    let got: Vec<String> = lines("a\n").iter().map(string_of).collect();
    assert_eq!(got, vec!["a\n"]);
}

#[test]
fn split_chars_keeps_empty_pieces_on_demand() {
    let got: Vec<String> =
        split_chars(&chars_of("a//b/"), '/', true).iter().map(string_of).collect();
    assert_eq!(got, vec!["a", "", "b"]);
    let got: Vec<String> =
        split_chars(&chars_of("a//b/"), '/', false).iter().map(string_of).collect();
    assert_eq!(got, vec!["a", "b"]);
}

#[test]
fn chars_and_strings_convert_both_ways() {
    assert_eq!(chars_of("héllo"), vec!['h', 'é', 'l', 'l', 'o']);
    assert_eq!(string_of(&vec!['h', 'é', 'l', 'l', 'o']), "héllo");
    assert_eq!(string_of(&vec![]), "");
}
