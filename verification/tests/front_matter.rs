use weaver::front_matter::{split_front_matter, split_lines};
use weaver::parser::parse_markdown;
use weaver::parser::serialize;
use weaver::tree::TreeNode;

fn markdown(text: &str) -> Vec<TreeNode> {
    parse_markdown(text).unwrap()
}

fn lines_of(text: &str) -> Vec<String> {
    let chars: Vec<char> = text.chars().collect();
    split_lines(&chars).into_iter().map(|line| line.into_iter().collect()).collect()
}

#[test]
fn lines_end_at_line_feeds() {
    assert_eq!(lines_of(""), Vec::<String>::new());
    assert_eq!(lines_of("a"), vec!["a"]);
    assert_eq!(lines_of("a\n"), vec!["a"]);
    assert_eq!(lines_of("a\nb"), vec!["a", "b"]);
    assert_eq!(lines_of("a\n\nb\n"), vec!["a", "", "b"]);
    assert_eq!(lines_of("\n"), vec![""]);
    assert_eq!(lines_of("\n\n"), vec!["", ""]);
}

#[test]
fn carriage_returns_go_only_before_a_line_feed() {
    assert_eq!(lines_of("a\r\nb\r\n"), vec!["a", "b"]);
    assert_eq!(lines_of("a\rb\n"), vec!["a\rb"]);
    assert_eq!(lines_of("a\r"), vec!["a\r"]);
    assert_eq!(lines_of("a\r\r\n"), vec!["a\r"]);
    assert_eq!(lines_of("\r\n"), vec![""]);
}

#[test]
fn lines_agree_with_the_standard_library() {
    for text in ["", "x", "x\ny", "x\r\ny\r", "\n\nx\n", "\r", "\r\n\r\n", "a\n\r\nb", " ;k: v \n"] {
        let expected: Vec<String> = text.lines().map(|l| l.to_string()).collect();
        assert_eq!(lines_of(text), expected, "{:?}", text);
    }
}

#[test]
fn front_matter_becomes_a_binding_and_leaves_the_body() {
    let parted = split_front_matter(";title: Home\n# Hi");
    assert_eq!(parted.vars.get("title"), Some("Home".to_string()));
    assert_eq!(parted.body, "# Hi\n");
    let rendered = serialize(&TreeNode::document(markdown(&parted.body))).unwrap();
    assert_eq!(rendered, "<h1>Hi</h1>\n");
    assert!(!rendered.contains("title"));
}

#[test]
fn binding_lines_may_stand_anywhere() {
    let parted = split_front_matter("first\n  ;a : 1\nsecond\n\t;b:two words  \n;a:3\n");
    assert_eq!(parted.body, "first\nsecond\n");
    assert_eq!(parted.vars.get("a"), Some("3".to_string()));
    assert_eq!(parted.vars.get("b"), Some("two words".to_string()));
    assert_eq!(parted.vars.get("c"), None);
}

#[test]
fn binding_line_without_colon_is_dropped() {
    let parted = split_front_matter("a\n;no colon here\nb\n");
    assert_eq!(parted.body, "a\nb\n");
    assert!(parted.vars.entries.is_empty());
}

#[test]
fn value_keeps_later_colons_and_key_may_be_empty() {
    let parted = split_front_matter(";url: http://example.org/x\n;: anonymous\n;empty:\n");
    assert_eq!(parted.body, "");
    assert_eq!(parted.vars.get("url"), Some("http://example.org/x".to_string()));
    assert_eq!(parted.vars.get(""), Some("anonymous".to_string()));
    assert_eq!(parted.vars.get("empty"), Some("".to_string()));
}

#[test]
fn every_body_line_gets_a_line_feed() {
    assert_eq!(split_front_matter("a\r\nb").body, "a\nb\n");
    assert_eq!(split_front_matter("").body, "");
    assert_eq!(split_front_matter("\n").body, "\n");
    assert_eq!(split_front_matter("x ; not a binding\n").body, "x ; not a binding\n");
}
