use weaver::parser::{
    is_serializable, parse_document, parse_markdown, parse_snippet, serialize,
};
use weaver::dom::MAX_PARSED_BYTES;
use weaver::tree::{Attr, Payload, TreeNode};

fn snippet(text: &str) -> Vec<TreeNode> {
    parse_snippet(text).unwrap()
}

fn page_of(text: &str) -> TreeNode {
    parse_document(text).unwrap()
}

fn markdown(text: &str) -> Vec<TreeNode> {
    parse_markdown(text).unwrap()
}

fn element(name: &str, attrs: Vec<(&str, &str)>, children: Vec<TreeNode>) -> TreeNode {
    TreeNode {
        data: Payload::Element {
            ns: "http://www.w3.org/1999/xhtml".to_string(),
            name: name.to_string(),
        },
        attrs: attrs
            .into_iter()
            .map(|(n, v)| Attr { ns: String::new(), name: n.to_string(), value: v.to_string() })
            .collect(),
        children,
    }
}

fn text(s: &str) -> TreeNode {
    TreeNode::text(s.to_string())
}

#[test]
fn snippet_parses_to_its_top_level_nodes() {
    let nodes = snippet("<p class=\"x\" id=\"y\">a<b>c</b></p>tail<!--note-->");
    let expected = vec![
        element("p", vec![("class", "x"), ("id", "y")], vec![text("a"), element("b", vec![], vec![text("c")])]),
        text("tail"),
        TreeNode {
            data: Payload::Comment { contents: "note".to_string() },
            attrs: vec![],
            children: vec![],
        },
    ];
    assert_eq!(nodes, expected);
}

#[test]
fn empty_snippet_has_no_nodes() {
    assert_eq!(snippet(""), vec![]);
}

#[test]
fn document_parses_to_a_document_root() {
    let doc = page_of("<!DOCTYPE html><html><head><title>t</title></head><body><p>x</p></body></html>");
    assert_eq!(doc.data, Payload::Document);
    assert!(doc.attrs.is_empty());
    assert_eq!(doc.children.len(), 2);
    assert_eq!(doc.children[0].data, Payload::Doctype { name: "html".to_string() });
    let html = &doc.children[1];
    assert_eq!(
        html.data,
        Payload::Element { ns: "http://www.w3.org/1999/xhtml".to_string(), name: "html".to_string() }
    );
    assert_eq!(html.children.len(), 2);
    assert_eq!(
        html.children[1],
        element("body", vec![], vec![element("p", vec![], vec![text("x")])])
    );
}

#[test]
fn document_without_markup_still_gets_its_skeleton() {
    let doc = page_of("hello");
    assert_eq!(serialize(&doc), Some("<html><head></head><body>hello</body></html>".to_string()));
}

#[test]
fn directive_names_survive_parsing() {
    let nodes = snippet("<super:wrap src=\"l.html\"><super:content-slot></super:content-slot></super:wrap>");
    assert_eq!(
        nodes,
        vec![element(
            "super:wrap",
            vec![("src", "l.html")],
            vec![element("super:content-slot", vec![], vec![])]
        )]
    );
}

#[test]
fn markdown_renders_with_its_extensions() {
    let nodes = markdown("# Hi\n\n~~gone~~\n");
    assert_eq!(
        serialize(&TreeNode::document(nodes)),
        Some("<h1>Hi</h1>\n<p><del>gone</del></p>\n".to_string())
    );
    let table = serialize(&TreeNode::document(markdown("|a|b|\n|-|-|\n|1|2|\n"))).unwrap();
    assert!(table.contains("<table>"), "{}", table);
    assert!(table.contains("<td>1</td>"), "{}", table);
    let notes = serialize(&TreeNode::document(markdown("x[^1]\n\n[^1]: note\n"))).unwrap();
    assert!(notes.contains("footnote"), "{}", notes);
}

#[test]
fn serializing_writes_the_children_of_the_root() {
    let root = TreeNode::document(vec![
        TreeNode { data: Payload::Doctype { name: "html".to_string() }, attrs: vec![], children: vec![] },
        element(
            "div",
            vec![("title", "a \"b\" & <c>")],
            vec![
                text("1 < 2 & 3 > 2"),
                element("br", vec![], vec![]),
                element("img", vec![("src", "x.png")], vec![]),
                TreeNode {
                    data: Payload::Comment { contents: " c ".to_string() },
                    attrs: vec![],
                    children: vec![],
                },
                element("script", vec![], vec![text("if (a < b) {}")]),
            ],
        ),
    ]);
    assert_eq!(
        serialize(&root),
        Some(
            "<!DOCTYPE html><div title=\"a &quot;b&quot; &amp; &lt;c&gt;\">1 &lt; 2 &amp; 3 &gt; 2<br><img src=\"x.png\"><!-- c --><script>if (a < b) {}</script></div>"
                .to_string()
        )
    );
    let only_root = element("section", vec![("id", "gone")], vec![text("kept")]);
    assert_eq!(serialize(&only_root), Some("kept".to_string()));
    assert_eq!(serialize(&TreeNode::document(vec![])), Some(String::new()));
}

#[test]
fn attribute_namespaces_and_processing_instructions_are_written() {
    let root = TreeNode::document(vec![
        TreeNode {
            data: Payload::Element {
                ns: "http://www.w3.org/2000/svg".to_string(),
                name: "use".to_string(),
            },
            attrs: vec![Attr {
                ns: "http://www.w3.org/1999/xlink".to_string(),
                name: "href".to_string(),
                value: "#a".to_string(),
            }],
            children: vec![],
        },
        TreeNode {
            data: Payload::ProcessingInstruction {
                target: "xml".to_string(),
                contents: "version".to_string(),
            },
            attrs: vec![],
            children: vec![],
        },
    ]);
    assert_eq!(serialize(&root), Some("<use xlink:href=\"#a\"></use><?xml version>".to_string()));
}

#[test]
fn parsing_then_serializing_gives_the_text_back() {
    let text = "<ul><li>one</li><li>two <em>2</em></li></ul><p>end</p>";
    assert_eq!(serialize(&TreeNode::document(snippet(text))), Some(text.to_string()));
    let page = "<!DOCTYPE html><html><head></head><body><h1>t</h1></body></html>";
    assert_eq!(serialize(&page_of(page)), Some(page.to_string()));
}

#[test]
fn nested_document_cannot_be_serialized() {
    let nested = TreeNode::document(vec![element("div", vec![], vec![TreeNode::document(vec![])])]);
    assert!(!is_serializable(&nested));
    assert_eq!(serialize(&nested), None);
    let direct = TreeNode::document(vec![TreeNode::document(vec![])]);
    assert_eq!(serialize(&direct), None);
}

#[test]
fn attributes_on_what_is_no_element_cannot_be_serialized() {
    let odd = TreeNode {
        data: Payload::Text { contents: "x".to_string() },
        attrs: vec![Attr { ns: String::new(), name: "a".to_string(), value: "b".to_string() }],
        children: vec![],
    };
    assert!(!is_serializable(&odd));
    assert_eq!(serialize(&TreeNode::document(vec![odd])), None);
    assert!(is_serializable(&element("p", vec![("a", "b")], vec![text("x")])));
}

#[test]
fn text_too_long_for_the_parser_is_not_parsed() {
    let long = " ".repeat(MAX_PARSED_BYTES + 1);
    assert_eq!(parse_document(&long), None);
    assert_eq!(parse_snippet(&long), None);
    drop(long);
    // The limit is on bytes, not on characters.
    let wide = "\u{e9}".repeat(MAX_PARSED_BYTES / 2 + 1);
    assert_eq!(wide.chars().count(), MAX_PARSED_BYTES / 2 + 1);
    assert_eq!(parse_snippet(&wide), None);
}

#[test]
fn markdown_is_measured_after_rendering() {
    // These characters fit as Markdown; rendered, each takes five bytes.
    let md = "&".repeat(MAX_PARSED_BYTES / 5 + 1);
    assert!(md.len() <= MAX_PARSED_BYTES);
    assert_eq!(parse_markdown(&md), None);
    assert!(parse_markdown("&&&").is_some());
}
