use weaver::parser::{parse_snippet, serialize};
use weaver::processor::{HtmlProcessor, MarkdownProcessor, Processor, ProcessorConfig};
use weaver::resolve::{Diagnostic, ResolveError};
use weaver::scope::VarStack;
use weaver::source::Sources;
use weaver::tree::TreeNode;

fn snippet(text: &str) -> Vec<TreeNode> {
    parse_snippet(text).unwrap()
}

fn sources_of(files: &[(&str, &str)]) -> Sources {
    let mut sources = Sources::new();
    for (path, text) in files {
        sources.insert(path.to_string(), text.to_string());
    }
    sources
}

fn config() -> ProcessorConfig {
    ProcessorConfig { out_path: "out".to_string(), vars: VarStack::default() }
}

fn html_of(tree: &TreeNode) -> String {
    serialize(tree).unwrap()
}

#[test]
fn wrapped_page_fills_the_slot_of_its_layout() {
    let sources = sources_of(&[
        ("page.html", "<super:wrap src=\"layout.html\"><p>a</p><p>b</p></super:wrap>"),
        ("layout.html", "<header>top</header><main><super:content-slot></super:content-slot></main><footer>end</footer>"),
    ]);
    let mut p = HtmlProcessor::new(config(), 100);
    let tree = p.process(&sources, "page.html").unwrap();
    assert_eq!(
        html_of(&tree),
        "<header>top</header><main><p>a</p><p>b</p></main><footer>end</footer>"
    );
    let expected = TreeNode::document(snippet(
        "<header>top</header><main><p>a</p><p>b</p></main><footer>end</footer>",
    ));
    assert_eq!(tree, expected);
    assert!(p.log.is_empty());
    assert!(p.content.is_empty());
    assert!(p.stack.is_empty());
}

#[test]
fn nested_wraps_fill_from_the_inside_out() {
    let sources = sources_of(&[
        ("page.html", "<super:wrap src=\"section.html\"><p>page</p></super:wrap>"),
        ("section.html", "<super:wrap src=\"base.html\"><section><super:content-slot></super:content-slot></section></super:wrap>"),
        ("base.html", "<body-part><super:content-slot></super:content-slot></body-part>"),
    ]);
    let mut p = HtmlProcessor::new(config(), 100);
    let tree = p.process(&sources, "page.html").unwrap();
    assert_eq!(html_of(&tree), "<body-part><section><p>page</p></section></body-part>");
    assert!(p.log.is_empty());
}

#[test]
fn included_markdown_with_a_slot_leaves_the_slot_empty() {
    let sources = sources_of(&[
        ("layout.html", "<div><super:include src=\"x.md\"></super:include></div>"),
        ("x.md", "before\n\n<div><super:content-slot></super:content-slot></div>\n\nafter\n"),
    ]);
    let mut p = HtmlProcessor::new(config(), 100);
    p.content.push(snippet("<i>outer capture</i>"));
    let tree = p.process(&sources, "layout.html").unwrap();
    let html = html_of(&tree);
    assert_eq!(html, "<div><p>before</p>\n<div></div>\n<p>after</p>\n</div>");
    assert_eq!(p.log, vec![Diagnostic::EmptySlot { path: "x.md".to_string() }]);
    assert_eq!(p.content.len(), 1);
}

#[test]
fn markdown_with_a_template_is_wrapped() {
    let sources = sources_of(&[
        ("post.md", ";title: Home\n# Hi"),
        ("layout.html", "<!DOCTYPE html><html><head></head><body><article><super:content-slot></super:content-slot></article></body></html>"),
    ]);
    let mut p = MarkdownProcessor::new(config(), "layout.html".to_string(), 100);
    let tree = p.process(&sources, "post.md").unwrap();
    assert_eq!(
        html_of(&tree),
        "<!DOCTYPE html><html><head></head><body><article><h1>Hi</h1>\n</article></body></html>"
    );
}

#[test]
fn missing_source_is_reported_by_path() {
    let sources = sources_of(&[("a.html", "<p><super:include src=\"b.html\"></super:include></p>")]);
    let mut p = HtmlProcessor::new(config(), 100);
    assert_eq!(
        p.process(&sources, "a.html"),
        Err(ResolveError::Unreadable { path: "b.html".to_string() })
    );
}

#[test]
fn directive_free_document_is_returned_as_it_was_loaded() {
    let plain = "<h1>Title</h1><p>text <a href=\"x.html\">link</a></p><!-- note -->";
    let page = "<!DOCTYPE html><html><head><title>t</title></head><body><p>x</p></body></html>";
    let sources = sources_of(&[("snippet.html", plain), ("page.html", page)]);
    let mut p = HtmlProcessor::new(config(), 2);
    assert_eq!(p.process(&sources, "snippet.html"), Ok(TreeNode::document(snippet(plain))));
    assert_eq!(p.budget, 1);
    assert_eq!(p.process(&sources, "page.html"), Ok(weaver::parser::parse_document(page).unwrap()));
    assert_eq!(p.budget, 0);
    assert!(p.log.is_empty());
    assert!(p.content.is_empty());
    assert!(p.stack.is_empty());
}

#[test]
fn resolving_a_resolved_tree_again_changes_nothing() {
    let sources = sources_of(&[
        ("page.html", "<super:wrap src=\"layout.html\"><p>a</p></super:wrap>"),
        ("layout.html", "<main><super:content-slot></super:content-slot></main>"),
    ]);
    let mut p = HtmlProcessor::new(config(), 100);
    let tree = p.process(&sources, "page.html").unwrap();
    let text = html_of(&tree);
    let spent = 100 - p.budget;
    assert_eq!(spent, 3);
    let again = p.markdown(&sources, "page.html", tree).unwrap();
    assert_eq!(html_of(&again), text);
    assert_eq!(p.budget, 100 - spent);
}

#[test]
fn leading_whitespace_does_not_hide_a_doctype() {
    let sources = sources_of(&[
        ("full.html", " \n\t<!DOCTYPE html><title>t</title><p>x</p>"),
        ("lower.html", "<!doctype html><p>x</p>"),
    ]);
    let mut p = HtmlProcessor::new(config(), 100);
    let full = p.process(&sources, "full.html").unwrap();
    assert_eq!(
        html_of(&full),
        "<!DOCTYPE html><html><head><title>t</title></head><body><p>x</p></body></html>"
    );
    let lower = p.process(&sources, "lower.html").unwrap();
    assert_eq!(html_of(&lower), "<p>x</p>");
}

#[test]
fn wrap_inside_a_document_is_dropped_with_a_warning() {
    let sources = sources_of(&[(
        "a.html",
        "<p>before</p><div><super:wrap src=\"l.html\"><b>lost</b></super:wrap></div><p>after</p>",
    )]);
    let mut p = HtmlProcessor::new(config(), 100);
    let tree = p.process(&sources, "a.html").unwrap();
    assert_eq!(html_of(&tree), "<p>before</p><div></div><p>after</p>");
    assert_eq!(p.log, vec![Diagnostic::StrayWrap { path: "a.html".to_string() }]);
    assert_eq!(p.budget, 99);
}

#[test]
fn unknown_directive_is_kept_with_a_warning() {
    let sources = sources_of(&[(
        "a.html",
        "<super:each items=\"x\"><super:content-slot></super:content-slot><i>in</i></super:each>",
    )]);
    let mut p = HtmlProcessor::new(config(), 100);
    p.content.push(snippet("<u>filled</u>"));
    let tree = p.process(&sources, "a.html").unwrap();
    assert_eq!(html_of(&tree), "<super:each items=\"x\"><u>filled</u><i>in</i></super:each>");
    assert_eq!(
        p.log,
        vec![Diagnostic::UnknownDirective { path: "a.html".to_string(), tag: "each".to_string() }]
    );
    assert!(p.content.is_empty());
}

#[test]
fn slot_without_content_is_left_empty() {
    let sources = sources_of(&[("l.html", "<main><super:content-slot>fallback</super:content-slot></main>")]);
    let mut p = HtmlProcessor::new(config(), 100);
    let tree = p.process(&sources, "l.html").unwrap();
    assert_eq!(html_of(&tree), "<main></main>");
    assert_eq!(p.log, vec![Diagnostic::EmptySlot { path: "l.html".to_string() }]);
    assert_eq!(p.budget, 99);
}

#[test]
fn wrap_without_src_is_fatal() {
    let sources = sources_of(&[("a.html", "<super:wrap><p>x</p></super:wrap>")]);
    let mut p = HtmlProcessor::new(config(), 100);
    assert_eq!(
        p.process(&sources, "a.html"),
        Err(ResolveError::MissingSrc { path: "a.html".to_string() })
    );
}

#[test]
fn inclusion_without_src_is_fatal() {
    let sources = sources_of(&[
        ("a.html", "<p><super:include src=\"b.html\"></super:include></p>"),
        ("b.html", "<div><super:include href=\"c.html\"></super:include></div>"),
    ]);
    let mut p = HtmlProcessor::new(config(), 100);
    assert_eq!(
        p.process(&sources, "a.html"),
        Err(ResolveError::MissingSrc { path: "b.html".to_string() })
    );
}

#[test]
fn top_level_source_must_be_there() {
    let mut p = HtmlProcessor::new(config(), 100);
    assert_eq!(
        p.process(&Sources::new(), "nowhere.html"),
        Err(ResolveError::Unreadable { path: "nowhere.html".to_string() })
    );
    let mut m = MarkdownProcessor::new(config(), String::new(), 100);
    assert_eq!(
        m.process(&Sources::new(), "nowhere.md"),
        Err(ResolveError::Unreadable { path: "nowhere.md".to_string() })
    );
}

#[test]
fn other_files_are_spliced_as_text() {
    let sources = sources_of(&[
        ("a.html", "<pre><super:include src=\"code.txt\"></super:include></pre>"),
        ("code.txt", "if a < b {\n  <super:include src=\"never.html\">\n}"),
    ]);
    let mut p = HtmlProcessor::new(config(), 100);
    let tree = p.process(&sources, "a.html").unwrap();
    assert_eq!(
        html_of(&tree),
        "<pre>if a &lt; b {\n  &lt;super:include src=\"never.html\"&gt;\n}</pre>"
    );
    assert_eq!(tree.children[0].children, vec![TreeNode::text(
        "if a < b {\n  <super:include src=\"never.html\">\n}".to_string()
    )]);
    assert_eq!(p.budget, 98);
    let missing = sources_of(&[("a.html", "<super:include src=\"gone.css\"></super:include>")]);
    assert_eq!(
        HtmlProcessor::new(config(), 100).process(&missing, "a.html"),
        Err(ResolveError::Unreadable { path: "gone.css".to_string() })
    );
}

#[test]
fn included_document_is_flattened_into_its_place() {
    let sources = sources_of(&[
        ("a.html", "<ul><li>0</li><super:include src=\"items.html\"></super:include><li>3</li></ul>"),
        ("items.html", "<li>1</li><li>2</li>"),
    ]);
    let mut p = HtmlProcessor::new(config(), 100);
    let tree = p.process(&sources, "a.html").unwrap();
    assert_eq!(html_of(&tree), "<ul><li>0</li><li>1</li><li>2</li><li>3</li></ul>");
    assert_eq!(p.budget, 97);
}

#[test]
fn included_html_shares_the_captured_content() {
    let sources = sources_of(&[
        ("page.html", "<super:wrap src=\"layout.html\"><p>body</p></super:wrap>"),
        ("layout.html", "<header></header><super:include src=\"main.html\"></super:include>"),
        ("main.html", "<main><super:content-slot></super:content-slot></main>"),
    ]);
    let mut p = HtmlProcessor::new(config(), 100);
    let tree = p.process(&sources, "page.html").unwrap();
    assert_eq!(html_of(&tree), "<header></header><main><p>body</p></main>");
    assert!(p.log.is_empty());
    assert!(p.content.is_empty());
}

#[test]
fn captured_content_is_resolved_where_it_lands() {
    let sources = sources_of(&[
        ("page.html", "<super:wrap src=\"layout.html\"><super:include src=\"part.html\"></super:include><p>b</p></super:wrap>"),
        ("layout.html", "<main><super:content-slot></super:content-slot></main>"),
        ("part.html", "<p>a</p>"),
    ]);
    let mut p = HtmlProcessor::new(config(), 100);
    let tree = p.process(&sources, "page.html").unwrap();
    assert_eq!(html_of(&tree), "<main><p>a</p><p>b</p></main>");
}

#[test]
fn slots_take_captures_last_in_first_out() {
    let sources = sources_of(&[(
        "l.html",
        "<a><super:content-slot></super:content-slot></a><b><super:content-slot></super:content-slot></b><c><super:content-slot></super:content-slot></c>",
    )]);
    let mut p = HtmlProcessor::new(config(), 100);
    p.content.push(snippet("first"));
    p.content.push(snippet("second"));
    let tree = p.process(&sources, "l.html").unwrap();
    assert_eq!(html_of(&tree), "<a>second</a><b>first</b><c></c>");
    assert_eq!(p.log, vec![Diagnostic::EmptySlot { path: "l.html".to_string() }]);
}

#[test]
fn layout_without_slot_leaves_the_capture_on_the_stack() {
    let sources = sources_of(&[
        ("page.html", "<super:wrap src=\"bare.html\"><p>unused</p></super:wrap>"),
        ("bare.html", "<p>layout</p>"),
    ]);
    let mut p = HtmlProcessor::new(config(), 100);
    let tree = p.process(&sources, "page.html").unwrap();
    assert_eq!(html_of(&tree), "<p>layout</p>");
    assert_eq!(p.content, vec![snippet("<p>unused</p>")]);
}

#[test]
fn document_that_names_itself_runs_out_of_budget() {
    let sources = sources_of(&[("a.html", "<div><super:include src=\"a.html\"></super:include></div>")]);
    let mut p = HtmlProcessor::new(config(), 50);
    assert_eq!(
        p.process(&sources, "a.html"),
        Err(ResolveError::Exhausted { path: "a.html".to_string() })
    );
    let wrapping = sources_of(&[
        ("a.html", "<super:wrap src=\"b.html\">a</super:wrap>"),
        ("b.html", "<super:wrap src=\"a.html\">b</super:wrap>"),
    ]);
    let mut p = HtmlProcessor::new(config(), 51);
    match p.process(&wrapping, "a.html") {
        Err(ResolveError::Exhausted { .. }) => {}
        other => panic!("{:?}", other),
    }
}

#[test]
fn content_that_renews_itself_runs_out_of_budget() {
    let sources = sources_of(&[
        ("top.html", "<super:include src=\"a.html\"></super:include><super:content-slot></super:content-slot>"),
        ("a.html", "<super:wrap src=\"b.html\"><super:include src=\"a.html\"></super:include><super:content-slot></super:content-slot></super:wrap>"),
        ("b.html", "<hr>"),
    ]);
    // One unit loads the top document; every round then loads two documents
    // and repeats one pass.
    let mut p = HtmlProcessor::new(config(), 1000);
    assert_eq!(
        p.process(&sources, "top.html"),
        Err(ResolveError::Exhausted { path: "a.html".to_string() })
    );
    let mut p = HtmlProcessor::new(config(), 999);
    assert_eq!(
        p.process(&sources, "top.html"),
        Err(ResolveError::Exhausted { path: "top.html".to_string() })
    );
    let mut p = HtmlProcessor::new(config(), 998);
    assert_eq!(
        p.process(&sources, "top.html"),
        Err(ResolveError::Exhausted { path: "b.html".to_string() })
    );
}

#[test]
fn budget_counts_loads_and_repeated_passes() {
    let sources = sources_of(&[
        ("page.html", "<super:wrap src=\"layout.html\"><p>a</p></super:wrap>"),
        ("layout.html", "<main><super:content-slot></super:content-slot></main>"),
    ]);
    for budget in 0..3 {
        let mut p = HtmlProcessor::new(config(), budget);
        match p.process(&sources, "page.html") {
            Err(ResolveError::Exhausted { .. }) => {}
            other => panic!("budget {}: {:?}", budget, other),
        }
    }
    let mut p = HtmlProcessor::new(config(), 3);
    assert!(p.process(&sources, "page.html").is_ok());
    assert_eq!(p.budget, 0);
    let mut none = HtmlProcessor::new(config(), 0);
    assert_eq!(
        none.process(&sources, "page.html"),
        Err(ResolveError::Exhausted { path: "page.html".to_string() })
    );
}

#[test]
fn markdown_without_template_is_a_bare_fragment() {
    let sources = sources_of(&[("post.md", ";title: Home\n# Hi\n\ntext\n")]);
    let mut p = MarkdownProcessor::new(config(), String::new(), 10);
    let tree = p.process(&sources, "post.md").unwrap();
    assert_eq!(html_of(&tree), "<h1>Hi</h1>\n<p>text</p>\n");
    assert_eq!(p.budget, 9);
    assert!(p.log.is_empty());
}

#[test]
fn markdown_template_must_be_there() {
    let sources = sources_of(&[("post.md", "# Hi")]);
    let mut p = MarkdownProcessor::new(config(), "layout.html".to_string(), 10);
    assert_eq!(
        p.process(&sources, "post.md"),
        Err(ResolveError::Unreadable { path: "layout.html".to_string() })
    );
    let mut none = MarkdownProcessor::new(config(), String::new(), 0);
    assert_eq!(
        none.process(&sources, "post.md"),
        Err(ResolveError::Exhausted { path: "post.md".to_string() })
    );
}

#[test]
fn one_and_many_resolve_in_order() {
    let sources = sources_of(&[("a.html", "<p>a</p>"), ("b.html", "<p>b</p>")]);
    let mut p = HtmlProcessor::new(config(), 10);
    let one = p.one(&sources, "a.html".to_string()).unwrap();
    assert_eq!(html_of(&one), "<p>a</p>");
    let many = p.many(&sources, vec!["b.html".to_string(), "a.html".to_string()]).unwrap();
    let texts: Vec<String> = many.iter().map(html_of).collect();
    assert_eq!(texts, vec!["<p>b</p>".to_string(), "<p>a</p>".to_string()]);
    assert_eq!(p.budget, 7);
    assert_eq!(p.many(&sources, vec![]), Ok(vec![]));
    assert_eq!(
        p.many(&sources, vec!["a.html".to_string(), "c.html".to_string(), "b.html".to_string()]),
        Err(ResolveError::Unreadable { path: "c.html".to_string() })
    );
}

#[test]
fn source_too_long_for_the_parser_is_fatal() {
    let mut sources = Sources::new();
    sources.insert("big.html".to_string(), "x".repeat(weaver::dom::MAX_PARSED_BYTES + 1));
    sources.insert("a.html".to_string(), "<p><super:include src=\"big.html\"></super:include></p>".to_string());
    let mut p = HtmlProcessor::new(config(), 100);
    assert_eq!(
        p.process(&sources, "a.html"),
        Err(ResolveError::TooLarge { path: "big.html".to_string() })
    );
    let mut p = HtmlProcessor::new(config(), 100);
    assert_eq!(
        p.process(&sources, "big.html"),
        Err(ResolveError::TooLarge { path: "big.html".to_string() })
    );
}

#[test]
fn log_holds_the_warnings_up_to_a_failure() {
    let sources = sources_of(&[
        ("a.html", "<super:content-slot></super:content-slot><p><super:include src=\"b.html\"></super:include></p><super:wrap></super:wrap>"),
        ("b.html", "<super:odd></super:odd><super:include src=\"gone.html\"></super:include>"),
    ]);
    let mut p = HtmlProcessor::new(config(), 100);
    assert_eq!(
        p.process(&sources, "a.html"),
        Err(ResolveError::Unreadable { path: "gone.html".to_string() })
    );
    assert_eq!(
        p.log,
        vec![
            Diagnostic::EmptySlot { path: "a.html".to_string() },
            Diagnostic::UnknownDirective { path: "b.html".to_string(), tag: "odd".to_string() },
        ]
    );
}

#[test]
fn nested_wraps_keep_sequences_in_order() {
    let sources = sources_of(&[
        ("page.html", "<super:wrap src=\"section.html\"><p>1</p>two<p>3</p></super:wrap>"),
        ("section.html", "<super:wrap src=\"base.html\"><h2>s</h2><i>pre</i><super:content-slot></super:content-slot><i>post</i><hr></super:wrap>"),
        ("base.html", "<header>b</header><super:content-slot></super:content-slot><footer>e</footer><!--end-->"),
    ]);
    let mut p = HtmlProcessor::new(config(), 5);
    let tree = p.process(&sources, "page.html").unwrap();
    assert_eq!(
        html_of(&tree),
        "<header>b</header><h2>s</h2><i>pre</i><p>1</p>two<p>3</p><i>post</i><hr><footer>e</footer><!--end-->"
    );
    assert_eq!(p.budget, 0);
    assert!(p.content.is_empty());
    assert!(p.log.is_empty());
    let mut short = HtmlProcessor::new(config(), 4);
    assert_eq!(
        short.process(&sources, "page.html"),
        Err(ResolveError::Exhausted { path: "base.html".to_string() })
    );
}

#[test]
fn slot_deep_in_a_layout_is_filled_where_it_stands() {
    let sources = sources_of(&[
        ("page.html", "<super:wrap src=\"layout.html\"><p>a</p><p>b</p></super:wrap>"),
        ("layout.html", "<!DOCTYPE html><html><head><title>t</title></head><body><nav>n</nav><main><h1>h</h1><super:content-slot></super:content-slot><aside>s</aside></main></body></html>"),
    ]);
    let mut p = HtmlProcessor::new(config(), 3);
    let tree = p.process(&sources, "page.html").unwrap();
    assert_eq!(
        html_of(&tree),
        "<!DOCTYPE html><html><head><title>t</title></head><body><nav>n</nav><main><h1>h</h1><p>a</p><p>b</p><aside>s</aside></main></body></html>"
    );
    assert_eq!(p.budget, 0);
}

#[test]
fn included_markdown_stands_where_the_inclusion_stood() {
    let sources = sources_of(&[
        ("a.html", "<h1>h</h1><super:include src=\"x.md\"></super:include><footer>f</footer>"),
        ("x.md", "<p>one</p><super:content-slot></super:content-slot><p>two</p>"),
    ]);
    let mut p = HtmlProcessor::new(config(), 3);
    let tree = p.process(&sources, "a.html").unwrap();
    // The renderer ends the block of HTML with a line feed.
    assert_eq!(html_of(&tree), "<h1>h</h1><p>one</p><p>two</p>\n<footer>f</footer>");
    assert_eq!(p.log, vec![Diagnostic::EmptySlot { path: "x.md".to_string() }]);
    assert_eq!(p.budget, 0);
    assert!(p.content.is_empty());
}
