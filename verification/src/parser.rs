//! From text to trees and back: HTML documents, HTML snippets and
//! Markdown, parsed and rendered by outside crates.

use vstd::prelude::*;
use crate::dom::{
    attrs_storable,
    dom_children,
    dom_document,
    dom_forest,
    dom_fragment,
    dom_from_tree,
    dom_html,
    dom_tree,
    html_document,
    html_fragment,
    html_text,
    parsable,
    payload_storable,
    serializable,
    storable,
    tree_from_dom,
    MAX_PARSED_BYTES,
    MAX_STORED_BYTES,
};
use crate::text::bytes_in;
use crate::tree::{attr_views, forest, lemma_view_children, Attr, Payload, Tree, TreeNode};

verus! {

/// The HTML that `pulldown_cmark` renders for the Markdown text `md`, with
/// tables, footnotes and strikethrough enabled.
pub uninterp spec fn markdown_html(md: Seq<char>) -> Seq<char>;

/// `pulldown_cmark::Parser::new_ext` on `md` with the options for tables,
/// footnotes and strikethrough, rendered by `pulldown_cmark::html::push_html`
/// into an empty string.
#[verifier::external_body]
fn render_markdown(md: &str) -> (html: String)
    ensures
        html@ == markdown_html(md@),
{
    let mut options = pulldown_cmark::Options::empty();
    options.insert(pulldown_cmark::Options::ENABLE_TABLES);
    options.insert(pulldown_cmark::Options::ENABLE_FOOTNOTES);
    options.insert(pulldown_cmark::Options::ENABLE_STRIKETHROUGH);
    let parser = pulldown_cmark::Parser::new_ext(md, options);
    let mut html = String::new();
    pulldown_cmark::html::push_html(&mut html, parser);
    html
}

/// The nodes of an HTML snippet: the children of the root element that the
/// fragment parser puts around them.
pub open spec fn snippet_nodes(snippet: Seq<char>) -> Seq<Tree> {
    let parsed = html_fragment(snippet);
    if parsed.children.len() > 0 {
        parsed.children[0].children
    } else {
        Seq::empty()
    }
}

/// The nodes that a Markdown text renders to.
pub open spec fn markdown_nodes(md: Seq<char>) -> Seq<Tree> {
    snippet_nodes(markdown_html(md))
}

/// Parses a complete HTML document. The parser is lenient: every text that
/// is short enough to be parsed yields a tree; a longer one yields none.
pub fn parse_document(doc: &str) -> (tree: Option<TreeNode>)
    ensures
        tree is Some <==> parsable(doc@),
        tree matches Some(t) ==> t@ == html_document(doc@),
{
    if bytes_in(doc) > MAX_PARSED_BYTES {
        return None;
    }
    let handle = dom_document(doc);
    Some(tree_from_dom(&handle))
}

/// Parses an HTML snippet into its top-level nodes, in order; a snippet
/// that is too long to be parsed yields none.
pub fn parse_snippet(snippet: &str) -> (nodes: Option<Vec<TreeNode>>)
    ensures
        nodes is Some <==> parsable(snippet@),
        nodes matches Some(found) ==> forest(found@) == snippet_nodes(snippet@),
{
    if bytes_in(snippet) > MAX_PARSED_BYTES {
        return None;
    }
    let handle = dom_fragment(snippet);
    let kids = dom_children(&handle);
    if kids.len() == 0 {
        assert(forest(Seq::<TreeNode>::empty()) =~= Seq::<Tree>::empty());
        return Some(Vec::new());
    }
    assert(dom_forest(kids@)[0] == dom_tree(&kids@[0]));
    let root = tree_from_dom(&kids[0]);
    proof {
        lemma_view_children(&root);
    }
    Some(root.children)
}

/// Renders Markdown to HTML and parses the result as a snippet; where the
/// rendered HTML is too long to be parsed, there is no result.
pub fn parse_markdown(md: &str) -> (nodes: Option<Vec<TreeNode>>)
    ensures
        nodes is Some <==> parsable(markdown_html(md@)),
        nodes matches Some(found) ==> forest(found@) == markdown_nodes(md@),
{
    let html = render_markdown(md);
    parse_snippet(html.as_str())
}

/// Whether the strings of `data` are short enough to stand in the
/// parser's tree.
fn payload_fits(data: &Payload) -> (ok: bool)
    ensures
        ok == payload_storable(data@),
{
    match data {
        Payload::Document => true,
        Payload::Doctype { name } => bytes_in(name.as_str()) <= MAX_STORED_BYTES,
        Payload::Text { contents } => bytes_in(contents.as_str()) <= MAX_STORED_BYTES,
        Payload::Comment { contents } => bytes_in(contents.as_str()) <= MAX_STORED_BYTES,
        Payload::Element { .. } => true,
        Payload::ProcessingInstruction { target, contents } => bytes_in(target.as_str())
            <= MAX_STORED_BYTES && bytes_in(contents.as_str()) <= MAX_STORED_BYTES,
    }
}

/// Whether the values of `attrs` are short enough to stand in the parser's
/// tree.
fn attrs_fit(attrs: &Vec<Attr>) -> (ok: bool)
    ensures
        ok == attrs_storable(attr_views(attrs@)),
{
    let mut i: usize = 0;
    while i < attrs.len()
        invariant
            i <= attrs.len(),
            forall|j: int| 0 <= j < i ==> storable((#[trigger] attr_views(attrs@)[j]).value),
        decreases attrs.len() - i,
    {
        assert(attr_views(attrs@)[i as int] == attrs@[i as int]@);
        if bytes_in(attrs[i].value.as_str()) > MAX_STORED_BYTES {
            return false;
        }
        i = i + 1;
    }
    true
}

/// Whether `node` can be serialized: see [`serializable`].
pub fn is_serializable(node: &TreeNode) -> (ok: bool)
    ensures
        ok == serializable(node@),
    decreases node,
{
    proof {
        lemma_view_children(node);
    }
    let is_element = match &node.data {
        Payload::Element { .. } => true,
        _ => false,
    };
    if !is_element && node.attrs.len() != 0 {
        return false;
    }
    if !payload_fits(&node.data) || !attrs_fit(&node.attrs) {
        return false;
    }
    let mut i: usize = 0;
    while i < node.children.len()
        invariant
            i <= node.children.len(),
            node@.children == forest(node.children@),
            forall|j: int|
                0 <= j < i ==> !((#[trigger] node@.children[j]).data is Document) && serializable(
                    node@.children[j],
                ),
        decreases node.children.len() - i,
    {
        let child = &node.children[i];
        assert(node@.children[i as int] == child@);
        proof {
            lemma_view_children(child);
        }
        let is_document = match &child.data {
            Payload::Document => true,
            _ => false,
        };
        if is_document || !is_serializable(child) {
            return false;
        }
        i = i + 1;
    }
    true
}

/// The HTML text of the children of `root`, if the tree can be serialized.
pub fn serialize(root: &TreeNode) -> (text: Option<String>)
    ensures
        text is Some <==> serializable(root@),
        text matches Some(t) ==> t@ == html_text(root@),
{
    if !is_serializable(root) {
        return None;
    }
    let handle = dom_from_tree(root);
    Some(dom_html(&handle))
}

} // verus!
