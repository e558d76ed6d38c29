//! The sources of a build: the texts of the files that documents may name,
//! by path, and the documents that those texts hold.

use vstd::prelude::*;
use crate::front_matter::{bindings_of, lines, split_front_matter};
use crate::parser::{parse_document, parse_markdown, parse_snippet};
use crate::dom::{parsable, MAX_PARSED_BYTES};
use crate::resolve::{html_source, markdown_parsable, markdown_source, wrap_element};
use crate::scope::Bindings;
use crate::text::{bytes_in, chars_of, count_leading_spaces, has_prefix, slice_of};
use crate::tree::{attr_views, forest, lemma_view_children, Attr, Payload, TreeNode};

verus! {

/// The texts of the source files that have been read, by path.
pub struct Sources {
    pub files: Bindings,
}

impl View for Sources {
    type V = Map<Seq<char>, Seq<char>>;

    open spec fn view(&self) -> Map<Seq<char>, Seq<char>> {
        self.files@
    }
}

impl Sources {
    /// No sources.
    pub fn new() -> (sources: Sources)
        ensures
            sources@ == Map::<Seq<char>, Seq<char>>::empty(),
    {
        Sources { files: Bindings::new() }
    }

    /// Makes `text` the text of the source at `path`.
    pub fn insert(&mut self, path: String, text: String)
        ensures
            final(self)@ == old(self)@.insert(path@, text@),
    {
        self.files.insert(path, text);
    }

    /// The text of the source at `path`, if it has been read.
    pub fn get(&self, path: &str) -> (text: Option<String>)
        ensures
            text is Some <==> self@.contains_key(path@),
            text matches Some(t) ==> t@ == self@[path@],
    {
        self.files.get(path)
    }
}

/// The document that the HTML source `text` holds, if the text is short
/// enough to be parsed.
pub fn load_html(text: &str) -> (loaded: Option<TreeNode>)
    ensures
        loaded is Some <==> parsable(text@),
        loaded matches Some(doc) ==> doc@ == html_source(text@),
{
    if bytes_in(text) > MAX_PARSED_BYTES {
        return None;
    }
    let chars = chars_of(text);
    let lead = count_leading_spaces(&chars);
    let rest = slice_of(&chars, lead, chars.len());
    if has_prefix(&rest, &chars_of("<!DOCTYPE")) {
        parse_document(text)
    } else {
        match parse_snippet(text) {
            Some(nodes) => Some(TreeNode::document(nodes)),
            None => None,
        }
    }
}

/// A `wrap` directive that names `template` and owns `children`.
pub fn wrap_around(template: &str, children: Vec<TreeNode>) -> (node: TreeNode)
    ensures
        node@ == wrap_element(template@, forest(children@)),
{
    let src = Attr { ns: String::new(), name: "src".to_owned(), value: template.to_owned() };
    let mut attrs: Vec<Attr> = Vec::new();
    attrs.push(src);
    let node = TreeNode {
        data: Payload::Element {
            ns: "http://www.w3.org/1999/xhtml".to_owned(),
            name: "super:wrap".to_owned(),
        },
        attrs,
        children,
    };
    proof {
        lemma_view_children(&node);
        assert(attr_views(node.attrs@) =~= seq![src@]);
    }
    node
}

/// A loaded Markdown source: its document and the bindings of its front
/// matter.
pub struct MarkdownSource {
    pub doc: TreeNode,
    pub vars: Bindings,
}

/// The document that the Markdown source `text` holds, wrapped for
/// `template` if that is not empty, and the bindings of its binding lines;
/// nothing if what the body renders to is too long to be parsed.
pub fn load_markdown(text: &str, template: &str) -> (res: Option<MarkdownSource>)
    ensures
        res is Some <==> markdown_parsable(text@),
        res matches Some(loaded) ==> loaded.doc@ == markdown_source(text@, template@)
            && loaded.vars@ == bindings_of(lines(text@)),
{
    let parted = split_front_matter(text);
    let nodes = match parse_markdown(parted.body.as_str()) {
        Some(nodes) => nodes,
        None => {
            return None;
        },
    };
    let doc = if !template.is_empty() {
        let mut wrapped: Vec<TreeNode> = Vec::new();
        let wrap = wrap_around(template, nodes);
        wrapped.push(wrap);
        assert(forest(wrapped@) =~= seq![wrap@]);
        TreeNode::document(wrapped)
    } else {
        TreeNode::document(nodes)
    };
    Some(MarkdownSource { doc, vars: parted.vars })
}

} // verus!
