//! The bridge to the HTML parser and serializer, which work on a
//! reference-counted tree of their own.
//!
//! Nothing here is proved about the parser: the functions marked
//! `external_body` say what is taken on trust, each for one call. The
//! conversions between the two kinds of tree are verified against them.

use vstd::prelude::*;
use crate::text::byte_count;
use crate::tree::{
    attr_views,
    lemma_view_children,
    Attr,
    AttrView,
    Payload,
    PayloadView,
    Tree,
    TreeNode,
};
use html5ever::{Attribute, QualName};
use markup5ever_rcdom::NodeData;
use std::cell::RefCell;
use std::rc::Rc;

verus! {

/// `markup5ever_rcdom::Node`, a node of the parser's tree, which is opaque
/// here: it is read and made only through the functions below.
#[verifier::external_type_specification]
#[verifier::external_body]
pub struct ExDomNode(markup5ever_rcdom::Node);

/// The tree that a parser node stands for: its kind, the namespace and
/// local part of its names, its attributes, its text, and its children in
/// order. Left out is what neither this library nor the serializer reads:
/// the prefix of a name, the public and system identifiers of a document
/// type, the contents of a `template` element and the links to parents.
///
/// A node stands for one tree because nothing here changes a node that it
/// has handed out or been handed. One thing does change nodes behind the
/// back of a handle: when a node is dropped, the child lists of all its
/// descendants are emptied, also of those that another handle still holds.
/// So a handle that was read from the children of a node is only read
/// again while that node is alive. Every function here that reads children
/// borrows the parent for as long as it reads them.
pub uninterp spec fn dom_tree(node: &markup5ever_rcdom::Node) -> Tree;

/// The document node that `html5ever::parse_document` builds from `text`.
pub uninterp spec fn html_document(text: Seq<char>) -> Tree;

/// The document node that `html5ever::parse_fragment` builds from `text`
/// in the context of a `div` element.
pub uninterp spec fn html_fragment(text: Seq<char>) -> Tree;

/// The text that `html5ever::serialize` writes for the children of `root`.
pub uninterp spec fn html_text(root: Tree) -> Seq<char>;

/// The most bytes that a text handed to the parser may take. The parser
/// holds text in buffers of at most four gigabytes whose capacity grows to
/// the next power of two, and it may write three bytes for one byte that
/// it reads; within this limit no buffer comes near that size.
pub const MAX_PARSED_BYTES: usize = 0x2000_0000;

/// The most bytes that a string of a tree handed to the serializer may
/// take: what one buffer of the parser's tree can hold.
pub const MAX_STORED_BYTES: usize = 0xFFFF_FFFF;

/// Whether a text is short enough to be parsed.
pub open spec fn parsable(text: Seq<char>) -> bool {
    byte_count(text) <= MAX_PARSED_BYTES
}

/// Whether a string is short enough to stand in the parser's tree.
pub open spec fn storable(s: Seq<char>) -> bool {
    byte_count(s) <= MAX_STORED_BYTES
}

/// Whether the strings of a payload that the parser's tree holds in
/// buffers are short enough for that. The names of elements are held
/// otherwise and may have any length.
pub open spec fn payload_storable(data: PayloadView) -> bool {
    match data {
        PayloadView::Document => true,
        PayloadView::Doctype { name } => storable(name),
        PayloadView::Text { contents } => storable(contents),
        PayloadView::Comment { contents } => storable(contents),
        PayloadView::Element { .. } => true,
        PayloadView::ProcessingInstruction { target, contents } => storable(target) && storable(
            contents,
        ),
    }
}

/// Whether the value of every attribute is short enough to stand in the
/// parser's tree.
pub open spec fn attrs_storable(attrs: Seq<AttrView>) -> bool {
    forall|i: int| 0 <= i < attrs.len() ==> storable((#[trigger] attrs[i]).value)
}

/// The trees that the nodes of a list stand for.
pub open spec fn dom_forest(handles: Seq<Rc<markup5ever_rcdom::Node>>) -> Seq<Tree> {
    handles.map_values(|h: Rc<markup5ever_rcdom::Node>| dom_tree(&h))
}

/// `html5ever::parse_document` with an `RcDom` sink and default options,
/// fed all of `text` at once: the document node of the result. The parser
/// panics where one of its buffers would pass its limit, so a text that
/// could bring this about is not among the inputs.
#[verifier::external_body]
pub(crate) fn dom_document(text: &str) -> (handle: Rc<markup5ever_rcdom::Node>)
    requires
        parsable(text@),
    ensures
        dom_tree(&handle) == html_document(text@),
{
    let sink = markup5ever_rcdom::RcDom::default();
    let parser = html5ever::parse_document(sink, html5ever::ParseOpts::default());
    html5ever::tendril::TendrilSink::one(parser, text).document
}

/// `html5ever::parse_fragment` with an `RcDom` sink and default options,
/// for a `div` context element without attributes that allows scripting,
/// fed all of `text` at once: the document node of the result. The parser
/// panics where one of its buffers would pass its limit, so a text that
/// could bring this about is not among the inputs.
#[verifier::external_body]
pub(crate) fn dom_fragment(text: &str) -> (handle: Rc<markup5ever_rcdom::Node>)
    requires
        parsable(text@),
    ensures
        dom_tree(&handle) == html_fragment(text@),
{
    let sink = markup5ever_rcdom::RcDom::default();
    let html = html5ever::Namespace::from("http://www.w3.org/1999/xhtml");
    let context = html5ever::QualName::new(None, html, html5ever::LocalName::from("div"));
    let opts = html5ever::ParseOpts::default();
    let parser = html5ever::parse_fragment(sink, opts, context, Vec::new(), true);
    html5ever::tendril::TendrilSink::one(parser, text).document
}

/// Reads the field `data` of a `markup5ever_rcdom::Node`: which kind of
/// node it is, with the strings that the kind carries.
#[verifier::external_body]
pub(crate) fn dom_data(handle: &Rc<markup5ever_rcdom::Node>) -> (data: Payload)
    ensures
        data@ == dom_tree(handle).data,
{
    match &handle.data {
        NodeData::Document => Payload::Document,
        NodeData::Doctype { name, .. } => Payload::Doctype { name: name.to_string() },
        NodeData::Text { contents } => Payload::Text { contents: contents.borrow().to_string() },
        NodeData::Comment { contents } => Payload::Comment { contents: contents.to_string() },
        NodeData::Element { name, .. } => Payload::Element { ns: name.ns.to_string(), name: name.local.to_string() },
        NodeData::ProcessingInstruction { target, contents } => Payload::ProcessingInstruction { target: target.to_string(), contents: contents.to_string() },
    }
}

/// Reads the attribute list in the field `data` of a
/// `markup5ever_rcdom::Node`, in order; a node that is no element has none.
#[verifier::external_body]
pub(crate) fn dom_attrs(handle: &Rc<markup5ever_rcdom::Node>) -> (attrs: Vec<Attr>)
    ensures
        attr_views(attrs@) == dom_tree(handle).attrs,
{
    match &handle.data {
        NodeData::Element { attrs, .. } => attrs.borrow().iter().map(|a| Attr { ns: a.name.ns.to_string(), name: a.name.local.to_string(), value: a.value.to_string() }).collect(),
        NodeData::Document => Vec::new(),
        NodeData::Doctype { .. } => Vec::new(),
        NodeData::Text { .. } => Vec::new(),
        NodeData::Comment { .. } => Vec::new(),
        NodeData::ProcessingInstruction { .. } => Vec::new(),
    }
}

/// Reads the field `children` of a `markup5ever_rcdom::Node`: handles to
/// its children, in order.
#[verifier::external_body]
pub(crate) fn dom_children(handle: &Rc<markup5ever_rcdom::Node>) -> (kids: Vec<
    Rc<markup5ever_rcdom::Node>,
>)
    ensures
        dom_forest(kids@) == dom_tree(handle).children,
{
    handle.children.borrow().clone()
}

/// The tree that a parser node stands for, as a tree of this library.
pub(crate) fn tree_from_dom(handle: &Rc<markup5ever_rcdom::Node>) -> (node: TreeNode)
    ensures
        node@ == dom_tree(handle),
    decreases dom_tree(handle),
{
    let data = dom_data(handle);
    let attrs = dom_attrs(handle);
    let kids = dom_children(handle);
    let mut children: Vec<TreeNode> = Vec::new();
    let mut i: usize = 0;
    while i < kids.len()
        invariant
            i <= kids.len(),
            dom_forest(kids@) == dom_tree(handle).children,
            children.len() == i,
            forall|j: int| 0 <= j < i ==> (#[trigger] children@[j])@ == dom_tree(handle).children[j],
        decreases kids.len() - i,
    {
        assert(dom_forest(kids@)[i as int] == dom_tree(&kids@[i as int]));
        let child = tree_from_dom(&kids[i]);
        children.push(child);
        i = i + 1;
    }
    let node = TreeNode { data, attrs, children };
    proof {
        lemma_view_children(&node);
        assert(node@.children =~= dom_tree(handle).children);
    }
    node
}

/// Whether a tree can be handed to the serializer: only elements carry
/// attributes, no document root stands below the root, and every string
/// that the parser's tree holds in a buffer is short enough for that.
pub open spec fn serializable(t: Tree) -> bool
    decreases t,
{
    &&& t.data is Element || t.attrs.len() == 0
    &&& payload_storable(t.data)
    &&& attrs_storable(t.attrs)
    &&& forall|i: int|
        0 <= i < t.children.len() ==> !((#[trigger] t.children[i]).data is Document)
            && serializable(t.children[i])
}

/// `markup5ever_rcdom::Node::new` for a node that is no element, which is
/// then given `children`. An element is not among the inputs, so the arm
/// that stands for it is never taken. The strings are copied into buffers
/// of the parser's tree, which panic over their limit: longer strings are
/// not among the inputs either.
#[verifier::external_body]
pub(crate) fn dom_plain(data: &Payload, children: Vec<Rc<markup5ever_rcdom::Node>>) -> (handle: Rc<
    markup5ever_rcdom::Node,
>)
    requires
        !(data is Element),
        payload_storable(data@),
    ensures
        dom_tree(&handle) == (Tree {
            data: data@,
            attrs: Seq::empty(),
            children: dom_forest(children@),
        }),
{
    let node = markup5ever_rcdom::Node::new(match data {
        Payload::Doctype { name } => NodeData::Doctype { name: name.as_str().into(), public_id: Default::default(), system_id: Default::default() },
        Payload::Text { contents } => NodeData::Text { contents: RefCell::new(contents.as_str().into()) },
        Payload::Comment { contents } => NodeData::Comment { contents: contents.as_str().into() },
        Payload::ProcessingInstruction { target, contents } => NodeData::ProcessingInstruction { target: target.as_str().into(), contents: contents.as_str().into() },
        Payload::Document | Payload::Element { .. } => NodeData::Document,
    });
    node.children.replace(children);
    node
}

/// `markup5ever_rcdom::Node::new` for an element with the given name and
/// attributes, none of them with a prefix, which is then given `children`.
/// The attribute values are copied into buffers of the parser's tree,
/// which panic over their limit: longer values are not among the inputs.
#[verifier::external_body]
pub(crate) fn dom_element(ns: &str, name: &str, attrs: &Vec<Attr>, children: Vec<
    Rc<markup5ever_rcdom::Node>,
>) -> (handle: Rc<markup5ever_rcdom::Node>)
    requires
        attrs_storable(attr_views(attrs@)),
    ensures
        dom_tree(&handle) == (Tree {
            data: PayloadView::Element { ns: ns@, name: name@ },
            attrs: attr_views(attrs@),
            children: dom_forest(children@),
        }),
{
    let attrs = attrs.iter().map(|a| Attribute { name: QualName::new(None, a.ns.as_str().into(), a.name.as_str().into()), value: a.value.as_str().into() }).collect();
    let name = QualName::new(None, ns.into(), name.into());
    let node = markup5ever_rcdom::Node::new(NodeData::Element { name, attrs: RefCell::new(attrs), template_contents: Default::default(), mathml_annotation_xml_integration_point: false });
    node.children.replace(children);
    node
}

/// `html5ever::serialize` on the children of a parser node, with default
/// options but `create_missing_parent`, into a buffer that is then read
/// as UTF-8.
#[verifier::external_body]
pub(crate) fn dom_html(handle: &Rc<markup5ever_rcdom::Node>) -> (text: String)
    requires
        serializable(dom_tree(handle)),
    ensures
        text@ == html_text(dom_tree(handle)),
{
    let mut out = Vec::new();
    let opts = html5ever::serialize::SerializeOpts {
        create_missing_parent: true,
        ..Default::default()
    };
    let node = markup5ever_rcdom::SerializableHandle::from(handle.clone());
    html5ever::serialize(&mut out, &node, opts).unwrap();
    String::from_utf8(out).unwrap()
}

/// A parser node that stands for `node`.
pub(crate) fn dom_from_tree(node: &TreeNode) -> (handle: Rc<markup5ever_rcdom::Node>)
    requires
        serializable(node@),
    ensures
        dom_tree(&handle) == node@,
    decreases node,
{
    proof {
        lemma_view_children(node);
    }
    let mut kids: Vec<Rc<markup5ever_rcdom::Node>> = Vec::new();
    let mut i: usize = 0;
    while i < node.children.len()
        invariant
            i <= node.children.len(),
            serializable(node@),
            node@.children == crate::tree::forest(node.children@),
            kids.len() == i,
            forall|j: int| 0 <= j < i ==> dom_tree(&#[trigger] kids@[j]) == node@.children[j],
        decreases node.children.len() - i,
    {
        assert(node@.children[i as int] == node.children@[i as int]@);
        let kid = dom_from_tree(&node.children[i]);
        kids.push(kid);
        i = i + 1;
    }
    assert(dom_forest(kids@) =~= node@.children);
    match &node.data {
        Payload::Element { ns, name } => dom_element(ns.as_str(), name.as_str(), &node.attrs, kids),
        _ => {
            assert(node@.attrs =~= Seq::empty());
            dom_plain(&node.data, kids)
        },
    }
}

} // verus!
