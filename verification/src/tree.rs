//! The document tree and its mathematical model.
//!
//! A document is a tree of nodes. Each node has a payload that says what
//! kind of node it is, a list of attributes (empty unless it is an element)
//! and an ordered list of children. Contracts speak of trees through their
//! view, [`Tree`], in which strings are sequences of characters and lists
//! are sequences.

use vstd::prelude::*;

verus! {

/// What an attribute looks like in contracts.
pub struct AttrView {
    pub ns: Seq<char>,
    pub name: Seq<char>,
    pub value: Seq<char>,
}

/// One attribute of an element: the namespace of its name (empty for
/// ordinary attributes), its local name and its value.
#[derive(Debug, PartialEq, Eq)]
pub struct Attr {
    pub ns: String,
    pub name: String,
    pub value: String,
}

impl View for Attr {
    type V = AttrView;

    open spec fn view(&self) -> AttrView {
        AttrView { ns: self.ns@, name: self.name@, value: self.value@ }
    }
}

/// What a payload looks like in contracts.
pub enum PayloadView {
    Document,
    Doctype { name: Seq<char> },
    Text { contents: Seq<char> },
    Comment { contents: Seq<char> },
    Element { ns: Seq<char>, name: Seq<char> },
    ProcessingInstruction { target: Seq<char>, contents: Seq<char> },
}

/// What a node is, apart from its attributes and children.
#[derive(Debug, PartialEq, Eq)]
pub enum Payload {
    /// The root container of a document.
    Document,
    /// A document-type declaration.
    Doctype { name: String },
    /// A run of text.
    Text { contents: String },
    /// A comment.
    Comment { contents: String },
    /// An element: the namespace and the local part of its tag name.
    Element { ns: String, name: String },
    /// A processing instruction.
    ProcessingInstruction { target: String, contents: String },
}

impl View for Payload {
    type V = PayloadView;

    open spec fn view(&self) -> PayloadView {
        match self {
            Payload::Document => PayloadView::Document,
            Payload::Doctype { name } => PayloadView::Doctype { name: name@ },
            Payload::Text { contents } => PayloadView::Text { contents: contents@ },
            Payload::Comment { contents } => PayloadView::Comment { contents: contents@ },
            Payload::Element { ns, name } => PayloadView::Element { ns: ns@, name: name@ },
            Payload::ProcessingInstruction { target, contents } => PayloadView::ProcessingInstruction {
                target: target@,
                contents: contents@,
            },
        }
    }
}

/// The mathematical model of a node.
pub struct Tree {
    pub data: PayloadView,
    pub attrs: Seq<AttrView>,
    pub children: Seq<Tree>,
}

/// A node of a document tree, which owns its children.
#[derive(Debug, PartialEq, Eq)]
pub struct TreeNode {
    pub data: Payload,
    pub attrs: Vec<Attr>,
    pub children: Vec<TreeNode>,
}

/// The views of a list of attributes.
pub open spec fn attr_views(attrs: Seq<Attr>) -> Seq<AttrView> {
    attrs.map_values(|a: Attr| a@)
}

/// The tree that a node and its descendants form.
pub open spec fn tree_of(node: TreeNode) -> Tree
    decreases node,
{
    Tree {
        data: node.data@,
        attrs: attr_views(node.attrs@),
        children: Seq::new(
            node.children.len() as nat,
            |i: int|
                if 0 <= i < node.children.len() {
                    tree_of(node.children[i])
                } else {
                    arbitrary()
                },
        ),
    }
}

impl View for TreeNode {
    type V = Tree;

    open spec fn view(&self) -> Tree {
        tree_of(*self)
    }
}

/// The views of a list of nodes.
pub open spec fn forest(nodes: Seq<TreeNode>) -> Seq<Tree> {
    nodes.map_values(|n: TreeNode| n@)
}

/// The views of a stack of node lists.
pub open spec fn forests(stack: Seq<Vec<TreeNode>>) -> Seq<Seq<Tree>> {
    stack.map_values(|nodes: Vec<TreeNode>| forest(nodes@))
}

/// The children of a node's view are the views of its children.
pub proof fn lemma_view_children(node: &TreeNode)
    ensures
        node@.children == forest(node.children@),
        node@.data == node.data@,
        node@.attrs == attr_views(node.attrs@),
{
    assert forall|i: int| 0 <= i < node.children@.len() implies node@.children[i]
        == #[trigger] forest(node.children@)[i] by {
        assert(node.children[i] == node.children@[i]);
    }
    assert(node@.children =~= forest(node.children@));
}

/// A document root with the given children.
pub open spec fn document(children: Seq<Tree>) -> Tree {
    Tree { data: PayloadView::Document, attrs: Seq::empty(), children }
}

/// A childless text node.
pub open spec fn text_node(contents: Seq<char>) -> Tree {
    Tree { data: PayloadView::Text { contents }, attrs: Seq::empty(), children: Seq::empty() }
}

/// The value of the first attribute called `name`, whatever its namespace.
pub open spec fn attr_value(attrs: Seq<AttrView>, name: Seq<char>) -> Option<Seq<char>>
    decreases attrs.len(),
{
    if attrs.len() == 0 {
        None
    } else if attrs[0].name == name {
        Some(attrs[0].value)
    } else {
        attr_value(attrs.drop_first(), name)
    }
}

impl TreeNode {
    /// A document root that owns `children`.
    pub fn document(children: Vec<TreeNode>) -> (node: TreeNode)
        ensures
            node@ == document(forest(children@)),
    {
        let node = TreeNode { data: Payload::Document, attrs: Vec::new(), children };
        proof {
            lemma_view_children(&node);
            assert(attr_views(node.attrs@) =~= Seq::empty());
        }
        node
    }

    /// A childless text node that holds `contents`.
    pub fn text(contents: String) -> (node: TreeNode)
        ensures
            node@ == text_node(contents@),
    {
        let node = TreeNode {
            data: Payload::Text { contents },
            attrs: Vec::new(),
            children: Vec::new(),
        };
        proof {
            lemma_view_children(&node);
            assert(attr_views(node.attrs@) =~= Seq::empty());
            assert(forest(node.children@) =~= Seq::empty());
        }
        node
    }
}

} // verus!
