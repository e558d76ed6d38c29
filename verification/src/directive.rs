//! The directive elements: which elements ask for composition, and what
//! they ask for.
//!
//! A directive is an element whose local name begins with `super:`. Three
//! are known: `super:wrap`, `super:include` and `super:content-slot`. The
//! first two name another source in their `src` attribute.

use vstd::prelude::*;
use crate::text::{chars_of, ends_with, has_prefix, has_suffix, same_chars, slice_of, starts_with, string_of};
use crate::tree::{attr_value, attr_views, lemma_view_children, Attr, Payload, PayloadView, Tree, TreeNode};

verus! {

/// What a directive element asks for, as contracts see it.
pub enum DirectiveView {
    Wrap,
    Slot,
    Include,
    Unknown(Seq<char>),
}

/// What a directive element asks for.
#[derive(Debug, PartialEq, Eq)]
pub enum Directive {
    /// Embed this document's content in the layout that `src` names.
    Wrap,
    /// The place in a layout that wrapped content fills.
    Slot,
    /// Splice in what `src` names.
    Include,
    /// A reserved name that is none of the above: what follows the prefix.
    Unknown(String),
}

impl View for Directive {
    type V = DirectiveView;

    open spec fn view(&self) -> DirectiveView {
        match self {
            Directive::Wrap => DirectiveView::Wrap,
            Directive::Slot => DirectiveView::Slot,
            Directive::Include => DirectiveView::Include,
            Directive::Unknown(tag) => DirectiveView::Unknown(tag@),
        }
    }
}

/// The prefix that marks a directive.
pub open spec fn reserved_prefix() -> Seq<char> {
    "super:"@
}

/// The directive that an element name stands for, if it is reserved.
pub open spec fn directive_named(name: Seq<char>) -> Option<DirectiveView> {
    if starts_with(name, reserved_prefix()) {
        let tag = name.skip(reserved_prefix().len() as int);
        if tag == "wrap"@ {
            Some(DirectiveView::Wrap)
        } else if tag == "content-slot"@ {
            Some(DirectiveView::Slot)
        } else if tag == "include"@ {
            Some(DirectiveView::Include)
        } else {
            Some(DirectiveView::Unknown(tag))
        }
    } else {
        None
    }
}

/// The directive that a node is, if it is one.
pub open spec fn directive_of(t: Tree) -> Option<DirectiveView> {
    match t.data {
        PayloadView::Element { name, .. } => directive_named(name),
        _ => None,
    }
}

/// The source that a directive names: the value of its first `src`
/// attribute.
pub open spec fn source_of(t: Tree) -> Option<Seq<char>> {
    attr_value(t.attrs, "src"@)
}

/// Whether a path names an HTML source.
pub open spec fn is_html_path(path: Seq<char>) -> bool {
    ends_with(path, ".html"@)
}

/// Whether a path names a Markdown source.
pub open spec fn is_markdown_path(path: Seq<char>) -> bool {
    ends_with(path, ".md"@)
}

/// Whether a document is nothing but one `wrap` directive: such a document
/// is content for the layout that the directive names.
pub open spec fn is_wrapped(doc: Tree) -> bool {
    &&& doc.data is Document
    &&& doc.children.len() == 1
    &&& directive_of(doc.children[0]) == Some(DirectiveView::Wrap)
}

/// No node of the tree below its root is one of the three known
/// directives.
pub open spec fn directive_free(t: Tree) -> bool
    decreases t,
{
    forall|i: int|
        0 <= i < t.children.len() ==> !is_known_directive(#[trigger] t.children[i])
            && directive_free(t.children[i])
}

/// Whether a node is a `wrap`, `include` or `content-slot` element.
pub open spec fn is_known_directive(t: Tree) -> bool {
    directive_of(t) matches Some(d) && !(d is Unknown)
}

/// The directive that `node` is, if it is one.
pub fn classify(node: &TreeNode) -> (found: Option<Directive>)
    ensures
        found is Some <==> directive_of(node@) is Some,
        found matches Some(d) ==> directive_of(node@) == Some(d@),
{
    proof {
        lemma_view_children(node);
    }
    match &node.data {
        Payload::Element { name, .. } => {
            let chars = chars_of(name.as_str());
            let prefix = chars_of("super:");
            if !has_prefix(&chars, &prefix) {
                return None;
            }
            let tag = slice_of(&chars, prefix.len(), chars.len());
            if same_chars(&tag, &chars_of("wrap")) {
                Some(Directive::Wrap)
            } else if same_chars(&tag, &chars_of("content-slot")) {
                Some(Directive::Slot)
            } else if same_chars(&tag, &chars_of("include")) {
                Some(Directive::Include)
            } else {
                assert(tag@.subrange(0, tag.len() as int) == tag@);
                Some(Directive::Unknown(string_of(&tag, 0, tag.len())))
            }
        },
        _ => None,
    }
}

/// The value of the first attribute of `attrs` called `name`.
pub fn find_attr(attrs: &Vec<Attr>, name: &str) -> (found: Option<String>)
    ensures
        found is Some <==> attr_value(attr_views(attrs@), name@) is Some,
        found matches Some(v) ==> attr_value(attr_views(attrs@), name@) == Some(v@),
{
    let wanted = name.to_owned();
    let ghost all = attr_views(attrs@);
    let mut i: usize = 0;
    assert(all.skip(0) == all);
    while i < attrs.len()
        invariant
            i <= attrs.len(),
            wanted@ == name@,
            all == attr_views(attrs@),
            attr_value(all, name@) == attr_value(all.skip(i as int), name@),
        decreases attrs.len() - i,
    {
        assert(all.skip(i as int)[0] == attrs@[i as int]@);
        assert(all.skip(i as int).drop_first() == all.skip(i + 1));
        if attrs[i].name == wanted {
            return Some(attrs[i].value.clone());
        }
        i = i + 1;
    }
    assert(all.skip(attrs.len() as int).len() == 0);
    None
}

/// Whether `path` ends in `.html`.
pub fn names_html(path: &str) -> (yes: bool)
    ensures
        yes == is_html_path(path@),
{
    has_suffix(&chars_of(path), &chars_of(".html"))
}

/// Whether `path` ends in `.md`.
pub fn names_markdown(path: &str) -> (yes: bool)
    ensures
        yes == is_markdown_path(path@),
{
    has_suffix(&chars_of(path), &chars_of(".md"))
}

} // verus!
