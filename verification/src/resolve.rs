//! What resolving a document means.
//!
//! Resolution rewrites a tree until no known directive is left in it. It
//! threads a state, [`Run`], through the work: the stack of captured
//! content, a budget, a log and the variables in scope. This module holds
//! the mathematical
//! description; the processors compute it.
//!
//! The budget bounds the work. Loading a document costs one unit, and so
//! does every repeated pass over the children of a node; when a unit is due
//! and none is left, resolution fails. This makes every resolution finite,
//! also where documents wrap or name one another in a circle, and where
//! captured content brings in the directive that captured it. A guard on
//! the paths being worked on would catch the first kind of circle and miss
//! the second, so there is none.
//!
//! A resolution that fails says why and hands back the warnings that it had
//! gathered up to then ([`Failure`]).
//!
//! No step makes the budget grow. Where the description holds the budget
//! of a later step to at most that of an earlier one ([`Run::capped`]),
//! this changes nothing; it is there so that the description is finite on
//! the face of it.

use vstd::prelude::*;
use crate::directive::{
    directive_free,
    directive_of,
    is_html_path,
    is_known_directive,
    is_markdown_path,
    is_wrapped,
    source_of,
    DirectiveView,
};
use crate::dom::{html_document, parsable};
use crate::front_matter::{bindings_of, body_of, lines};
use crate::parser::{markdown_html, markdown_nodes, snippet_nodes};
use crate::text::{starts_with, trim_start};
use crate::tree::{document, text_node, AttrView, PayloadView, Tree};

verus! {

/// Why a resolution failed, as contracts see it.
pub enum ResolveErrorView {
    MissingSrc { path: Seq<char> },
    Unreadable { path: Seq<char> },
    TooLarge { path: Seq<char> },
    Exhausted { path: Seq<char> },
}

/// Why a resolution failed. Each of these ends the whole resolution.
#[derive(Debug, PartialEq, Eq)]
pub enum ResolveError {
    /// A `wrap` or an `include` directive in the document at `path` has no
    /// `src` attribute.
    MissingSrc { path: String },
    /// The source at `path` is needed and is not among the sources.
    Unreadable { path: String },
    /// The source at `path` is too long to be parsed.
    TooLarge { path: String },
    /// The budget ran out while the document at `path` was worked on.
    Exhausted { path: String },
}

impl View for ResolveError {
    type V = ResolveErrorView;

    open spec fn view(&self) -> ResolveErrorView {
        match self {
            ResolveError::MissingSrc { path } => ResolveErrorView::MissingSrc { path: path@ },
            ResolveError::Unreadable { path } => ResolveErrorView::Unreadable { path: path@ },
            ResolveError::TooLarge { path } => ResolveErrorView::TooLarge { path: path@ },
            ResolveError::Exhausted { path } => ResolveErrorView::Exhausted { path: path@ },
        }
    }
}

/// Something worth a warning, as contracts see it.
pub enum DiagnosticView {
    StrayWrap { path: Seq<char> },
    EmptySlot { path: Seq<char> },
    UnknownDirective { path: Seq<char>, tag: Seq<char> },
}

/// Something worth a warning that did not stop the resolution.
#[derive(Debug, PartialEq, Eq)]
pub enum Diagnostic {
    /// A `wrap` directive that is not the sole root of the document at
    /// `path`; it was dropped.
    StrayWrap { path: String },
    /// A `content-slot` in the document at `path` found no captured
    /// content; it was left empty.
    EmptySlot { path: String },
    /// An element with a reserved name that is no known directive, in the
    /// document at `path`; it was kept.
    UnknownDirective { path: String, tag: String },
}

impl View for Diagnostic {
    type V = DiagnosticView;

    open spec fn view(&self) -> DiagnosticView {
        match self {
            Diagnostic::StrayWrap { path } => DiagnosticView::StrayWrap { path: path@ },
            Diagnostic::EmptySlot { path } => DiagnosticView::EmptySlot { path: path@ },
            Diagnostic::UnknownDirective { path, tag } => DiagnosticView::UnknownDirective {
                path: path@,
                tag: tag@,
            },
        }
    }
}

/// The state that a resolution threads through its work.
pub struct Run {
    /// The captured child lists, the most recent one last.
    pub content: Seq<Seq<Tree>>,
    /// The units of work that may still be spent.
    pub budget: nat,
    /// The warnings so far, oldest first.
    pub log: Seq<DiagnosticView>,
    /// The variables in scope, as layers of bindings, innermost first.
    pub scope: Seq<Map<Seq<char>, Seq<char>>>,
}

impl Run {
    /// The state after one unit of the budget was spent.
    pub open spec fn spend(self) -> Run {
        Run { budget: (self.budget - 1) as nat, ..self }
    }

    /// The state with its budget held to at most `limit`.
    pub open spec fn capped(self, limit: nat) -> Run {
        Run { budget: if self.budget <= limit { self.budget } else { limit }, ..self }
    }

    /// The state with one more warning.
    pub open spec fn note(self, warning: DiagnosticView) -> Run {
        Run { log: self.log.push(warning), ..self }
    }

    /// The state with `nodes` captured on top of the stack.
    pub open spec fn capture(self, nodes: Seq<Tree>) -> Run {
        Run { content: self.content.push(nodes), ..self }
    }

    /// The state without the capture on top of the stack.
    pub open spec fn release(self) -> Run {
        Run { content: self.content.drop_last(), ..self }
    }

    /// The failure of a resolution that is in this state.
    pub open spec fn fail(self, error: ResolveErrorView) -> Failure {
        Failure { error, log: self.log }
    }

    /// The state at the start of a document of its own: nothing captured,
    /// and the bindings `vars` in scope before all others.
    pub open spec fn enter(self, vars: Map<Seq<char>, Seq<char>>) -> Run {
        Run { content: Seq::empty(), scope: seq![vars] + self.scope, ..self }
    }

    /// The state back where `outer` was when a document of its own was
    /// entered: what was captured and in scope there is so again.
    pub open spec fn leave(self, outer: Run) -> Run {
        Run { content: outer.content, scope: outer.scope, ..self }
    }
}

/// A resolution that failed: why, and the warnings up to then.
pub struct Failure {
    pub error: ResolveErrorView,
    pub log: Seq<DiagnosticView>,
}

/// A resolved tree and the state after resolving it.
pub struct Resolved {
    pub tree: Tree,
    pub run: Run,
}

/// What one pass over a list of children has produced so far: the new
/// children, whether anything was spliced in, and the state.
pub struct Pass {
    pub nodes: Seq<Tree>,
    pub redo: bool,
    pub run: Run,
}

/// The document that an HTML source holds: a full document if the text
/// begins, after whitespace, with a document-type declaration, and else the
/// nodes of a snippet under a document root. A source must be short enough
/// to be parsed ([`parsable`]); a longer one cannot be resolved.
pub open spec fn html_source(text: Seq<char>) -> Tree {
    if starts_with(trim_start(text), "<!DOCTYPE"@) {
        html_document(text)
    } else {
        document(snippet_nodes(text))
    }
}

/// Whether a Markdown source can be parsed: what its body renders to is
/// short enough for the parser.
pub open spec fn markdown_parsable(text: Seq<char>) -> bool {
    parsable(markdown_html(body_of(lines(text))))
}

/// A `wrap` directive that names `template` and holds `children`.
pub open spec fn wrap_element(template: Seq<char>, children: Seq<Tree>) -> Tree {
    Tree {
        data: PayloadView::Element { ns: "http://www.w3.org/1999/xhtml"@, name: "super:wrap"@ },
        attrs: seq![AttrView { ns: Seq::empty(), name: "src"@, value: template }],
        children,
    }
}

/// The document that a Markdown source holds: its body, without the
/// binding lines, rendered; wrapped for `template` if that is not empty.
pub open spec fn markdown_source(text: Seq<char>, template: Seq<char>) -> Tree {
    let nodes = markdown_nodes(body_of(lines(text)));
    if template.len() > 0 {
        document(seq![wrap_element(template, nodes)])
    } else {
        document(nodes)
    }
}

/// What a resolved source contributes where it is spliced in: the children
/// of a document root, and any other node itself.
pub open spec fn spliced(tree: Tree) -> Seq<Tree> {
    if tree.data is Document {
        tree.children
    } else {
        seq![tree]
    }
}

/// Resolves the HTML source at `path`.
pub open spec fn resolve_html(
    sources: Map<Seq<char>, Seq<char>>,
    path: Seq<char>,
    run: Run,
) -> Result<Resolved, Failure>
    decreases run.budget, 0nat, Seq::<Tree>::empty(), 0nat,
{
    if run.budget == 0 {
        Err(run.fail(ResolveErrorView::Exhausted { path }))
    } else if !sources.contains_key(path) {
        Err(run.fail(ResolveErrorView::Unreadable { path }))
    } else if !parsable(sources[path]) {
        Err(run.fail(ResolveErrorView::TooLarge { path }))
    } else {
        resolve_document(sources, path, html_source(sources[path]), run.spend())
    }
}

/// Resolves the Markdown source at `path`, wrapped for `template` if that
/// is not empty. A Markdown source is resolved with an empty stack of
/// captures and with the bindings of its front matter in scope; the
/// caller's stack and scope are afterwards as they were.
pub open spec fn resolve_markdown(
    sources: Map<Seq<char>, Seq<char>>,
    path: Seq<char>,
    template: Seq<char>,
    run: Run,
) -> Result<Resolved, Failure>
    decreases run.budget, 0nat, Seq::<Tree>::empty(), 0nat,
{
    if run.budget == 0 {
        Err(run.fail(ResolveErrorView::Exhausted { path }))
    } else if !sources.contains_key(path) {
        Err(run.fail(ResolveErrorView::Unreadable { path }))
    } else if !markdown_parsable(sources[path]) {
        Err(run.fail(ResolveErrorView::TooLarge { path }))
    } else {
        let inner = run.spend().enter(bindings_of(lines(sources[path])));
        match resolve_document(sources, path, markdown_source(sources[path], template), inner) {
            Ok(done) => Ok(Resolved { tree: done.tree, run: done.run.leave(run) }),
            Err(e) => Err(e),
        }
    }
}

/// Resolves a loaded document. A document that is nothing but a `wrap`
/// directive resolves to the layout it names, with the directive's
/// children captured for the layout's slot; any other document is
/// rewritten.
pub open spec fn resolve_document(
    sources: Map<Seq<char>, Seq<char>>,
    path: Seq<char>,
    doc: Tree,
    run: Run,
) -> Result<Resolved, Failure>
    decreases run.budget, 2nat, Seq::<Tree>::empty(), 0nat,
{
    if is_wrapped(doc) {
        match source_of(doc.children[0]) {
            None => Err(run.fail(ResolveErrorView::MissingSrc { path })),
            Some(src) => resolve_html(sources, src, run.capture(doc.children[0].children)),
        }
    } else {
        rewrite(sources, path, doc, run)
    }
}

/// Rewrites the tree below `node`: passes over its children are repeated,
/// at one unit each, until a pass splices nothing in.
pub open spec fn rewrite(
    sources: Map<Seq<char>, Seq<char>>,
    path: Seq<char>,
    node: Tree,
    run: Run,
) -> Result<Resolved, Failure>
    decreases run.budget, 1nat, node.children, node.children.len() + 1,
{
    match pass(sources, path, node.children, 0, Pass { nodes: Seq::empty(), redo: false, run }) {
        Err(e) => Err(e),
        Ok(done) => {
            let after = done.run.capped(run.budget);
            let rebuilt = Tree { children: done.nodes, ..node };
            if !done.redo {
                Ok(Resolved { tree: rebuilt, run: after })
            } else if after.budget == 0 {
                Err(after.fail(ResolveErrorView::Exhausted { path }))
            } else {
                rewrite(sources, path, rebuilt, after.spend())
            }
        },
    }
}

/// One pass over `kids` from position `i` on, in document order, given
/// what the pass has produced so far.
pub open spec fn pass(
    sources: Map<Seq<char>, Seq<char>>,
    path: Seq<char>,
    kids: Seq<Tree>,
    i: nat,
    so_far: Pass,
) -> Result<Pass, Failure>
    decreases so_far.run.budget, 1nat, kids, kids.len() - i,
{
    if i >= kids.len() {
        Ok(so_far)
    } else {
        match expand(sources, path, kids[i as int], so_far.run) {
            Err(e) => Err(e),
            Ok(step) => pass(
                sources,
                path,
                kids,
                i + 1,
                Pass {
                    nodes: so_far.nodes + step.nodes,
                    redo: so_far.redo || step.redo,
                    run: step.run.capped(so_far.run.budget),
                },
            ),
        }
    }
}

/// What one child becomes in a pass.
///
/// - A `wrap` directive is out of place here: it is dropped with a
///   warning.
/// - A `content-slot` is replaced by the most recent capture, which leaves
///   the stack; with nothing captured it is dropped with a warning.
/// - An `include` directive is replaced by what its source resolves to: a
///   source whose name ends in `.html` or `.md` is resolved as a document,
///   any other becomes one text node that holds its text.
/// - Any other node stays, rewritten in its turn; an unknown directive
///   with a warning.
pub open spec fn expand(
    sources: Map<Seq<char>, Seq<char>>,
    path: Seq<char>,
    kid: Tree,
    run: Run,
) -> Result<Pass, Failure>
    decreases run.budget, 1nat, kid.children, kid.children.len() + 2,
{
    match directive_of(kid) {
        Some(DirectiveView::Wrap) => Ok(
            Pass {
                nodes: Seq::empty(),
                redo: false,
                run: run.note(DiagnosticView::StrayWrap { path }),
            },
        ),
        Some(DirectiveView::Slot) => if run.content.len() == 0 {
            Ok(
                Pass {
                    nodes: Seq::empty(),
                    redo: false,
                    run: run.note(DiagnosticView::EmptySlot { path }),
                },
            )
        } else {
            Ok(Pass { nodes: run.content.last(), redo: true, run: run.release() })
        },
        Some(DirectiveView::Include) => match source_of(kid) {
            None => Err(run.fail(ResolveErrorView::MissingSrc { path })),
            Some(src) => if is_html_path(src) {
                match resolve_html(sources, src, run) {
                    Ok(done) => Ok(Pass { nodes: spliced(done.tree), redo: true, run: done.run }),
                    Err(e) => Err(e),
                }
            } else if is_markdown_path(src) {
                match resolve_markdown(sources, src, Seq::empty(), run) {
                    Ok(done) => Ok(Pass { nodes: spliced(done.tree), redo: true, run: done.run }),
                    Err(e) => Err(e),
                }
            } else if sources.contains_key(src) {
                Ok(Pass { nodes: seq![text_node(sources[src])], redo: true, run })
            } else {
                Err(run.fail(ResolveErrorView::Unreadable { path: src }))
            },
        },
        Some(DirectiveView::Unknown(tag)) => match rewrite(
            sources,
            path,
            kid,
            run.note(DiagnosticView::UnknownDirective { path, tag }),
        ) {
            Ok(done) => Ok(Pass { nodes: seq![done.tree], redo: false, run: done.run }),
            Err(e) => Err(e),
        },
        None => match rewrite(sources, path, kid, run) {
            Ok(done) => Ok(Pass { nodes: seq![done.tree], redo: false, run: done.run }),
            Err(e) => Err(e),
        },
    }
}

} // verus!
