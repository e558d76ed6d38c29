//! What holds of every resolution.

use vstd::prelude::*;
use crate::directive::{directive_free, directive_of, is_known_directive, is_wrapped};
use crate::resolve::{
    expand,
    html_source,
    pass,
    resolve_document,
    resolve_html,
    resolve_markdown,
    rewrite,
    Pass,
    Resolved,
    Run,
};
use crate::tree::Tree;

verus! {

/// No node of the tree below its root has a reserved name, known or not.
pub open spec fn plain(t: Tree) -> bool
    decreases t,
{
    forall|i: int|
        0 <= i < t.children.len() ==> directive_of(#[trigger] t.children[i]) is None && plain(
            t.children[i],
        )
}

/// A pass over children that hold no known directive keeps every child as
/// it is, splices nothing in and spends nothing.
proof fn lemma_pass_keeps(
    sources: Map<Seq<char>, Seq<char>>,
    path: Seq<char>,
    owner: Tree,
    i: nat,
    so_far: Pass,
)
    requires
        directive_free(owner),
        i <= owner.children.len(),
    ensures
        pass(sources, path, owner.children, i, so_far) matches Ok(p) && {
            &&& p.nodes == so_far.nodes + owner.children.skip(i as int)
            &&& p.redo == so_far.redo
            &&& p.run.content == so_far.run.content
            &&& p.run.budget == so_far.run.budget
            &&& p.run.scope == so_far.run.scope
            &&& plain(owner) ==> p.run.log == so_far.run.log
        },
    decreases owner, owner.children.len() - i,
{
    let kids = owner.children;
    if i >= kids.len() {
        assert(kids.skip(i as int) =~= Seq::<Tree>::empty());
        assert(so_far.nodes + kids.skip(i as int) =~= so_far.nodes);
    } else {
        let kid = kids[i as int];
        assert(!is_known_directive(kid) && directive_free(kid));
        assert(plain(owner) ==> directive_of(kid) is None && plain(kid));
        let entered = match directive_of(kid) {
            Some(crate::directive::DirectiveView::Unknown(tag)) => so_far.run.note(
                crate::resolve::DiagnosticView::UnknownDirective { path, tag },
            ),
            _ => so_far.run,
        };
        lemma_rewrite_keeps(sources, path, kid, entered);
        let kept = rewrite(sources, path, kid, entered)->Ok_0;
        let step = expand(sources, path, kid, so_far.run)->Ok_0;
        assert(step.nodes == seq![kid]);
        let next = Pass {
            nodes: so_far.nodes + step.nodes,
            redo: so_far.redo || step.redo,
            run: step.run.capped(so_far.run.budget),
        };
        assert(next.run == step.run);
        lemma_pass_keeps(sources, path, owner, i + 1, next);
        assert(so_far.nodes + seq![kid] + kids.skip(i as int + 1) =~= so_far.nodes + kids.skip(i as int));
    }
}

/// Rewriting a tree that holds no known directive returns the tree itself
/// and leaves the captured content and the budget as they were; if the
/// tree holds no reserved name at all, the log too.
pub proof fn lemma_rewrite_keeps(
    sources: Map<Seq<char>, Seq<char>>,
    path: Seq<char>,
    node: Tree,
    run: Run,
)
    requires
        directive_free(node),
    ensures
        rewrite(sources, path, node, run) matches Ok(done) && {
            &&& done.tree == node
            &&& done.run.content == run.content
            &&& done.run.budget == run.budget
            &&& done.run.scope == run.scope
            &&& plain(node) ==> done.run == run
        },
    decreases node, node.children.len() + 1,
{
    let start = Pass { nodes: Seq::empty(), redo: false, run };
    lemma_pass_keeps(sources, path, node, 0, start);
    let p = pass(sources, path, node.children, 0, start)->Ok_0;
    assert(node.children.skip(0) =~= node.children);
    assert(p.nodes =~= node.children);
    assert(p.run.capped(run.budget) == p.run);
}

/// Resolving an HTML source that is there and short enough to be parsed,
/// with budget left, and whose document holds no known directive yields
/// that document as loaded, for the one unit that loading costs.
pub proof fn lemma_directive_free_source_resolves_to_itself(
    sources: Map<Seq<char>, Seq<char>>,
    path: Seq<char>,
    run: Run,
)
    requires
        run.budget > 0,
        sources.contains_key(path),
        crate::dom::parsable(sources[path]),
        directive_free(html_source(sources[path])),
    ensures
        resolve_html(sources, path, run) matches Ok(done) && {
            &&& done.tree == html_source(sources[path])
            &&& done.run.content == run.content
            &&& done.run.budget == run.budget - 1
            &&& plain(html_source(sources[path])) ==> done.run == run.spend()
        },
{
    let doc = html_source(sources[path]);
    if is_wrapped(doc) {
        assert(is_known_directive(doc.children[0]));
    }
    lemma_rewrite_keeps(sources, path, doc, run.spend());
}

/// Whether a node may stand in a finished tree: it is no known directive
/// and holds none.
pub open spec fn finished(t: Tree) -> bool {
    !is_known_directive(t) && directive_free(t)
}

/// Whether every node of a list may stand in a finished tree.
pub open spec fn all_finished(nodes: Seq<Tree>) -> bool {
    forall|i: int| 0 <= i < nodes.len() ==> finished(#[trigger] nodes[i])
}

/// A resolved HTML source holds no known directive; resolving it did not
/// make the budget grow, took no warning back and left the scope as it was.
pub proof fn lemma_resolved_html_is_finished(
    sources: Map<Seq<char>, Seq<char>>,
    path: Seq<char>,
    run: Run,
)
    ensures
        resolve_html(sources, path, run) matches Ok(done) ==> directive_free(done.tree)
            && done.run.budget <= run.budget && run.log.is_prefix_of(done.run.log)
            && done.run.scope == run.scope,
    decreases run.budget, 0nat, Seq::<Tree>::empty(), 0nat,
{
    if run.budget > 0 && sources.contains_key(path) {
        lemma_resolved_document_is_finished(
            sources,
            path,
            html_source(sources[path]),
            run.spend(),
        );
    }
}

/// A resolved Markdown source holds no known directive; resolving it did
/// not make the budget grow, took no warning back and left the scope as it was.
pub proof fn lemma_resolved_markdown_is_finished(
    sources: Map<Seq<char>, Seq<char>>,
    path: Seq<char>,
    template: Seq<char>,
    run: Run,
)
    ensures
        resolve_markdown(sources, path, template, run) matches Ok(done) ==> directive_free(
            done.tree,
        ) && done.run.budget <= run.budget && run.log.is_prefix_of(done.run.log)
            && done.run.scope == run.scope,
    decreases run.budget, 0nat, Seq::<Tree>::empty(), 0nat,
{
    if run.budget > 0 && sources.contains_key(path) {
        lemma_resolved_document_is_finished(
            sources,
            path,
            crate::resolve::markdown_source(sources[path], template),
            run.spend().enter(crate::front_matter::bindings_of(crate::front_matter::lines(sources[path]))),
        );
    }
}

/// A resolved document holds no known directive; resolving it did not
/// make the budget grow, took no warning back and left the scope as it was.
pub proof fn lemma_resolved_document_is_finished(
    sources: Map<Seq<char>, Seq<char>>,
    path: Seq<char>,
    doc: Tree,
    run: Run,
)
    ensures
        resolve_document(sources, path, doc, run) matches Ok(done) ==> directive_free(done.tree)
            && done.run.budget <= run.budget && run.log.is_prefix_of(done.run.log)
            && done.run.scope == run.scope,
    decreases run.budget, 2nat, Seq::<Tree>::empty(), 0nat,
{
    if is_wrapped(doc) {
        match crate::directive::source_of(doc.children[0]) {
            None => {},
            Some(src) => {
                lemma_resolved_html_is_finished(
                    sources,
                    src,
                    run.capture(doc.children[0].children),
                );
            },
        }
    } else {
        lemma_rewritten_is_finished(sources, path, doc, run);
    }
}

/// A rewritten node is the node it was, with children that hold no known
/// directive; rewriting did not make the budget grow, took no warning
/// back and left the scope as it was.
pub proof fn lemma_rewritten_is_finished(
    sources: Map<Seq<char>, Seq<char>>,
    path: Seq<char>,
    node: Tree,
    run: Run,
)
    ensures
        rewrite(sources, path, node, run) matches Ok(done) ==> {
            &&& directive_free(done.tree)
            &&& done.tree.data == node.data
            &&& done.tree.attrs == node.attrs
            &&& done.run.budget <= run.budget
            &&& run.log.is_prefix_of(done.run.log)
            &&& done.run.scope == run.scope
        },
    decreases run.budget, 1nat, node.children, node.children.len() + 1,
{
    let start = Pass { nodes: Seq::empty(), redo: false, run };
    lemma_pass_is_finished(sources, path, node.children, 0, start);
    match pass(sources, path, node.children, 0, start) {
        Err(_) => {},
        Ok(p) => {
            let after = p.run.capped(run.budget);
            let rebuilt = Tree { children: p.nodes, ..node };
            if !p.redo {
                assert(all_finished(p.nodes));
                assert(directive_free(rebuilt));
            } else if after.budget > 0 {
                lemma_rewritten_is_finished(sources, path, rebuilt, after.spend());
            }
        },
    }
}

/// A pass does not make the budget grow, takes no warning back and leaves
/// the scope as it was; one that spliced nothing in has produced only
/// nodes that may stand in a finished tree.
proof fn lemma_pass_is_finished(
    sources: Map<Seq<char>, Seq<char>>,
    path: Seq<char>,
    kids: Seq<Tree>,
    i: nat,
    so_far: Pass,
)
    ensures
        pass(sources, path, kids, i, so_far) matches Ok(p) ==> {
            &&& p.run.budget <= so_far.run.budget
            &&& so_far.run.log.is_prefix_of(p.run.log)
            &&& p.run.scope == so_far.run.scope
            &&& !p.redo ==> !so_far.redo
            &&& !p.redo && all_finished(so_far.nodes) ==> all_finished(p.nodes)
        },
    decreases so_far.run.budget, 1nat, kids, kids.len() - i,
{
    if i < kids.len() {
        lemma_expanded_is_finished(sources, path, kids[i as int], so_far.run);
        match expand(sources, path, kids[i as int], so_far.run) {
            Err(_) => {},
            Ok(step) => {
                let next = Pass {
                    nodes: so_far.nodes + step.nodes,
                    redo: so_far.redo || step.redo,
                    run: step.run.capped(so_far.run.budget),
                };
                lemma_pass_is_finished(sources, path, kids, i + 1, next);
                if !next.redo && all_finished(so_far.nodes) {
                    assert forall|j: int| 0 <= j < next.nodes.len() implies finished(
                        #[trigger] next.nodes[j],
                    ) by {
                        if j >= so_far.nodes.len() {
                            assert(next.nodes[j] == step.nodes[j - so_far.nodes.len()]);
                        }
                    }
                }
            },
        }
    }
}

/// Working out what a child becomes does not make the budget grow, takes
/// no warning back and leaves the scope as it was; unless something was
/// spliced in, what the child becomes may stand in a finished tree.
proof fn lemma_expanded_is_finished(
    sources: Map<Seq<char>, Seq<char>>,
    path: Seq<char>,
    kid: Tree,
    run: Run,
)
    ensures
        expand(sources, path, kid, run) matches Ok(step) ==> {
            &&& step.run.budget <= run.budget
            &&& run.log.is_prefix_of(step.run.log)
            &&& step.run.scope == run.scope
            &&& !step.redo ==> all_finished(step.nodes)
        },
    decreases run.budget, 1nat, kid.children, kid.children.len() + 2,
{
    match directive_of(kid) {
        Some(crate::directive::DirectiveView::Wrap) => {},
        Some(crate::directive::DirectiveView::Slot) => {},
        Some(crate::directive::DirectiveView::Include) => {
            match crate::directive::source_of(kid) {
                None => {},
                Some(src) => {
                    if crate::directive::is_html_path(src) {
                        lemma_resolved_html_is_finished(sources, src, run);
                    } else if crate::directive::is_markdown_path(src) {
                        lemma_resolved_markdown_is_finished(sources, src, Seq::empty(), run);
                    }
                },
            }
        },
        Some(crate::directive::DirectiveView::Unknown(tag)) => {
            lemma_rewritten_is_finished(
                sources,
                path,
                kid,
                run.note(crate::resolve::DiagnosticView::UnknownDirective { path, tag }),
            );
        },
        None => {
            lemma_rewritten_is_finished(sources, path, kid, run);
        },
    }
}

/// Rewriting is idempotent: a tree that came out of a rewriting comes out
/// of any later rewriting as it is, whatever the sources and the state
/// then are, and that later rewriting captures nothing, releases nothing
/// and spends nothing.
pub proof fn lemma_rewrite_is_idempotent(
    sources: Map<Seq<char>, Seq<char>>,
    path: Seq<char>,
    node: Tree,
    run: Run,
    later_sources: Map<Seq<char>, Seq<char>>,
    later_path: Seq<char>,
    later_run: Run,
)
    ensures
        rewrite(sources, path, node, run) matches Ok(done) ==> (rewrite(
            later_sources,
            later_path,
            done.tree,
            later_run,
        ) matches Ok(again) && {
            &&& again.tree == done.tree
            &&& again.run.content == later_run.content
            &&& again.run.budget == later_run.budget
        }),
{
    lemma_rewritten_is_finished(sources, path, node, run);
    match rewrite(sources, path, node, run) {
        Ok(done) => {
            lemma_rewrite_keeps(later_sources, later_path, done.tree, later_run);
        },
        Err(_) => {},
    }
}

} // verus!
