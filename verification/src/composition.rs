//! How directives compose: what resolution makes of one child that stands
//! among finished siblings, and what follows for slots, wraps and
//! inclusions.

use vstd::prelude::*;
use crate::directive::{
    directive_free,
    directive_of,
    is_html_path,
    is_known_directive,
    is_markdown_path,
    is_wrapped,
    source_of,
    DirectiveView,
};
use crate::dom::parsable;
use crate::front_matter::{bindings_of, lines};
use crate::laws::{all_finished, finished, lemma_rewrite_keeps, plain};
use crate::resolve::{
    expand,
    html_source,
    markdown_parsable,
    markdown_source,
    pass,
    resolve_document,
    resolve_html,
    resolve_markdown,
    rewrite,
    spliced,
    DiagnosticView,
    Failure,
    Pass,
    Resolved,
    ResolveErrorView,
    Run,
};
use crate::tree::Tree;

verus! {

/// No node of the list has a reserved name or holds one.
pub open spec fn all_plain(nodes: Seq<Tree>) -> bool {
    forall|i: int|
        0 <= i < nodes.len() ==> directive_of(#[trigger] nodes[i]) is None && plain(nodes[i])
}

/// Two lists of finished nodes make one list of finished nodes.
pub proof fn lemma_all_finished_concat(a: Seq<Tree>, b: Seq<Tree>)
    requires
        all_finished(a),
        all_finished(b),
    ensures
        all_finished(a + b),
{
    assert forall|i: int| 0 <= i < (a + b).len() implies finished(#[trigger] (a + b)[i]) by {
        if i < a.len() {
            assert((a + b)[i] == a[i]);
        } else {
            assert((a + b)[i] == b[i - a.len()]);
        }
    }
}

/// Two lists of plain nodes make one list of plain nodes.
pub proof fn lemma_all_plain_concat(a: Seq<Tree>, b: Seq<Tree>)
    requires
        all_plain(a),
        all_plain(b),
    ensures
        all_plain(a + b),
{
    assert forall|i: int| 0 <= i < (a + b).len() implies directive_of(#[trigger] (a + b)[i])
        is None && plain((a + b)[i]) by {
        if i < a.len() {
            assert((a + b)[i] == a[i]);
        } else {
            assert((a + b)[i] == b[i - a.len()]);
        }
    }
}

/// A node whose children are all finished holds no known directive.
pub proof fn lemma_finished_children(node: Tree)
    requires
        all_finished(node.children),
    ensures
        directive_free(node),
        all_plain(node.children) ==> plain(node),
{
}

/// What begins a log that begins another begins that one too.
proof fn lemma_prefix_of_prefix(
    a: Seq<DiagnosticView>,
    b: Seq<DiagnosticView>,
    c: Seq<DiagnosticView>,
)
    requires
        a.is_prefix_of(b),
        b.is_prefix_of(c),
    ensures
        a.is_prefix_of(c),
{
    assert(a =~= c.subrange(0, a.len() as int));
}

/// A warning in the beginning of a log is in the log.
proof fn lemma_prefix_holds(a: Seq<DiagnosticView>, b: Seq<DiagnosticView>, w: DiagnosticView)
    requires
        a.is_prefix_of(b),
        a.contains(w),
    ensures
        b.contains(w),
{
    let i = choose|i: int| 0 <= i < a.len() && a[i] == w;
    assert(b[i] == a[i]);
}

/// A pass goes over finished children without changing them: from
/// position `i` it is where it would be from position `j` with the children
/// between the two added as they are.
proof fn lemma_pass_over_finished(
    sources: Map<Seq<char>, Seq<char>>,
    path: Seq<char>,
    kids: Seq<Tree>,
    i: int,
    j: int,
    so_far: Pass,
) -> (next: Pass)
    requires
        0 <= i <= j <= kids.len(),
        forall|k: int| i <= k < j ==> finished(#[trigger] kids[k]),
    ensures
        pass(sources, path, kids, i as nat, so_far) == pass(sources, path, kids, j as nat, next),
        next.nodes == so_far.nodes + kids.subrange(i, j),
        next.redo == so_far.redo,
        next.run.content == so_far.run.content,
        next.run.budget == so_far.run.budget,
        next.run.scope == so_far.run.scope,
        so_far.run.log.is_prefix_of(next.run.log),
        (forall|k: int| i <= k < j ==> directive_of(#[trigger] kids[k]) is None && plain(kids[k]))
            ==> next.run == so_far.run,
    decreases j - i,
{
    if i == j {
        assert(so_far.nodes + kids.subrange(i, j) =~= so_far.nodes);
        assert(so_far.run.log.is_prefix_of(so_far.run.log));
        so_far
    } else {
        let kid = kids[i];
        assert(finished(kid));
        let entered = match directive_of(kid) {
            Some(DirectiveView::Unknown(tag)) => so_far.run.note(
                DiagnosticView::UnknownDirective { path, tag },
            ),
            _ => so_far.run,
        };
        lemma_rewrite_keeps(sources, path, kid, entered);
        crate::laws::lemma_rewritten_is_finished(sources, path, kid, entered);
        let step = expand(sources, path, kid, so_far.run)->Ok_0;
        assert(step.nodes == seq![kid]);
        assert(so_far.run.log.is_prefix_of(entered.log));
        lemma_prefix_of_prefix(so_far.run.log, entered.log, step.run.log);
        let mid = Pass {
            nodes: so_far.nodes + step.nodes,
            redo: so_far.redo || step.redo,
            run: step.run.capped(so_far.run.budget),
        };
        assert(mid.run == step.run);
        assert(pass(sources, path, kids, i as nat, so_far) == pass(
            sources,
            path,
            kids,
            (i + 1) as nat,
            mid,
        ));
        let next = lemma_pass_over_finished(sources, path, kids, i + 1, j, mid);
        assert(so_far.nodes + seq![kid] + kids.subrange(i + 1, j) =~= so_far.nodes
            + kids.subrange(i, j));
        lemma_prefix_of_prefix(so_far.run.log, mid.run.log, next.run.log);
        next
    }
}

/// How a rewriting goes on after a pass has produced the children of
/// `rebuilt` and left the state `left`: it is done unless something was
/// spliced in, and else it rewrites again for one unit.
pub open spec fn round_end(
    sources: Map<Seq<char>, Seq<char>>,
    path: Seq<char>,
    rebuilt: Tree,
    redo: bool,
    left: Run,
) -> Result<Resolved, Failure> {
    if !redo {
        Ok(Resolved { tree: rebuilt, run: left })
    } else if left.budget == 0 {
        Err(left.fail(ResolveErrorView::Exhausted { path }))
    } else {
        rewrite(sources, path, rebuilt, left.spend())
    }
}

/// One child among finished siblings. The siblings before it are kept and
/// leave the state as it was but for their warnings; this is the state
/// (first result) in which the child is worked out. If that fails, the
/// rewriting fails in the same way. Else what the child has become stands
/// between its siblings, the siblings after it are kept too, and the
/// rewriting ends from the state after them (second result), which is that
/// after the child but for their warnings. No warning is lost on the way.
pub proof fn lemma_child_among_finished(
    sources: Map<Seq<char>, Seq<char>>,
    path: Seq<char>,
    node: Tree,
    before: Seq<Tree>,
    kid: Tree,
    after: Seq<Tree>,
    run: Run,
) -> (states: (Run, Run))
    requires
        node.children == before + seq![kid] + after,
        all_finished(before),
        all_finished(after),
    ensures
        states.0.content == run.content,
        states.0.budget == run.budget,
        states.0.scope == run.scope,
        run.log.is_prefix_of(states.0.log),
        all_plain(before) ==> states.0 == run,
        match expand(sources, path, kid, states.0) {
            Err(f) => rewrite(sources, path, node, run) == Err::<Resolved, Failure>(f),
            Ok(step) => step.run.budget <= run.budget ==> {
                &&& step.run.log.is_prefix_of(states.1.log)
                &&& states.1.content == step.run.content
                &&& states.1.budget == step.run.budget
                &&& states.1.scope == step.run.scope
                &&& all_plain(after) ==> states.1 == step.run
                &&& rewrite(sources, path, node, run) == round_end(
                    sources,
                    path,
                    Tree { children: before + step.nodes + after, ..node },
                    step.redo,
                    states.1,
                )
            },
        },
{
    let kids = node.children;
    let m = before.len() as int;
    let n = kids.len() as int;
    assert forall|k: int| 0 <= k < m implies finished(#[trigger] kids[k]) by {
        assert(kids[k] == before[k]);
    }
    assert forall|k: int| m + 1 <= k < n implies finished(#[trigger] kids[k]) by {
        assert(kids[k] == after[k - m - 1]);
    }
    assert(kids[m] == kid);
    let start = Pass { nodes: Seq::empty(), redo: false, run };
    let at_kid = lemma_pass_over_finished(sources, path, kids, 0, m, start);
    assert(kids.subrange(0, m) =~= before);
    assert(at_kid.nodes =~= before);
    if all_plain(before) {
        assert forall|k: int| 0 <= k < m implies directive_of(#[trigger] kids[k]) is None && plain(
            kids[k],
        ) by {
            assert(kids[k] == before[k]);
        }
    }
    let entered = at_kid.run;
    match expand(sources, path, kid, entered) {
        Err(f) => {
            assert(pass(sources, path, kids, m as nat, at_kid) == Err::<Pass, Failure>(f));
            (entered, entered)
        },
        Ok(step) => {
            if step.run.budget <= run.budget {
                let past_kid = Pass {
                    nodes: at_kid.nodes + step.nodes,
                    redo: at_kid.redo || step.redo,
                    run: step.run.capped(at_kid.run.budget),
                };
                assert(past_kid.run == step.run);
                assert(pass(sources, path, kids, m as nat, at_kid) == pass(
                    sources,
                    path,
                    kids,
                    (m + 1) as nat,
                    past_kid,
                ));
                let ended = lemma_pass_over_finished(sources, path, kids, m + 1, n, past_kid);
                assert(kids.subrange(m + 1, n) =~= after);
                assert(ended.nodes =~= before + step.nodes + after);
                assert(pass(sources, path, kids, n as nat, ended) == Ok::<Pass, Failure>(ended));
                if all_plain(after) {
                    assert forall|k: int| m + 1 <= k < n implies directive_of(#[trigger] kids[k])
                        is None && plain(kids[k]) by {
                        assert(kids[k] == after[k - m - 1]);
                    }
                }
                assert(ended.run.capped(run.budget) == ended.run);
                (entered, ended.run)
            } else {
                (entered, entered)
            }
        },
    }
}

/// One round at a slot: a `content-slot` among finished siblings takes the
/// latest capture, whatever that holds, and the rewriting goes on, for one
/// unit, with the capture in the slot's place and from the state that is
/// returned.
pub proof fn lemma_slot_takes_the_latest_capture(
    sources: Map<Seq<char>, Seq<char>>,
    path: Seq<char>,
    node: Tree,
    before: Seq<Tree>,
    slot: Tree,
    after: Seq<Tree>,
    run: Run,
) -> (next: Run)
    requires
        node.children == before + seq![slot] + after,
        all_finished(before),
        all_finished(after),
        directive_of(slot) == Some(DirectiveView::Slot),
        run.content.len() > 0,
        run.budget > 0,
    ensures
        rewrite(sources, path, node, run) == rewrite(
            sources,
            path,
            Tree { children: before + run.content.last() + after, ..node },
            next,
        ),
        next.content == run.content.drop_last(),
        next.budget == run.budget - 1,
        next.scope == run.scope,
        all_plain(before) && all_plain(after) ==> next.log == run.log,
{
    let states = lemma_child_among_finished(sources, path, node, before, slot, after, run);
    states.1.spend()
}

/// A `content-slot` among finished siblings, with finished content
/// captured for it, is replaced by that content, exactly where it stood;
/// the capture leaves the stack and one unit is spent. Where no node
/// involved has a reserved name, no warning is given.
pub proof fn lemma_slot_is_filled_in_place(
    sources: Map<Seq<char>, Seq<char>>,
    path: Seq<char>,
    node: Tree,
    before: Seq<Tree>,
    slot: Tree,
    after: Seq<Tree>,
    run: Run,
)
    requires
        node.children == before + seq![slot] + after,
        all_finished(before),
        all_finished(after),
        directive_of(slot) == Some(DirectiveView::Slot),
        run.content.len() > 0,
        all_finished(run.content.last()),
        run.budget > 0,
    ensures
        rewrite(sources, path, node, run) matches Ok(done) && {
            &&& done.tree == Tree { children: before + run.content.last() + after, ..node }
            &&& done.run.content == run.content.drop_last()
            &&& done.run.budget == run.budget - 1
            &&& done.run.scope == run.scope
            &&& all_plain(before) && all_plain(after) && all_plain(run.content.last())
                ==> done.run.log == run.log
        },
{
    let filling = run.content.last();
    let next = lemma_slot_takes_the_latest_capture(sources, path, node, before, slot, after, run);
    let rebuilt = Tree { children: before + filling + after, ..node };
    lemma_all_finished_concat(before, filling);
    lemma_all_finished_concat(before + filling, after);
    lemma_finished_children(rebuilt);
    if all_plain(before) && all_plain(after) && all_plain(filling) {
        lemma_all_plain_concat(before, filling);
        lemma_all_plain_concat(before + filling, after);
    }
    lemma_rewrite_keeps(sources, path, rebuilt, next);
}

/// A `content-slot` among finished siblings, with nothing captured, is
/// dropped: its siblings close ranks, nothing is spent, and the log gains
/// the warning that names the document. Where no sibling has a reserved
/// name, that is the only warning.
pub proof fn lemma_unfilled_slot_is_dropped(
    sources: Map<Seq<char>, Seq<char>>,
    path: Seq<char>,
    node: Tree,
    before: Seq<Tree>,
    slot: Tree,
    after: Seq<Tree>,
    run: Run,
)
    requires
        node.children == before + seq![slot] + after,
        all_finished(before),
        all_finished(after),
        directive_of(slot) == Some(DirectiveView::Slot),
        run.content.len() == 0,
    ensures
        rewrite(sources, path, node, run) matches Ok(done) && {
            &&& done.tree == Tree { children: before + after, ..node }
            &&& done.run.content == run.content
            &&& done.run.budget == run.budget
            &&& done.run.scope == run.scope
            &&& done.run.log.contains(DiagnosticView::EmptySlot { path })
            &&& run.log.is_prefix_of(done.run.log)
            &&& all_plain(before) && all_plain(after) ==> done.run.log == run.log.push(
                DiagnosticView::EmptySlot { path },
            )
        },
{
    let states = lemma_child_among_finished(sources, path, node, before, slot, after, run);
    assert(before + Seq::<Tree>::empty() + after =~= before + after);
    let warning = DiagnosticView::EmptySlot { path };
    let warned = states.0.note(warning).log;
    assert(warned[states.0.log.len() as int] == warning);
    lemma_prefix_holds(warned, states.1.log, warning);
    assert(states.0.log.is_prefix_of(warned));
    lemma_prefix_of_prefix(run.log, states.0.log, warned);
    lemma_prefix_of_prefix(run.log, warned, states.1.log);
}

/// Rewriting descends. A child that is no directive, among finished
/// siblings of which those before it have no reserved names, is rewritten
/// from the state as it is, and what comes of it stands in its place; the
/// siblings stay as they are and nothing else is spent. So what holds of
/// the rewriting of a node holds of it at any depth of a document.
pub proof fn lemma_rewrite_descends(
    sources: Map<Seq<char>, Seq<char>>,
    path: Seq<char>,
    node: Tree,
    before: Seq<Tree>,
    kid: Tree,
    after: Seq<Tree>,
    run: Run,
)
    requires
        node.children == before + seq![kid] + after,
        all_plain(before),
        all_finished(before),
        all_finished(after),
        directive_of(kid) is None,
    ensures
        match rewrite(sources, path, kid, run) {
            Ok(inner) => rewrite(sources, path, node, run) matches Ok(done) && {
                &&& done.tree == Tree { children: before + seq![inner.tree] + after, ..node }
                &&& done.run.content == inner.run.content
                &&& done.run.budget == inner.run.budget
                &&& done.run.scope == inner.run.scope
                &&& all_plain(after) ==> done.run == inner.run
            },
            Err(f) => rewrite(sources, path, node, run) == Err::<Resolved, Failure>(f),
        },
{
    let states = lemma_child_among_finished(sources, path, node, before, kid, after, run);
    crate::laws::lemma_rewritten_is_finished(sources, path, kid, run);
}

/// The node of `t` that is reached by taking, level by level, the child at
/// the position that `way` gives.
pub open spec fn node_at(t: Tree, way: Seq<int>) -> Tree
    decreases way.len(),
{
    if way.len() == 0 {
        t
    } else {
        node_at(t.children[way[0]], way.drop_first())
    }
}

/// The tree `t` with `new` in the place of the node that `way` reaches.
pub open spec fn replaced_at(t: Tree, way: Seq<int>, new: Tree) -> Tree
    decreases way.len(),
{
    if way.len() == 0 {
        new
    } else {
        Tree {
            children: t.children.update(
                way[0],
                replaced_at(t.children[way[0]], way.drop_first(), new),
            ),
            ..t
        }
    }
}

/// Whether nothing along `way` or beside it asks for anything: at every
/// level the child on the way has no reserved name, the children before it
/// are finished and have no reserved names, and those after it are
/// finished.
pub open spec fn way_is_clear(t: Tree, way: Seq<int>) -> bool
    decreases way.len(),
{
    way.len() == 0 || {
        &&& 0 <= way[0] < t.children.len()
        &&& directive_of(t.children[way[0]]) is None
        &&& all_plain(t.children.take(way[0]))
        &&& all_finished(t.children.take(way[0]))
        &&& all_finished(t.children.skip(way[0] + 1))
        &&& way_is_clear(t.children[way[0]], way.drop_first())
    }
}

/// Rewriting reaches any depth. Where the way to a node is clear, the
/// tree is rewritten by rewriting that node, from the state as it is: what
/// comes of the node stands in its place, all else stays, and nothing else
/// is captured, released or spent.
pub proof fn lemma_rewrite_reaches(
    sources: Map<Seq<char>, Seq<char>>,
    path: Seq<char>,
    t: Tree,
    way: Seq<int>,
    run: Run,
)
    requires
        way_is_clear(t, way),
    ensures
        match rewrite(sources, path, node_at(t, way), run) {
            Ok(inner) => rewrite(sources, path, t, run) matches Ok(done) && {
                &&& done.tree == replaced_at(t, way, inner.tree)
                &&& done.run.content == inner.run.content
                &&& done.run.budget == inner.run.budget
                &&& done.run.scope == inner.run.scope
            },
            Err(f) => rewrite(sources, path, t, run) == Err::<Resolved, Failure>(f),
        },
    decreases way.len(),
{
    if way.len() > 0 {
        let k = way[0];
        let kid = t.children[k];
        let before = t.children.take(k);
        let after = t.children.skip(k + 1);
        assert(t.children =~= before + seq![kid] + after);
        lemma_rewrite_reaches(sources, path, kid, way.drop_first(), run);
        lemma_rewrite_descends(sources, path, t, before, kid, after, run);
        match rewrite(sources, path, kid, run) {
            Ok(below) => {
                assert(before + seq![below.tree] + after =~= t.children.update(k, below.tree));
            },
            Err(_) => {},
        }
    }
}

/// No document with a clear way to a node that holds a slot among finished
/// siblings is itself nothing but a wrap.
proof fn lemma_layout_is_not_wrapped(
    doc: Tree,
    way: Seq<int>,
    before: Seq<Tree>,
    slot: Tree,
    after: Seq<Tree>,
)
    requires
        way_is_clear(doc, way),
        node_at(doc, way).children == before + seq![slot] + after,
        directive_of(slot) == Some(DirectiveView::Slot),
    ensures
        !is_wrapped(doc),
{
    if way.len() == 0 {
        if doc.children.len() == 1 {
            assert(before.len() == 0);
            assert(doc.children[0] == slot);
        }
    } else {
        if doc.children.len() == 1 {
            assert(way[0] == 0);
        }
    }
}

/// A wrapped page fills the slot of its layout. A page that is nothing but
/// a wrap of `inner` for the layout at `layout`, where a clear way leads to
/// a node that holds one slot among finished siblings, resolves to the
/// layout with `inner`, if that is finished, exactly where the slot stood.
/// Two documents are loaded and one pass repeated.
pub proof fn lemma_wrapped_page_fills_the_slot(
    sources: Map<Seq<char>, Seq<char>>,
    page: Seq<char>,
    layout: Seq<char>,
    inner: Seq<Tree>,
    way: Seq<int>,
    before: Seq<Tree>,
    slot: Tree,
    after: Seq<Tree>,
    run: Run,
)
    requires
        sources.contains_key(page) && parsable(sources[page]),
        sources.contains_key(layout) && parsable(sources[layout]),
        is_wrapped(html_source(sources[page])),
        source_of(html_source(sources[page]).children[0]) == Some(layout),
        html_source(sources[page]).children[0].children == inner,
        way_is_clear(html_source(sources[layout]), way),
        node_at(html_source(sources[layout]), way).children == before + seq![slot] + after,
        directive_of(slot) == Some(DirectiveView::Slot),
        all_finished(inner),
        all_finished(before),
        all_finished(after),
        run.budget >= 3,
    ensures
        resolve_html(sources, page, run) matches Ok(done) && {
            &&& done.tree == replaced_at(
                html_source(sources[layout]),
                way,
                Tree {
                    children: before + inner + after,
                    ..node_at(html_source(sources[layout]), way)
                },
            )
            &&& directive_free(done.tree)
            &&& done.run.content == run.content
            &&& done.run.budget == run.budget - 3
            &&& done.run.scope == run.scope
        },
{
    let page_doc = html_source(sources[page]);
    let layout_doc = html_source(sources[layout]);
    let at_layout = run.spend().capture(inner);
    assert(resolve_html(sources, page, run) == resolve_document(
        sources,
        page,
        page_doc,
        run.spend(),
    ));
    assert(resolve_document(sources, page, page_doc, run.spend()) == resolve_html(
        sources,
        layout,
        at_layout,
    ));
    let loaded = at_layout.spend();
    assert(resolve_html(sources, layout, at_layout) == resolve_document(
        sources,
        layout,
        layout_doc,
        loaded,
    ));
    lemma_layout_is_not_wrapped(layout_doc, way, before, slot, after);
    assert(resolve_document(sources, layout, layout_doc, loaded) == rewrite(
        sources,
        layout,
        layout_doc,
        loaded,
    ));
    assert(loaded.content.last() == inner);
    assert(loaded.content.drop_last() =~= run.content);
    lemma_slot_is_filled_in_place(
        sources,
        layout,
        node_at(layout_doc, way),
        before,
        slot,
        after,
        loaded,
    );
    lemma_rewrite_reaches(sources, layout, layout_doc, way, loaded);
    crate::laws::lemma_resolved_html_is_finished(sources, page, run);
}

/// Nested wraps fill from the inside out. A page that is nothing but a
/// wrap of `inner` for the layout at `section`, which is nothing but a
/// wrap for the layout at `base` and holds one slot among finished
/// siblings, resolves to the document at `base`, where a clear way leads
/// to a node that holds one slot among finished siblings too, with this in
/// the place of that slot: what `section` has before its slot, then
/// `inner`, then what `section` has after its slot. Three documents are
/// loaded and two passes repeated.
pub proof fn lemma_nested_wraps_fill_inside_out(
    sources: Map<Seq<char>, Seq<char>>,
    page: Seq<char>,
    section: Seq<char>,
    base: Seq<char>,
    inner: Seq<Tree>,
    section_before: Seq<Tree>,
    section_slot: Tree,
    section_after: Seq<Tree>,
    way: Seq<int>,
    base_before: Seq<Tree>,
    base_slot: Tree,
    base_after: Seq<Tree>,
    run: Run,
)
    requires
        sources.contains_key(page) && parsable(sources[page]),
        sources.contains_key(section) && parsable(sources[section]),
        sources.contains_key(base) && parsable(sources[base]),
        is_wrapped(html_source(sources[page])),
        source_of(html_source(sources[page]).children[0]) == Some(section),
        html_source(sources[page]).children[0].children == inner,
        is_wrapped(html_source(sources[section])),
        source_of(html_source(sources[section]).children[0]) == Some(base),
        html_source(sources[section]).children[0].children == section_before + seq![section_slot]
            + section_after,
        way_is_clear(html_source(sources[base]), way),
        node_at(html_source(sources[base]), way).children == base_before + seq![base_slot]
            + base_after,
        directive_of(section_slot) == Some(DirectiveView::Slot),
        directive_of(base_slot) == Some(DirectiveView::Slot),
        all_finished(inner),
        all_finished(section_before),
        all_finished(section_after),
        all_finished(base_before),
        all_finished(base_after),
        run.budget >= 5,
    ensures
        resolve_html(sources, page, run) matches Ok(done) && {
            &&& done.tree == replaced_at(
                html_source(sources[base]),
                way,
                Tree {
                    children: base_before + section_before + inner + section_after + base_after,
                    ..node_at(html_source(sources[base]), way)
                },
            )
            &&& directive_free(done.tree)
            &&& done.run.content == run.content
            &&& done.run.budget == run.budget - 5
            &&& done.run.scope == run.scope
        },
{
    let page_doc = html_source(sources[page]);
    let section_doc = html_source(sources[section]);
    let base_doc = html_source(sources[base]);
    let host = node_at(base_doc, way);
    let held = section_before + seq![section_slot] + section_after;
    let at_section = run.spend().capture(inner);
    assert(resolve_html(sources, page, run) == resolve_document(
        sources,
        page,
        page_doc,
        run.spend(),
    ));
    assert(resolve_document(sources, page, page_doc, run.spend()) == resolve_html(
        sources,
        section,
        at_section,
    ));
    let at_base = at_section.spend().capture(held);
    assert(resolve_html(sources, section, at_section) == resolve_document(
        sources,
        section,
        section_doc,
        at_section.spend(),
    ));
    assert(resolve_document(sources, section, section_doc, at_section.spend()) == resolve_html(
        sources,
        base,
        at_base,
    ));
    let loaded = at_base.spend();
    assert(resolve_html(sources, base, at_base) == resolve_document(
        sources,
        base,
        base_doc,
        loaded,
    ));
    lemma_layout_is_not_wrapped(base_doc, way, base_before, base_slot, base_after);
    assert(resolve_document(sources, base, base_doc, loaded) == rewrite(
        sources,
        base,
        base_doc,
        loaded,
    ));
    assert(loaded.content.last() == held);
    assert(loaded.content.drop_last() =~= run.content.push(inner));
    let first = lemma_slot_takes_the_latest_capture(
        sources,
        base,
        host,
        base_before,
        base_slot,
        base_after,
        loaded,
    );
    let once = Tree { children: base_before + held + base_after, ..host };
    let left = base_before + section_before;
    let right = section_after + base_after;
    assert(once.children =~= left + seq![section_slot] + right);
    lemma_all_finished_concat(base_before, section_before);
    lemma_all_finished_concat(section_after, base_after);
    assert(first.content.last() == inner);
    assert(first.content.drop_last() =~= run.content);
    lemma_slot_is_filled_in_place(sources, base, once, left, section_slot, right, first);
    assert(left + inner + right =~= base_before + section_before + inner + section_after
        + base_after);
    lemma_rewrite_reaches(sources, base, base_doc, way, loaded);
    crate::laws::lemma_resolved_html_is_finished(sources, page, run);
}

/// An inclusion of a Markdown source that holds a slot with nothing
/// wrapping it. The inclusion stands among finished siblings, those before
/// it without reserved names; the source renders to one slot among
/// finished nodes. Then what the source renders to stands in the place of
/// the inclusion, without the slot; the captures of the including document
/// are as they were; one document was loaded and one pass repeated. The
/// log gains the warning of the slot, which names the source; where no
/// node involved has a reserved name, that is the one warning.
pub proof fn lemma_included_markdown_leaves_its_slot_empty(
    sources: Map<Seq<char>, Seq<char>>,
    path: Seq<char>,
    node: Tree,
    before: Seq<Tree>,
    inclusion: Tree,
    after: Seq<Tree>,
    source: Seq<char>,
    rendered_before: Seq<Tree>,
    slot: Tree,
    rendered_after: Seq<Tree>,
    run: Run,
)
    requires
        node.children == before + seq![inclusion] + after,
        all_plain(before),
        all_finished(before),
        all_finished(after),
        directive_of(inclusion) == Some(DirectiveView::Include),
        source_of(inclusion) == Some(source),
        !is_html_path(source),
        is_markdown_path(source),
        sources.contains_key(source),
        markdown_parsable(sources[source]),
        markdown_source(sources[source], Seq::empty()).children == rendered_before + seq![slot]
            + rendered_after,
        directive_of(slot) == Some(DirectiveView::Slot),
        all_finished(rendered_before),
        all_finished(rendered_after),
        run.budget >= 2,
    ensures
        rewrite(sources, path, node, run) matches Ok(done) && {
            &&& done.tree == Tree {
                children: before + rendered_before + rendered_after + after,
                ..node
            }
            &&& done.run.content == run.content
            &&& done.run.budget == run.budget - 2
            &&& done.run.scope == run.scope
            &&& done.run.log.contains(DiagnosticView::EmptySlot { path: source })
            &&& all_plain(rendered_before) && all_plain(rendered_after) && all_plain(after)
                ==> done.run.log == run.log.push(DiagnosticView::EmptySlot { path: source })
        },
{
    let doc = markdown_source(sources[source], Seq::empty());
    let rendered = rendered_before + rendered_after;
    let inside = run.spend().enter(bindings_of(lines(sources[source])));
    assert(doc.data is Document);
    assert(!is_wrapped(doc)) by {
        if doc.children.len() == 1 {
            assert(rendered_before.len() == 0);
            assert(doc.children[0] == slot);
        }
    }
    lemma_unfilled_slot_is_dropped(
        sources,
        source,
        doc,
        rendered_before,
        slot,
        rendered_after,
        inside,
    );
    assert(resolve_document(sources, source, doc, inside) == rewrite(sources, source, doc, inside));
    let inner = rewrite(sources, source, doc, inside)->Ok_0;
    let back = inner.run.leave(run);
    assert(resolve_markdown(sources, source, Seq::empty(), run) == Ok::<Resolved, Failure>(
        Resolved { tree: inner.tree, run: back },
    ));
    assert(spliced(inner.tree) == rendered);
    let states = lemma_child_among_finished(sources, path, node, before, inclusion, after, run);
    assert(states.0 == run);
    let step = Pass { nodes: rendered, redo: true, run: back };
    assert(expand(sources, path, inclusion, run) == Ok::<Pass, Failure>(step));
    let rebuilt = Tree { children: before + rendered + after, ..node };
    lemma_all_finished_concat(rendered_before, rendered_after);
    lemma_all_finished_concat(before, rendered);
    lemma_all_finished_concat(before + rendered, after);
    lemma_finished_children(rebuilt);
    if all_plain(rendered_before) && all_plain(rendered_after) && all_plain(after) {
        lemma_all_plain_concat(rendered_before, rendered_after);
        lemma_all_plain_concat(before, rendered);
        lemma_all_plain_concat(before + rendered, after);
    }
    lemma_rewrite_keeps(sources, path, rebuilt, states.1.spend());
    crate::laws::lemma_rewritten_is_finished(sources, path, rebuilt, states.1.spend());
    assert(before + rendered + after =~= before + rendered_before + rendered_after + after);
    let warning = DiagnosticView::EmptySlot { path: source };
    let done = rewrite(sources, path, rebuilt, states.1.spend())->Ok_0;
    lemma_prefix_holds(back.log, states.1.log, warning);
    lemma_prefix_holds(states.1.log, done.run.log, warning);
}

} // verus!
