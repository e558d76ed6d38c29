//! The processors: they resolve the sources of a build into finished
//! trees.
//!
//! An [`HtmlProcessor`] carries the state of one resolution: the paths of
//! the documents being worked on, the stack of captured content, the
//! budget and the warnings. A [`MarkdownProcessor`] loads a Markdown source
//! and resolves it with an HTML processor of its own.
//!
//! When a resolution fails, the processor's log holds the warnings up to
//! the point of failure; of the rest of its state nothing is said.

use vstd::prelude::*;
use crate::directive::{classify, find_attr, names_html, names_markdown, Directive};
use crate::resolve::{
    expand,
    Failure,
    pass,
    resolve_document,
    resolve_html,
    resolve_markdown,
    rewrite,
    Diagnostic,
    DiagnosticView,
    Pass,
    Resolved,
    ResolveError,
    ResolveErrorView,
    Run,
};
use crate::scope::VarStack;
use crate::source::{load_html, load_markdown, Sources};
use crate::tree::{forest, forests, lemma_view_children, Payload, Tree, TreeNode};

verus! {

/// What every processor of a build is given.
pub struct ProcessorConfig {
    /// The output name of the target being built.
    pub out_path: String,
    /// The variables in scope.
    pub vars: VarStack,
}

impl Clone for ProcessorConfig {
    fn clone(&self) -> (copy: ProcessorConfig)
        ensures
            copy.out_path@ == self.out_path@,
            copy.vars@ == self.vars@,
    {
        ProcessorConfig { out_path: self.out_path.clone(), vars: self.vars.clone() }
    }
}

/// The views of a list of warnings.
pub open spec fn diagnostics(log: Seq<Diagnostic>) -> Seq<DiagnosticView> {
    log.map_values(|d: Diagnostic| d@)
}

/// Resolves HTML sources.
pub struct HtmlProcessor {
    pub cfg: ProcessorConfig,
    /// The paths of the documents being worked on, the current one last.
    pub stack: Vec<String>,
    /// The captured child lists, the most recent one last.
    pub content: Vec<Vec<TreeNode>>,
    /// The units of work that may still be spent.
    pub budget: usize,
    /// The warnings so far, oldest first.
    pub log: Vec<Diagnostic>,
}

/// Resolves Markdown sources.
pub struct MarkdownProcessor {
    pub cfg: ProcessorConfig,
    /// The layout that every source is wrapped in; empty for none.
    pub template: String,
    /// The units of work that may still be spent.
    pub budget: usize,
    /// The warnings so far, oldest first.
    pub log: Vec<Diagnostic>,
}

/// The kinds of source that a processor can resolve, as contracts see it.
pub enum SourceKindView {
    Html,
    Markdown { template: Seq<char> },
}

/// Resolves the source at `path` as a source of the given kind.
pub open spec fn resolve_source(
    kind: SourceKindView,
    sources: Map<Seq<char>, Seq<char>>,
    path: Seq<char>,
    run: Run,
) -> Result<Resolved, Failure> {
    match kind {
        SourceKindView::Html => resolve_html(sources, path, run),
        SourceKindView::Markdown { template } => resolve_markdown(sources, path, template, run),
    }
}

/// Several resolved trees and the state after resolving them.
pub struct Batch {
    pub trees: Seq<Tree>,
    pub run: Run,
}

/// Resolves the sources at `paths` from position `i` on, one after the
/// other, each from the state that the one before it left.
pub open spec fn resolve_all(
    kind: SourceKindView,
    sources: Map<Seq<char>, Seq<char>>,
    paths: Seq<Seq<char>>,
    i: nat,
    so_far: Batch,
) -> Result<Batch, Failure>
    decreases paths.len() - i,
{
    if i >= paths.len() {
        Ok(so_far)
    } else {
        match resolve_source(kind, sources, paths[i as int], so_far.run) {
            Err(e) => Err(e),
            Ok(done) => resolve_all(
                kind,
                sources,
                paths,
                i + 1,
                Batch { trees: so_far.trees.push(done.tree), run: done.run },
            ),
        }
    }
}

/// The views of a list of paths.
pub open spec fn path_views(paths: Seq<String>) -> Seq<Seq<char>> {
    paths.map_values(|p: String| p@)
}

/// What a resolution leaves as it finds it.
pub struct Frame {
    /// The paths of the documents being worked on, the current one last.
    pub stack: Seq<Seq<char>>,
    /// The output name of the target being built.
    pub out_path: Seq<char>,
}

/// What resolves sources of one kind into finished trees.
pub trait Processor {
    /// The kind of source that this processor resolves.
    spec fn kind(&self) -> SourceKindView;

    /// The state of the resolution.
    spec fn run(&self) -> Run;

    /// What a resolution that succeeds leaves as it was.
    spec fn frame(&self) -> Frame;

    /// Resolves one source.
    fn one(&mut self, sources: &Sources, path: String) -> (res: Result<TreeNode, ResolveError>)
        ensures
            match resolve_source(old(self).kind(), sources@, path@, old(self).run()) {
                Ok(done) => {
                    &&& res matches Ok(tree)
                    &&& tree@ == done.tree
                    &&& final(self).run() == done.run
                    &&& final(self).kind() == old(self).kind()
                    &&& final(self).frame() == old(self).frame()
                },
                Err(f) => res matches Err(err) && err@ == f.error && final(self).run().log == f.log,
            },
    {
        self.process(sources, path.as_str())
    }

    /// Resolves several sources in order, each from the state that the one
    /// before it left. The first failure ends the work.
    fn many(&mut self, sources: &Sources, path_bufs: Vec<String>) -> (res: Result<
        Vec<TreeNode>,
        ResolveError,
    >)
        ensures
            match resolve_all(
                old(self).kind(),
                sources@,
                path_views(path_bufs@),
                0,
                Batch { trees: Seq::empty(), run: old(self).run() },
            ) {
                Ok(all) => {
                    &&& res matches Ok(trees)
                    &&& forest(trees@) == all.trees
                    &&& final(self).run() == all.run
                    &&& final(self).kind() == old(self).kind()
                    &&& final(self).frame() == old(self).frame()
                },
                Err(f) => res matches Err(err) && err@ == f.error && final(self).run().log == f.log,
            },
    {
        let mut trees: Vec<TreeNode> = Vec::new();
        let ghost paths = path_views(path_bufs@);
        assert(forest(trees@) =~= Seq::<Tree>::empty());
        for path in it: path_bufs
            invariant
                it.seq() == path_bufs@,
                paths == path_views(path_bufs@),
                self.kind() == old(self).kind(),
                self.frame() == old(self).frame(),
                resolve_all(
                    old(self).kind(),
                    sources@,
                    paths,
                    0,
                    Batch { trees: Seq::empty(), run: old(self).run() },
                ) == resolve_all(
                    old(self).kind(),
                    sources@,
                    paths,
                    it.index() as nat,
                    Batch { trees: forest(trees@), run: self.run() },
                ),
        {
            assert(paths[it.index()] == path@);
            let ghost had = forest(trees@);
            match self.process(sources, path.as_str()) {
                Err(e) => {
                    return Err(e);
                },
                Ok(tree) => {
                    trees.push(tree);
                    assert(forest(trees@) =~= had.push(tree@));
                },
            }
        }
        Ok(trees)
    }

    /// Loads the source at `path` and resolves it.
    fn process(&mut self, sources: &Sources, path: &str) -> (res: Result<TreeNode, ResolveError>)
        ensures
            match resolve_source(old(self).kind(), sources@, path@, old(self).run()) {
                Ok(done) => {
                    &&& res matches Ok(tree)
                    &&& tree@ == done.tree
                    &&& final(self).run() == done.run
                    &&& final(self).kind() == old(self).kind()
                    &&& final(self).frame() == old(self).frame()
                },
                Err(f) => res matches Err(err) && err@ == f.error && final(self).run().log == f.log,
            },
    ;
}

impl Processor for HtmlProcessor {
    open spec fn kind(&self) -> SourceKindView {
        SourceKindView::Html
    }

    open spec fn run(&self) -> Run {
        Run {
            content: forests(self.content@),
            budget: self.budget as nat,
            log: diagnostics(self.log@),
            scope: self.cfg.vars@,
        }
    }

    open spec fn frame(&self) -> Frame {
        Frame { stack: path_views(self.stack@), out_path: self.cfg.out_path@ }
    }

    /// Loads the HTML source at `path` and resolves it; on success the
    /// stack of paths and the configuration are as before.
    fn process(&mut self, sources: &Sources, path: &str) -> (res: Result<TreeNode, ResolveError>)
        ensures
            delivers(
                *old(self),
                *final(self),
                res,
                resolve_html(sources@, path@, old(self).run()),
            ),
    {
        self.resolve(sources, path)
    }
}

impl Processor for MarkdownProcessor {
    open spec fn kind(&self) -> SourceKindView {
        SourceKindView::Markdown { template: self.template@ }
    }

    /// A Markdown processor holds no captured content.
    open spec fn run(&self) -> Run {
        Run {
            content: Seq::empty(),
            budget: self.budget as nat,
            log: diagnostics(self.log@),
            scope: self.cfg.vars@,
        }
    }

    /// A Markdown processor is never inside a document.
    open spec fn frame(&self) -> Frame {
        Frame { stack: Seq::empty(), out_path: self.cfg.out_path@ }
    }

    /// Loads the Markdown source at `path` and resolves it; on success the
    /// configuration and the template are as before.
    fn process(&mut self, sources: &Sources, path: &str) -> (res: Result<TreeNode, ResolveError>)
        ensures
            match resolve_markdown(sources@, path@, old(self).template@, old(self).run()) {
                Ok(done) => {
                    &&& res matches Ok(tree)
                    &&& tree@ == done.tree
                    &&& final(self).run() == done.run
                    &&& final(self).budget <= old(self).budget
                    &&& final(self).cfg == old(self).cfg
                    &&& final(self).template == old(self).template
                },
                Err(f) => res matches Err(err) && err@ == f.error && final(self).run().log == f.log,
            },
    {
        self.resolve(sources, path)
    }
}

/// Whether a call that was to compute `expected` did so: on success the
/// tree and the state are the expected ones, the stack of paths and the
/// configuration are as before, and the budget has not grown; on failure
/// the error is the expected one and the log holds the warnings up to
/// then.
pub open spec fn delivers(
    before: HtmlProcessor,
    after: HtmlProcessor,
    outcome: Result<TreeNode, ResolveError>,
    expected: Result<Resolved, Failure>,
) -> bool {
    match expected {
        Ok(done) => {
            &&& outcome matches Ok(tree)
            &&& tree@ == done.tree
            &&& after.run() == done.run
            &&& after.stack@ == before.stack@
            &&& after.cfg == before.cfg
            &&& after.budget <= before.budget
        },
        Err(f) => outcome matches Err(err) && err@ == f.error && after.run().log == f.log,
    }
}

impl HtmlProcessor {
    /// The path of the document being worked on.
    pub open spec fn current(&self) -> Seq<char> {
        self.stack@.last()@
    }

    /// A processor at the start of a resolution: nothing captured, nothing
    /// logged, no document entered.
    pub fn new(cfg: ProcessorConfig, budget: usize) -> (p: HtmlProcessor)
        ensures
            p.cfg == cfg,
            p.stack@.len() == 0,
            p.run() == (Run {
                content: Seq::empty(),
                budget: budget as nat,
                log: Seq::empty(),
                scope: cfg.vars@,
            }),
    {
        let p = HtmlProcessor {
            cfg,
            stack: Vec::new(),
            content: Vec::new(),
            budget,
            log: Vec::new(),
        };
        assert(forests(p.content@) =~= Seq::<Seq<Tree>>::empty());
        assert(diagnostics(p.log@) =~= Seq::<DiagnosticView>::empty());
        p
    }

    /// Adds a warning to the log.
    fn warn(&mut self, warning: Diagnostic)
        ensures
            final(self).run() == old(self).run().note(warning@),
            final(self).stack == old(self).stack,
            final(self).cfg == old(self).cfg,
            final(self).budget == old(self).budget,
            final(self).content == old(self).content,
    {
        self.log.push(warning);
        assert(diagnostics(self.log@) =~= diagnostics(old(self).log@).push(warning@));
    }

    /// The path of the document being worked on.
    fn here(&self) -> (path: String)
        requires
            self.stack@.len() > 0,
        ensures
            path@ == self.current(),
    {
        self.stack[self.stack.len() - 1].clone()
    }

    /// Loads the HTML source at `path` and resolves it.
    pub fn resolve(&mut self, sources: &Sources, path: &str) -> (res: Result<
        TreeNode,
        ResolveError,
    >)
        ensures
            delivers(
                *old(self),
                *final(self),
                res,
                resolve_html(sources@, path@, old(self).run()),
            ),
        decreases old(self).budget, 0nat, Seq::<Tree>::empty(), 0nat,
    {
        if self.budget == 0 {
            return Err(ResolveError::Exhausted { path: path.to_owned() });
        }
        match sources.get(path) {
            None => Err(ResolveError::Unreadable { path: path.to_owned() }),
            Some(text) => {
                let doc = match load_html(text.as_str()) {
                    Some(doc) => doc,
                    None => {
                        return Err(ResolveError::TooLarge { path: path.to_owned() });
                    },
                };
                self.budget = self.budget - 1;
                assert(self.run() == old(self).run().spend());
                self.markdown(sources, path, doc)
            },
        }
    }

    /// Resolves the loaded document `handle`, which came from `path`.
    pub fn markdown(&mut self, sources: &Sources, path: &str, handle: TreeNode) -> (res: Result<
        TreeNode,
        ResolveError,
    >)
        ensures
            delivers(
                *old(self),
                *final(self),
                res,
                resolve_document(sources@, path@, handle@, old(self).run()),
            ),
        decreases old(self).budget, 2nat, Seq::<Tree>::empty(), 1nat,
    {
        self.stack.push(path.to_owned());
        assert(self.run() == old(self).run());
        let inner = self.process_inner(sources, handle);
        if inner.is_ok() {
            self.stack.pop();
            assert(self.stack@ =~= old(self).stack@);
        }
        inner
    }

    fn process_inner(&mut self, sources: &Sources, handle: TreeNode) -> (res: Result<
        TreeNode,
        ResolveError,
    >)
        requires
            old(self).stack@.len() > 0,
        ensures
            delivers(
                *old(self),
                *final(self),
                res,
                resolve_document(sources@, old(self).current(), handle@, old(self).run()),
            ),
        decreases old(self).budget, 2nat, Seq::<Tree>::empty(), 0nat,
    {
        proof {
            lemma_view_children(&handle);
        }
        let is_document = match &handle.data {
            Payload::Document => true,
            _ => false,
        };
        if is_document && handle.children.len() == 1 {
            assert(handle@.children[0] == handle.children@[0]@);
            let is_wrap = match classify(&handle.children[0]) {
                Some(Directive::Wrap) => true,
                _ => false,
            };
            if is_wrap {
                let TreeNode { data, attrs, children } = handle;
                let mut children = children;
                let wrap = children.pop().unwrap();
                proof {
                    lemma_view_children(&wrap);
                }
                match find_attr(&wrap.attrs, "src") {
                    None => {
                        return Err(ResolveError::MissingSrc { path: self.here() });
                    },
                    Some(src) => {
                        self.content.push(wrap.children);
                        assert(forests(self.content@) =~= forests(old(self).content@).push(
                            forest(wrap.children@),
                        ));
                        return self.resolve(sources, src.as_str());
                    },
                }
            }
        }
        self.traverse(sources, handle)
    }

    /// Rewrites the tree below `node`.
    fn traverse(&mut self, sources: &Sources, node: TreeNode) -> (res: Result<
        TreeNode,
        ResolveError,
    >)
        requires
            old(self).stack@.len() > 0,
        ensures
            delivers(
                *old(self),
                *final(self),
                res,
                rewrite(sources@, old(self).current(), node@, old(self).run()),
            ),
        decreases old(self).budget, 1nat, node@.children, node@.children.len() + 1,
    {
        proof {
            lemma_view_children(&node);
        }
        let ghost tree = node@;
        let ghost path = self.current();
        let ghost start = self.run();
        let TreeNode { data, attrs, children } = node;
        let ghost kids = forest(children@);
        let mut out: Vec<TreeNode> = Vec::new();
        let mut redo = false;
        assert(forest(out@) =~= Seq::<Tree>::empty());
        for child in it: children
            invariant
                it.seq() == children@,
                kids == forest(children@),
                kids == tree.children,
                tree == node@,
                self.stack@ == old(self).stack@,
                self.stack@.len() > 0,
                path == self.current(),
                self.cfg == old(self).cfg,
                self.budget <= old(self).budget,
                start == old(self).run(),
                pass(
                    sources@,
                    path,
                    kids,
                    0,
                    Pass { nodes: Seq::empty(), redo: false, run: start },
                ) == pass(
                    sources@,
                    path,
                    kids,
                    it.index() as nat,
                    Pass { nodes: forest(out@), redo, run: self.run() },
                ),
        {
            assert(kids[it.index()] == child@);
            assert(decreases_to!(tree.children => tree.children[it.index()].children));
            let ghost before = self.run();
            let ghost had = forest(out@);
            let ghost step = expand(sources@, path, child@, before);
            let ghost so_far = Pass { nodes: had, redo, run: before };
            assert(pass(sources@, path, kids, it.index() as nat, so_far) == match step {
                Err(e) => Err(e),
                Ok(step) => pass(
                    sources@,
                    path,
                    kids,
                    (it.index() + 1) as nat,
                    Pass {
                        nodes: so_far.nodes + step.nodes,
                        redo: so_far.redo || step.redo,
                        run: step.run.capped(so_far.run.budget),
                    },
                ),
            });
            match self.expand(sources, child, &mut out) {
                Err(e) => {
                    return Err(e);
                },
                Ok(spliced) => {
                    redo = redo || spliced;
                    assert(self.run().capped(before.budget) == self.run());
                },
            }
        }
        let rebuilt = TreeNode { data, attrs, children: out };
        proof {
            lemma_view_children(&rebuilt);
            assert(rebuilt@ == Tree { children: forest(out@), ..tree });
            assert(self.run().capped(start.budget) == self.run());
        }
        if !redo {
            Ok(rebuilt)
        } else if self.budget == 0 {
            Err(ResolveError::Exhausted { path: self.here() })
        } else {
            self.budget = self.budget - 1;
            self.traverse(sources, rebuilt)
        }
    }

    /// Works out what `child` becomes in a pass and appends it to `out`.
    /// Returns whether anything was spliced in.
    fn expand(&mut self, sources: &Sources, child: TreeNode, out: &mut Vec<TreeNode>) -> (res:
        Result<bool, ResolveError>)
        requires
            old(self).stack@.len() > 0,
        ensures
            match expand(sources@, old(self).current(), child@, old(self).run()) {
                Ok(step) => {
                    &&& res matches Ok(redo)
                    &&& redo == step.redo
                    &&& forest(final(out)@) == forest(old(out)@) + step.nodes
                    &&& final(self).run() == step.run
                    &&& final(self).stack@ == old(self).stack@
                    &&& final(self).cfg == old(self).cfg
                    &&& final(self).budget <= old(self).budget
                },
                Err(f) => res matches Err(err) && err@ == f.error && final(self).run().log == f.log,
            },
        decreases old(self).budget, 1nat, child@.children, child@.children.len() + 2,
    {
        proof {
            lemma_view_children(&child);
        }
        match classify(&child) {
            Some(Directive::Wrap) => {
                let path = self.here();
                self.warn(Diagnostic::StrayWrap { path });
                assert(forest(out@) =~= forest(old(out)@) + Seq::<Tree>::empty());
                Ok(false)
            },
            Some(Directive::Slot) => {
                match self.content.pop() {
                    None => {
                        let path = self.here();
                        self.warn(Diagnostic::EmptySlot { path });
                        assert(forest(out@) =~= forest(old(out)@) + Seq::<Tree>::empty());
                        Ok(false)
                    },
                    Some(captured) => {
                        let mut captured = captured;
                        assert(forests(old(self).content@).last() == forest(captured@));
                        assert(forests(self.content@) =~= forests(old(self).content@).drop_last());
                        let ghost filling = forest(captured@);
                        out.append(&mut captured);
                        assert(forest(out@) =~= forest(old(out)@) + filling);
                        Ok(true)
                    },
                }
            },
            Some(Directive::Include) => {
                match find_attr(&child.attrs, "src") {
                    None => Err(ResolveError::MissingSrc { path: self.here() }),
                    Some(src) => {
                        let resolved = if names_html(src.as_str()) {
                            self.resolve(sources, src.as_str())
                        } else if names_markdown(src.as_str()) {
                            self.include_markdown(sources, src.as_str())
                        } else {
                            match sources.get(src.as_str()) {
                                Some(text) => Ok(TreeNode::text(text)),
                                None => Err(ResolveError::Unreadable { path: src }),
                            }
                        };
                        match resolved {
                            Err(e) => Err(e),
                            Ok(tree) => {
                                proof {
                                    lemma_view_children(&tree);
                                }
                                let is_document = match &tree.data {
                                    Payload::Document => true,
                                    _ => false,
                                };
                                if is_document {
                                    let mut nodes = tree.children;
                                    out.append(&mut nodes);
                                    assert(forest(out@) =~= forest(old(out)@) + tree@.children);
                                } else {
                                    out.push(tree);
                                    assert(forest(out@) =~= forest(old(out)@) + seq![tree@]);
                                }
                                Ok(true)
                            },
                        }
                    },
                }
            },
            Some(Directive::Unknown(tag)) => {
                let path = self.here();
                self.warn(Diagnostic::UnknownDirective { path, tag });
                match self.traverse(sources, child) {
                    Err(e) => Err(e),
                    Ok(kept) => {
                        out.push(kept);
                        assert(forest(out@) =~= forest(old(out)@) + seq![kept@]);
                        Ok(false)
                    },
                }
            },
            None => {
                match self.traverse(sources, child) {
                    Err(e) => Err(e),
                    Ok(kept) => {
                        out.push(kept);
                        assert(forest(out@) =~= forest(old(out)@) + seq![kept@]);
                        Ok(false)
                    },
                }
            },
        }
    }

    /// Resolves the Markdown source at `path`, without a layout, for an
    /// `include` directive.
    fn include_markdown(&mut self, sources: &Sources, path: &str) -> (res: Result<
        TreeNode,
        ResolveError,
    >)
        ensures
            delivers(
                *old(self),
                *final(self),
                res,
                resolve_markdown(sources@, path@, Seq::empty(), old(self).run()),
            ),
        decreases old(self).budget, 0nat, Seq::<Tree>::empty(), 1nat,
    {
        let mut log: Vec<Diagnostic> = Vec::new();
        std::mem::swap(&mut self.log, &mut log);
        let mut inner = MarkdownProcessor {
            cfg: self.cfg.clone(),
            template: String::new(),
            budget: self.budget,
            log,
        };
        let res = inner.resolve(sources, path);
        self.budget = inner.budget;
        self.log = inner.log;
        res
    }
}

impl MarkdownProcessor {
    /// A processor at the start of a resolution.
    pub fn new(cfg: ProcessorConfig, template: String, budget: usize) -> (p: MarkdownProcessor)
        ensures
            p.cfg == cfg,
            p.template == template,
            p.run() == (Run {
                content: Seq::empty(),
                budget: budget as nat,
                log: Seq::empty(),
                scope: cfg.vars@,
            }),
    {
        let p = MarkdownProcessor { cfg, template, budget, log: Vec::new() };
        assert(diagnostics(p.log@) =~= Seq::<DiagnosticView>::empty());
        p
    }

    /// Loads the Markdown source at `path` and resolves it: the binding
    /// lines extend the scope, the body is rendered and, if the processor
    /// has a template, wrapped for it.
    pub fn resolve(&mut self, sources: &Sources, path: &str) -> (res: Result<
        TreeNode,
        ResolveError,
    >)
        ensures
            match resolve_markdown(sources@, path@, old(self).template@, old(self).run()) {
                Ok(done) => {
                    &&& res matches Ok(tree)
                    &&& tree@ == done.tree
                    &&& final(self).run() == done.run
                    &&& final(self).budget <= old(self).budget
                    &&& final(self).cfg == old(self).cfg
                    &&& final(self).template == old(self).template
                },
                Err(f) => res matches Err(err) && err@ == f.error && final(self).run().log == f.log,
            },
        decreases old(self).budget, 0nat, Seq::<Tree>::empty(), 0nat,
    {
        if self.budget == 0 {
            return Err(ResolveError::Exhausted { path: path.to_owned() });
        }
        match sources.get(path) {
            None => Err(ResolveError::Unreadable { path: path.to_owned() }),
            Some(text) => {
                let loaded = match load_markdown(text.as_str(), self.template.as_str()) {
                    Some(loaded) => loaded,
                    None => {
                        return Err(ResolveError::TooLarge { path: path.to_owned() });
                    },
                };
                let cfg = ProcessorConfig {
                    out_path: self.cfg.out_path.clone(),
                    vars: self.cfg.vars.combine(loaded.vars),
                };
                let mut log: Vec<Diagnostic> = Vec::new();
                std::mem::swap(&mut self.log, &mut log);
                let mut inner = HtmlProcessor {
                    cfg,
                    stack: Vec::new(),
                    content: Vec::new(),
                    budget: self.budget - 1,
                    log,
                };
                assert(forests(inner.content@) =~= Seq::<Seq<Tree>>::empty());
                let res = inner.markdown(sources, path, loaded.doc);
                self.budget = inner.budget;
                self.log = inner.log;
                res
            },
        }
    }
}

} // verus!
