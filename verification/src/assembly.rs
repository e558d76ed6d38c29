//! Output assembly: which destination each source file gets, and the
//! write-back commands that a target's resolved sources make.

use vstd::prelude::*;
use vstd::string::StringExecFns;
use crate::dom::{html_text, serializable};
use crate::parser::serialize;
use crate::config::Source;
use crate::processor::{
    diagnostics,
    path_views,
    resolve_all,
    Batch,
    HtmlProcessor,
    MarkdownProcessor,
    Processor,
    ProcessorConfig,
    SourceKindView,
};
use crate::scope::VarStack;
use crate::resolve::{
    Diagnostic,
    DiagnosticView,
    Failure,
    ResolveError,
    ResolveErrorView,
    Run,
};
use crate::source::Sources;
use crate::text::{chars_of, ends_with, has_suffix, string_of};
use crate::tree::{forest, Tree, TreeNode};
use crate::writer::{CommandView, Enqueuer};

verus! {

/// Why a target could not be built, as contracts see it.
pub enum BuildErrorView {
    NoFileName { path: Seq<char> },
    Resolve(ResolveErrorView),
    NotSerializable { path: Seq<char> },
    Unsupported { src: Seq<char> },
}

/// Why a target could not be built.
#[derive(Debug, PartialEq, Eq)]
pub enum BuildError {
    /// The source path has no final component to name its output after.
    NoFileName { path: String },
    /// A source could not be resolved.
    Resolve(ResolveError),
    /// The tree that the source at `path` resolved to cannot be written
    /// as HTML.
    NotSerializable { path: String },
    /// The kind of source configured for `src` is reserved and cannot be
    /// built.
    Unsupported { src: String },
}

impl View for BuildError {
    type V = BuildErrorView;

    open spec fn view(&self) -> BuildErrorView {
        match self {
            BuildError::NoFileName { path } => BuildErrorView::NoFileName { path: path@ },
            BuildError::Resolve(e) => BuildErrorView::Resolve(e@),
            BuildError::NotSerializable { path } => BuildErrorView::NotSerializable { path: path@ },
            BuildError::Unsupported { src } => BuildErrorView::Unsupported { src: src@ },
        }
    }
}

/// The final component of the path `path`, if it has one, as
/// `std::path::Path::file_name` finds it by the path rules of the platform
/// that the program is built for.
pub uninterp spec fn path_file_name(path: Seq<char>) -> Option<Seq<char>>;

/// The path `base` with the path `name` adjoined, as `std::path::Path::join`
/// makes it by the path rules of the platform that the program is built
/// for.
pub uninterp spec fn path_joined(base: Seq<char>, name: Seq<char>) -> Seq<char>;

/// `std::path::Path::file_name` of `path`, read back as text: a component
/// of a path that was made from text is text.
#[verifier::external_body]
fn file_name_of(path: &str) -> (name: Option<String>)
    ensures
        match path_file_name(path@) {
            Some(n) => name matches Some(found) && found@ == n,
            None => name is None,
        },
{
    std::path::Path::new(path).file_name().map(|name| name.to_string_lossy().to_string())
}

/// `std::path::Path::join` of `base` and `name`, read back as text: a path
/// joined from text is text.
#[verifier::external_body]
fn join_path(base: &str, name: &str) -> (joined: String)
    ensures
        joined@ == path_joined(base@, name@),
{
    std::path::Path::new(base).join(name).to_string_lossy().to_string()
}

/// The name that an output file gets: `.html` in place of a final `.md`.
pub open spec fn renamed(file: Seq<char>) -> Seq<char> {
    if ends_with(file, ".md"@) {
        file.take(file.len() - ".md"@.len()) + ".html"@
    } else {
        file
    }
}

/// A renamed file never ends in `.md`.
pub proof fn lemma_renamed_is_no_markdown(file: Seq<char>)
    ensures
        !ends_with(renamed(file), ".md"@),
{
    reveal_strlit(".md");
    reveal_strlit(".html");
    let out = renamed(file);
    if ends_with(file, ".md"@) {
        if ends_with(out, ".md"@) {
            assert(out.skip(out.len() - 3)[2] == 'd');
            assert(out[out.len() - 1] == ".html"@[4]);
        }
    }
}

/// `file`, with `.html` in place of a final `.md`.
pub fn rename_markdown(file: String) -> (out: String)
    ensures
        out@ == renamed(file@),
{
    let chars = chars_of(file.as_str());
    let suffix = chars_of(".md");
    if has_suffix(&chars, &suffix) {
        let mut out = string_of(&chars, 0, chars.len() - suffix.len());
        out.append(".html");
        out
    } else {
        file
    }
}

/// Where a file lands under the output name `output`: the output name
/// joined with the file's own name, renamed if `rename` says so. A path
/// without a file name lands nowhere.
pub open spec fn placed(output: Seq<char>, path: Seq<char>, rename: bool) -> Option<Seq<char>> {
    match path_file_name(path) {
        None => None,
        Some(name) => Some(
            if rename {
                renamed(path_joined(output, name))
            } else {
                path_joined(output, name)
            },
        ),
    }
}

/// Where the files at `paths` from position `i` on land under `output`,
/// after those in `so_far`; the first path without a file name is an error.
pub open spec fn all_placed(
    output: Seq<char>,
    paths: Seq<Seq<char>>,
    rename: bool,
    i: nat,
    so_far: Seq<Seq<char>>,
) -> Result<Seq<Seq<char>>, BuildErrorView>
    decreases paths.len() - i,
{
    if i >= paths.len() {
        Ok(so_far)
    } else {
        match placed(output, paths[i as int], rename) {
            None => Err(BuildErrorView::NoFileName { path: paths[i as int] }),
            Some(dest) => all_placed(output, paths, rename, i + 1, so_far.push(dest)),
        }
    }
}

/// The destinations of the sources at `paths` for the output name
/// `output`: no source, no destination; one source, the output name
/// itself; several sources, each its own file name under the output name,
/// renamed.
pub open spec fn destinations_of(output: Seq<char>, paths: Seq<Seq<char>>) -> Result<
    Seq<Seq<char>>,
    BuildErrorView,
> {
    if paths.len() == 0 {
        Ok(Seq::empty())
    } else if paths.len() == 1 {
        Ok(seq![output])
    } else {
        all_placed(output, paths, true, 0, Seq::empty())
    }
}

/// Where the file at `path` lands under the output name `output`.
pub fn destination(output: &str, path: &str, rename: bool) -> (res: Result<String, BuildError>)
    ensures
        match placed(output@, path@, rename) {
            Some(dest) => res matches Ok(d) && d@ == dest,
            None => res matches Err(e) && e@ == (BuildErrorView::NoFileName { path: path@ }),
        },
{
    match file_name_of(path) {
        None => Err(BuildError::NoFileName { path: path.to_owned() }),
        Some(name) => {
            let joined = join_path(output, name.as_str());
            if rename {
                Ok(rename_markdown(joined))
            } else {
                Ok(joined)
            }
        },
    }
}

/// Where each of `files` lands under the output name `output`.
pub fn place_all(output: &str, files: &Vec<String>, rename: bool) -> (res: Result<
    Vec<String>,
    BuildError,
>)
    ensures
        match all_placed(output@, path_views(files@), rename, 0, Seq::empty()) {
            Ok(dests) => res matches Ok(d) && path_views(d@) == dests,
            Err(e) => res matches Err(err) && err@ == e,
        },
{
    let mut dests: Vec<String> = Vec::new();
    let ghost paths = path_views(files@);
    let mut i: usize = 0;
    assert(path_views(dests@) =~= Seq::<Seq<char>>::empty());
    while i < files.len()
        invariant
            i <= files.len(),
            paths == path_views(files@),
            all_placed(output@, paths, rename, 0, Seq::empty()) == all_placed(
                output@,
                paths,
                rename,
                i as nat,
                path_views(dests@),
            ),
        decreases files.len() - i,
    {
        assert(paths[i as int] == files@[i as int]@);
        let ghost had = path_views(dests@);
        match destination(output, files[i].as_str(), rename) {
            Err(e) => {
                return Err(e);
            },
            Ok(dest) => {
                dests.push(dest);
                assert(path_views(dests@) =~= had.push(dest@));
            },
        }
        i = i + 1;
    }
    Ok(dests)
}

/// The destinations of the sources at `files` for the output name
/// `output`, in the order of the sources.
pub fn destinations(output: &str, files: &Vec<String>) -> (res: Result<Vec<String>, BuildError>)
    ensures
        match destinations_of(output@, path_views(files@)) {
            Ok(dests) => res matches Ok(d) && path_views(d@) == dests,
            Err(e) => res matches Err(err) && err@ == e,
        },
{
    if files.len() == 0 {
        let dests: Vec<String> = Vec::new();
        assert(path_views(dests@) =~= Seq::<Seq<char>>::empty());
        Ok(dests)
    } else if files.len() == 1 {
        let mut dests: Vec<String> = Vec::new();
        dests.push(output.to_owned());
        assert(path_views(dests@) =~= seq![output@]);
        Ok(dests)
    } else {
        place_all(output, files, true)
    }
}

/// Placing files gives one destination for each.
pub proof fn lemma_all_placed_len(
    output: Seq<char>,
    paths: Seq<Seq<char>>,
    rename: bool,
    i: nat,
    so_far: Seq<Seq<char>>,
)
    requires
        i <= paths.len(),
    ensures
        all_placed(output, paths, rename, i, so_far) matches Ok(dests) ==> dests.len()
            == so_far.len() + paths.len() - i,
    decreases paths.len() - i,
{
    if i < paths.len() {
        match placed(output, paths[i as int], rename) {
            None => {},
            Some(dest) => {
                lemma_all_placed_len(output, paths, rename, i + 1, so_far.push(dest));
            },
        }
    }
}

/// A build that failed: why, and the warnings up to then.
pub struct BuildFailure {
    pub error: BuildErrorView,
    pub log: Seq<DiagnosticView>,
}

/// The position of the first tree that cannot be serialized, or the length
/// of the list.
pub open spec fn first_unserializable(trees: Seq<Tree>, from: int) -> int
    decreases trees.len() - from,
{
    if 0 <= from < trees.len() && serializable(trees[from]) {
        first_unserializable(trees, from + 1)
    } else if from < trees.len() {
        from
    } else {
        trees.len() as int
    }
}

/// The commands that write each tree, serialized, to its destination.
pub open spec fn writes(dests: Seq<Seq<char>>, trees: Seq<Tree>) -> Seq<CommandView> {
    Seq::new(trees.len(), |i: int| CommandView::Write(dests[i], html_text(trees[i])))
}

/// What building a target from the sources at `paths` for the destinations
/// `dests` comes to: the commands to enqueue and the state afterwards, or
/// the first failure. Every source is resolved before any tree is
/// serialized.
pub open spec fn assembled(
    kind: SourceKindView,
    sources: Map<Seq<char>, Seq<char>>,
    paths: Seq<Seq<char>>,
    dests: Seq<Seq<char>>,
    run: Run,
) -> Result<(Seq<CommandView>, Run), BuildFailure> {
    match resolve_all(kind, sources, paths, 0, Batch { trees: Seq::empty(), run }) {
        Err(f) => Err(BuildFailure { error: BuildErrorView::Resolve(f.error), log: f.log }),
        Ok(all) => {
            let bad = first_unserializable(all.trees, 0);
            if bad < all.trees.len() {
                Err(
                    BuildFailure {
                        error: BuildErrorView::NotSerializable { path: paths[bad] },
                        log: all.run.log,
                    },
                )
            } else {
                Ok((writes(dests, all.trees), all.run))
            }
        },
    }
}

/// Whether a call that was to assemble `expected` did so: on success the
/// commands were enqueued in order and the processor is in the expected
/// state; on failure the error is the expected one, nothing was enqueued
/// and the processor's log holds the warnings up to then.
pub open spec fn assembly_delivered(
    after: Run,
    queue_before: Seq<CommandView>,
    queue_after: Seq<CommandView>,
    failed: Option<BuildError>,
    expected: Result<(Seq<CommandView>, Run), BuildFailure>,
) -> bool {
    match expected {
        Ok((commands, run)) => {
            &&& failed is None
            &&& queue_after == queue_before + commands
            &&& after == run
        },
        Err(f) => {
            &&& failed matches Some(err)
            &&& err@ == f.error
            &&& queue_after == queue_before
            &&& after.log == f.log
        },
    }
}

/// A copy of a list of paths.
fn copy_paths(paths: &Vec<String>) -> (copy: Vec<String>)
    ensures
        path_views(copy@) == path_views(paths@),
        copy.len() == paths.len(),
{
    let mut copy: Vec<String> = Vec::new();
    let mut i: usize = 0;
    while i < paths.len()
        invariant
            i <= paths.len(),
            copy.len() == i,
            forall|j: int| 0 <= j < i ==> copy@[j]@ == paths@[j]@,
        decreases paths.len() - i,
    {
        copy.push(paths[i].clone());
        i = i + 1;
    }
    assert(path_views(copy@) =~= path_views(paths@));
    copy
}

/// Resolves the sources at `files` with `p`, serializes the trees and
/// enqueues the writing of each to its destination in `dests`.
pub fn assemble<P: Processor>(
    p: &mut P,
    sources: &Sources,
    files: Vec<String>,
    dests: Vec<String>,
    writer: &mut Enqueuer,
) -> (res: Result<(), BuildError>)
    requires
        dests.len() == files.len(),
    ensures
        res is Ok ==> final(p).kind() == old(p).kind() && final(p).frame() == old(p).frame(),
        assembly_delivered(
            final(p).run(),
            old(writer)@,
            final(writer)@,
            failure(res),
            assembled(
                old(p).kind(),
                sources@,
                path_views(files@),
                path_views(dests@),
                old(p).run(),
            ),
        ),
{
    let ghost paths = path_views(files@);
    let ghost targets = path_views(dests@);
    let ghost start = Batch { trees: Seq::empty(), run: old(p).run() };
    let names = copy_paths(&files);
    let resolved = if files.len() == 1 {
        let mut files = files;
        let only = files.pop().unwrap();
        assert(paths[0] == only@);
        match p.one(sources, only) {
            Err(e) => Err(e),
            Ok(tree) => {
                let mut trees: Vec<TreeNode> = Vec::new();
                trees.push(tree);
                proof {
                    let done = crate::processor::resolve_source(
                        old(p).kind(),
                        sources@,
                        paths[0],
                        old(p).run(),
                    )->Ok_0;
                    let next = Batch { trees: start.trees.push(done.tree), run: done.run };
                    assert(resolve_all(old(p).kind(), sources@, paths, 0, start) == resolve_all(
                        old(p).kind(),
                        sources@,
                        paths,
                        1,
                        next,
                    ));
                    assert(resolve_all(old(p).kind(), sources@, paths, 1, next) == Ok::<Batch, Failure>(next));
                    assert(forest(trees@) =~= next.trees);
                }
                Ok(trees)
            },
        }
    } else {
        p.many(sources, files)
    };
    let trees = match resolved {
        Err(e) => {
            return Err(BuildError::Resolve(e));
        },
        Ok(trees) => trees,
    };
    let ghost all = resolve_all(old(p).kind(), sources@, paths, 0, start)->Ok_0;
    proof {
        lemma_resolve_all_len(old(p).kind(), sources@, paths, 0, start);
    }
    assert(trees.len() == forest(trees@).len());
    let mut texts: Vec<String> = Vec::new();
    let mut i: usize = 0;
    while i < trees.len()
        invariant
            i <= trees.len(),
            trees.len() == names.len(),
            forest(trees@) == all.trees,
            path_views(names@) == paths,
            texts.len() == i,
            writer@ == old(writer)@,
            p.run() == all.run,
            paths == path_views(files@),
            start == (Batch { trees: Seq::empty(), run: old(p).run() }),
            resolve_all(old(p).kind(), sources@, paths, 0, start) == Ok::<Batch, Failure>(
                all,
            ),
            first_unserializable(all.trees, 0) == first_unserializable(all.trees, i as int),
            forall|j: int| 0 <= j < i ==> (#[trigger] texts@[j])@ == html_text(all.trees[j]),
        decreases trees.len() - i,
    {
        assert(all.trees[i as int] == trees@[i as int]@);
        match serialize(&trees[i]) {
            None => {
                assert(first_unserializable(all.trees, i as int) == i);
                assert(paths[i as int] == names@[i as int]@);
                return Err(BuildError::NotSerializable { path: names[i].clone() });
            },
            Some(text) => {
                texts.push(text);
            },
        }
        i = i + 1;
    }
    let ghost commands = writes(targets, all.trees);
    let mut k: usize = 0;
    assert(commands.take(0) =~= Seq::<CommandView>::empty());
    assert(old(writer)@ + commands.take(0) =~= old(writer)@);
    while k < texts.len()
        invariant
            k <= texts.len(),
            texts.len() == dests.len(),
            texts.len() == all.trees.len(),
            targets == path_views(dests@),
            paths == path_views(files@),
            start == (Batch { trees: Seq::empty(), run: old(p).run() }),
            resolve_all(old(p).kind(), sources@, paths, 0, start) == Ok::<Batch, Failure>(
                all,
            ),
            first_unserializable(all.trees, 0) == all.trees.len(),
            p.run() == all.run,
            p.kind() == old(p).kind(),
            p.frame() == old(p).frame(),
            commands == writes(targets, all.trees),
            forall|j: int|
                0 <= j < texts.len() ==> (#[trigger] texts@[j])@ == html_text(all.trees[j]),
            writer@ == old(writer)@ + commands.take(k as int),
        decreases texts.len() - k,
    {
        assert(targets[k as int] == dests@[k as int]@);
        writer.file(dests[k].clone(), texts[k].clone());
        assert(commands.take(k + 1) =~= commands.take(k as int).push(commands[k as int]));
        assert(old(writer)@ + commands.take(k + 1) =~= (old(writer)@ + commands.take(
            k as int,
        )).push(commands[k as int]));
        k = k + 1;
    }
    assert(commands.take(texts.len() as int) =~= commands);
    Ok(())
}

/// The error of a result, if it is one.
pub open spec fn failure<T>(res: Result<T, BuildError>) -> Option<BuildError> {
    match res {
        Ok(_) => None,
        Err(e) => Some(e),
    }
}

/// What building a target from the sources at `paths` under the output
/// name `output` comes to: the commands to enqueue and the state
/// afterwards, or the first failure. Without sources there is nothing to
/// do.
pub open spec fn target(
    kind: SourceKindView,
    output: Seq<char>,
    paths: Seq<Seq<char>>,
    sources: Map<Seq<char>, Seq<char>>,
    run: Run,
) -> Result<(Seq<CommandView>, Run), BuildFailure> {
    if paths.len() == 0 {
        Ok((Seq::empty(), run))
    } else {
        match destinations_of(output, paths) {
            Err(e) => Err(BuildFailure { error: e, log: run.log }),
            Ok(dests) => assembled(kind, sources, paths, dests, run),
        }
    }
}

/// Builds one target: resolves the sources at `files` with `p` and
/// enqueues the writing of each result to its destination under the output
/// name `output`. Returns whether there was anything to build. On failure
/// nothing is enqueued, and the log of `p` holds the warnings up to then.
pub fn process<P: Processor>(
    files: Vec<String>,
    output: &str,
    writer: &mut Enqueuer,
    p: &mut P,
    sources: &Sources,
) -> (res: Result<bool, BuildError>)
    ensures
        res matches Ok(written) ==> written == (files.len() > 0) && final(p).kind() == old(
            p,
        ).kind() && final(p).frame() == old(p).frame(),
        assembly_delivered(
            final(p).run(),
            old(writer)@,
            final(writer)@,
            failure(res),
            target(old(p).kind(), output@, path_views(files@), sources@, old(p).run()),
        ),
{
    if files.len() == 0 {
        assert(old(writer)@ + Seq::<CommandView>::empty() =~= old(writer)@);
        return Ok(false);
    }
    let dests = match destinations(output, &files) {
        Err(e) => {
            return Err(e);
        },
        Ok(dests) => dests,
    };
    proof {
        lemma_all_placed_len(output@, path_views(files@), true, 0, Seq::empty());
    }
    assert(dests.len() == path_views(dests@).len());
    assert(files.len() == path_views(files@).len());
    match assemble(p, sources, files, dests, writer) {
        Err(e) => Err(e),
        Ok(()) => Ok(true),
    }
}

/// A target that is built has one write for each of its sources, in the
/// order of the sources.
pub proof fn lemma_one_write_for_each_source(
    kind: SourceKindView,
    output: Seq<char>,
    paths: Seq<Seq<char>>,
    sources: Map<Seq<char>, Seq<char>>,
    run: Run,
)
    ensures
        target(kind, output, paths, sources, run) matches Ok(built) ==> built.0.len()
            == paths.len() && forall|i: int|
            0 <= i < paths.len() ==> (#[trigger] built.0[i]) is Write,
{
    if paths.len() > 0 {
        lemma_resolve_all_len(
            kind,
            sources,
            paths,
            0,
            Batch { trees: Seq::empty(), run },
        );
    }
}

/// The commands that copy each file to its destination.
pub open spec fn copies(froms: Seq<Seq<char>>, tos: Seq<Seq<char>>) -> Seq<CommandView> {
    Seq::new(froms.len(), |i: int| CommandView::Copy(froms[i], tos[i]))
}

/// Enqueues the copying of each file of `files` to the destination at the
/// same position of `tos`.
pub fn enqueue_copies(files: &Vec<String>, tos: &Vec<String>, writer: &mut Enqueuer)
    requires
        files.len() == tos.len(),
    ensures
        final(writer)@ == old(writer)@ + copies(path_views(files@), path_views(tos@)),
{
    let ghost commands = copies(path_views(files@), path_views(tos@));
    let mut k: usize = 0;
    assert(old(writer)@ + commands.take(0) =~= old(writer)@);
    while k < files.len()
        invariant
            k <= files.len(),
            files.len() == tos.len(),
            commands == copies(path_views(files@), path_views(tos@)),
            writer@ == old(writer)@ + commands.take(k as int),
        decreases files.len() - k,
    {
        assert(path_views(files@)[k as int] == files@[k as int]@);
        assert(path_views(tos@)[k as int] == tos@[k as int]@);
        writer.copy(files[k].clone(), tos[k].clone());
        assert(old(writer)@ + commands.take(k + 1) =~= (old(writer)@ + commands.take(
            k as int,
        )).push(commands[k as int]));
        k = k + 1;
    }
    assert(commands.take(files.len() as int) =~= commands);
}

/// The commands that copy the files at `paths` to files of the same names
/// under `output`, or the first path that has no file name.
pub open spec fn copied(output: Seq<char>, paths: Seq<Seq<char>>) -> Result<
    Seq<CommandView>,
    BuildErrorView,
> {
    match all_placed(output, paths, false, 0, Seq::empty()) {
        Ok(tos) => Ok(copies(paths, tos)),
        Err(e) => Err(e),
    }
}

/// Enqueues the copying of each file of `files` to a file of the same name
/// under `output`. If one of them has no file name, nothing is enqueued.
pub fn copy_all(files: &Vec<String>, output: &str, writer: &mut Enqueuer) -> (res: Result<
    (),
    BuildError,
>)
    ensures
        match copied(output@, path_views(files@)) {
            Ok(commands) => res is Ok && final(writer)@ == old(writer)@ + commands,
            Err(e) => res matches Err(err) && err@ == e && final(writer)@ == old(writer)@,
        },
{
    let tos = match place_all(output, files, false) {
        Err(e) => {
            return Err(e);
        },
        Ok(tos) => tos,
    };
    proof {
        lemma_all_placed_len(output@, path_views(files@), false, 0, Seq::empty());
    }
    assert(tos.len() == path_views(tos@).len());
    assert(files.len() == path_views(files@).len());
    enqueue_copies(files, &tos, writer);
    Ok(())
}

/// What building a target came to.
pub struct Built {
    /// Whether there was anything to build.
    pub written: bool,
    /// The warnings of the resolution, oldest first.
    pub log: Vec<Diagnostic>,
}

/// A build that failed: why, and the warnings that the resolution had
/// gathered up to then, oldest first.
#[derive(Debug, PartialEq, Eq)]
pub struct Failed {
    pub error: BuildError,
    pub log: Vec<Diagnostic>,
}

/// What building a target comes to, as contracts see it: the commands to
/// enqueue, the warnings, and whether there was anything to build.
pub struct BuiltView {
    pub commands: Seq<CommandView>,
    pub log: Seq<DiagnosticView>,
    pub written: bool,
}

/// The state at the start of a resolution with the given budget and
/// scope.
pub open spec fn fresh(budget: nat, scope: Seq<Map<Seq<char>, Seq<char>>>) -> Run {
    Run { content: Seq::empty(), budget, log: Seq::empty(), scope }
}

/// What building the target `output` from the files at `paths` comes to,
/// as `source` asks and from a fresh state with the given scope and
/// budget: HTML and
/// Markdown sources are resolved and written, other files are copied, and
/// the reserved kind of source cannot be built.
pub open spec fn built(
    source: Source,
    scope: Seq<Map<Seq<char>, Seq<char>>>,
    budget: nat,
    output: Seq<char>,
    paths: Seq<Seq<char>>,
    sources: Map<Seq<char>, Seq<char>>,
) -> Result<BuiltView, BuildFailure> {
    match source {
        Source::Html(_) => match target(
            SourceKindView::Html,
            output,
            paths,
            sources,
            fresh(budget, scope),
        ) {
            Ok((commands, run)) => Ok(
                BuiltView { commands, log: run.log, written: paths.len() > 0 },
            ),
            Err(e) => Err(e),
        },
        Source::Md { template, .. } => match target(
            SourceKindView::Markdown { template: template@ },
            output,
            paths,
            sources,
            fresh(budget, scope),
        ) {
            Ok((commands, run)) => Ok(
                BuiltView { commands, log: run.log, written: paths.len() > 0 },
            ),
            Err(e) => Err(e),
        },
        Source::Copy(_) => match copied(output, paths) {
            Ok(commands) => Ok(
                BuiltView { commands, log: Seq::empty(), written: paths.len() > 0 },
            ),
            Err(e) => Err(BuildFailure { error: e, log: Seq::empty() }),
        },
        Source::For(src) => Err(
            BuildFailure { error: BuildErrorView::Unsupported { src: src@ }, log: Seq::empty() },
        ),
    }
}

/// Builds the target `output` from the files that the pattern of `source`
/// matched: HTML and Markdown sources are resolved, with `vars` in scope
/// and the given budget, and written; other files are copied. On failure
/// nothing is enqueued, and the warnings up to then come with the error.
pub fn build(
    output: &str,
    source: &Source,
    files: Vec<String>,
    vars: &VarStack,
    budget: usize,
    sources: &Sources,
    writer: &mut Enqueuer,
) -> (res: Result<Built, Failed>)
    ensures
        match built(*source, vars@, budget as nat, output@, path_views(files@), sources@) {
            Ok(expected) => {
                &&& res matches Ok(done)
                &&& done.written == expected.written
                &&& diagnostics(done.log@) == expected.log
                &&& final(writer)@ == old(writer)@ + expected.commands
            },
            Err(f) => {
                &&& res matches Err(failed)
                &&& failed.error@ == f.error
                &&& diagnostics(failed.log@) == f.log
                &&& final(writer)@ == old(writer)@
            },
        },
{
    let cfg = ProcessorConfig { out_path: output.to_owned(), vars: vars.clone() };
    match source {
        Source::Html(_) => {
            let mut p = HtmlProcessor::new(cfg, budget);
            match process(files, output, writer, &mut p, sources) {
                Err(error) => Err(Failed { error, log: p.log }),
                Ok(written) => Ok(Built { written, log: p.log }),
            }
        },
        Source::Md { template, .. } => {
            let mut p = MarkdownProcessor::new(cfg, template.clone(), budget);
            match process(files, output, writer, &mut p, sources) {
                Err(error) => Err(Failed { error, log: p.log }),
                Ok(written) => Ok(Built { written, log: p.log }),
            }
        },
        Source::Copy(_) => {
            let written = files.len() > 0;
            let log: Vec<Diagnostic> = Vec::new();
            assert(diagnostics(log@) =~= Seq::<DiagnosticView>::empty());
            match copy_all(&files, output, writer) {
                Err(error) => Err(Failed { error, log }),
                Ok(()) => Ok(Built { written, log }),
            }
        },
        Source::For(src) => {
            let log: Vec<Diagnostic> = Vec::new();
            assert(diagnostics(log@) =~= Seq::<DiagnosticView>::empty());
            Err(Failed { error: BuildError::Unsupported { src: src.clone() }, log })
        },
    }
}

/// Resolving the sources from position `i` on adds one tree for each.
proof fn lemma_resolve_all_len(
    kind: SourceKindView,
    sources: Map<Seq<char>, Seq<char>>,
    paths: Seq<Seq<char>>,
    i: nat,
    so_far: Batch,
)
    requires
        i <= paths.len(),
    ensures
        resolve_all(kind, sources, paths, i, so_far) matches Ok(all) ==> all.trees.len()
            == so_far.trees.len() + paths.len() - i,
    decreases paths.len() - i,
{
    if i < paths.len() {
        match crate::processor::resolve_source(kind, sources, paths[i as int], so_far.run) {
            Err(_) => {},
            Ok(done) => {
                lemma_resolve_all_len(
                    kind,
                    sources,
                    paths,
                    i + 1,
                    Batch { trees: so_far.trees.push(done.tree), run: done.run },
                );
            },
        }
    }
}

} // verus!
