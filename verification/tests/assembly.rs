use weaver::assembly::{
    assemble, build, copy_all, destination, destinations, enqueue_copies, place_all, process,
    rename_markdown, BuildError, Failed,
};
use weaver::config::Source;
use weaver::processor::{HtmlProcessor, MarkdownProcessor, ProcessorConfig};
use weaver::resolve::{Diagnostic, ResolveError};
use weaver::scope::VarStack;
use weaver::source::Sources;
use weaver::tree::TreeNode;
use weaver::writer::{Command, Enqueuer};

fn sources_from(files: &[(&str, &str)]) -> Sources {
    let mut sources = Sources::new();
    for (path, text) in files {
        sources.insert(path.to_string(), text.to_string());
    }
    sources
}

fn cfg() -> ProcessorConfig {
    ProcessorConfig { out_path: "out".to_string(), vars: VarStack::default() }
}

fn paths(all: &[&str]) -> Vec<String> {
    all.iter().map(|p| p.to_string()).collect()
}

fn rows(queue: Enqueuer) -> Vec<(String, String, String)> {
    queue
        .into_commands()
        .into_iter()
        .map(|c| match c {
            Command::Write(path, content) => ("write".to_string(), path, content),
            Command::Copy(from, to) => ("copy".to_string(), from, to),
        })
        .collect()
}

fn row(kind: &str, a: &str, b: &str) -> (String, String, String) {
    (kind.to_string(), a.to_string(), b.to_string())
}

#[test]
fn markdown_suffix_becomes_html() {
    assert_eq!(rename_markdown("posts/a.md".to_string()), "posts/a.html");
    assert_eq!(rename_markdown(".md".to_string()), ".html");
    assert_eq!(rename_markdown("a.md.md".to_string()), "a.md.html");
    assert_eq!(rename_markdown("posts/a.html".to_string()), "posts/a.html");
    assert_eq!(rename_markdown("a.mdx".to_string()), "a.mdx");
    assert_eq!(rename_markdown("amd".to_string()), "amd");
    assert_eq!(rename_markdown("a.MD".to_string()), "a.MD");
    assert_eq!(rename_markdown(String::new()), "");
}

#[test]
fn three_sources_get_three_destinations_under_the_output_name() {
    let files = paths(&["content/posts/first.md", "content/posts/second.md", "content/other/third.html"]);
    assert_eq!(
        destinations("posts/", &files),
        Ok(paths(&["posts/first.html", "posts/second.html", "posts/third.html"]))
    );
    assert_eq!(
        destinations("posts", &files),
        Ok(paths(&["posts/first.html", "posts/second.html", "posts/third.html"]))
    );
}

#[test]
fn single_source_goes_to_the_output_name_itself() {
    assert_eq!(destinations("index.html", &paths(&["src/home.md"])), Ok(paths(&["index.html"])));
    assert_eq!(destinations("about.md", &paths(&["x"])), Ok(paths(&["about.md"])));
    assert_eq!(destinations("out", &paths(&[".."])), Ok(paths(&["out"])));
}

#[test]
fn no_source_no_destination() {
    assert_eq!(destinations("out", &vec![]), Ok(vec![]));
}

#[test]
fn source_without_file_name_has_no_destination() {
    assert_eq!(
        destination("out", "a/..", true),
        Err(BuildError::NoFileName { path: "a/..".to_string() })
    );
    assert_eq!(destination("out", "a/b.md", true), Ok("out/b.html".to_string()));
    assert_eq!(destination("out", "a/b.md", false), Ok("out/b.md".to_string()));
    assert_eq!(destination("out/", "b.txt", true), Ok("out/b.txt".to_string()));
    assert_eq!(destination("", "a/b.md", true), Ok("b.html".to_string()));
    assert_eq!(place_all("o", &paths(&["x/a.md", "y/b"]), false), Ok(paths(&["o/a.md", "o/b"])));
    assert_eq!(
        destinations("out", &paths(&["a/x.md", "/", "b/.."])),
        Err(BuildError::NoFileName { path: "/".to_string() })
    );
}

#[test]
fn process_writes_each_source_to_its_destination() {
    let sources = sources_from(&[
        ("src/a.html", "<super:wrap src=\"layout.html\"><p>a</p></super:wrap>"),
        ("src/b.html", "<p>b</p>"),
        ("layout.html", "<main><super:content-slot></super:content-slot></main>"),
    ]);
    let mut queue = Enqueuer::new();
    queue.copy("x".to_string(), "y".to_string());
    let mut p = HtmlProcessor::new(cfg(), 100);
    let res = process(paths(&["src/a.html", "src/b.html"]), "site", &mut queue, &mut p, &sources);
    assert_eq!(res, Ok(true));
    assert_eq!(
        rows(queue),
        vec![
            row("copy", "x", "y"),
            row("write", "site/a.html", "<main><p>a</p></main>"),
            row("write", "site/b.html", "<p>b</p>"),
        ]
    );
    assert_eq!(p.budget, 96);
}

#[test]
fn process_of_one_source_writes_to_the_output_name() {
    let sources = sources_from(&[("src/home.md", ";title: Home\n# Hi"), ("l.html", "<body-part><super:content-slot></super:content-slot></body-part>")]);
    let mut queue = Enqueuer::new();
    let mut p = MarkdownProcessor::new(cfg(), "l.html".to_string(), 100);
    assert_eq!(process(paths(&["src/home.md"]), "index.html", &mut queue, &mut p, &sources), Ok(true));
    assert_eq!(rows(queue), vec![row("write", "index.html", "<body-part><h1>Hi</h1>\n</body-part>")]);
}

#[test]
fn process_without_sources_is_a_skip() {
    let mut queue = Enqueuer::new();
    let mut p = HtmlProcessor::new(cfg(), 5);
    assert_eq!(process(vec![], "out", &mut queue, &mut p, &Sources::new()), Ok(false));
    assert!(rows(queue).is_empty());
    assert_eq!(p.budget, 5);
}

#[test]
fn failure_enqueues_nothing() {
    let sources = sources_from(&[("a.html", "<p>a</p>")]);
    let mut queue = Enqueuer::new();
    let mut p = HtmlProcessor::new(cfg(), 100);
    assert_eq!(
        process(paths(&["a.html", "b.html"]), "out", &mut queue, &mut p, &sources),
        Err(BuildError::Resolve(ResolveError::Unreadable { path: "b.html".to_string() }))
    );
    assert!(rows(queue).is_empty());
    let mut queue = Enqueuer::new();
    let mut p = HtmlProcessor::new(cfg(), 100);
    assert_eq!(
        process(paths(&["a.html", ".."]), "out", &mut queue, &mut p, &sources),
        Err(BuildError::NoFileName { path: "..".to_string() })
    );
    assert!(rows(queue).is_empty());
}

#[test]
fn tree_that_cannot_be_written_is_reported_by_its_source() {
    let sources = sources_from(&[
        ("a.html", "<p>fine</p>"),
        ("b.html", "<div><super:content-slot></super:content-slot></div>"),
    ]);
    let mut queue = Enqueuer::new();
    let mut p = HtmlProcessor::new(cfg(), 100);
    p.content.push(vec![TreeNode::document(vec![])]);
    assert_eq!(
        assemble(&mut p, &sources, paths(&["a.html", "b.html"]), paths(&["1", "2"]), &mut queue),
        Err(BuildError::NotSerializable { path: "b.html".to_string() })
    );
    assert!(rows(queue).is_empty());
}

#[test]
fn assemble_pairs_sources_with_the_given_destinations() {
    let sources = sources_from(&[("a.html", "a"), ("b.html", "b")]);
    let mut queue = Enqueuer::new();
    let mut p = HtmlProcessor::new(cfg(), 100);
    assert_eq!(
        assemble(&mut p, &sources, paths(&["a.html", "b.html"]), paths(&["x/1", "y/2"]), &mut queue),
        Ok(())
    );
    assert_eq!(rows(queue), vec![row("write", "x/1", "a"), row("write", "y/2", "b")]);
}

#[test]
fn copies_keep_the_file_name() {
    let mut queue = Enqueuer::new();
    assert_eq!(copy_all(&paths(&["static/img/a.png", "static/b.md"]), "assets", &mut queue), Ok(()));
    assert_eq!(
        rows(queue),
        vec![row("copy", "static/img/a.png", "assets/a.png"), row("copy", "static/b.md", "assets/b.md")]
    );
    let mut queue = Enqueuer::new();
    assert_eq!(
        copy_all(&paths(&["static/a.png", "static/.."]), "assets", &mut queue),
        Err(BuildError::NoFileName { path: "static/..".to_string() })
    );
    assert!(rows(queue).is_empty());
    let mut queue = Enqueuer::new();
    enqueue_copies(&paths(&["a", "b"]), &paths(&["1", "2"]), &mut queue);
    assert_eq!(rows(queue), vec![row("copy", "a", "1"), row("copy", "b", "2")]);
}

#[test]
fn build_goes_by_the_kind_of_source() {
    let sources = sources_from(&[
        ("pages/a.html", "<p>a</p><super:each></super:each>"),
        ("posts/p.md", "# P"),
        ("posts/q.md", "# Q"),
        ("layout.html", "<article><super:content-slot></super:content-slot></article>"),
    ]);
    let vars = VarStack::default();

    let mut queue = Enqueuer::new();
    let html = build("a.html", &Source::Html("pages/*.html".to_string()), paths(&["pages/a.html"]), &vars, 100, &sources, &mut queue).unwrap();
    assert!(html.written);
    assert_eq!(
        html.log,
        vec![Diagnostic::UnknownDirective { path: "pages/a.html".to_string(), tag: "each".to_string() }]
    );
    assert_eq!(rows(queue), vec![row("write", "a.html", "<p>a</p><super:each></super:each>")]);

    let mut queue = Enqueuer::new();
    let md = Source::Md { src: "posts/*.md".to_string(), template: "layout.html".to_string() };
    let built = build("blog", &md, paths(&["posts/p.md", "posts/q.md"]), &vars, 100, &sources, &mut queue).unwrap();
    assert!(built.written);
    assert!(built.log.is_empty());
    assert_eq!(
        rows(queue),
        vec![
            row("write", "blog/p.html", "<article><h1>P</h1>\n</article>"),
            row("write", "blog/q.html", "<article><h1>Q</h1>\n</article>"),
        ]
    );

    let mut queue = Enqueuer::new();
    let copied = build("static", &Source::Copy("img/*".to_string()), paths(&["img/x.png"]), &vars, 100, &sources, &mut queue).unwrap();
    assert!(copied.written);
    assert_eq!(rows(queue), vec![row("copy", "img/x.png", "static/x.png")]);

    let mut queue = Enqueuer::new();
    let skipped = build("none", &Source::Html("nothing/*".to_string()), vec![], &vars, 100, &sources, &mut queue).unwrap();
    assert!(!skipped.written);
    assert!(rows(queue).is_empty());

    let mut queue = Enqueuer::new();
    match build("each", &Source::For("items".to_string()), paths(&["x"]), &vars, 100, &sources, &mut queue) {
        Err(failed) => {
            assert_eq!(failed.error, BuildError::Unsupported { src: "items".to_string() });
            assert!(failed.log.is_empty());
        }
        Ok(_) => panic!("a reserved kind was built"),
    }
    assert!(rows(queue).is_empty());
}

#[test]
fn warnings_before_a_failure_come_with_the_error() {
    let sources = sources_from(&[
        ("a.html", "<div><super:wrap src=\"x.html\"></super:wrap></div><super:each></super:each>"),
        ("b.html", "<super:content-slot></super:content-slot><super:include></super:include>"),
    ]);
    let vars = VarStack::default();
    let mut queue = Enqueuer::new();
    match build("out", &Source::Html("*.html".to_string()), paths(&["a.html", "b.html"]), &vars, 100, &sources, &mut queue) {
        Err(failed) => assert_eq!(
            failed,
            Failed {
                error: BuildError::Resolve(ResolveError::MissingSrc { path: "b.html".to_string() }),
                log: vec![
                    Diagnostic::StrayWrap { path: "a.html".to_string() },
                    Diagnostic::UnknownDirective { path: "a.html".to_string(), tag: "each".to_string() },
                    Diagnostic::EmptySlot { path: "b.html".to_string() },
                ],
            }
        ),
        Ok(_) => panic!("a directive without a source was resolved"),
    }
    assert!(rows(queue).is_empty());
    let mut queue = Enqueuer::new();
    match build("out", &Source::Copy("*".to_string()), paths(&["a", ".."]), &vars, 100, &sources, &mut queue) {
        Err(failed) => assert_eq!(
            failed,
            Failed { error: BuildError::NoFileName { path: "..".to_string() }, log: vec![] }
        ),
        Ok(_) => panic!("a path without a file name was copied"),
    }
}

#[test]
fn pattern_is_the_glob_of_the_source() {
    assert_eq!(Source::Html("a/*.html".to_string()).pattern(), "a/*.html");
    assert_eq!(Source::Copy("b/*".to_string()).pattern(), "b/*");
    assert_eq!(Source::Md { src: "c/*.md".to_string(), template: "t".to_string() }.pattern(), "c/*.md");
    assert_eq!(Source::For("d".to_string()).pattern(), "d");
}
