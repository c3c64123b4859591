use pageserve::listing::Child;
use pageserve::paths::RootContext;
use pageserve::response::{not_found, server_error, ContentType, Response, Status};
use pageserve::routes::{Action, EntryKind, Event, RequestHandler, State, UNEXPECTED_TEXT};
use pageserve::template::Template;

const PASSWD: &str = "root:x:0:0:root:/root:/bin/sh";

/// A file system for a site at `/site`, with a file of secrets outside it.
/// Each entry has its path, its canonical path, and its content if it is a file.
fn entries() -> Vec<(&'static str, &'static str, Option<&'static str>)> {
    vec![
        ("/", "/", None),
        ("/etc", "/etc", None),
        ("/etc/passwd", "/etc/passwd", Some(PASSWD)),
        ("/site", "/site", None),
        ("/site/index.html", "/site/index.html", Some("<h1>Home</h1>")),
        ("/site/about.html", "/site/about.html", Some("<h1>About</h1>")),
        ("/site/style.css", "/site/style.css", Some("body {}")),
        ("/site/notes.md", "/site/notes.md", Some("# notes")),
        ("/site/blog", "/site/blog", None),
        ("/site/blog/post1.html", "/site/blog/post1.html", Some("<h1>Post 1</h1>")),
        ("/site/docs", "/site/docs", None),
        ("/site/docs.html", "/site/docs.html", Some("<h1>Docs</h1>")),
        ("/site/leak", "/etc/passwd", Some(PASSWD)),
        ("/site/way-out", "/etc", None),
        ("/site/latest.html", "/site/blog/post1.html", Some("<h1>Post 1</h1>")),
    ]
}

/// `path` with its empty, `.` and `..` segments resolved.
fn normal(path: &str) -> String {
    let mut names: Vec<&str> = Vec::new();
    for name in path.split('/') {
        if name == ".." {
            names.pop();
        } else if !name.is_empty() && name != "." {
            names.push(name);
        }
    }
    format!("/{}", names.join("/"))
}

fn lookup(path: &str) -> Option<(&'static str, &'static str, Option<&'static str>)> {
    let wanted = normal(path);
    entries().into_iter().find(|entry| entry.0 == wanted)
}

fn children_of(directory: &str) -> Vec<Child> {
    let mut children = Vec::new();
    for (path, canonical, content) in entries() {
        if let Some((parent, name)) = path.rsplit_once('/') {
            let parent = if parent.is_empty() { "/" } else { parent };
            if parent == directory && !name.is_empty() {
                children.push(Child { path: String::from(canonical), is_dir: content.is_none() });
            }
        }
    }
    children
}

fn answer(action: &Action) -> Event {
    match action {
        Action::Probe(path) => match lookup(path) {
            Some((_, _, None)) => Event::Found(EntryKind::Directory),
            Some((_, _, Some(_))) => Event::Found(EntryKind::File),
            None => Event::Vanished,
        },
        Action::Canonicalize(path) => match lookup(path) {
            Some((_, canonical, _)) => Event::Canonical(String::from(canonical)),
            None => Event::Vanished,
        },
        Action::ListDirectory(path) => match lookup(path) {
            Some((_, canonical, None)) => Event::Children(children_of(canonical)),
            Some(_) => Event::Failed(String::from("not a directory")),
            None => Event::Vanished,
        },
        Action::ReadFile(path) => match lookup(path) {
            Some((_, _, Some(content))) => Event::Content(String::from(content)),
            Some(_) => Event::Failed(String::from("is a directory")),
            None => Event::Vanished,
        },
        Action::Respond(_) => panic!("nothing to answer"),
    }
}

fn handler() -> RequestHandler {
    RequestHandler::new(
        RootContext::new(String::from("/site")).unwrap(),
        Template::builtin(),
    )
}

/// Serves a request against the file system above. Gives the response and
/// the actions that led to it.
fn run(handler: &RequestHandler, start: (State, Action)) -> (Response, Vec<Action>) {
    let (mut state, mut action) = start;
    let mut trace = Vec::new();
    loop {
        if let Action::Respond(response) = action {
            assert_eq!(state, State::Done);
            return (response, trace);
        }
        let event = answer(&action);
        trace.push(action);
        let next = handler.step(state, event);
        state = next.0;
        action = next.1;
    }
}

fn get(request: &str) -> (Response, Vec<Action>) {
    let handler = handler();
    let start = handler.serve_html(request);
    run(&handler, start)
}

fn page(content: &str) -> Response {
    Response {
        status: Status::Success,
        content_type: ContentType::Html,
        body: Template::builtin().render(content),
    }
}

fn probe(path: &str) -> Action {
    Action::Probe(String::from(path))
}

fn canonicalize(path: &str) -> Action {
    Action::Canonicalize(String::from(path))
}

fn read(path: &str) -> Action {
    Action::ReadFile(String::from(path))
}

fn list(path: &str) -> Action {
    Action::ListDirectory(String::from(path))
}

fn item(href: &str, name: &str) -> String {
    format!("<li><a href=\"{}\">{}</a></li>", href, name)
}

#[test]
fn the_index_lists_the_root() {
    let (response, trace) = get("/");
    assert_eq!(trace, vec![list("/site")]);
    assert_eq!(response.status.code(), 200);
    assert_eq!(response.content_type, ContentType::Html);
    assert!(response.body.starts_with("<ul>"));
    assert!(response.body.ends_with("</ul>"));
    assert!(response.body.contains(&item("about.html", "about")));
    assert!(response.body.contains(&item("blog", "blog")));
    assert!(response.body.contains(&item("index.html", "index")));
}

#[test]
fn the_index_shows_pages_and_directories_only() {
    let (response, _) = get("/");
    assert!(!response.body.contains("style"));
    assert!(!response.body.contains("notes"));
    assert_eq!(response.body.matches("<li>").count(), 6);
}

#[test]
fn the_index_shows_nothing_that_leads_out_of_the_root() {
    let (response, _) = get("/");
    assert!(!response.body.contains("passwd"));
    assert!(!response.body.contains("etc"));
    assert!(!response.body.contains("leak"));
    assert!(!response.body.contains("way-out"));
}

#[test]
fn list_index_asks_for_the_root() {
    let handler = handler();
    assert_eq!(handler.list_index(), (State::Listing, list("/site")));
    assert_eq!(handler.serve_html("/"), handler.list_index());
    assert_eq!(handler.root_path(), "/site");
}

#[test]
fn a_page_is_found_without_its_extension() {
    let (response, trace) = get("about");
    assert_eq!(
        trace,
        vec![
            probe("/site/about"),
            probe("/site/about.html"),
            canonicalize("/site/about.html"),
            read("/site/about.html"),
        ]
    );
    assert_eq!(response, page("<h1>About</h1>"));
    assert_eq!(response.status.code(), 200);
}

#[test]
fn a_page_is_found_with_its_extension() {
    let (response, trace) = get("about.html");
    assert_eq!(
        trace,
        vec![probe("/site/about.html"), canonicalize("/site/about.html"), read("/site/about.html")]
    );
    assert_eq!(response, page("<h1>About</h1>"));
}

#[test]
fn a_directory_is_listed() {
    let (response, trace) = get("blog");
    assert_eq!(trace, vec![probe("/site/blog"), canonicalize("/site/blog"), list("/site/blog")]);
    assert_eq!(response.status.code(), 200);
    assert_eq!(
        response.body,
        format!(
            "<ul>\n               {}\n               </ul>",
            item("blog/post1.html", "blog/post1")
        )
    );
}

#[test]
fn a_directory_never_gets_the_fallback() {
    let (response, trace) = get("docs");
    assert_eq!(trace, vec![probe("/site/docs"), canonicalize("/site/docs"), list("/site/docs")]);
    assert_eq!(response.body, "<ul></ul>");
    assert!(!trace.contains(&probe("/site/docs.html")));
}

#[test]
fn a_page_in_a_directory_is_found_without_its_extension() {
    let (response, trace) = get("blog/post1");
    assert_eq!(
        trace,
        vec![
            probe("/site/blog/post1"),
            probe("/site/blog/post1.html"),
            canonicalize("/site/blog/post1.html"),
            read("/site/blog/post1.html"),
        ]
    );
    assert_eq!(response, page("<h1>Post 1</h1>"));
}

#[test]
fn a_traversal_out_of_the_root_is_answered_as_not_found() {
    let (response, trace) = get("../../etc/passwd");
    assert_eq!(
        trace,
        vec![probe("/site/../../etc/passwd"), canonicalize("/site/../../etc/passwd")]
    );
    assert_eq!(response, not_found());
    assert!(!response.body.contains(PASSWD));
}

#[test]
fn an_absolute_request_is_answered_as_not_found() {
    let (response, trace) = get("/etc/passwd");
    assert_eq!(trace, vec![probe("/etc/passwd"), canonicalize("/etc/passwd")]);
    assert_eq!(response, not_found());
}

#[test]
fn a_link_out_of_the_root_is_answered_as_not_found() {
    let (response, trace) = get("leak");
    assert_eq!(trace, vec![probe("/site/leak"), canonicalize("/site/leak")]);
    assert_eq!(response, not_found());
    let (response, trace) = get("way-out");
    assert_eq!(trace, vec![probe("/site/way-out"), canonicalize("/site/way-out")]);
    assert_eq!(response, not_found());
}

#[test]
fn a_link_within_the_root_is_followed() {
    let (response, trace) = get("latest");
    assert_eq!(
        trace,
        vec![
            probe("/site/latest"),
            probe("/site/latest.html"),
            canonicalize("/site/latest.html"),
            read("/site/blog/post1.html"),
        ]
    );
    assert_eq!(response, page("<h1>Post 1</h1>"));
}

#[test]
fn the_root_by_a_detour_is_listed() {
    let (response, trace) = get("blog/..");
    assert_eq!(
        trace,
        vec![probe("/site/blog/.."), canonicalize("/site/blog/.."), list("/site")]
    );
    assert_eq!(response, get("/").0);
    let (response, trace) = get("");
    assert_eq!(trace, vec![probe("/site/"), canonicalize("/site/"), list("/site")]);
    assert_eq!(response, get("/").0);
}

#[test]
fn what_is_missing_is_not_found() {
    let (response, trace) = get("missing");
    assert_eq!(trace, vec![probe("/site/missing"), probe("/site/missing.html")]);
    assert_eq!(response.status.code(), 200);
    assert_eq!(response.body, "404 - Not Found");
    assert_eq!(response, not_found());
}

#[test]
fn what_is_missing_with_an_extension_gets_no_fallback() {
    let (response, trace) = get("missing.txt");
    assert_eq!(trace, vec![probe("/site/missing.txt")]);
    assert_eq!(response, not_found());
    let (response, trace) = get("blog/");
    assert_eq!(trace.len(), 3);
    assert_eq!(response.status.code(), 200);
    let (response, trace) = get("nowhere/");
    assert_eq!(trace, vec![probe("/site/nowhere/")]);
    assert_eq!(response, not_found());
}

#[test]
fn other_files_are_served_as_pages_too() {
    let (response, _) = get("notes.md");
    assert_eq!(response, page("# notes"));
}

#[test]
fn a_request_starts_with_a_probe() {
    let handler = handler();
    assert_eq!(
        handler.serve_html("about"),
        (State::Locating { candidate: String::from("/site/about") }, probe("/site/about"))
    );
}

#[test]
fn an_entry_that_vanishes_is_not_found() {
    let handler = handler();
    for state in [
        State::LocatingFallback { candidate: String::from("/site/a.html") },
        State::Checking { kind: EntryKind::File },
        State::Checking { kind: EntryKind::Directory },
        State::Listing,
        State::Reading,
    ] {
        assert_eq!(handler.step(state, Event::Vanished), (State::Done, Action::Respond(not_found())));
    }
}

#[test]
fn a_failure_is_a_server_error_with_its_text() {
    let handler = handler();
    for state in [
        State::Locating { candidate: String::from("/site/a") },
        State::LocatingFallback { candidate: String::from("/site/a.html") },
        State::Checking { kind: EntryKind::File },
        State::Listing,
        State::Reading,
    ] {
        let (state, action) = handler.step(state, Event::Failed(String::from("permission denied")));
        assert_eq!(state, State::Done);
        assert_eq!(action, Action::Respond(server_error(String::from("permission denied"))));
    }
    let (_, action) =
        handler.step(State::Reading, Event::Failed(String::from("stream did not contain valid UTF-8")));
    match action {
        Action::Respond(response) => {
            assert_eq!(response.status.code(), 500);
            assert_eq!(response.body, "stream did not contain valid UTF-8");
        }
        other => panic!("{:?}", other),
    }
}

#[test]
fn an_answer_that_was_not_asked_for_is_a_server_error() {
    let handler = handler();
    let unexpected = || (State::Done, Action::Respond(server_error(String::from(UNEXPECTED_TEXT))));
    assert_eq!(
        handler.step(State::Reading, Event::Canonical(String::from("/etc/passwd"))),
        unexpected()
    );
    assert_eq!(
        handler.step(State::Listing, Event::Content(String::from("x"))),
        unexpected()
    );
    assert_eq!(
        handler.step(
            State::Locating { candidate: String::from("/site/a") },
            Event::Content(String::from(PASSWD))
        ),
        unexpected()
    );
    assert_eq!(
        handler.step(State::Checking { kind: EntryKind::File }, Event::Found(EntryKind::File)),
        unexpected()
    );
    assert_eq!(handler.step(State::Done, Event::Vanished), unexpected());
    assert_eq!(handler.step(State::Done, Event::Children(vec![])), unexpected());
}

#[test]
fn only_what_lies_within_the_root_is_read() {
    let handler = handler();
    let outside = ["/etc/passwd", "/", "/site2/x", "/site/../etc/passwd", "/sit", "site/x", ""];
    for path in outside {
        for kind in [EntryKind::File, EntryKind::Directory] {
            assert_eq!(
                handler.step(State::Checking { kind }, Event::Canonical(String::from(path))),
                (State::Done, Action::Respond(not_found()))
            );
        }
    }
    assert_eq!(
        handler.step(
            State::Checking { kind: EntryKind::File },
            Event::Canonical(String::from("/site/x"))
        ),
        (State::Reading, read("/site/x"))
    );
    assert_eq!(
        handler.step(
            State::Checking { kind: EntryKind::Directory },
            Event::Canonical(String::from("/site"))
        ),
        (State::Listing, list("/site"))
    );
}

#[test]
fn every_request_ends_and_reads_within_the_root_only() {
    let requests = [
        "/", "", ".", "..", "../", "../..", "about", "about.html", "blog", "blog/", "blog/post1",
        "blog/../about", "blog/../../etc/passwd", "../../etc/passwd", "/etc/passwd", "/etc",
        "leak", "leak.html", "way-out", "way-out/passwd", "missing", "missing.html", "docs",
        "docs.html", "style.css", "//", "/site/about", "%2e%2e/etc/passwd", "..\\etc",
    ];
    for request in requests {
        let (response, trace) = get(request);
        for action in &trace {
            match action {
                Action::ReadFile(path) | Action::ListDirectory(path) => {
                    assert!(path == "/site" || path.starts_with("/site/"), "{}", request);
                    assert!(!path.contains(".."), "{}", request);
                }
                _ => {}
            }
        }
        assert!(trace.len() <= 4, "{}", request);
        assert!(!response.body.contains(PASSWD), "{}", request);
        assert!(!response.body.contains("passwd"), "{}", request);
    }
}
