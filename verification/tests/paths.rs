use pageserve::error::{ConfigurationError, ServeError};
use pageserve::paths::{
    is_canonical_path, join, path_has_html_extension, path_lacks_extension, relative_path,
    strip_html_suffix, with_html_suffix, RootContext,
};

fn canonical(path: &str) -> bool {
    is_canonical_path(path)
}

#[test]
fn canonical_paths_are_accepted() {
    assert!(canonical("/"));
    assert!(canonical("/site"));
    assert!(canonical("/site/blog/post1.html"));
    assert!(canonical("/site/.hidden"));
    assert!(canonical("/site/..."));
    assert!(canonical("/site/a..b"));
    assert!(canonical("/srv/Übung/é"));
}

#[test]
fn other_paths_are_not_canonical() {
    assert!(!canonical(""));
    assert!(!canonical("site"));
    assert!(!canonical("site/blog"));
    assert!(!canonical("/site/"));
    assert!(!canonical("//site"));
    assert!(!canonical("/site//blog"));
    assert!(!canonical("/site/./blog"));
    assert!(!canonical("/site/."));
    assert!(!canonical("/site/../etc"));
    assert!(!canonical("/site/.."));
    assert!(!canonical("/.."));
    assert!(!canonical("/."));
    assert!(!canonical("//"));
}

#[test]
fn relative_path_takes_the_root_off() {
    assert_eq!(relative_path("/site/about.html", "/site"), Ok(String::from("about.html")));
    assert_eq!(
        relative_path("/site/blog/post1.html", "/site"),
        Ok(String::from("blog/post1.html"))
    );
    assert_eq!(relative_path("/site/blog", "/site"), Ok(String::from("blog")));
    assert_eq!(relative_path("/site/blog/post1.html", "/site/blog"), Ok(String::from("post1.html")));
}

#[test]
fn relative_path_of_the_root_is_empty() {
    assert_eq!(relative_path("/site", "/site"), Ok(String::new()));
    assert_eq!(relative_path("/", "/"), Ok(String::new()));
}

#[test]
fn relative_path_under_the_top_directory() {
    assert_eq!(relative_path("/etc/passwd", "/"), Ok(String::from("etc/passwd")));
    assert_eq!(relative_path("/a", "/"), Ok(String::from("a")));
}

#[test]
fn relative_path_counts_characters() {
    assert_eq!(relative_path("/süd/é/x.html", "/süd/é"), Ok(String::from("x.html")));
}

#[test]
fn relative_path_refuses_what_lies_outside() {
    assert_eq!(relative_path("/etc/passwd", "/site"), Err(ServeError::PathEscape));
    assert_eq!(relative_path("/", "/site"), Err(ServeError::PathEscape));
    assert_eq!(relative_path("/sit", "/site"), Err(ServeError::PathEscape));
    assert_eq!(relative_path("/site", "/site/blog"), Err(ServeError::PathEscape));
}

#[test]
fn relative_path_refuses_a_sibling_that_begins_like_the_root() {
    assert_eq!(relative_path("/site2/about.html", "/site"), Err(ServeError::PathEscape));
    assert_eq!(relative_path("/sitemap", "/site"), Err(ServeError::PathEscape));
    assert_eq!(relative_path("/site.bak/x", "/site"), Err(ServeError::PathEscape));
}

#[test]
fn relative_path_refuses_paths_that_are_not_canonical() {
    assert_eq!(relative_path("/site/../etc/passwd", "/site"), Err(ServeError::PathEscape));
    assert_eq!(relative_path("/site/blog/..", "/site"), Err(ServeError::PathEscape));
    assert_eq!(relative_path("/site/./about.html", "/site"), Err(ServeError::PathEscape));
    assert_eq!(relative_path("/site//about.html", "/site"), Err(ServeError::PathEscape));
    assert_eq!(relative_path("/site/", "/site"), Err(ServeError::PathEscape));
    assert_eq!(relative_path("site/about.html", "site"), Err(ServeError::PathEscape));
    assert_eq!(relative_path("", ""), Err(ServeError::PathEscape));
}

#[test]
fn relative_path_refuses_a_root_that_is_not_canonical() {
    assert_eq!(relative_path("/site/about.html", "/site/"), Err(ServeError::PathEscape));
    assert_eq!(relative_path("/site/about.html", "/site/../site"), Err(ServeError::PathEscape));
    assert_eq!(relative_path("/site/about.html", ""), Err(ServeError::PathEscape));
}

#[test]
fn root_context_takes_a_canonical_root() {
    let root = RootContext::new(String::from("/site")).unwrap();
    assert_eq!(root.root_path(), "/site");
    let top = RootContext::new(String::from("/")).unwrap();
    assert_eq!(top.root_path(), "/");
}

#[test]
fn root_context_refuses_any_other_root() {
    for root in ["", "site", "/site/", "/site/../x", "./site", "/site//x"] {
        match RootContext::new(String::from(root)) {
            Err(e) => assert_eq!(e, ConfigurationError::RootNotCanonical),
            Ok(_) => panic!("{:?} was accepted", root),
        }
    }
}

#[test]
fn confine_lets_through_what_lies_within() {
    let root = RootContext::new(String::from("/site")).unwrap();
    assert_eq!(root.confine(String::from("/site")), Ok(String::from("/site")));
    assert_eq!(root.confine(String::from("/site/blog")), Ok(String::from("/site/blog")));
    assert_eq!(
        root.confine(String::from("/site/blog/post1.html")),
        Ok(String::from("/site/blog/post1.html"))
    );
}

#[test]
fn confine_stops_what_lies_outside() {
    let root = RootContext::new(String::from("/site")).unwrap();
    assert_eq!(root.confine(String::from("/etc/passwd")), Err(ServeError::PathEscape));
    assert_eq!(root.confine(String::from("/site2")), Err(ServeError::PathEscape));
    assert_eq!(root.confine(String::from("/")), Err(ServeError::PathEscape));
    assert_eq!(root.confine(String::from("/site/../etc/passwd")), Err(ServeError::PathEscape));
}

#[test]
fn confine_under_the_top_directory_lets_every_canonical_path_through() {
    let root = RootContext::new(String::from("/")).unwrap();
    assert_eq!(root.confine(String::from("/etc/passwd")), Ok(String::from("/etc/passwd")));
    assert_eq!(root.confine(String::from("/etc/../x")), Err(ServeError::PathEscape));
}

#[test]
fn join_puts_a_separator_between() {
    assert_eq!(join("/site", "about"), "/site/about");
    assert_eq!(join("/site", "blog/post1"), "/site/blog/post1");
    assert_eq!(join("/", "about"), "/about");
    assert_eq!(join("/site/", "about"), "/site/about");
}

#[test]
fn join_interprets_nothing() {
    assert_eq!(join("/site", "../../etc/passwd"), "/site/../../etc/passwd");
    assert_eq!(join("/site", "./a//b/"), "/site/./a//b/");
    assert_eq!(join("/site", ""), "/site/");
    assert_eq!(join("", "about"), "about");
}

#[test]
fn join_lets_an_absolute_path_stand_alone() {
    assert_eq!(join("/site", "/etc/passwd"), "/etc/passwd");
    assert_eq!(join("/site", "/"), "/");
}

#[test]
fn a_name_without_a_dot_lacks_an_extension() {
    assert!(path_lacks_extension("about"));
    assert!(path_lacks_extension("/site/about"));
    assert!(path_lacks_extension("/site/blog/post1"));
    assert!(path_lacks_extension("/site/v1.2/notes"));
}

#[test]
fn a_name_with_a_dot_has_an_extension() {
    assert!(!path_lacks_extension("/site/about.html"));
    assert!(!path_lacks_extension("/site/style.css"));
    assert!(!path_lacks_extension("/site/.hidden"));
    assert!(!path_lacks_extension("/site/name."));
    assert!(!path_lacks_extension("/site/blog/.."));
    assert!(!path_lacks_extension("/site/."));
}

#[test]
fn an_empty_final_segment_gets_no_extension() {
    assert!(!path_lacks_extension(""));
    assert!(!path_lacks_extension("/"));
    assert!(!path_lacks_extension("/site/"));
    assert!(!path_lacks_extension("/site/blog/"));
}

#[test]
fn html_extension_is_told_by_the_final_segment() {
    assert!(path_has_html_extension("/site/about.html"));
    assert!(path_has_html_extension("/site/a.b.html"));
    assert!(path_has_html_extension("x.html"));
    assert!(path_has_html_extension("/site/..html"));
}

#[test]
fn other_extensions_are_not_html() {
    assert!(!path_has_html_extension("/site/style.css"));
    assert!(!path_has_html_extension("/site/notes.md"));
    assert!(!path_has_html_extension("/site/about.htm"));
    assert!(!path_has_html_extension("/site/about.html.bak"));
    assert!(!path_has_html_extension("/site/about.HTML"));
    assert!(!path_has_html_extension("/site/abouthtml"));
    assert!(!path_has_html_extension("/site/about"));
    assert!(!path_has_html_extension("/site/.html"));
    assert!(!path_has_html_extension(".html"));
    assert!(!path_has_html_extension("/site/x.html/readme"));
    assert!(!path_has_html_extension("/site/x.html/"));
    assert!(!path_has_html_extension(""));
}

#[test]
fn strip_html_suffix_takes_one_suffix_off_the_end() {
    assert_eq!(strip_html_suffix("about.html"), "about");
    assert_eq!(strip_html_suffix("blog/post1.html"), "blog/post1");
    assert_eq!(strip_html_suffix("a.html.html"), "a.html");
    assert_eq!(strip_html_suffix(".html"), "");
}

#[test]
fn strip_html_suffix_leaves_other_names_alone() {
    assert_eq!(strip_html_suffix("blog"), "blog");
    assert_eq!(strip_html_suffix("a.html/b"), "a.html/b");
    assert_eq!(strip_html_suffix("style.css"), "style.css");
    assert_eq!(strip_html_suffix("html"), "html");
    assert_eq!(strip_html_suffix(""), "");
}

#[test]
fn with_html_suffix_appends_the_extension() {
    assert_eq!(with_html_suffix("/site/about"), "/site/about.html");
    assert_eq!(with_html_suffix("/site/blog/post1"), "/site/blog/post1.html");
}
