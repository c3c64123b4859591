use pageserve::text::{find, has_suffix, matches_at, precedes, to_chars};

fn chars(text: &str) -> Vec<char> {
    text.chars().collect()
}

#[test]
fn to_chars_copies_every_character() {
    assert_eq!(to_chars("a/é.html"), vec!['a', '/', 'é', '.', 'h', 't', 'm', 'l']);
    assert_eq!(to_chars(""), Vec::<char>::new());
}

#[test]
fn matches_at_tells_where_a_pattern_stands() {
    let text = chars("##HEADER##");
    assert!(matches_at(&text, &chars("HEAD"), 2));
    assert!(!matches_at(&text, &chars("HEAD"), 1));
    assert!(matches_at(&text, &chars(""), 10));
    assert!(!matches_at(&text, &chars(""), 11));
    assert!(!matches_at(&text, &chars("##"), 9));
    assert!(!matches_at(&chars("ab"), &chars("abc"), 0));
}

#[test]
fn find_gives_the_leftmost_occurrence() {
    assert_eq!(find(&chars("a##b##c"), &chars("##")), Some(1));
    assert_eq!(find(&chars("###"), &chars("##")), Some(0));
    assert_eq!(find(&chars("abc"), &chars("c")), Some(2));
    assert_eq!(find(&chars("abc"), &chars("")), Some(0));
    assert_eq!(find(&chars(""), &chars("")), Some(0));
}

#[test]
fn find_gives_nothing_where_nothing_occurs() {
    assert_eq!(find(&chars("abc"), &chars("d")), None);
    assert_eq!(find(&chars("ab"), &chars("abc")), None);
    assert_eq!(find(&chars(""), &chars("a")), None);
    assert_eq!(find(&chars("#HEADER#"), &chars("##")), None);
}

#[test]
fn has_suffix_looks_at_the_end_only() {
    assert!(has_suffix(&chars("about.html"), &chars(".html")));
    assert!(has_suffix(&chars(".html"), &chars(".html")));
    assert!(has_suffix(&chars("x"), &chars("")));
    assert!(!has_suffix(&chars("about.html.bak"), &chars(".html")));
    assert!(!has_suffix(&chars("html"), &chars(".html")));
}

#[test]
fn precedes_is_the_order_of_a_dictionary() {
    assert!(precedes(&chars("about"), &chars("blog")));
    assert!(!precedes(&chars("blog"), &chars("about")));
    assert!(precedes(&chars("blog"), &chars("blog")));
    assert!(precedes(&chars("blog"), &chars("blog/post1")));
    assert!(!precedes(&chars("blog/post1"), &chars("blog")));
    assert!(precedes(&chars(""), &chars("a")));
    assert!(!precedes(&chars("a"), &chars("")));
    assert!(precedes(&chars("Z"), &chars("a")));
    assert!(precedes(&chars("z"), &chars("é")));
}

#[test]
fn precedes_orders_as_strings_do() {
    let words = ["", "a", "ab", "b", "B", "blog", "blog/post1", "é", "z", "index"];
    for x in words {
        for y in words {
            assert_eq!(precedes(&chars(x), &chars(y)), x <= y, "{:?} {:?}", x, y);
        }
    }
}
