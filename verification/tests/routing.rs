use route_core::chain::Handler;
use route_core::http::{Method, Response};
use route_core::paths::split_path;
use route_core::pattern::{RouteEntry, SegPattern};
use route_core::router::App;

fn lit(s: &str) -> SegPattern {
    SegPattern::Literal(String::from(s))
}

fn rx(s: &str) -> SegPattern {
    SegPattern::Regex(String::from(s))
}

fn text_entry(body: &str) -> RouteEntry {
    RouteEntry::new(Handler::Fixed(Response::text(String::from(body))))
}

#[test]
fn split_path_basic() {
    let segs = split_path("/a/b");
    assert_eq!(segs, vec![String::from("a"), String::from("b")]);
}

#[test]
fn split_path_collapses_empty_segments() {
    assert_eq!(split_path("/"), Vec::<String>::new());
    assert_eq!(split_path(""), Vec::<String>::new());
    assert_eq!(split_path("//a///b/"), vec![String::from("a"), String::from("b")]);
    assert_eq!(split_path("a/b"), vec![String::from("a"), String::from("b")]);
}

#[test]
fn literal_route_resolves_exactly() {
    let mut app = App::new();
    app.register(vec![lit("a"), lit("b")], text_entry("AB"));
    let out = app.dispatch(Method::Get, "/a/b");
    let resp = out.response.expect("response set");
    assert_eq!(resp.status, 200);
    assert_eq!(resp.body, "AB");
    assert!(out.captures.is_empty());
}

#[test]
fn unknown_path_is_404() {
    let mut app = App::new();
    app.register(vec![lit("a"), lit("b")], text_entry("AB"));
    let out = app.dispatch(Method::Get, "/a/c");
    assert_eq!(out.response.expect("response set").status, 404);
    let out = app.dispatch(Method::Get, "/a");
    assert_eq!(out.response.expect("response set").status, 404);
}

#[test]
fn last_registration_wins() {
    let mut app = App::new();
    app.register(vec![lit("a"), lit("b")], text_entry("first"));
    app.register(vec![lit("a"), lit("b")], text_entry("second"));
    let out = app.dispatch(Method::Get, "/a/b");
    assert_eq!(out.response.expect("response set").body, "second");
}

#[test]
fn regex_route_captures_segment() {
    let mut app = App::new();
    app.register(vec![lit("n"), rx("[0-9]+")], text_entry("number"));
    let out = app.dispatch(Method::Get, "/n/42");
    assert_eq!(out.response.expect("response set").body, "number");
    assert_eq!(out.captures, vec![String::from("42")]);
}

#[test]
fn regex_route_rejects_non_matching_segment() {
    let mut app = App::new();
    app.register(vec![lit("n"), rx("[0-9]+")], text_entry("number"));
    let out = app.dispatch(Method::Get, "/n/fortytwo");
    assert_eq!(out.response.expect("response set").status, 404);
}

#[test]
fn regex_matches_anywhere_in_the_segment() {
    // the engine is asked whether the pattern matches in the segment, not
    // whether it spans it; anchors pin it down when a route needs that
    let mut app = App::new();
    app.register(vec![lit("n"), rx("0+")], text_entry("zeros"));
    let out = app.dispatch(Method::Get, "/n/100");
    assert_eq!(out.response.expect("response set").body, "zeros");

    let mut anchored = App::new();
    anchored.register(vec![lit("n"), rx("^0+$")], text_entry("only zeros"));
    let out = anchored.dispatch(Method::Get, "/n/100");
    assert_eq!(out.response.expect("response set").status, 404);
    let out = anchored.dispatch(Method::Get, "/n/000");
    assert_eq!(out.response.expect("response set").body, "only zeros");
}

#[test]
fn invalid_regex_matches_nothing() {
    let mut app = App::new();
    app.register(vec![lit("n"), rx("[unclosed")], text_entry("never"));
    let out = app.dispatch(Method::Get, "/n/x");
    assert_eq!(out.response.expect("response set").status, 404);
}

#[test]
fn wildcard_takes_remaining_segments() {
    let mut app = App::new();
    app.register(
        vec![lit("files"), SegPattern::Any],
        RouteEntry::new(Handler::EchoCapture(0)),
    );
    let out = app.dispatch(Method::Get, "/files/x/y");
    let resp = out.response.expect("response set");
    assert_eq!(resp.status, 200);
    assert_eq!(resp.body, "x");
    assert_eq!(out.captures, vec![String::from("x"), String::from("y")]);
}

#[test]
fn wildcard_needs_at_least_one_segment() {
    let mut app = App::new();
    app.register(vec![lit("files"), SegPattern::Any], text_entry("any"));
    let out = app.dispatch(Method::Get, "/files");
    assert_eq!(out.response.expect("response set").status, 404);
}

#[test]
fn literal_beats_regex_and_wildcard() {
    let mut app = App::new();
    app.register(vec![lit("t"), rx(".*")], text_entry("regex"));
    app.register(vec![lit("t"), SegPattern::Any], text_entry("wild"));
    app.register(vec![lit("t"), lit("x")], text_entry("literal"));
    let out = app.dispatch(Method::Get, "/t/x");
    assert_eq!(out.response.expect("response set").body, "literal");
}

#[test]
fn regex_beats_wildcard() {
    let mut app = App::new();
    app.register(vec![lit("t"), SegPattern::Any], text_entry("wild"));
    app.register(vec![lit("t"), rx("[0-9]+")], text_entry("regex"));
    let out = app.dispatch(Method::Get, "/t/7");
    assert_eq!(out.response.expect("response set").body, "regex");
    let out = app.dispatch(Method::Get, "/t/word");
    assert_eq!(out.response.expect("response set").body, "wild");
}

#[test]
fn method_mismatch_is_405_and_app_stays_healthy() {
    let mut app = App::new();
    app.register(
        vec![lit("get")],
        text_entry("get only").with_methods(vec![Method::Get]),
    );
    app.register(
        vec![lit("post")],
        text_entry("post only").with_methods(vec![Method::Post]),
    );
    let out = app.dispatch(Method::Post, "/get");
    assert_eq!(out.response.expect("response set").status, 405);
    let out = app.dispatch(Method::Get, "/nowhere");
    assert_eq!(out.response.expect("response set").status, 404);
    let out = app.dispatch(Method::Get, "/get");
    assert_eq!(out.response.expect("response set").body, "get only");
    let out = app.dispatch(Method::Post, "/post");
    assert_eq!(out.response.expect("response set").body, "post only");
}

#[test]
fn empty_method_list_allows_all() {
    let mut app = App::new();
    app.register(vec![lit("open")], text_entry("open"));
    for m in [Method::Get, Method::Post, Method::Put, Method::Delete] {
        let out = app.dispatch(m, "/open");
        assert_eq!(out.response.as_ref().expect("response set").status, 200);
    }
}

#[test]
fn root_route_serves_empty_path() {
    let mut app = App::new();
    app.register(vec![], text_entry("home"));
    let out = app.dispatch(Method::Get, "/");
    assert_eq!(out.response.expect("response set").body, "home");
}

#[test]
fn resolve_reports_entry_and_captures() {
    let mut app = App::new();
    app.register(vec![lit("n"), rx("[0-9]+")], text_entry("number"));
    let segs = split_path("/n/9");
    let (entry, caps) = app.resolve(&segs).expect("resolves");
    assert!(entry.allowed_methods.is_empty());
    assert_eq!(caps, vec![String::from("9")]);
    let segs = split_path("/n/x");
    assert!(app.resolve(&segs).is_none());
}
