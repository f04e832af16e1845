use simple_http_server::router::{Matcher, PathPattern, RouteError, Router};

fn table() -> Router<char> {
    let mut router = Router::new('C');
    router.add_route(Matcher::Exact(b"/".to_vec()), 'A');
    router.add_route(Matcher::Exact(b"/favicon.ico".to_vec()), 'B');
    router
}

#[test]
fn unknown_path_goes_to_fallback() {
    let router = table();
    assert_eq!(*router.resolve(b"/unknown"), 'C');
}

#[test]
fn root_path_goes_to_its_handler() {
    let router = table();
    assert_eq!(*router.resolve(b"/"), 'A');
    assert_eq!(*router.resolve(b"/favicon.ico"), 'B');
}

#[test]
fn resolution_is_repeatable() {
    let router = table();
    for _ in 0..3 {
        assert_eq!(*router.resolve(b"/favicon.ico"), 'B');
        assert_eq!(*router.resolve(b""), 'C');
    }
}

#[test]
fn empty_table_always_falls_back() {
    let router: Router<u8> = Router::new(9);
    assert_eq!(router.len(), 0);
    assert_eq!(*router.resolve(b"/"), 9);
    assert_eq!(*router.resolve(b"anything at all"), 9);
}

#[test]
fn first_matching_route_wins() {
    let mut router = Router::new(0u8);
    router.add_route(Matcher::Pattern(PathPattern::new("^/a").unwrap()), 1);
    router.add_route(Matcher::Exact(b"/ab".to_vec()), 2);
    assert_eq!(*router.resolve(b"/ab"), 1);
    assert_eq!(*router.resolve(b"/b"), 0);
}

#[test]
fn regex_routes_match_whole_paths() {
    let mut router = Router::new("not found");
    router.add_route(Matcher::Pattern(PathPattern::new(r"^/$").unwrap()), "home");
    router.add_route(Matcher::Pattern(PathPattern::new(r"^/favicon\.ico$").unwrap()), "icon");
    router.add_route(Matcher::Pattern(PathPattern::new(r"^/dbg_long_2s$").unwrap()), "slow");
    assert_eq!(router.len(), 3);
    assert_eq!(*router.resolve(b"/"), "home");
    assert_eq!(*router.resolve(b"/favicon.ico"), "icon");
    assert_eq!(*router.resolve(b"/faviconXico"), "not found");
    assert_eq!(*router.resolve(b"/favicon.icox"), "not found");
    assert_eq!(*router.resolve(b"/dbg_long_2s"), "slow");
    assert_eq!(*router.resolve(b"/nonexistent"), "not found");
}

#[test]
fn pattern_keeps_its_source() {
    let p = PathPattern::new(r"^/x+$").unwrap();
    assert_eq!(p.as_str(), r"^/x+$");
    assert!(Matcher::Pattern(p).is_match(b"/xxx"));
}

#[test]
fn invalid_pattern_is_refused() {
    assert_eq!(PathPattern::new("(").err(), Some(RouteError::InvalidPattern));
}
