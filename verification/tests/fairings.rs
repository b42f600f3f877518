use budget::fairings::{GateKeeper, RouteMatcher};

#[test]
fn test_route_matcher() {
    let route_a = RouteMatcher::Exact("/foo/bar");
    let route_b = RouteMatcher::Prefix("/foo");

    assert!(route_a.matches("/foo/bar"));
    assert!(!route_a.matches("/foo"));

    assert!(route_b.matches("/foo/bar"));
    assert!(route_b.matches("/foo"));
}

#[test]
fn test_gatekeeper_whitelist() {
    let keeper = GateKeeper {
        allow_logged_out_access: vec![
            RouteMatcher::Exact("/login"),
            RouteMatcher::Prefix("/static"),
        ],
    };

    assert!(keeper.is_path_whitelisted("/login"));
    assert!(keeper.is_path_whitelisted("/static/app.js"));
    assert!(!keeper.is_path_whitelisted("/accounts"));
}
