use http_router::router::Router;

#[test]
fn earlier_route_wins() {
    let router = Router::new()
        .add("/:header", 1u32)
        .add("/echo", 2u32);
    let (m, h) = router.match_url("/echo").unwrap();
    assert_eq!(h, 1);
    assert_eq!(m.params.get("header"), Some(&"echo".to_owned()));
}

#[test]
fn later_route_used_when_earlier_fails() {
    let router = Router::new()
        .add("/", 1u32)
        .add("/echo/*", 2u32)
        .add("/files/:file", 3u32)
        .add("/:header", 4u32);
    assert_eq!(router.clone().match_url("/").unwrap().1, 1);
    let (m, h) = router.clone().match_url("/echo/abc").unwrap();
    assert_eq!(h, 2);
    assert_eq!(m.trailing, "abc");
    assert_eq!(router.clone().match_url("/files/x").unwrap().1, 3);
    assert_eq!(router.clone().match_url("/user-agent").unwrap().1, 4);
    assert!(router.match_url("/a/b/c").is_none());
}

#[test]
fn empty_router_matches_nothing() {
    let router: Router<u8> = Router::new();
    assert!(router.match_url("/").is_none());
}
