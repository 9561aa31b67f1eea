use http_router::matcher::{Path, Segment};

#[test]
fn test_path_new() {
    let path = Path::new("users/:id/files/*".to_owned());
    assert_eq!(path.segments.len(), 3);
    assert_eq!(path.segments[0], Segment::Literal("users".to_owned()));
    assert_eq!(path.segments[1], Segment::Param("id".to_owned()));
    assert_eq!(path.segments[2], Segment::Literal("files".to_owned()));
    assert!(path.trailing);
}

#[test]
fn test_path_matches() {
    let path = Path::new("users/:id/files/*".to_owned());
    let match_result = path.match_path("users/123/files/foo/bar/baz.txt".to_owned());
    assert!(match_result.is_some());
    let matched = match_result.unwrap();
    assert_eq!(matched.params.get("id"), Some(&"123".to_owned()));
    assert_eq!(matched.trailing, "foo/bar/baz.txt");
}

#[test]
fn compile_leading_slash_gives_empty_literal() {
    let path = Path::new("/files/:file".to_owned());
    assert_eq!(
        path.segments,
        vec![
            Segment::Literal("".to_owned()),
            Segment::Literal("files".to_owned()),
            Segment::Param("file".to_owned()),
        ]
    );
    assert!(!path.trailing);
}

#[test]
fn compile_star_only_in_last_place_is_wildcard() {
    let path = Path::new("a/*/b".to_owned());
    assert!(!path.trailing);
    assert_eq!(path.segments[1], Segment::Literal("*".to_owned()));
    let only = Path::new("*".to_owned());
    assert!(only.trailing);
    assert!(only.segments.is_empty());
}

#[test]
fn root_pattern_matches_root_path() {
    let path = Path::new("/".to_owned());
    let m = path.match_path("/".to_owned()).unwrap();
    assert!(m.params.is_empty());
    assert_eq!(m.trailing, "");
}

#[test]
fn root_pattern_rejects_longer_path() {
    let path = Path::new("/".to_owned());
    assert!(path.match_path("/a/b".to_owned()).is_none());
    assert!(path.match_path("/a".to_owned()).is_none());
}

#[test]
fn exact_pattern_needs_same_component_count() {
    let path = Path::new("/files/:file".to_owned());
    assert!(path.match_path("/files".to_owned()).is_none());
    assert!(path.match_path("/files/a/b".to_owned()).is_none());
    let m = path.match_path("/files/a.txt".to_owned()).unwrap();
    assert_eq!(m.params.get("file"), Some(&"a.txt".to_owned()));
    assert_eq!(m.trailing, "");
}

#[test]
fn literal_must_match_exactly() {
    let path = Path::new("/files/:file".to_owned());
    assert!(path.match_path("/Files/a.txt".to_owned()).is_none());
    assert!(path.match_path("files/a.txt".to_owned()).is_none());
}

#[test]
fn wildcard_accepts_empty_and_nested_remainder() {
    let path = Path::new("/echo/*".to_owned());
    assert_eq!(path.match_path("/echo/".to_owned()).unwrap().trailing, "");
    assert_eq!(path.match_path("/echo/a/b/".to_owned()).unwrap().trailing, "a/b/");
    assert!(path.match_path("/echo".to_owned()).is_none());
    assert!(path.match_path("/ech/x".to_owned()).is_none());
}

#[test]
fn duplicate_parameter_keeps_last_value() {
    let path = Path::new(":x/:x".to_owned());
    let m = path.match_path("first/second".to_owned()).unwrap();
    assert_eq!(m.params.get("x"), Some(&"second".to_owned()));
    assert!(m.params.get("y").is_none());
}
