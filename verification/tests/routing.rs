use koiweb::method::Method;
use koiweb::path::{chars_of, has_colon, match_pattern, segment_bounds};
use koiweb::router::{Request, Router};
use koiweb::string_map::Params;

fn request(method: Method, path: &str) -> Request {
    Request { method, path: path.to_string(), params: Params::new() }
}

#[test]
fn exact_route_is_reached() {
    let mut r: Router<u32> = Router::new();
    r.add(Method::Get, "/", 1);
    r.add(Method::Post, "/upload", 2);
    let mut req = request(Method::Get, "/");
    assert_eq!(r.resolve(&mut req), Some(&1));
    let mut req = request(Method::Post, "/upload");
    assert_eq!(r.resolve(&mut req), Some(&2));
    assert!(req.params.get("id").is_none());
}

#[test]
fn exact_route_needs_the_same_method() {
    let mut r: Router<u32> = Router::new();
    r.add(Method::Get, "/", 1);
    let mut req = request(Method::Post, "/");
    assert_eq!(r.resolve(&mut req), None);
    let mut req = request(Method::Extension("GET".to_string()), "/");
    assert_eq!(r.resolve(&mut req), None);
}

#[test]
fn exact_route_is_replaced_by_a_later_one() {
    let mut r: Router<u32> = Router::new();
    r.add(Method::Get, "/a", 1);
    r.add(Method::Get, "/a", 2);
    let mut req = request(Method::Get, "/a");
    assert_eq!(r.resolve(&mut req), Some(&2));
}

#[test]
fn pattern_route_captures_parameters() {
    let mut r: Router<u32> = Router::new();
    r.add(Method::Get, "/users/:id", 7);
    let mut req = request(Method::Get, "/users/123");
    assert_eq!(r.resolve(&mut req), Some(&7));
    assert_eq!(req.params.get("id").map(|s| s.as_str()), Some("123"));
    assert_eq!(req.params.entries().len(), 1);
}

#[test]
fn pattern_route_needs_as_many_segments() {
    let mut r: Router<u32> = Router::new();
    r.add(Method::Get, "/users/:id", 7);
    for path in ["/users", "/users/1/2", "/user/1", "users/1"] {
        let mut req = request(Method::Get, path);
        assert_eq!(r.resolve(&mut req), None, "{}", path);
        assert!(req.params.get("id").is_none());
    }
    // a parameter segment also takes an empty segment
    let mut req = request(Method::Get, "/users/");
    assert_eq!(r.resolve(&mut req), Some(&7));
    assert_eq!(req.params.get("id").map(|s| s.as_str()), Some(""));
}

#[test]
fn exact_route_comes_before_patterns() {
    let mut r: Router<u32> = Router::new();
    r.add(Method::Get, "/users/:id", 1);
    r.add(Method::Get, "/users/me", 2);
    let mut req = request(Method::Get, "/users/me");
    req.params.insert("kept".to_string(), "yes".to_string());
    assert_eq!(r.resolve(&mut req), Some(&2));
    assert_eq!(req.params.get("kept").map(|s| s.as_str()), Some("yes"));
    assert!(req.params.get("id").is_none());
}

#[test]
fn first_registered_pattern_wins() {
    let mut r: Router<u32> = Router::new();
    r.add(Method::Get, "/a/:x", 1);
    r.add(Method::Get, "/:y/b", 2);
    let mut req = request(Method::Get, "/a/b");
    assert_eq!(r.resolve(&mut req), Some(&1));
    assert_eq!(req.params.get("x").map(|s| s.as_str()), Some("b"));
    assert!(req.params.get("y").is_none());
    let mut req = request(Method::Get, "/c/b");
    assert_eq!(r.resolve(&mut req), Some(&2));
    assert_eq!(req.params.get("y").map(|s| s.as_str()), Some("c"));
}

#[test]
fn pattern_of_other_method_is_skipped() {
    let mut r: Router<u32> = Router::new();
    r.add(Method::Post, "/items/:id", 1);
    r.add(Method::Get, "/items/:key", 2);
    let mut req = request(Method::Get, "/items/9");
    assert_eq!(r.resolve(&mut req), Some(&2));
    assert_eq!(req.params.get("key").map(|s| s.as_str()), Some("9"));
}

#[test]
fn failed_resolution_keeps_parameters() {
    let mut r: Router<u32> = Router::new();
    r.add(Method::Get, "/a/:x/c", 1);
    let mut req = request(Method::Get, "/a/b/d");
    req.params.insert("old".to_string(), "v".to_string());
    assert_eq!(r.resolve(&mut req), None);
    assert_eq!(req.params.get("old").map(|s| s.as_str()), Some("v"));
    assert!(req.params.get("x").is_none());
}

#[test]
fn repeated_parameter_name_keeps_the_last_value() {
    let p = match_pattern("/:a/:a", "/x/y").unwrap();
    assert_eq!(p.get("a").map(|s| s.as_str()), Some("y"));
    assert_eq!(p.entries().len(), 1);
}

#[test]
fn parameter_names_drop_one_colon() {
    let p = match_pattern("/::a/:", "/x/y").unwrap();
    assert_eq!(p.get(":a").map(|s| s.as_str()), Some("x"));
    assert_eq!(p.get("").map(|s| s.as_str()), Some("y"));
}

#[test]
fn plain_pattern_matches_only_itself() {
    assert!(match_pattern("/a/b", "/a/b").is_some());
    assert_eq!(match_pattern("/a/b", "/a/b").unwrap().entries().len(), 0);
    assert!(match_pattern("/a/b", "/a/c").is_none());
    assert!(match_pattern("/a/b", "/a/b/").is_none());
    assert!(match_pattern("", "").is_some());
}

#[test]
fn non_ascii_segments_are_captured_whole() {
    let p = match_pattern("/städte/:name", "/städte/köln").unwrap();
    assert_eq!(p.get("name").map(|s| s.as_str()), Some("köln"));
}

#[test]
fn empty_router_reaches_nothing() {
    let r: Router<u32> = Router::default();
    let mut req = request(Method::Get, "/");
    assert_eq!(r.resolve(&mut req), None);
}

#[test]
fn segments_split_and_join_back() {
    let text = "/api/v1//x/";
    let c = chars_of(text);
    let b = segment_bounds(&c);
    let segs: Vec<String> = b.iter().map(|&(s, e)| c[s..e].iter().collect()).collect();
    let expected: Vec<String> = text.split('/').map(|s| s.to_string()).collect();
    assert_eq!(segs, expected);
    assert_eq!(segs.join("/"), text);
    assert_eq!(segment_bounds(&chars_of("")).len(), 1);
}

#[test]
fn colon_marks_a_pattern() {
    assert!(has_colon("/users/:id"));
    assert!(!has_colon("/users/id"));
}

#[test]
fn methods_compare_by_name() {
    assert!(Method::Get.same_as(&Method::Get));
    assert!(!Method::Get.same_as(&Method::Post));
    assert!(Method::Extension("PURGE".to_string()).same_as(&Method::Extension("PURGE".to_string())));
    assert!(!Method::Extension("PURGE".to_string()).same_as(&Method::Extension("LINK".to_string())));
    assert!(Method::Extension("X".to_string()).duplicate().same_as(&Method::Extension("X".to_string())));
}

#[test]
fn parameters_read_back_what_was_written() {
    let mut p = Params::new();
    p.insert("a".to_string(), "1".to_string());
    p.insert("b".to_string(), "2".to_string());
    p.insert("a".to_string(), "3".to_string());
    assert_eq!(p.get("a").map(|s| s.as_str()), Some("3"));
    assert_eq!(p.get("b").map(|s| s.as_str()), Some("2"));
    assert_eq!(p.get("c"), None);
    let names: Vec<&str> = p.entries().iter().map(|(k, _)| k.as_str()).collect();
    assert_eq!(names, vec!["a", "b"]);
}
