use koiweb::application::{chain_middleware, join_group_path, App};
use koiweb::limits::{rate_limit_step, upload_progress, MAX_UPLOAD_BYTES};
use koiweb::error::AppError;
use koiweb::method::Method;
use koiweb::router::Request;
use koiweb::string_map::Params;

fn request(method: Method, path: &str) -> Request {
    Request { method, path: path.to_string(), params: Params::new() }
}

#[test]
fn group_paths_join_the_prefix() {
    let prefix = "/api/v1".to_string();
    assert_eq!(join_group_path(&prefix, "/test"), "/api/v1/test");
    assert_eq!(join_group_path(&prefix, "/"), "/api/v1");
    assert_eq!(join_group_path(&prefix, ""), "/api/v1");
    assert_eq!(join_group_path(&prefix, "x"), "/api/v1x");
}

#[test]
fn group_routes_reach_their_handlers() {
    let mut app: App<u32, ()> = App::new();
    app.route(Method::Get, "/", 1);
    {
        let mut g = app.group("/api/v1");
        g.route(Method::Get, "/test", 2).route(Method::Get, "/", 3).route(Method::Get, "/users/:id", 4);
    }
    let cases = [("/", Some(1)), ("/api/v1/test", Some(2)), ("/api/v1", Some(3)), ("/api/v1/users/5", Some(4)), ("/test", None)];
    for (path, expected) in cases {
        let mut req = request(Method::Get, path);
        assert_eq!(app.find_handler(None, &mut req).copied(), expected, "{}", path);
    }
    let mut req = request(Method::Get, "/api/v1/users/5");
    app.find_handler(None, &mut req);
    assert_eq!(req.params.get("id").map(|s| s.as_str()), Some("5"));
}

#[test]
fn static_router_is_asked_second() {
    let mut app: App<u32, ()> = App::default();
    app.route(Method::Get, "/a", 1);
    let mut files: koiweb::router::Router<u32> = koiweb::router::Router::new();
    files.add(Method::Get, "/a", 10);
    files.add(Method::Get, "/index.html", 11);
    let mut req = request(Method::Get, "/a");
    assert_eq!(app.find_handler(Some(&files), &mut req), Some(&1));
    let mut req = request(Method::Get, "/index.html");
    assert_eq!(app.find_handler(Some(&files), &mut req), Some(&11));
    let mut req = request(Method::Get, "/none");
    assert_eq!(app.find_handler(Some(&files), &mut req), None);
}

#[test]
fn middleware_is_kept_in_order() {
    let app: App<u32, &str> = App::new().with_middleware("first").with_middleware("second");
    assert_eq!(app.middlewares(), &["first", "second"]);
}

#[test]
fn chain_runs_middleware_in_order() {
    let mws = vec!["a", "b", "c"];
    let chain = chain_middleware(&mws, vec!["handler".to_string()], |mw: &&str, next: Vec<String>| {
        let mut v = vec![mw.to_string()];
        v.extend(next);
        v
    });
    assert_eq!(chain, vec!["a", "b", "c", "handler"]);
    let none: Vec<&str> = Vec::new();
    assert_eq!(chain_middleware(&none, 5u8, |_: &&str, n: u8| n + 1), 5);
}

#[test]
fn rate_limiter_admits_while_tokens_last() {
    let mut tokens = 3usize;
    let mut admitted = 0;
    for _ in 0..5 {
        let step = rate_limit_step(tokens, 10, 3, 60);
        assert!(!step.refilled);
        if step.admitted {
            admitted += 1;
        }
        tokens = step.tokens;
    }
    assert_eq!(admitted, 3);
    assert_eq!(tokens, 0);
    let step = rate_limit_step(0, 60, 3, 60);
    assert!(step.refilled && step.admitted);
    assert_eq!(step.tokens, 2);
    let step = rate_limit_step(0, 0, 0, 60);
    assert!(!step.admitted && step.tokens == 0);
}

#[test]
fn upload_limit_is_ten_mebibytes() {
    assert_eq!(MAX_UPLOAD_BYTES, 10 * 1024 * 1024);
    assert_eq!(upload_progress(0, 100).unwrap(), 100);
    assert_eq!(upload_progress(MAX_UPLOAD_BYTES - 1, 1).unwrap(), MAX_UPLOAD_BYTES);
    match upload_progress(MAX_UPLOAD_BYTES, 1) {
        Err(AppError::BadRequest(m)) => assert_eq!(m, "File too large"),
        _ => panic!("expected the upload to be refused"),
    }
}

#[test]
fn group_root_route_is_the_bare_prefix() {
    let mut app: App<u32, ()> = App::new();
    app.group("/api").route(Method::Get, "/", 1);
    let mut req = request(Method::Get, "/api");
    assert_eq!(app.find_handler(None, &mut req), Some(&1));
    let mut req = request(Method::Get, "/api/");
    assert_eq!(app.find_handler(None, &mut req), None);
    assert_eq!(app.middlewares().len(), 0);
}

#[test]
fn missing_handler_is_not_found() {
    let h = 3u32;
    assert_eq!(koiweb::application::handler_or_not_found(Some(&h)).unwrap(), &3);
    assert!(matches!(koiweb::application::handler_or_not_found::<u32>(None), Err(AppError::NotFound)));
}

#[test]
fn clients_are_keyed_by_address() {
    assert_eq!(koiweb::limits::client_key(Some("10.0.0.1".to_string())), "10.0.0.1");
    assert_eq!(koiweb::limits::client_key(None), "anon");
}
