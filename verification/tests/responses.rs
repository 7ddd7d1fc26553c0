use koiweb::error::{respond, AppError};
use koiweb::response::Response;

fn header<'a>(r: &'a Response, name: &str) -> Option<&'a str> {
    r.headers().get(name).map(|s| s.as_str())
}

#[test]
fn new_response_has_status_and_body() {
    let r = Response::new(200, b"Home".to_vec());
    assert_eq!(r.status(), 200);
    assert_eq!(r.body(), b"Home");
    assert_eq!(r.headers().entries().len(), 0);
}

#[test]
fn header_name_is_normalised() {
    let mut r = Response::new(200, Vec::new());
    r.set_header("X-Custom-Header", "v1");
    assert_eq!(header(&r, "x-custom-header"), Some("v1"));
    assert_eq!(header(&r, "X-Custom-Header"), None);
}

#[test]
fn setting_a_header_again_replaces_it() {
    let mut r = Response::new(200, Vec::new());
    r.set_header("Content-Type", "text/plain");
    r.set_header("content-type", "text/html");
    assert_eq!(header(&r, "content-type"), Some("text/html"));
    assert_eq!(r.headers().entries().len(), 1);
}

#[test]
fn invalid_header_name_changes_nothing() {
    let mut r = Response::new(200, Vec::new());
    for name in ["", "bad name", "a:b", "(x)", "naïve"] {
        r.set_header(name, "v");
    }
    assert_eq!(r.headers().entries().len(), 0);
}

#[test]
fn invalid_header_value_changes_nothing() {
    let mut r = Response::new(200, Vec::new());
    r.set_header("x-a", "line\nbreak");
    r.set_header("x-b", "del\u{7f}");
    assert_eq!(r.headers().entries().len(), 0);
    r.set_header("x-c", "tab\tand é");
    assert_eq!(header(&r, "x-c"), Some("tab\tand é"));
}

#[test]
fn ok_json_sets_status_type_and_body() {
    let r = Response::ok_json(Ok("{\"status\":\"ok\"}".to_string())).unwrap();
    assert_eq!(r.status(), 200);
    assert_eq!(r.body(), b"{\"status\":\"ok\"}");
    assert_eq!(header(&r, "content-type"), Some("application/json"));
    assert_eq!(r.headers().entries().len(), 1);
}

#[test]
fn ok_json_passes_on_a_serialisation_error() {
    let err = serde_json::from_str::<serde_json::Value>("{").unwrap_err();
    match Response::ok_json(Err(err)) {
        Err(AppError::Serde(_)) => {}
        _ => panic!("expected a serialisation error"),
    }
}

#[test]
fn errors_become_responses() {
    let io = std::io::Error::new(std::io::ErrorKind::Other, "disk");
    let serde = serde_json::from_str::<serde_json::Value>("[").unwrap_err();
    let cases: Vec<(AppError, u16, &str)> = vec![
        (AppError::NotFound, 404, "Not Found"),
        (AppError::Internal("boom".to_string()), 500, "boom"),
        (AppError::BadRequest("File too large".to_string()), 400, "File too large"),
        (AppError::TooManyRequests, 429, "Rate limit exceeded"),
        (AppError::Io(io), 500, "IO Error"),
        (AppError::Serde(serde), 500, "Serialization Error"),
    ];
    for (e, status, body) in cases {
        let r = e.into_response();
        assert_eq!(r.status(), status);
        assert_eq!(r.body(), body.as_bytes());
        assert_eq!(r.headers().entries().len(), 0);
    }
}

#[test]
fn errors_convert_from_their_sources() {
    let io = std::io::Error::new(std::io::ErrorKind::Other, "x");
    assert!(matches!(AppError::from(io), AppError::Io(_)));
    let serde = serde_json::from_str::<serde_json::Value>("]").unwrap_err();
    assert!(matches!(AppError::from(serde), AppError::Serde(_)));
}

#[test]
fn respond_passes_responses_and_answers_errors() {
    let ok = respond(Ok(Response::new(201, b"made".to_vec())));
    assert_eq!(ok.status(), 201);
    assert_eq!(ok.body(), b"made");
    let nf = respond(Err(AppError::NotFound));
    assert_eq!(nf.status(), 404);
    assert_eq!(nf.body(), b"Not Found");
}

#[test]
fn errors_describe_themselves() {
    assert_eq!(AppError::NotFound.text(), "Not Found");
    assert_eq!(AppError::Internal("boom".to_string()).text(), "Internal Server Error: boom");
    assert_eq!(AppError::BadRequest("no".to_string()).text(), "Bad Request: no");
    assert_eq!(AppError::TooManyRequests.text(), "Too Many Requests");
    let io = std::io::Error::new(std::io::ErrorKind::Other, "disk");
    assert_eq!(AppError::Io(io).text(), "IO Error: disk");
    let serde = serde_json::from_str::<serde_json::Value>("{").unwrap_err();
    let expected = format!("Serialization Error: {}", serde);
    assert_eq!(AppError::Serde(serde).text(), expected);
}

#[test]
fn headers_keep_the_order_they_were_first_set() {
    let mut r = Response::new(200, Vec::new());
    r.set_header("B", "1");
    r.set_header("A", "2");
    r.set_header("b", "3");
    let names: Vec<&str> = r.headers().entries().iter().map(|(k, _)| k.as_str()).collect();
    assert_eq!(names, vec!["b", "a"]);
    assert_eq!(header(&r, "b"), Some("3"));
}
