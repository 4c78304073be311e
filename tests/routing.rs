use http_server::application::{
    finish, internal_error, keep_alive, next_step, not_found, Step,
};
use http_server::method::Method;
use http_server::request::Request;
use http_server::response::Response;
use http_server::route::Route;
use http_server::static_files::StaticFiles;
use http_server::status::Status;

fn request_for(path: &str) -> Request {
    let text = format!("GET {} HTTP/1.1\r\n\r\n", path);
    Request::parse(text.as_bytes()).unwrap().0
}

#[test]
fn route_params_and_wildcard() {
    let r = Route::new(Method::GET, "/users/%s/posts/*", ());
    let p = r.matches(&request_for("/users/42/posts/2024/10")).unwrap();
    assert_eq!(p, vec!["42".to_owned(), "2024/10".to_owned()]);
}

#[test]
fn route_segment_count_must_agree() {
    let r = Route::new(Method::GET, "/a/%s", ());
    assert_eq!(r.matches(&request_for("/a")), None);
    assert_eq!(r.matches(&request_for("/a/b/c")), None);
    assert_eq!(r.matches(&request_for("/a/b")), Some(vec!["b".to_owned()]));
}

#[test]
fn route_literal_and_empty_wildcard() {
    let r = Route::new(Method::GET, "/static/*", ());
    assert_eq!(r.matches(&request_for("/static")), Some(vec!["".to_owned()]));
    assert_eq!(r.matches(&request_for("/other/x")), None);
    let root = Route::new(Method::GET, "/*", ());
    assert_eq!(root.matches(&request_for("/")), Some(vec!["".to_owned()]));
    assert_eq!(root.matches(&request_for("/a/b")), Some(vec!["a/b".to_owned()]));
}

fn table() -> Vec<Route<&'static str>> {
    vec![
        Route::new(Method::POST, "/login", "login"),
        Route::new(Method::GET, "/session", "session"),
        Route::new(Method::GET, "/files/*", "files"),
    ]
}

fn responded(step: Step) -> (Response, usize, bool) {
    match step {
        Step::Respond { response, used, keep_alive } => (response, used, keep_alive),
        _ => panic!("expected a response"),
    }
}

#[test]
fn wrong_method_gives_405() {
    let (resp, _, ka) = responded(next_step(&table(), b"GET /login HTTP/1.1\r\n\r\n"));
    assert_eq!(resp.status(), Status::MethodNotAllowed);
    assert_eq!(resp.status().code(), 405);
    assert!(!ka);
    assert_eq!(resp.headers().get("connection").map(|s| s.as_str()), Some("close"));
    assert_eq!(resp.headers().get("content-type").map(|s| s.as_str()), Some("text/html"));
}

#[test]
fn unknown_path_gives_404() {
    let (resp, _, _) = responded(next_step(&table(), b"GET /unknown HTTP/1.1\r\n\r\n"));
    assert_eq!(resp.status(), Status::NotFound);
    assert_eq!(resp.body(), &b"<h1>404 Not Found</h1>".to_vec());
}

#[test]
fn matching_route_is_called_with_params() {
    match next_step(&table(), b"GET /files/css/site.css HTTP/1.1\r\n\r\n") {
        Step::Call { route, request, used, keep_alive } => {
            assert_eq!(route, 2);
            assert_eq!(request.params, vec!["css/site.css".to_owned()]);
            assert_eq!(used, 36);
            assert!(!keep_alive);
        }
        _ => panic!("expected a call"),
    }
}

#[test]
fn keep_alive_serves_two_requests() {
    let routes = table();
    let input = b"GET /nothing HTTP/1.1\r\nconnection: keep-alive\r\n\r\nGET /missing HTTP/1.1\r\n\r\n";
    let (first, used, ka) = responded(next_step(&routes, input));
    assert!(ka);
    assert_eq!(first.headers().get("connection").map(|s| s.as_str()), Some("keep-alive"));
    let rest = &input[used..];
    let (second, used2, ka2) = responded(next_step(&routes, rest));
    assert!(!ka2);
    assert_eq!(used2, rest.len());
    assert_eq!(second.headers().get("connection").map(|s| s.as_str()), Some("close"));
    assert!(matches!(next_step(&routes, &rest[used2..]), Step::ReadMore));
}

#[test]
fn keep_alive_is_case_sensitive() {
    let r = Request::parse(b"GET / HTTP/1.1\r\nConnection: Keep-Alive\r\n\r\n").unwrap().0;
    assert!(!keep_alive(&r));
    let r = Request::parse(b"GET / HTTP/1.1\r\nConnection: keep-alive\r\n\r\n").unwrap().0;
    assert!(keep_alive(&r));
}

#[test]
fn malformed_request_closes_without_response() {
    assert!(matches!(next_step(&table(), b"BREW /pot HTTP/1.1\r\n\r\n"), Step::Close));
}

#[test]
fn unrooted_path_gives_500_and_closes() {
    let (resp, _, ka) = responded(next_step(&table(), b"GET * HTTP/1.1\r\n\r\n"));
    assert_eq!(resp.status(), Status::InternalServerError);
    assert!(!ka);
}

#[test]
fn handler_failure_gives_one_500_then_new_connection_works() {
    let resp = internal_error();
    assert_eq!(resp.status().code(), 500);
    assert_eq!(resp.headers().get("connection").map(|s| s.as_str()), Some("close"));
    let bytes = resp.to_bytes();
    let text = String::from_utf8(bytes).unwrap();
    assert_eq!(text.matches("HTTP/1.1 500 Internal Server Error").count(), 1);
    match next_step(&table(), b"GET /session HTTP/1.1\r\n\r\n") {
        Step::Call { route, .. } => assert_eq!(route, 1),
        _ => panic!("expected a call"),
    }
}

#[test]
fn response_serialisation() {
    let resp = finish(
        Response::new(Status::OK, b"hi".to_vec())
            .with_header("Content-Type", "text/plain")
            .with_cookie("token", http_server::cookies::Cookie::new("1 2".to_owned())),
        true,
    );
    let text = String::from_utf8(resp.to_bytes()).unwrap();
    assert_eq!(
        text,
        "HTTP/1.1 200 OK\r\ncontent-length: 2\r\ncontent-type: text/plain\r\nconnection: keep-alive\r\nSet-Cookie: token=\"1 2\"\r\n\r\nhi"
    );
}

#[test]
fn response_content_length_can_be_overridden() {
    let resp = Response::new(Status::NoContent, Vec::new()).with_header("content-length", "7");
    assert_eq!(resp.headers().len(), 1);
    assert_eq!(resp.headers().get("content-length").map(|s| s.as_str()), Some("7"));
    let text = String::from_utf8(not_found().to_bytes()).unwrap();
    assert!(text.starts_with("HTTP/1.1 404 Not Found\r\ncontent-length: 22\r\n"));
}

#[test]
fn static_file_paths() {
    let files = StaticFiles::new("static");
    assert_eq!(files.file_path(""), "static/index.html");
    assert_eq!(files.file_path("css/../../etc/passwd"), "static/css/etc/passwd");
    assert_eq!(files.file_path("a/b.txt"), "static/a/b.txt");
}

#[test]
fn static_file_responses() {
    let files = StaticFiles::new("static");
    let index = files.respond("", Some(b"<p>".to_vec()));
    assert_eq!(index.status(), Status::OK);
    assert_eq!(index.headers().get("content-type").map(|s| s.as_str()), Some("text/html"));
    let missing = files.respond("x", None);
    assert_eq!(missing.status(), Status::NotFound);
    assert_eq!(missing.body(), &b"StaticFiles: 404 Not Found".to_vec());
    let missing_index = files.respond("", None);
    assert_eq!(missing_index.body(), &b"404 Not Found".to_vec());
}
