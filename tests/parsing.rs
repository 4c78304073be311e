use http_server::method::{InvalidMethod, Method};
use http_server::query::parse_query;
use http_server::request::{Request, RequestParseError};

const METHODS: [Method; 8] = [
    Method::OPTIONS,
    Method::GET,
    Method::HEAD,
    Method::POST,
    Method::PUT,
    Method::DELETE,
    Method::TRACE,
    Method::CONNECT,
];

#[test]
fn method_round_trips() {
    for m in METHODS {
        assert_eq!(Method::from_str(m.as_str()), Ok(m));
    }
    assert_eq!(Method::GET.as_str(), "GET");
    assert_eq!(Method::CONNECT.as_str(), "CONNECT");
}

#[test]
fn method_unknown_token_fails() {
    assert_eq!(Method::from_str("FETCH"), Err(InvalidMethod));
    assert_eq!(Method::from_str("get"), Err(InvalidMethod));
    assert_eq!(Method::from_str(""), Err(InvalidMethod));
}

#[test]
fn method_default_is_get() {
    assert_eq!(Method::default(), Method::GET);
}

fn parse(text: &str) -> Result<(Request, usize), RequestParseError> {
    Request::parse(text.as_bytes())
}

#[test]
fn request_line_path_and_query() {
    let text = "GET /a/b?x=1&y=2 HTTP/1.1\r\nHost: example\r\n\r\n";
    let (req, used) = parse(text).unwrap();
    assert_eq!(used, text.len());
    assert_eq!(req.method, Method::GET);
    assert_eq!(req.path, "/a/b");
    assert_eq!(req.query.len(), 2);
    assert_eq!(req.query.get("x").map(|s| s.as_str()), Some("1"));
    assert_eq!(req.query.get("y").map(|s| s.as_str()), Some("2"));
    assert!(req.body.is_empty());
    assert!(req.params.is_empty());
}

#[test]
fn request_headers_lowercased_and_one_space_trimmed() {
    let text = "POST /x HTTP/1.1\r\nContent-Type:  text/plain\r\nX-A:b\r\n\r\n";
    let (req, _) = parse(text).unwrap();
    assert_eq!(req.headers.len(), 2);
    let (name, value) = req.headers.entry(0);
    assert_eq!(name, "content-type");
    assert_eq!(value, " text/plain");
    assert_eq!(req.headers.get("x-a").map(|s| s.as_str()), Some("b"));
    assert_eq!(req.headers.get("X-A").map(|s| s.as_str()), Some("b"));
}

#[test]
fn request_repeated_header_last_wins() {
    let text = "GET / HTTP/1.1\r\nA: 1\r\nB: 2\r\na: 3\r\n\r\n";
    let (req, _) = parse(text).unwrap();
    assert_eq!(req.headers.len(), 2);
    assert_eq!(req.headers.get("a").map(|s| s.as_str()), Some("3"));
    let (name, _) = req.headers.entry(0);
    assert_eq!(name, "a");
}

#[test]
fn request_body_by_content_length() {
    let text = "POST /login?username=bob HTTP/1.1\r\nContent-Length: 9\r\n\r\npassword1GET";
    let (req, used) = parse(text).unwrap();
    assert_eq!(req.method, Method::POST);
    assert_eq!(req.body, b"password1".to_vec());
    assert_eq!(used, text.len() - 3);
    assert_eq!(req.query.get("username").map(|s| s.as_str()), Some("bob"));
}

#[test]
fn request_cookies_decoded() {
    let text = "GET / HTTP/1.1\r\nCookie: token=abc; a=\"\\101\\102\"\r\n\r\n";
    let (req, _) = parse(text).unwrap();
    assert_eq!(req.cookies.len(), 2);
    assert_eq!(req.cookies.get("token").map(|s| s.as_str()), Some("abc"));
    assert_eq!(req.cookies.get("a").map(|s| s.as_str()), Some("AB"));
}

#[test]
fn request_utf8_path() {
    let text = "GET /caf\u{e9} HTTP/1.1\r\n\r\n";
    let (req, _) = parse(text).unwrap();
    assert_eq!(req.path, "/caf\u{e9}");
    assert_eq!(req.path.chars().count(), 5);
}

#[test]
fn request_errors() {
    assert_eq!(parse("FETCH / HTTP/1.1\r\n\r\n").err(), Some(RequestParseError::InvalidMethod));
    assert_eq!(parse("GET / HTTP/1.0\r\n\r\n").err(), Some(RequestParseError::InvalidVersion));
    assert_eq!(parse("GET / HTTP/1.1\rX\r\n").err(), Some(RequestParseError::InvalidEncoding));
    assert_eq!(parse("GET / HTTP/1.1\r\nNoColon\r\n\r\n").err(), Some(RequestParseError::InvalidEncoding));
    assert_eq!(
        parse("GET / HTTP/1.1\r\nContent-Length: x\r\n\r\n").err(),
        Some(RequestParseError::InvalidEncoding)
    );
    let mut bad = b"GET /".to_vec();
    bad.push(0xff);
    bad.extend_from_slice(b" HTTP/1.1\r\n\r\n");
    assert_eq!(Request::parse(&bad).err(), Some(RequestParseError::Utf8Error));
}

#[test]
fn request_incomplete_input() {
    assert_eq!(parse("GET").err(), Some(RequestParseError::IOError));
    assert_eq!(parse("GET / HTTP/1.1\r\nHost: a").err(), Some(RequestParseError::IOError));
    assert_eq!(parse("GET / HTTP/1.1\r\n").err(), Some(RequestParseError::IOError));
    assert_eq!(
        parse("POST / HTTP/1.1\r\nContent-Length: 5\r\n\r\nabc").err(),
        Some(RequestParseError::IOError)
    );
}

#[test]
fn request_content_length_with_plus_sign() {
    let (req, _) = parse("POST / HTTP/1.1\r\nContent-Length: +2\r\n\r\nhi").unwrap();
    assert_eq!(req.body, b"hi".to_vec());
}

#[test]
fn query_repeated_key_last_wins() {
    let (path, q) = parse_query("/p?a=1&b&a=2&c=x=y");
    assert_eq!(path, "/p");
    assert_eq!(q.len(), 3);
    assert_eq!(q.get("a").map(|s| s.as_str()), Some("2"));
    assert_eq!(q.get("b").map(|s| s.as_str()), Some(""));
    assert_eq!(q.get("c").map(|s| s.as_str()), Some("x"));
    let (name, _) = q.entry(0);
    assert_eq!(name, "a");
}

#[test]
fn query_absent() {
    let (path, q) = parse_query("/plain/path");
    assert_eq!(path, "/plain/path");
    assert_eq!(q.len(), 0);
}
