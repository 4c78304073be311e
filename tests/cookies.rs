use http_server::handlers::{Login, Session};
use http_server::request::Request;
use http_server::status::Status;
use http_server::cookies::{parse_cookie, unquote, Cookie, SameSite};

#[test]
fn cookie_round_trip_plain_value() {
    let encoded = Cookie::new("hello world!".to_owned()).to_string();
    assert_eq!(encoded, "\"hello world!\"");
    assert_eq!(unquote(&encoded), Some("hello world!".to_owned()));
}

#[test]
fn cookie_decode_octal_escapes() {
    let m = parse_cookie("a=\"\\101\\102\"");
    assert_eq!(m.len(), 1);
    assert_eq!(m.get("a").map(|s| s.as_str()), Some("AB"));
}

#[test]
fn cookie_malformed_escape_drops_only_that_pair() {
    let m = parse_cookie("a=\"\\18\"; b=ok; c=\"x\"");
    assert_eq!(m.get("a"), None);
    assert_eq!(m.get("b").map(|s| s.as_str()), Some("ok"));
    assert_eq!(m.get("c").map(|s| s.as_str()), Some("x"));
    assert_eq!(m.len(), 2);
}

#[test]
fn cookie_incomplete_escape_fails() {
    assert_eq!(unquote("\"\\10\""), None);
    assert_eq!(unquote("\"\\1\""), None);
}

#[test]
fn cookie_unquote_cases() {
    assert_eq!(unquote("plain"), Some("plain".to_owned()));
    assert_eq!(unquote("\"\""), Some("\"\"".to_owned()));
    assert_eq!(unquote("\"a\\\"b\""), Some("a\"b".to_owned()));
    assert_eq!(unquote("\"a\\\\b\""), Some("a\\b".to_owned()));
    assert_eq!(unquote("\"\\9x\""), Some("9x".to_owned()));
}

#[test]
fn cookie_header_trimming_and_skips() {
    let m = parse_cookie("  a = 1 ;; =;\tb=2\t; novalue");
    assert_eq!(m.get("a").map(|s| s.as_str()), Some("1"));
    assert_eq!(m.get("b").map(|s| s.as_str()), Some("2"));
    assert_eq!(m.get("").map(|s| s.as_str()), Some("novalue"));
    assert_eq!(m.len(), 3);
}

#[test]
fn cookie_encode_escapes() {
    let c = Cookie::new("a\"b\\c\n;".to_owned());
    assert_eq!(c.to_string(), "\"a\\\"b\\\\c\\012\\073\"");
    let back = unquote(&c.to_string()).unwrap();
    assert_eq!(back, "a\"b\\c\n;");
}

#[test]
fn cookie_encode_attributes_in_order() {
    let c = Cookie::new("v".to_owned())
        .with_same_site(SameSite::Lax)
        .with_http_only(true)
        .with_secure(true)
        .with_domain("example.com".to_owned())
        .with_path("/".to_owned())
        .with_expires("Wed, 21 Oct 2015 07:28:00 GMT".to_owned())
        .with_max_age(3600);
    assert_eq!(
        c.to_string(),
        "\"v\"; Max-Age=3600; Expires=Wed, 21 Oct 2015 07:28:00 GMT; Path=/; Domain=example.com; Secure; HttpOnly; SameSite=Lax"
    );
}

#[test]
fn cookie_builders_set_fields() {
    let c = Cookie::new("x".to_owned()).with_max_age(0).with_same_site(SameSite::Unrestricted);
    assert_eq!(c.max_age, Some(0));
    assert_eq!(c.same_site, Some(SameSite::Unrestricted));
    assert!(!c.secure);
    assert_eq!(c.to_string(), "\"x\"; Max-Age=0; SameSite=None");
    assert_eq!(SameSite::Strict.as_str(), "Strict");
}

#[test]
fn login_requires_username_and_password() {
    let r = Request::parse(b"POST /login HTTP/1.1\r\n\r\n").unwrap().0;
    let resp = Login.respond(&r);
    assert_eq!(resp.status(), Status::BadRequest);
    assert_eq!(resp.body(), &b"username is required".to_vec());
    let r = Request::parse(b"POST /login?username=ann HTTP/1.1\r\nContent-Length: 5\r\n\r\nwrong").unwrap().0;
    let resp = Login.respond(&r);
    assert_eq!(resp.status(), Status::Unauthorized);
    assert_eq!(resp.body(), &b"invalid password".to_vec());
}

#[test]
fn login_sets_token_and_session_reads_it() {
    let r = Request::parse(b"POST /login?username=ann HTTP/1.1\r\nContent-Length: 9\r\n\r\npassword1").unwrap().0;
    let resp = Login.respond(&r);
    assert_eq!(resp.status(), Status::OK);
    assert_eq!(resp.body(), &b"Welcome, ann!".to_vec());
    assert_eq!(resp.cookies().get("token").map(|s| s.as_str()), Some("\"123-456-789\""));
    let r = Request::parse(b"GET /session HTTP/1.1\r\nCookie: token=\"123-456-789\"\r\n\r\n").unwrap().0;
    let resp = Session.respond(&r);
    assert_eq!(resp.status(), Status::OK);
    assert_eq!(resp.body(), &b"Your token is: 123-456-789".to_vec());
    let r = Request::parse(b"GET /session HTTP/1.1\r\n\r\n").unwrap().0;
    assert_eq!(Session.respond(&r).status(), Status::Unauthorized);
}
