//! The example endpoints the server ships with: a login that sets a token
//! cookie, and a session page that reads it back.
use vstd::prelude::*;
use vstd::string::StringExecFns;
use vstd::utf8::encode_utf8;
use crate::cookies::{Cookie, cookie_text, quote_spec};
use crate::request::Request;
use crate::response::{Response, ResponseModel};
use crate::route::Endpoint;
use crate::status::Status;
use crate::table::{insert_pair, lookup};
use crate::text::{lower_of, decimal};

verus! {

/// Logs a user in: wants a `username` query parameter and the password as
/// the body.
pub struct Login;

/// Shows the token cookie of a logged-in user.
pub struct Session;

/// A plain response with `text` as its body.
pub open spec fn text_model(status: Status, text: Seq<char>) -> ResponseModel {
    ResponseModel {
        body: encode_utf8(text),
        status,
        headers: seq![(lower_of("content-length"@), decimal(encode_utf8(text).len()))],
        cookies: Seq::empty(),
    }
}

/// The login outcome for a request with query `query` and body `body`.
pub open spec fn login_model(req: crate::request::RequestModel) -> ResponseModel {
    match lookup(req.query, "username"@) {
        None => text_model(Status::BadRequest, "username is required"@),
        Some(user) => if req.body != encode_utf8("password1"@) {
            text_model(Status::Unauthorized, "invalid password"@)
        } else {
            let m = text_model(Status::OK, "Welcome, "@ + user + "!"@);
            ResponseModel {
                cookies: insert_pair(m.cookies, "token"@, quote_spec("123-456-789"@)),
                ..m
            }
        },
    }
}

/// The session page for a request with cookies `cookies`.
pub open spec fn session_model(req: crate::request::RequestModel) -> ResponseModel {
    match lookup(req.cookies, "token"@) {
        None => text_model(Status::Unauthorized, "You are not looged in"@),
        Some(token) => text_model(Status::OK, "Your token is: "@ + token),
    }
}

fn text_response(status: Status, text: &str) -> (r: Response)
    ensures
        r@ == text_model(status, text@),
        r.wf(),
{
    Response::new(status, vstd::slice::slice_to_vec(text.as_bytes()))
}

fn bytes_eq(a: &Vec<u8>, b: &[u8]) -> (r: bool)
    ensures
        r == (a@ == b@),
{
    if a.len() != b.len() {
        return false;
    }
    let mut i: usize = 0;
    while i < a.len()
        invariant
            a@.len() == b@.len(),
            i <= a@.len(),
            forall|j: int| 0 <= j < i ==> a@[j] == b@[j],
        decreases a@.len() - i,
    {
        if a[i] != b[i] {
            return false;
        }
        i = i + 1;
    }
    assert(a@ =~= b@);
    true
}

impl Login {
    /// `400` without a `username`, `401` unless the body is the password,
    /// else a welcome that sets the `token` cookie.
    pub fn respond(&self, request: &Request) -> (r: Response)
        ensures
            r@ == login_model(request@),
            r.wf(),
    {
        let user = match request.query.get("username") {
            None => return text_response(Status::BadRequest, "username is required"),
            Some(u) => u,
        };
        if !bytes_eq(&request.body, "password1".as_bytes()) {
            return text_response(Status::Unauthorized, "invalid password");
        }
        let mut text = String::new();
        text.append("Welcome, ");
        text.append(user.as_str());
        text.append("!");
        let cookie = Cookie::new("123-456-789".to_owned());
        proof {
            assert(cookie_text(cookie) =~= quote_spec("123-456-789"@));
        }
        text_response(Status::OK, text.as_str()).with_cookie("token", cookie)
    }
}

impl Session {
    /// `401` without a `token` cookie, else a page that shows it.
    pub fn respond(&self, request: &Request) -> (r: Response)
        ensures
            r@ == session_model(request@),
            r.wf(),
    {
        match request.cookies.get("token") {
            None => text_response(Status::Unauthorized, "You are not looged in"),
            Some(token) => {
                let mut text = String::new();
                text.append("Your token is: ");
                text.append(token.as_str());
                text_response(Status::OK, text.as_str())
            },
        }
    }
}

impl Endpoint for Login {
    fn call(&self, request: &Request) -> Response {
        self.respond(request)
    }
}

impl Endpoint for Session {
    fn call(&self, request: &Request) -> Response {
        self.respond(request)
    }
}

} // verus!
