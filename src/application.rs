//! The decisions a connection makes for each request: which route serves
//! it, whether the connection stays open, and the responses the engine
//! writes itself.
use vstd::prelude::*;
use vstd::string::StrSliceExecFns;
use vstd::utf8::encode_utf8;
use crate::request::{Request, RequestModel, RequestParseError, parse_spec};
use crate::response::{Response, ResponseModel};
use crate::route::{Route, rooted, segments, route_match};
use crate::status::Status;
use crate::table::{Pairs, insert_pair, lookup};
use crate::text::{lower_of, decimal, str_eq, views};

verus! {

/// The first route, from position `i` on, whose pattern matches path
/// segments `segs`: its position and the parameters extracted.
pub open spec fn first_match<E>(routes: Seq<Route<E>>, segs: Seq<Seq<char>>, i: int) -> Option<
    (int, Seq<Seq<char>>),
>
    decreases routes.len() - i,
{
    if i < 0 || i >= routes.len() {
        None
    } else {
        match route_match(routes[i].pattern(), segs) {
            Some(p) => Some((i, p)),
            None => first_match(routes, segs, i + 1),
        }
    }
}

proof fn lemma_first_match<E>(routes: Seq<Route<E>>, segs: Seq<Seq<char>>, i: int)
    ensures
        match first_match(routes, segs, i) {
            Some((j, p)) => 0 <= j < routes.len() && route_match(routes[j].pattern(), segs) == Some(p),
            None => true,
        },
    decreases routes.len() - i,
{
    if 0 <= i < routes.len() {
        lemma_first_match(routes, segs, i + 1);
    }
}

/// Whether the request asks to keep the connection open.
pub open spec fn wants_keep_alive(headers: Pairs) -> bool {
    lookup(headers, lower_of("connection"@)) == Some("keep-alive"@)
}

/// An HTML page the engine writes itself.
pub open spec fn page_model(status: Status, text: Seq<char>) -> ResponseModel {
    ResponseModel {
        body: encode_utf8(text),
        status,
        headers: insert_pair(
            seq![(lower_of("content-length"@), decimal(encode_utf8(text).len()))],
            lower_of("content-type"@),
            "text/html"@,
        ),
        cookies: Seq::empty(),
    }
}

/// `m` with its `connection` header saying whether the connection stays
/// open.
pub open spec fn with_connection(m: ResponseModel, keep_alive: bool) -> ResponseModel {
    ResponseModel {
        headers: insert_pair(
            m.headers,
            lower_of("connection"@),
            if keep_alive {
                "keep-alive"@
            } else {
                "close"@
            },
        ),
        ..m
    }
}

/// What a connection does next with the bytes it has received.
pub enum Step {
    /// The input ends inside a request: read more, or close if the peer is
    /// gone.
    ReadMore,
    /// The input is not a request: close without answering.
    Close,
    /// Write `response`, drop `used` bytes of input, and go on reading only
    /// when `keep_alive`.
    Respond { response: Response, used: usize, keep_alive: bool },
    /// Hand `request` to the endpoint of route `route`, then finish its
    /// response with `finish` and write it as for `Respond`.
    Call { route: usize, request: Request, used: usize, keep_alive: bool },
}

/// Whether the request asks to keep the connection open: its `connection`
/// header is exactly `keep-alive`.
pub fn keep_alive(request: &Request) -> (r: bool)
    ensures
        r == wants_keep_alive(request.headers@),
{
    match request.headers.get("connection") {
        Some(v) => str_eq(v.as_str(), "keep-alive"),
        None => false,
    }
}

fn page(status: Status, text: &str) -> (r: Response)
    ensures
        r@ == page_model(status, text@),
        r.wf(),
{
    let body = vstd::slice::slice_to_vec(text.as_bytes());
    Response::new(status, body).with_header("content-type", "text/html")
}

/// The 404 page.
pub fn not_found() -> (r: Response)
    ensures
        r@ == page_model(Status::NotFound, "<h1>404 Not Found</h1>"@),
        r.wf(),
{
    page(Status::NotFound, "<h1>404 Not Found</h1>")
}

/// The 405 page.
pub fn method_not_allowed() -> (r: Response)
    ensures
        r@ == page_model(Status::MethodNotAllowed, "<h1>405 Method Not Allowed</h1>"@),
        r.wf(),
{
    page(Status::MethodNotAllowed, "<h1>405 Method Not Allowed</h1>")
}

/// The 500 page, closing the connection: the answer to a request whose
/// handling failed.
pub fn internal_error() -> (r: Response)
    ensures
        r@ == with_connection(page_model(Status::InternalServerError, "<h1>500 Internal Server Error</h1>"@), false),
        r.wf(),
{
    finish(page(Status::InternalServerError, "<h1>500 Internal Server Error</h1>"), false)
}

/// Sets the `connection` header of a response to `keep-alive` or `close`.
pub fn finish(response: Response, keep_alive: bool) -> (r: Response)
    requires
        response.wf(),
    ensures
        r@ == with_connection(response@, keep_alive),
        r.wf(),
{
    response.with_header("connection", if keep_alive { "keep-alive" } else { "close" })
}

/// The first route whose pattern matches the request's path, in
/// registration order and whatever its method, with the parameters
/// extracted.
pub fn find_route<E>(routes: &Vec<Route<E>>, request: &Request) -> (r: Option<(usize, Vec<String>)>)
    requires
        rooted(request.path@),
    ensures
        match r {
            Some((i, p)) => first_match(routes@, segments(request.path@), 0) == Some((i as int, views(p@))),
            None => first_match(routes@, segments(request.path@), 0) is None,
        },
{
    let mut i: usize = 0;
    while i < routes.len()
        invariant
            i <= routes@.len(),
            rooted(request.path@),
            first_match(routes@, segments(request.path@), 0) == first_match(routes@, segments(request.path@), i as int),
        decreases routes@.len() - i,
    {
        match routes[i].matches(request) {
            Some(p) => return Some((i, p)),
            None => {},
        }
        i = i + 1;
    }
    None
}

/// What to do with the bytes a connection has received so far.
pub fn next_step<E>(routes: &Vec<Route<E>>, input: &[u8]) -> (r: Step)
    ensures
        match parse_spec(input@) {
            Err(RequestParseError::IOError) => r is ReadMore,
            Err(_) => r is Close,
            Ok((m, used)) => {
                let ka = wants_keep_alive(m.headers);
                if !rooted(m.path) {
                    r matches Step::Respond { response, used: u, keep_alive }
                        && response@ == with_connection(page_model(Status::InternalServerError, "<h1>500 Internal Server Error</h1>"@), false)
                        && u == used && !keep_alive
                } else {
                    match first_match(routes@, segments(m.path), 0) {
                        None => r matches Step::Respond { response, used: u, keep_alive }
                            && response@ == with_connection(page_model(Status::NotFound, "<h1>404 Not Found</h1>"@), ka)
                            && u == used && keep_alive == ka,
                        Some((i, p)) => if routes@[i].method != m.method {
                            r matches Step::Respond { response, used: u, keep_alive }
                                && response@ == with_connection(page_model(Status::MethodNotAllowed, "<h1>405 Method Not Allowed</h1>"@), ka)
                                && u == used && keep_alive == ka
                        } else {
                            r matches Step::Call { route, request, used: u, keep_alive }
                                && route == i && request@ == (RequestModel { params: p, ..m })
                                && request.headers.wf() && request.query.wf() && request.cookies.wf()
                                && u == used && keep_alive == ka
                        },
                    }
                }
            },
        },
{
    let (mut request, used) = match Request::parse(input) {
        Ok(x) => x,
        Err(RequestParseError::IOError) => return Step::ReadMore,
        Err(_) => return Step::Close,
    };
    let ka = keep_alive(&request);
    let n = request.path.as_str().unicode_len();
    if !(n > 0 && request.path.as_str().get_char(0) == '/') {
        return Step::Respond { response: internal_error(), used, keep_alive: false };
    }
    match find_route(routes, &request) {
        None => Step::Respond { response: finish(not_found(), ka), used, keep_alive: ka },
        Some((i, params)) => {
            proof {
                lemma_first_match(routes@, segments(request.path@), 0);
            }
            if routes[i].method != request.method {
                Step::Respond { response: finish(method_not_allowed(), ka), used, keep_alive: ka }
            } else {
                request.params = params;
                Step::Call { route: i, request, used, keep_alive: ka }
            }
        },
    }
}

} // verus!
