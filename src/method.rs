//! HTTP request methods.
use vstd::prelude::*;
use crate::text::str_eq;

verus! {

/// The eight request methods the engine understands.
#[derive(Debug, PartialEq, Eq, Structural, Clone, Copy)]
pub enum Method {
    OPTIONS,
    GET,
    HEAD,
    POST,
    PUT,
    DELETE,
    TRACE,
    CONNECT,
}

/// Error for a token that names no known method.
#[derive(Debug, PartialEq, Eq, Structural, Clone, Copy)]
pub struct InvalidMethod;

/// The request-line token of a method.
pub open spec fn method_text(m: Method) -> Seq<char> {
    match m {
        Method::OPTIONS => "OPTIONS"@,
        Method::GET => "GET"@,
        Method::HEAD => "HEAD"@,
        Method::POST => "POST"@,
        Method::PUT => "PUT"@,
        Method::DELETE => "DELETE"@,
        Method::TRACE => "TRACE"@,
        Method::CONNECT => "CONNECT"@,
    }
}

/// The method a token names, if any.
pub open spec fn method_of_text(s: Seq<char>) -> Option<Method> {
    if s == "OPTIONS"@ {
        Some(Method::OPTIONS)
    } else if s == "GET"@ {
        Some(Method::GET)
    } else if s == "HEAD"@ {
        Some(Method::HEAD)
    } else if s == "POST"@ {
        Some(Method::POST)
    } else if s == "PUT"@ {
        Some(Method::PUT)
    } else if s == "DELETE"@ {
        Some(Method::DELETE)
    } else if s == "TRACE"@ {
        Some(Method::TRACE)
    } else if s == "CONNECT"@ {
        Some(Method::CONNECT)
    } else {
        None
    }
}

impl Default for Method {
    /// `GET` stands in until a request line has been read.
    fn default() -> (r: Method)
        ensures
            r == Method::GET,
    {
        Method::GET
    }
}

impl Method {
    /// The token of this method as it appears on a request line.
    pub fn as_str(&self) -> (r: &'static str)
        ensures
            r@ == method_text(*self),
    {
        match self {
            Method::OPTIONS => "OPTIONS",
            Method::GET => "GET",
            Method::HEAD => "HEAD",
            Method::POST => "POST",
            Method::PUT => "PUT",
            Method::DELETE => "DELETE",
            Method::TRACE => "TRACE",
            Method::CONNECT => "CONNECT",
        }
    }

    /// Parses a request-line token; tokens are matched exactly.
    pub fn from_str(s: &str) -> (r: Result<Method, InvalidMethod>)
        ensures
            match method_of_text(s@) {
                Some(m) => r == Ok::<Method, InvalidMethod>(m),
                None => r == Err::<Method, InvalidMethod>(InvalidMethod),
            },
    {
        if str_eq(s, "OPTIONS") {
            Ok(Method::OPTIONS)
        } else if str_eq(s, "GET") {
            Ok(Method::GET)
        } else if str_eq(s, "HEAD") {
            Ok(Method::HEAD)
        } else if str_eq(s, "POST") {
            Ok(Method::POST)
        } else if str_eq(s, "PUT") {
            Ok(Method::PUT)
        } else if str_eq(s, "DELETE") {
            Ok(Method::DELETE)
        } else if str_eq(s, "TRACE") {
            Ok(Method::TRACE)
        } else if str_eq(s, "CONNECT") {
            Ok(Method::CONNECT)
        } else {
            Err(InvalidMethod)
        }
    }
}

/// Rendering a method and reading the token back gives the same method; a
/// token that is no method's rendering is refused.
pub proof fn lemma_method_round_trip(m: Method, s: Seq<char>)
    ensures
        method_of_text(method_text(m)) == Some(m),
        (forall|k: Method| s != method_text(k)) ==> method_of_text(s) is None,
{
    reveal_strlit("OPTIONS");
    reveal_strlit("GET");
    reveal_strlit("HEAD");
    reveal_strlit("POST");
    reveal_strlit("PUT");
    reveal_strlit("DELETE");
    reveal_strlit("TRACE");
    reveal_strlit("CONNECT");
    assert("GET"@[0] != "PUT"@[0]);
    assert("HEAD"@[0] != "POST"@[0]);
    assert("OPTIONS"@[0] != "CONNECT"@[0]);
    assert("GET"@.len() == 3 && "PUT"@.len() == 3 && "HEAD"@.len() == 4 && "POST"@.len() == 4);
    assert("TRACE"@.len() == 5 && "DELETE"@.len() == 6);
    assert("OPTIONS"@.len() == 7 && "CONNECT"@.len() == 7);
    if (forall|k: Method| s != method_text(k)) {
        assert(s != method_text(Method::OPTIONS));
        assert(s != method_text(Method::GET));
        assert(s != method_text(Method::HEAD));
        assert(s != method_text(Method::POST));
        assert(s != method_text(Method::PUT));
        assert(s != method_text(Method::DELETE));
        assert(s != method_text(Method::TRACE));
        assert(s != method_text(Method::CONNECT));
    }
}

} // verus!
