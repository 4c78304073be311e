//! Parsing one HTTP/1.1 request from the bytes of a connection.
use vstd::prelude::*;
use vstd::slice::slice_subrange;
use vstd::utf8::{valid_utf8, decode_utf8};
use crate::cookies::{cookie_header, parse_cookie};
use crate::headers::Headers;
use crate::method::{Method, method_of_text};
use crate::query::{parse_query, target_path, target_query};
use crate::table::{Pairs, StrMap, insert_pair, lookup};
use crate::text::{lower_of, push_char, parse_usize, usize_text, views};

verus! {

/// A parsed request. `params` is filled in by the route that matched.
#[derive(Debug, Clone)]
pub struct Request {
    pub method: Method,
    pub path: String,
    pub headers: Headers,
    pub body: Vec<u8>,
    pub query: StrMap,
    pub params: Vec<String>,
    pub cookies: StrMap,
}

/// Why a request could not be read.
#[derive(Debug, PartialEq, Eq, Structural, Clone, Copy)]
pub enum RequestParseError {
    /// The method token is not one of the known methods.
    InvalidMethod,
    /// The request line does not end in ` HTTP/1.1`.
    InvalidVersion,
    /// The request target is not valid UTF-8.
    Utf8Error,
    /// A line is not ended by CRLF, a header has no colon, or the
    /// content length is not a number.
    InvalidEncoding,
    /// The input ended before the request did.
    IOError,
}

/// The content of a request as mathematical values.
pub struct RequestModel {
    pub method: Method,
    pub path: Seq<char>,
    pub headers: Pairs,
    pub body: Seq<u8>,
    pub query: Pairs,
    pub params: Seq<Seq<char>>,
    pub cookies: Pairs,
}

impl View for Request {
    type V = RequestModel;

    open spec fn view(&self) -> RequestModel {
        RequestModel {
            method: self.method,
            path: self.path@,
            headers: self.headers@,
            body: self.body@,
            query: self.query@,
            params: views(self.params@),
            cookies: self.cookies@,
        }
    }
}

/// First position at or after `from` that holds `b`, or -1.
pub open spec fn find_byte(s: Seq<u8>, from: int, b: u8) -> int
    decreases s.len() - from,
{
    if from < 0 || from >= s.len() {
        -1
    } else if s[from] == b {
        from
    } else {
        find_byte(s, from + 1, b)
    }
}

/// Bytes read as characters one for one.
pub open spec fn latin1(b: Seq<u8>) -> Seq<char> {
    b.map_values(|x: u8| x as char)
}

/// The line starting at `pos`: the position of its `\r`, which a `\n` must
/// follow.
pub open spec fn line_end(s: Seq<u8>, pos: int) -> Result<int, RequestParseError> {
    let cr = find_byte(s, pos, 13);
    if cr < 0 || cr + 1 >= s.len() {
        Err(RequestParseError::IOError)
    } else if s[cr + 1] != 10 {
        Err(RequestParseError::InvalidEncoding)
    } else {
        Ok(cr)
    }
}

/// ` HTTP/1.1` as bytes.
pub open spec fn version_suffix() -> Seq<u8> {
    seq![32u8, 72u8, 84u8, 84u8, 80u8, 47u8, 49u8, 46u8, 49u8]
}

/// A header value: what follows the colon, less one leading space.
pub open spec fn header_value(line: Seq<u8>, colon: int) -> Seq<u8> {
    let v = line.subrange(colon + 1, line.len() as int);
    if v.len() > 0 && v[0] == 32 {
        v.drop_first()
    } else {
        v
    }
}

/// The header block from `pos` on, added to `acc`: the headers and the
/// position after the empty line that ends the block.
pub open spec fn parse_headers(s: Seq<u8>, pos: int, acc: Pairs) -> Result<
    (Pairs, int),
    RequestParseError,
>
    decreases s.len() - pos,
{
    match line_end(s, pos) {
        Err(e) => Err(e),
        Ok(cr) => {
            if cr < pos {
                Err(RequestParseError::IOError)
            } else if cr == pos {
                Ok((acc, cr + 2))
            } else {
                let line = s.subrange(pos, cr);
                let colon = find_byte(line, 0, 58);
                if colon < 0 {
                    Err(RequestParseError::InvalidEncoding)
                } else {
                    parse_headers(
                        s,
                        cr + 2,
                        insert_pair(
                            acc,
                            lower_of(latin1(line.subrange(0, colon))),
                            latin1(header_value(line, colon)),
                        ),
                    )
                }
            }
        },
    }
}

/// The cookies of a header map.
pub open spec fn cookies_of(h: Pairs) -> Pairs {
    match lookup(h, lower_of("cookie"@)) {
        Some(c) => cookie_header(c),
        None => Seq::empty(),
    }
}

/// The request at the start of `s`, and the number of bytes it takes.
pub open spec fn parse_spec(s: Seq<u8>) -> Result<(RequestModel, int), RequestParseError> {
    let sp = find_byte(s, 0, 32);
    if sp < 0 {
        Err(RequestParseError::IOError)
    } else {
        let tok = s.subrange(0, sp);
        if !valid_utf8(tok) || method_of_text(decode_utf8(tok)) is None {
            Err(RequestParseError::InvalidMethod)
        } else {
            let method = method_of_text(decode_utf8(tok))->Some_0;
            match line_end(s, sp + 1) {
                Err(e) => Err(e),
                Ok(cr) => {
                    let line = s.subrange(sp + 1, cr);
                    if line.len() < 9 || line.subrange(line.len() - 9, line.len() as int)
                        != version_suffix() {
                        Err(RequestParseError::InvalidVersion)
                    } else {
                        let raw = line.subrange(0, line.len() - 9);
                        if !valid_utf8(raw) {
                            Err(RequestParseError::Utf8Error)
                        } else {
                            let target = decode_utf8(raw);
                            match parse_headers(s, cr + 2, Seq::empty()) {
                                Err(e) => Err(e),
                                Ok((h, at)) => {
                                    let len: Option<nat> = match lookup(h, lower_of("content-length"@)) {
                                        Some(cl) => usize_text(cl),
                                        None => Some(0),
                                    };
                                    match len {
                                        None => Err(RequestParseError::InvalidEncoding),
                                        Some(n) => if at + n > s.len() {
                                            Err(RequestParseError::IOError)
                                        } else {
                                            Ok((
                                                RequestModel {
                                                    method,
                                                    path: target_path(target),
                                                    headers: h,
                                                    body: s.subrange(at, at + n),
                                                    query: target_query(target),
                                                    params: Seq::empty(),
                                                    cookies: cookies_of(h),
                                                },
                                                at + n,
                                            ))
                                        },
                                    }
                                },
                            }
                        }
                    }
                },
            }
        }
    }
}

/// Relies on `std::str::from_utf8`: succeeds exactly on valid UTF-8 and
/// then holds the decoded characters.
#[verifier::external_body]
fn utf8_text(b: &[u8]) -> (r: Option<String>)
    ensures
        r is Some <==> valid_utf8(b@),
        r is Some ==> r->Some_0@ == decode_utf8(b@),
{
    match std::str::from_utf8(b) {
        Ok(s) => Some(s.to_owned()),
        Err(_) => None,
    }
}

fn find_byte_from(s: &[u8], from: usize, b: u8) -> (r: Option<usize>)
    requires
        from <= s@.len(),
    ensures
        match r {
            Some(i) => i as int == find_byte(s@, from as int, b) && i < s@.len(),
            None => find_byte(s@, from as int, b) == -1,
        },
{
    let mut i: usize = from;
    while i < s.len()
        invariant
            from <= i <= s@.len(),
            find_byte(s@, from as int, b) == find_byte(s@, i as int, b),
        decreases s@.len() - i,
    {
        if s[i] == b {
            return Some(i);
        }
        i = i + 1;
    }
    None
}

proof fn lemma_find_byte(s: Seq<u8>, from: int, b: u8)
    ensures
        find_byte(s, from, b) == -1 || (from <= find_byte(s, from, b) < s.len() && s[find_byte(s, from, b)] == b),
    decreases s.len() - from,
{
    if 0 <= from < s.len() && s[from] != b {
        lemma_find_byte(s, from + 1, b);
    }
}

fn read_line(s: &[u8], pos: usize) -> (r: Result<usize, RequestParseError>)
    requires
        pos <= s@.len(),
    ensures
        match r {
            Ok(cr) => line_end(s@, pos as int) == Ok::<int, RequestParseError>(cr as int) && pos <= cr
                && cr + 2 <= s@.len(),
            Err(e) => line_end(s@, pos as int) == Err::<int, RequestParseError>(e),
        },
{
    proof {
        lemma_find_byte(s@, pos as int, 13);
    }
    match find_byte_from(s, pos, 13) {
        None => Err(RequestParseError::IOError),
        Some(cr) => {
            if cr >= s.len() - 1 {
                Err(RequestParseError::IOError)
            } else if s[cr + 1] != 10 {
                Err(RequestParseError::InvalidEncoding)
            } else {
                Ok(cr)
            }
        },
    }
}

fn latin1_string(b: &[u8]) -> (r: String)
    ensures
        r@ == latin1(b@),
{
    let mut out = String::new();
    let mut i: usize = 0;
    while i < b.len()
        invariant
            i <= b@.len(),
            out@ == latin1(b@.subrange(0, i as int)),
        decreases b@.len() - i,
    {
        push_char(&mut out, b[i] as char);
        proof {
            assert(latin1(b@.subrange(0, i + 1)) =~= latin1(b@.subrange(0, i as int)).push(b@[i as int] as char));
        }
        i = i + 1;
    }
    proof {
        assert(b@.subrange(0, b@.len() as int) =~= b@);
    }
    out
}

/// Reads the header block that starts at `pos`.
fn read_headers(input: &[u8], pos: usize) -> (r: Result<(Headers, usize), RequestParseError>)
    requires
        pos <= input@.len(),
    ensures
        match r {
            Ok((h, at)) => parse_headers(input@, pos as int, Seq::empty()) == Ok::<(Pairs, int), RequestParseError>((h@, at as int))
                && h.wf() && at <= input@.len(),
            Err(e) => parse_headers(input@, pos as int, Seq::empty()) == Err::<(Pairs, int), RequestParseError>(e),
        },
{
    let mut headers = Headers::new();
    let mut at: usize = pos;
    let len = input.len();
    loop
        invariant
            len == input@.len(),
            at <= input@.len(),
            headers.wf(),
            parse_headers(input@, pos as int, Seq::empty()) == parse_headers(input@, at as int, headers@),
        decreases input@.len() - at,
    {
        let e = match read_line(input, at) {
            Ok(e) => e,
            Err(err) => return Err(err),
        };
        if e == at {
            return Ok((headers, e + 2));
        }
        let line = slice_subrange(input, at, e);
        proof {
            lemma_find_byte(line@, 0, 58);
        }
        let colon = match find_byte_from(line, 0, 58) {
            Some(c) => c,
            None => return Err(RequestParseError::InvalidEncoding),
        };
        let name = latin1_string(slice_subrange(line, 0, colon));
        let start = if colon + 1 < line.len() && line[colon + 1] == 32 {
            colon + 2
        } else {
            colon + 1
        };
        let value = latin1_string(slice_subrange(line, start, line.len()));
        proof {
            let v = line@.subrange(colon + 1, line@.len() as int);
            if v.len() > 0 && v[0] == 32 {
                assert(line@.subrange(start as int, line@.len() as int) =~= v.drop_first());
            } else {
                assert(line@.subrange(start as int, line@.len() as int) =~= v);
            }
        }
        headers.insert(name.as_str(), value);
        at = e + 2;
    }
}

/// Whether `line` ends in ` HTTP/1.1`.
fn has_version(line: &[u8]) -> (r: bool)
    ensures
        r == (line@.len() >= 9 && line@.subrange(line@.len() - 9, line@.len() as int) == version_suffix()),
{
    let n = line.len();
    if n < 9 {
        return false;
    }
    let r = line[n - 9] == 32 && line[n - 8] == 72 && line[n - 7] == 84 && line[n - 6] == 84
        && line[n - 5] == 80 && line[n - 4] == 47 && line[n - 3] == 49 && line[n - 2] == 46
        && line[n - 1] == 49;
    proof {
        let t = line@.subrange(n - 9, n as int);
        if r {
            assert(t =~= version_suffix());
        } else {
            assert(t.len() == 9);
            if t == version_suffix() {
                assert(t[0] == version_suffix()[0]);
                assert(t[1] == version_suffix()[1]);
                assert(t[2] == version_suffix()[2]);
                assert(t[3] == version_suffix()[3]);
                assert(t[4] == version_suffix()[4]);
                assert(t[5] == version_suffix()[5]);
                assert(t[6] == version_suffix()[6]);
                assert(t[7] == version_suffix()[7]);
                assert(t[8] == version_suffix()[8]);
            }
        }
    }
    r
}

impl Request {
    /// Reads one request from the start of `input`: the request line, the
    /// header block and a body of `content-length` bytes. On success also
    /// gives the number of bytes the request took. `IOError` means that the
    /// input ended first.
    pub fn parse(input: &[u8]) -> (r: Result<(Request, usize), RequestParseError>)
        ensures
            match r {
                Ok((req, used)) => parse_spec(input@) == Ok::<(RequestModel, int), RequestParseError>((req@, used as int))
                    && req.headers.wf() && req.query.wf() && req.cookies.wf(),
                Err(e) => parse_spec(input@) == Err::<(RequestModel, int), RequestParseError>(e),
            },
    {
        let len = input.len();
        proof {
            lemma_find_byte(input@, 0, 32);
        }
        let sp = match find_byte_from(input, 0, 32) {
            Some(i) => i,
            None => return Err(RequestParseError::IOError),
        };
        let method = match utf8_text(slice_subrange(input, 0, sp)) {
            None => return Err(RequestParseError::InvalidMethod),
            Some(t) => match Method::from_str(t.as_str()) {
                Ok(m) => m,
                Err(_) => return Err(RequestParseError::InvalidMethod),
            },
        };
        let cr = match read_line(input, sp + 1) {
            Ok(cr) => cr,
            Err(e) => return Err(e),
        };
        let line = slice_subrange(input, sp + 1, cr);
        if !has_version(line) {
            return Err(RequestParseError::InvalidVersion);
        }
        let target = match utf8_text(slice_subrange(line, 0, line.len() - 9)) {
            None => return Err(RequestParseError::Utf8Error),
            Some(t) => t,
        };
        let (headers, at) = match read_headers(input, cr + 2) {
            Ok(x) => x,
            Err(e) => return Err(e),
        };
        let n: usize = match headers.get("content-length") {
            Some(cl) => match parse_usize(cl.as_str()) {
                Some(n) => n,
                None => return Err(RequestParseError::InvalidEncoding),
            },
            None => 0,
        };
        if n > input.len() - at {
            return Err(RequestParseError::IOError);
        }
        let body = vstd::slice::slice_to_vec(slice_subrange(input, at, at + n));
        let (path, query) = parse_query(target.as_str());
        let cookies = match headers.get("cookie") {
            Some(c) => parse_cookie(c.as_str()),
            None => StrMap::new(),
        };
        let req = Request { method, path, headers, body, query, params: Vec::new(), cookies };
        proof {
            assert(views(req.params@) =~= Seq::<Seq<char>>::empty());
        }
        Ok((req, at + n))
    }
}

} // verus!
