//! Responses and their serialisation.
use vstd::prelude::*;
use vstd::string::StringExecFns;
use vstd::utf8::encode_utf8;
use crate::cookies::{Cookie, cookie_text};
use crate::headers::Headers;
use crate::status::{Status, status_code, reason_text};
use crate::table::{Pairs, StrMap, insert_pair};
use crate::text::{lower_of, decimal, decimal_string};

verus! {

/// A response: status, headers, cookies to set, and body.
#[derive(Debug, Clone)]
pub struct Response {
    body: Vec<u8>,
    status_code: Status,
    headers: Headers,
    cookies: StrMap,
}

/// The content of a response as mathematical values; each cookie is held as
/// its name and its `Set-Cookie` value.
pub struct ResponseModel {
    pub body: Seq<u8>,
    pub status: Status,
    pub headers: Pairs,
    pub cookies: Pairs,
}

impl View for Response {
    type V = ResponseModel;

    closed spec fn view(&self) -> ResponseModel {
        ResponseModel {
            body: self.body@,
            status: self.status_code,
            headers: self.headers@,
            cookies: self.cookies@,
        }
    }
}

/// `name: value` lines, one per header, in order.
pub open spec fn header_lines(h: Pairs) -> Seq<char>
    decreases h.len(),
{
    if h.len() == 0 {
        Seq::empty()
    } else {
        header_lines(h.drop_last()) + h.last().0 + ": "@ + h.last().1 + "\r\n"@
    }
}

/// `Set-Cookie: name=value` lines, one per cookie, in order.
pub open spec fn cookie_lines(c: Pairs) -> Seq<char>
    decreases c.len(),
{
    if c.len() == 0 {
        Seq::empty()
    } else {
        cookie_lines(c.drop_last()) + "Set-Cookie: "@ + c.last().0 + "="@ + c.last().1 + "\r\n"@
    }
}

/// The head of a response: status line, headers, cookies and the empty
/// line.
pub open spec fn head_text(r: ResponseModel) -> Seq<char> {
    "HTTP/1.1 "@ + decimal(status_code(r.status) as nat) + " "@ + reason_text(r.status) + "\r\n"@
        + header_lines(r.headers) + cookie_lines(r.cookies) + "\r\n"@
}

/// The bytes of a response on the wire.
pub open spec fn wire_bytes(r: ResponseModel) -> Seq<u8> {
    encode_utf8(head_text(r)) + r.body
}

impl Response {
    /// Well-formed: header names and cookie names are unique.
    pub open spec fn wf(&self) -> bool {
        crate::table::keys_unique(self@.headers) && crate::table::keys_unique(self@.cookies)
    }

    /// A response with `status` and `body`, whose one header is
    /// `content-length`, the body's length.
    pub fn new(status_code: Status, body: Vec<u8>) -> (r: Response)
        ensures
            r.wf(),
            r@.status == status_code,
            r@.body == body@,
            r@.headers == seq![(lower_of("content-length"@), decimal(body@.len()))],
            r@.cookies == Seq::<(Seq<char>, Seq<char>)>::empty(),
    {
        let mut headers = Headers::new();
        let len = decimal_string(body.len() as u64);
        headers.insert("content-length", len);
        proof {
            assert(headers@ =~= seq![(lower_of("content-length"@), decimal(body@.len()))]);
        }
        Response { body, status_code, headers, cookies: StrMap::new() }
    }

    /// Sets header `name` (lower-cased) to `value`, replacing an earlier
    /// value in its place.
    pub fn with_header(self, name: &str, value: &str) -> (r: Response)
        requires
            self.wf(),
        ensures
            r.wf(),
            r@ == (ResponseModel { headers: insert_pair(self@.headers, lower_of(name@), value@), ..self@ }),
    {
        let mut s = self;
        s.headers.insert(name, value.to_owned());
        s
    }

    /// Sets cookie `name`, replacing an earlier cookie of that name.
    pub fn with_cookie(self, name: &str, cookie: Cookie) -> (r: Response)
        requires
            self.wf(),
        ensures
            r.wf(),
            r@ == (ResponseModel { cookies: insert_pair(self@.cookies, name@, cookie_text(cookie)), ..self@ }),
    {
        let mut s = self;
        s.cookies.insert(name.to_owned(), cookie.to_string());
        s
    }

    pub fn status(&self) -> (r: Status)
        ensures
            r == self@.status,
    {
        self.status_code
    }

    pub fn body(&self) -> (r: &Vec<u8>)
        ensures
            r@ == self@.body,
    {
        &self.body
    }

    pub fn headers(&self) -> (r: &Headers)
        ensures
            r@ == self@.headers,
    {
        &self.headers
    }

    pub fn cookies(&self) -> (r: &StrMap)
        ensures
            r@ == self@.cookies,
    {
        &self.cookies
    }

    /// The response as it goes on the wire: `HTTP/1.1 <code> <reason>`, the
    /// headers in order, one `Set-Cookie` line per cookie, an empty line,
    /// then the body.
    pub fn to_bytes(&self) -> (r: Vec<u8>)
        ensures
            r@ == wire_bytes(self@),
    {
        let mut head = String::new();
        head.append("HTTP/1.1 ");
        let code = decimal_string(self.status_code.code() as u64);
        head.append(code.as_str());
        head.append(" ");
        head.append(self.status_code.reason_phrase());
        head.append("\r\n");
        let ghost start = head@;
        let mut i: usize = 0;
        while i < self.headers.len()
            invariant
                i <= self.headers@.len(),
                head@ == start + header_lines(self.headers@.subrange(0, i as int)),
            decreases self.headers@.len() - i,
        {
            let (name, value) = self.headers.entry(i);
            head.append(name.as_str());
            head.append(": ");
            head.append(value.as_str());
            head.append("\r\n");
            proof {
                assert(self.headers@.subrange(0, i + 1).drop_last() =~= self.headers@.subrange(0, i as int));
                assert(head@ =~= start + header_lines(self.headers@.subrange(0, i + 1)));
            }
            i = i + 1;
        }
        proof {
            assert(self.headers@.subrange(0, self.headers@.len() as int) =~= self.headers@);
        }
        let ghost mid = head@;
        let mut k: usize = 0;
        while k < self.cookies.len()
            invariant
                k <= self.cookies@.len(),
                head@ == mid + cookie_lines(self.cookies@.subrange(0, k as int)),
            decreases self.cookies@.len() - k,
        {
            let (name, value) = self.cookies.entry(k);
            head.append("Set-Cookie: ");
            head.append(name.as_str());
            head.append("=");
            head.append(value.as_str());
            head.append("\r\n");
            proof {
                assert(self.cookies@.subrange(0, k + 1).drop_last() =~= self.cookies@.subrange(0, k as int));
                assert(head@ =~= mid + cookie_lines(self.cookies@.subrange(0, k + 1)));
            }
            k = k + 1;
        }
        proof {
            assert(self.cookies@.subrange(0, self.cookies@.len() as int) =~= self.cookies@);
        }
        head.append("\r\n");
        proof {
            assert(head@ =~= head_text(self@));
        }
        let mut out = vstd::slice::slice_to_vec(head.as_str().as_bytes());
        let ghost h = out@;
        let mut j: usize = 0;
        while j < self.body.len()
            invariant
                j <= self.body@.len(),
                out@ == h + self.body@.subrange(0, j as int),
            decreases self.body@.len() - j,
        {
            out.push(self.body[j]);
            proof {
                assert(out@ =~= h + self.body@.subrange(0, j + 1));
            }
            j = j + 1;
        }
        proof {
            assert(self.body@.subrange(0, self.body@.len() as int) =~= self.body@);
        }
        out
    }
}

} // verus!
