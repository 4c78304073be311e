//! Cookies: decoding the `Cookie` request header and encoding `Set-Cookie`
//! values.
use vstd::prelude::*;
use vstd::string::StrSliceExecFns;
use crate::table::{Pairs, StrMap, insert_pair};
use vstd::string::StringExecFns;
use crate::text::{push_char, split_on, split_char, views, trim, trim_str, decimal, decimal_string};
use crate::query::{first_index, find_char, lemma_first_index};

verus! {

/// Whether `c` is an octal digit.
pub open spec fn is_octal(c: char) -> bool {
    '0' <= c && c <= '7'
}

/// Decodes the interior of a quoted value from position `i`, in `state`
/// (0: plain, 1: after a backslash, 2 and 3: inside an octal escape that has
/// read one or two digits worth `acc`), having produced `out`.
pub open spec fn unescape_from(s: Seq<char>, i: int, state: int, acc: int, out: Seq<char>) -> Option<
    Seq<char>,
>
    decreases s.len() - i,
{
    if i >= s.len() || i < 0 {
        if state >= 2 {
            None
        } else {
            Some(out)
        }
    } else {
        let c = s[i];
        if state == 0 {
            if c == '\\' {
                unescape_from(s, i + 1, 1, 0, out)
            } else {
                unescape_from(s, i + 1, 0, 0, out.push(c))
            }
        } else if state == 1 {
            if '0' <= c && c <= '3' {
                unescape_from(s, i + 1, 2, c as int - '0' as int, out)
            } else {
                unescape_from(s, i + 1, 0, 0, out.push(c))
            }
        } else if is_octal(c) {
            let v = acc * 8 + (c as int - '0' as int);
            if state == 3 {
                unescape_from(s, i + 1, 0, 0, out.push((v as u8) as char))
            } else {
                unescape_from(s, i + 1, 3, v, out)
            }
        } else {
            None
        }
    }
}

/// Whether a value is wrapped in double quotes with something between them.
pub open spec fn is_quoted(s: Seq<char>) -> bool {
    s.len() > 2 && s[0] == '"' && s.last() == '"'
}

/// The decoded form of a cookie value, or `None` for a malformed escape.
pub open spec fn unquote_spec(s: Seq<char>) -> Option<Seq<char>> {
    if is_quoted(s) {
        unescape_from(s.subrange(1, s.len() - 1), 0, 0, 0, Seq::empty())
    } else {
        Some(s)
    }
}

/// Decodes a cookie value: a value in double quotes loses them and has its
/// backslash escapes resolved (`\ooo` octal, `\c` for any other `c`); any
/// other value is returned as it is.
pub fn unquote(str: &str) -> (r: Option<String>)
    ensures
        match r {
            Some(v) => unquote_spec(str@) == Some(v@),
            None => unquote_spec(str@) is None,
        },
{
    let n = str.unicode_len();
    if !(n > 2 && str.get_char(0) == '"' && str.get_char(n - 1) == '"') {
        return Some(str.to_owned());
    }
    let inner = str.substring_char(1, n - 1);
    let ghost s = inner@;
    let m = n - 2;
    let mut state: u8 = 0;
    let mut acc: u32 = 0;
    let mut out = String::new();
    let mut i: usize = 0;
    while i < m
        invariant
            s == inner@,
            m == s.len(),
            i <= m,
            state <= 3,
            state < 2 ==> acc == 0,
            state == 2 ==> acc < 4,
            state == 3 ==> acc < 32,
            unquote_spec(str@) == unescape_from(s, i as int, state as int, acc as int, out@),
        decreases m - i,
    {
        let c = inner.get_char(i);
        if state == 0 {
            if c == '\\' {
                state = 1;
            } else {
                push_char(&mut out, c);
            }
        } else if state == 1 {
            if '0' <= c && c <= '3' {
                acc = (c as u32) - ('0' as u32);
                state = 2;
            } else {
                push_char(&mut out, c);
                state = 0;
            }
        } else if '0' <= c && c <= '7' {
            acc = acc * 8 + ((c as u32) - ('0' as u32));
            if state == 3 {
                push_char(&mut out, (acc as u8) as char);
                state = 0;
                acc = 0;
            } else {
                state = 3;
            }
        } else {
            return None;
        }
        i = i + 1;
    }
    if state >= 2 {
        None
    } else {
        Some(out)
    }
}

/// The name and the undecoded value of one `;`-separated chunk: split on the
/// first `=` (a chunk without one is all value), each side trimmed.
pub open spec fn chunk_name(c: Seq<char>) -> Seq<char> {
    let i = first_index(c, '=');
    if i < 0 {
        Seq::empty()
    } else {
        trim(c.subrange(0, i))
    }
}

pub open spec fn chunk_value(c: Seq<char>) -> Seq<char> {
    let i = first_index(c, '=');
    if i < 0 {
        trim(c)
    } else {
        trim(c.subrange(i + 1, c.len() as int))
    }
}

/// The cookies of a sequence of chunks: chunks with empty name and value are
/// skipped, and so are those whose value does not decode.
pub open spec fn cookie_pairs(cs: Seq<Seq<char>>) -> Pairs
    decreases cs.len(),
{
    if cs.len() == 0 {
        Seq::empty()
    } else {
        let rest = cookie_pairs(cs.drop_last());
        let c = cs.last();
        if chunk_name(c).len() == 0 && chunk_value(c).len() == 0 {
            rest
        } else {
            match unquote_spec(chunk_value(c)) {
                Some(v) => insert_pair(rest, chunk_name(c), v),
                None => rest,
            }
        }
    }
}

/// The cookies carried by a `Cookie` header value.
pub open spec fn cookie_header(h: Seq<char>) -> Pairs {
    cookie_pairs(split_on(h, ';'))
}

/// Decodes a `Cookie` header into a map from names to decoded values.
pub fn parse_cookie(cookie: &str) -> (r: StrMap)
    ensures
        r@ == cookie_header(cookie@),
        r.wf(),
{
    let mut cookies = StrMap::new();
    let chunks = split_char(cookie, ';');
    let ghost cs = views(chunks@);
    let mut k: usize = 0;
    proof {
        assert(cs.subrange(0, 0) =~= Seq::<Seq<char>>::empty());
    }
    while k < chunks.len()
        invariant
            cs == views(chunks@),
            k <= chunks@.len(),
            cookies.wf(),
            cookies@ == cookie_pairs(cs.subrange(0, k as int)),
        decreases chunks@.len() - k,
    {
        let chunk = chunks[k].as_str();
        proof {
            assert(cs.subrange(0, k + 1).drop_last() =~= cs.subrange(0, k as int));
            lemma_first_index(chunk@, '=');
        }
        let n = chunk.unicode_len();
        let (key, value) = match find_char(chunk, '=') {
            Some(i) => (trim_str(chunk.substring_char(0, i)), trim_str(chunk.substring_char(i + 1, n))),
            None => (String::new(), trim_str(chunk)),
        };
        proof {
            assert(key@ == chunk_name(chunk@));
            assert(value@ == chunk_value(chunk@));
        }
        if !(key.unicode_len() == 0 && value.unicode_len() == 0) {
            if let Some(v) = unquote(value.as_str()) {
                cookies.insert(key, v);
            }
        }
        k = k + 1;
    }
    proof {
        assert(cs.subrange(0, chunks@.len() as int) =~= cs);
    }
    cookies
}

/// The `SameSite` modes of a cookie.
#[derive(Debug, PartialEq, Eq, Structural, Clone, Copy)]
pub enum SameSite {
    Strict,
    Lax,
    Unrestricted,
}

/// The attribute text of a `SameSite` mode.
pub open spec fn same_site_text(s: SameSite) -> Seq<char> {
    match s {
        SameSite::Strict => "Strict"@,
        SameSite::Lax => "Lax"@,
        SameSite::Unrestricted => "None"@,
    }
}

impl SameSite {
    /// The attribute text of this mode.
    pub fn as_str(&self) -> (r: &'static str)
        ensures
            r@ == same_site_text(*self),
    {
        match self {
            SameSite::Strict => "Strict",
            SameSite::Lax => "Lax",
            SameSite::Unrestricted => "None",
        }
    }
}

/// An outgoing cookie: its value and attributes.
#[derive(Debug, Clone)]
pub struct Cookie {
    pub value: String,
    pub max_age: Option<u64>,
    pub expires: Option<String>,
    pub path: Option<String>,
    pub domain: Option<String>,
    pub secure: bool,
    pub http_only: bool,
    pub same_site: Option<SameSite>,
}

impl Cookie {
    /// A cookie with `value` and no attributes.
    pub fn new(value: String) -> (r: Cookie)
        ensures
            r.value@ == value@,
            r.max_age is None,
            r.expires is None,
            r.path is None,
            r.domain is None,
            !r.secure,
            !r.http_only,
            r.same_site is None,
    {
        Cookie {
            value,
            max_age: None,
            expires: None,
            path: None,
            domain: None,
            secure: false,
            http_only: false,
            same_site: None,
        }
    }

    pub fn with_max_age(self, max_age: u64) -> (r: Cookie)
        ensures
            r == (Cookie { max_age: Some(max_age), ..self }),
    {
        Cookie { max_age: Some(max_age), ..self }
    }

    pub fn with_expires(self, expires: String) -> (r: Cookie)
        ensures
            r == (Cookie { expires: Some(expires), ..self }),
    {
        Cookie { expires: Some(expires), ..self }
    }

    pub fn with_path(self, path: String) -> (r: Cookie)
        ensures
            r == (Cookie { path: Some(path), ..self }),
    {
        Cookie { path: Some(path), ..self }
    }

    pub fn with_domain(self, domain: String) -> (r: Cookie)
        ensures
            r == (Cookie { domain: Some(domain), ..self }),
    {
        Cookie { domain: Some(domain), ..self }
    }

    pub fn with_secure(self, secure: bool) -> (r: Cookie)
        ensures
            r == (Cookie { secure, ..self }),
    {
        Cookie { secure, ..self }
    }

    pub fn with_http_only(self, http_only: bool) -> (r: Cookie)
        ensures
            r == (Cookie { http_only, ..self }),
    {
        Cookie { http_only, ..self }
    }

    pub fn with_same_site(self, same_site: SameSite) -> (r: Cookie)
        ensures
            r == (Cookie { same_site: Some(same_site), ..self }),
    {
        Cookie { same_site: Some(same_site), ..self }
    }
}

/// Characters written into a quoted cookie value as they are.
pub open spec fn is_plain(c: char) -> bool {
    ('a' <= c && c <= 'z') || ('A' <= c && c <= 'Z') || ('0' <= c && c <= '9') || c == ' ' || c
        == '(' || c == ')' || c == '/' || c == '<' || c == '=' || c == '>' || c == '?' || c == '@'
        || c == '[' || c == ']' || c == '{' || c == '}' || c == '!' || c == '#' || c == '$' || c
        == '%' || c == '&' || c == '\'' || c == '*' || c == '+' || c == '-' || c == '.' || c == '^'
        || c == '_' || c == '`' || c == '|' || c == '~' || c == ':'
}

/// Backslash and three octal digits for the low byte of `c`.
pub open spec fn octal_escape(c: char) -> Seq<char> {
    let b = (c as u32 % 256) as int;
    seq!['\\', ((b / 64) + '0' as int) as char, ((b / 8) % 8 + '0' as int) as char, (b % 8 + '0' as int) as char]
}

/// The encoding of one character inside a quoted cookie value.
pub open spec fn escape_char(c: char) -> Seq<char> {
    if c == '\\' {
        seq!['\\', '\\']
    } else if c == '"' {
        seq!['\\', '"']
    } else if is_plain(c) {
        seq![c]
    } else {
        octal_escape(c)
    }
}

/// The encoding of a cookie value's characters.
pub open spec fn escape_all(s: Seq<char>) -> Seq<char>
    decreases s.len(),
{
    if s.len() == 0 {
        Seq::empty()
    } else {
        escape_all(s.drop_last()) + escape_char(s.last())
    }
}

/// A cookie value in double quotes, escaped.
pub open spec fn quote_spec(v: Seq<char>) -> Seq<char> {
    seq!['"'] + escape_all(v) + seq!['"']
}

/// The character view of an optional string.
pub open spec fn opt_view(o: Option<String>) -> Option<Seq<char>> {
    match o {
        Some(s) => Some(s@),
        None => None,
    }
}

/// `text` preceded by `label` when present.
pub open spec fn opt_attr(label: Seq<char>, text: Option<Seq<char>>) -> Seq<char> {
    match text {
        Some(t) => label + t,
        None => Seq::empty(),
    }
}

/// The `Set-Cookie` value of a cookie (without its name).
pub open spec fn cookie_text(c: Cookie) -> Seq<char> {
    quote_spec(c.value@)
        + opt_attr("; Max-Age="@, match c.max_age { Some(n) => Some(decimal(n as nat)), None => None })
        + opt_attr("; Expires="@, opt_view(c.expires))
        + opt_attr("; Path="@, opt_view(c.path))
        + opt_attr("; Domain="@, opt_view(c.domain))
        + (if c.secure { "; Secure"@ } else { Seq::empty() })
        + (if c.http_only { "; HttpOnly"@ } else { Seq::empty() })
        + opt_attr("; SameSite="@, match c.same_site { Some(s) => Some(same_site_text(s)), None => None })
}

fn octal_digit(d: u32) -> (r: char)
    requires
        d < 8,
    ensures
        r == ((d + '0' as u32) as char),
{
    ((d + ('0' as u32)) as u8) as char
}

impl Cookie {
    /// The quoted and escaped value.
    fn quoted_value(&self) -> (r: String)
        ensures
            r@ == quote_spec(self.value@),
    {
        let v = self.value.as_str();
        let n = v.unicode_len();
        let mut out = String::new();
        push_char(&mut out, '"');
        let mut i: usize = 0;
        proof {
            assert(v@.subrange(0, 0) =~= Seq::<char>::empty());
            assert(out@ =~= seq!['"'] + escape_all(v@.subrange(0, 0)));
        }
        while i < n
            invariant
                n == v@.len(),
                v@ == self.value@,
                i <= n,
                out@ == seq!['"'] + escape_all(v@.subrange(0, i as int)),
            decreases n - i,
        {
            let c = v.get_char(i);
            let ghost before = out@;
            proof {
                assert(v@.subrange(0, i + 1).drop_last() =~= v@.subrange(0, i as int));
            }
            if c == '\\' {
                push_char(&mut out, '\\');
                push_char(&mut out, '\\');
            } else if c == '"' {
                push_char(&mut out, '\\');
                push_char(&mut out, '"');
            } else if ('a' <= c && c <= 'z') || ('A' <= c && c <= 'Z') || ('0' <= c && c <= '9')
                || c == ' ' || c == '(' || c == ')' || c == '/' || c == '<' || c == '=' || c == '>'
                || c == '?' || c == '@' || c == '[' || c == ']' || c == '{' || c == '}' || c == '!'
                || c == '#' || c == '$' || c == '%' || c == '&' || c == '\'' || c == '*' || c == '+'
                || c == '-' || c == '.' || c == '^' || c == '_' || c == '`' || c == '|' || c == '~'
                || c == ':' {
                push_char(&mut out, c);
            } else {
                let b: u32 = (c as u32) % 256;
                push_char(&mut out, '\\');
                push_char(&mut out, octal_digit(b / 64));
                push_char(&mut out, octal_digit((b / 8) % 8));
                push_char(&mut out, octal_digit(b % 8));
            }
            proof {
                assert(out@ =~= before + escape_char(c));
                assert(escape_all(v@.subrange(0, i + 1)) =~= escape_all(v@.subrange(0, i as int)) + escape_char(c));
            }
            i = i + 1;
        }
        proof {
            assert(v@.subrange(0, n as int) =~= v@);
        }
        push_char(&mut out, '"');
        out
    }

    /// The `Set-Cookie` value: the quoted value, then `Max-Age`, `Expires`,
    /// `Path`, `Domain`, `Secure`, `HttpOnly` and `SameSite` where set, in
    /// that order.
    #[verifier::rlimit(50)]
    pub fn to_string(&self) -> (r: String)
        ensures
            r@ == cookie_text(*self),
    {
        let mut out = self.quoted_value();
        let ghost g1 = out@ + opt_attr("; Max-Age="@, match self.max_age { Some(n) => Some(decimal(n as nat)), None => None });
        if let Some(n) = self.max_age {
            out.append("; Max-Age=");
            let d = decimal_string(n);
            out.append(d.as_str());
        }
        assert(out@ =~= g1);
        let ghost g2 = out@ + opt_attr("; Expires="@, opt_view(self.expires));
        if let Some(e) = &self.expires {
            out.append("; Expires=");
            out.append(e.as_str());
        }
        assert(out@ =~= g2);
        let ghost g3 = out@ + opt_attr("; Path="@, opt_view(self.path));
        if let Some(p) = &self.path {
            out.append("; Path=");
            out.append(p.as_str());
        }
        assert(out@ =~= g3);
        let ghost g4 = out@ + opt_attr("; Domain="@, opt_view(self.domain));
        if let Some(d) = &self.domain {
            out.append("; Domain=");
            out.append(d.as_str());
        }
        assert(out@ =~= g4);
        let ghost g5 = out@ + (if self.secure { "; Secure"@ } else { Seq::empty() });
        if self.secure {
            out.append("; Secure");
        }
        assert(out@ =~= g5);
        let ghost g6 = out@ + (if self.http_only { "; HttpOnly"@ } else { Seq::empty() });
        if self.http_only {
            out.append("; HttpOnly");
        }
        assert(out@ =~= g6);
        let ghost g7 = out@ + opt_attr("; SameSite="@, match self.same_site { Some(s) => Some(same_site_text(s)), None => None });
        if let Some(s) = &self.same_site {
            out.append("; SameSite=");
            out.append(s.as_str());
        }
        assert(out@ =~= g7);
        out
    }
}

proof fn lemma_unescape_char(s: Seq<char>, p: int, c: char, out: Seq<char>)
    requires
        0 <= p,
        p + escape_char(c).len() <= s.len(),
        s.subrange(p, p + escape_char(c).len()) == escape_char(c),
        (c as u32) < 256,
    ensures
        unescape_from(s, p, 0, 0, out) == unescape_from(s, p + escape_char(c).len(), 0, 0, out.push(c)),
{
    let e = escape_char(c);
    let t = s.subrange(p, p + e.len());
    assert(s[p] == t[0]);
    if e.len() > 1 {
        assert(s[p + 1] == t[1]);
    }
    if e.len() > 3 {
        assert(s[p + 2] == t[2]);
        assert(s[p + 3] == t[3]);
    }
    if c == '\\' || c == '"' {
        assert(s[p] == '\\');
        assert(s[p + 1] == c);
        assert(unescape_from(s, p, 0, 0, out) == unescape_from(s, p + 1, 1, 0, out));
        assert(unescape_from(s, p + 1, 1, 0, out) == unescape_from(s, p + 2, 0, 0, out.push(c)));
    } else if is_plain(c) {
        assert(s[p] == c);
    } else {
        let b = (c as u32 % 256) as int;
        assert(b == c as u32);
        let d1 = b / 64;
        let d2 = (b / 8) % 8;
        let d3 = b % 8;
        assert(s[p] == '\\');
        assert(s[p + 1] == (d1 + '0' as int) as char);
        assert(s[p + 2] == (d2 + '0' as int) as char);
        assert(s[p + 3] == (d3 + '0' as int) as char);
        assert(0 <= d1 <= 3);
        assert((d1 * 8 + d2) * 8 + d3 == b) by (nonlinear_arith)
            requires
                d1 == b / 64,
                d2 == (b / 8) % 8,
                d3 == b % 8,
                0 <= b < 256,
        ;
        assert(((b as u8) as char) == c);
        assert(unescape_from(s, p, 0, 0, out) == unescape_from(s, p + 1, 1, 0, out));
        assert(unescape_from(s, p + 1, 1, 0, out) == unescape_from(s, p + 2, 2, d1, out));
        assert(unescape_from(s, p + 2, 2, d1, out) == unescape_from(s, p + 3, 3, d1 * 8 + d2, out));
        assert(unescape_from(s, p + 3, 3, d1 * 8 + d2, out) == unescape_from(s, p + 4, 0, 0, out.push(c)));
    }
}

proof fn lemma_unescape_all(s: Seq<char>, p: int, v: Seq<char>, out: Seq<char>)
    requires
        0 <= p,
        p + escape_all(v).len() <= s.len(),
        s.subrange(p, p + escape_all(v).len()) == escape_all(v),
        forall|i: int| 0 <= i < v.len() ==> (#[trigger] v[i] as u32) < 256,
    ensures
        unescape_from(s, p, 0, 0, out) == unescape_from(s, p + escape_all(v).len(), 0, 0, out + v),
    decreases v.len(),
{
    if v.len() == 0 {
        assert(out + v =~= out);
    } else {
        let w = v.drop_last();
        let c = v.last();
        let ew = escape_all(w);
        let ec = escape_char(c);
        assert(escape_all(v) == ew + ec);
        assert(s.subrange(p, p + ew.len()) =~= (ew + ec).subrange(0, ew.len() as int));
        assert((ew + ec).subrange(0, ew.len() as int) =~= ew);
        assert(s.subrange(p + ew.len(), p + ew.len() + ec.len()) =~= (ew + ec).subrange(
            ew.len() as int,
            (ew.len() + ec.len()) as int,
        ));
        assert((ew + ec).subrange(ew.len() as int, (ew.len() + ec.len()) as int) =~= ec);
        assert forall|i: int| 0 <= i < w.len() implies (#[trigger] w[i] as u32) < 256 by {
            assert(w[i] == v[i]);
        }
        assert((v[v.len() - 1] as u32) < 256);
        lemma_unescape_all(s, p, w, out);
        lemma_unescape_char(s, p + ew.len(), c, out + w);
        assert((out + w).push(c) =~= out + v);
    }
}

/// Decoding the quoted form of a cookie value gives the value back, for a
/// non-empty value whose characters all lie below U+0100.
pub proof fn lemma_cookie_value_round_trip(v: Seq<char>)
    requires
        v.len() > 0,
        forall|i: int| 0 <= i < v.len() ==> (#[trigger] v[i] as u32) < 256,
    ensures
        unquote_spec(quote_spec(v)) == Some(v),
{
    let e = escape_all(v);
    let q = quote_spec(v);
    let w = v.drop_last();
    assert(e == escape_all(w) + escape_char(v.last()));
    assert(escape_char(v.last()).len() >= 1);
    assert(q.len() > 2);
    assert(q[0] == '"');
    assert(q.last() == '"');
    assert(q.subrange(1, q.len() - 1) =~= e);
    assert(e.subrange(0, e.len() as int) =~= e);
    lemma_unescape_all(e, 0, v, Seq::empty());
    assert(Seq::<char>::empty() + v =~= v);
}

/// Characters of the plain set are written as they are.
pub proof fn lemma_plain_unescaped(c: char)
    requires
        is_plain(c),
    ensures
        escape_char(c) == seq![c],
{
}

} // verus!
