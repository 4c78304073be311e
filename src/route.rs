//! Routes: a method, a path pattern and the endpoint that serves them.
use vstd::prelude::*;
use vstd::string::StrSliceExecFns;
use crate::method::Method;
use crate::request::Request;
use crate::response::Response;
use crate::text::{split_on, split_char, join_with, join_from, str_eq, views};

verus! {

/// What serves the requests of a route.
pub trait Endpoint {
    fn call(&self, request: &Request) -> Response;
}

/// A registered route. `endpoint` is whatever serves it.
pub struct Route<E> {
    pub method: Method,
    pub patterns: Vec<String>,
    pub endpoint: E,
}

/// Whether a path or pattern starts with `/`.
pub open spec fn rooted(p: Seq<char>) -> bool {
    p.len() > 0 && p[0] == '/'
}

/// The segments of a rooted path or pattern: the text after the leading `/`
/// cut at every `/`.
pub open spec fn segments(p: Seq<char>) -> Seq<Seq<char>> {
    split_on(p.drop_first(), '/')
}

/// Matching pattern segments `pats` against path segments `segs` from
/// position `i`, having extracted `acc`: a `*` takes the rest of the path
/// joined with `/` and ends the match; `%s` takes one segment; any other
/// segment must equal the path's; without a `*` the counts must agree.
pub open spec fn match_from(pats: Seq<Seq<char>>, segs: Seq<Seq<char>>, i: int, acc: Seq<Seq<char>>) -> Option<
    Seq<Seq<char>>,
>
    decreases pats.len() - i,
{
    if i < 0 || i >= pats.len() {
        if segs.len() == pats.len() {
            Some(acc)
        } else {
            None
        }
    } else if pats[i] == "*"@ {
        Some(acc.push(join_with(segs.subrange(i, segs.len() as int), '/')))
    } else if i >= segs.len() {
        None
    } else if pats[i] == "%s"@ {
        match_from(pats, segs, i + 1, acc.push(segs[i]))
    } else if pats[i] == segs[i] {
        match_from(pats, segs, i + 1, acc)
    } else {
        None
    }
}

/// The parameters a pattern extracts from a path, or `None` when it does not
/// match.
pub open spec fn route_match(pats: Seq<Seq<char>>, segs: Seq<Seq<char>>) -> Option<Seq<Seq<char>>> {
    match_from(pats, segs, 0, Seq::empty())
}

impl<E> Route<E> {
    /// The pattern segments.
    pub open spec fn pattern(&self) -> Seq<Seq<char>> {
        views(self.patterns@)
    }

    /// A route for `method` on `pattern`, which starts with `/`.
    pub fn new(method: Method, pattern: &str, endpoint: E) -> (r: Route<E>)
        requires
            rooted(pattern@),
        ensures
            r.method == method,
            r.pattern() == segments(pattern@),
            r.endpoint == endpoint,
    {
        let n = pattern.unicode_len();
        let rest = pattern.substring_char(1, n);
        proof {
            assert(rest@ =~= pattern@.drop_first());
        }
        Route { method, patterns: split_char(rest, '/'), endpoint }
    }

    /// The parameters this route's pattern extracts from the request's
    /// path, in pattern order, or `None` when the pattern does not match.
    pub fn matches(&self, request: &Request) -> (r: Option<Vec<String>>)
        requires
            rooted(request.path@),
        ensures
            match r {
                Some(p) => route_match(self.pattern(), segments(request.path@)) == Some(views(p@)),
                None => route_match(self.pattern(), segments(request.path@)) is None,
            },
    {
        let path = request.path.as_str();
        let n = path.unicode_len();
        let rest = path.substring_char(1, n);
        proof {
            assert(rest@ =~= path@.drop_first());
        }
        let segs = split_char(rest, '/');
        let ghost pats = views(self.patterns@);
        let ghost sv = views(segs@);
        let mut params: Vec<String> = Vec::new();
        let mut i: usize = 0;
        proof {
            assert(views(params@) =~= Seq::<Seq<char>>::empty());
        }
        while i < self.patterns.len()
            invariant
                pats == views(self.patterns@),
                sv == views(segs@),
                sv == segments(request.path@),
                i <= self.patterns@.len(),
                i <= segs@.len(),
                route_match(pats, sv) == match_from(pats, sv, i as int, views(params@)),
            decreases self.patterns@.len() - i,
        {
            let p = self.patterns[i].as_str();
            if str_eq(p, "*") {
                let tail = join_from(&segs, i, '/');
                let ghost before = views(params@);
                params.push(tail);
                proof {
                    assert(views(params@) =~= before.push(tail@));
                }
                return Some(params);
            }
            if i >= segs.len() {
                return None;
            }
            if str_eq(p, "%s") {
                let ghost before = views(params@);
                params.push(segs[i].clone());
                proof {
                    assert(views(params@) =~= before.push(sv[i as int]));
                }
            } else if !str_eq(p, segs[i].as_str()) {
                return None;
            }
            i = i + 1;
        }
        if self.patterns.len() != segs.len() {
            return None;
        }
        Some(params)
    }
}

} // verus!
