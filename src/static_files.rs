//! Serving files under a directory: which file a request names, and the
//! response for what was read.
use vstd::prelude::*;
use vstd::string::{StrSliceExecFns, StringExecFns};
use crate::response::{Response, ResponseModel};
use crate::status::Status;
use crate::table::insert_pair;
use crate::text::{split_on, split_char, str_eq, views, lower_of, decimal};
use vstd::utf8::encode_utf8;

verus! {

/// Serves the files under the directory `path`.
#[derive(Debug, Clone)]
pub struct StaticFiles {
    pub path: String,
}

/// `/segment` for each segment that is not `..`, in order.
pub open spec fn kept_segments(segs: Seq<Seq<char>>) -> Seq<char>
    decreases segs.len(),
{
    if segs.len() == 0 {
        Seq::empty()
    } else if segs.last() == ".."@ {
        kept_segments(segs.drop_last())
    } else {
        kept_segments(segs.drop_last()) + seq!['/'] + segs.last()
    }
}

/// The file for relative path `rel` under `root`: `index.html` for an empty
/// path, else the path's segments with every `..` left out.
pub open spec fn file_for(root: Seq<char>, rel: Seq<char>) -> Seq<char> {
    if rel.len() == 0 {
        root + "/index.html"@
    } else {
        root + kept_segments(split_on(rel, '/'))
    }
}

/// The response for the file named by `rel`, given its content when it
/// could be read.
pub open spec fn file_response(rel: Seq<char>, content: Option<Seq<u8>>) -> ResponseModel {
    match content {
        Some(c) => {
            let headers = seq![(lower_of("content-length"@), decimal(c.len()))];
            ResponseModel {
                body: c,
                status: Status::OK,
                headers: if rel.len() == 0 {
                    insert_pair(headers, lower_of("content-type"@), "text/html"@)
                } else {
                    headers
                },
                cookies: Seq::empty(),
            }
        },
        None => {
            let text = if rel.len() == 0 {
                "404 Not Found"@
            } else {
                "StaticFiles: 404 Not Found"@
            };
            ResponseModel {
                body: encode_utf8(text),
                status: Status::NotFound,
                headers: seq![(lower_of("content-length"@), decimal(encode_utf8(text).len()))],
                cookies: Seq::empty(),
            }
        },
    }
}

impl StaticFiles {
    pub fn new(path: &str) -> (r: StaticFiles)
        ensures
            r.path@ == path@,
    {
        StaticFiles { path: path.to_owned() }
    }

    /// The file that relative path `rel` (the route's wildcard parameter)
    /// names.
    pub fn file_path(&self, rel: &str) -> (r: String)
        ensures
            r@ == file_for(self.path@, rel@),
    {
        let mut out = self.path.clone();
        if rel.unicode_len() == 0 {
            out.append("/index.html");
            return out;
        }
        let segs = split_char(rel, '/');
        let ghost sv = views(segs@);
        let mut i: usize = 0;
        proof {
            assert(sv.subrange(0, 0) =~= Seq::<Seq<char>>::empty());
            assert(out@ =~= self.path@ + kept_segments(sv.subrange(0, 0)));
        }
        while i < segs.len()
            invariant
                sv == views(segs@),
                sv == split_on(rel@, '/'),
                i <= segs@.len(),
                out@ == self.path@ + kept_segments(sv.subrange(0, i as int)),
            decreases segs@.len() - i,
        {
            proof {
                assert(sv.subrange(0, i + 1).drop_last() =~= sv.subrange(0, i as int));
            }
            if !str_eq(segs[i].as_str(), "..") {
                let ghost before = out@;
                out.append("/");
                out.append(segs[i].as_str());
                proof {
                    reveal_strlit("/");
                    assert(out@ =~= before + seq!['/'] + sv[i as int]);
                }
            }
            i = i + 1;
        }
        proof {
            assert(sv.subrange(0, segs@.len() as int) =~= sv);
        }
        out
    }

    /// The response for the file named by `rel`, given its content, or
    /// `None` when it could not be read.
    pub fn respond(&self, rel: &str, content: Option<Vec<u8>>) -> (r: Response)
        ensures
            r@ == file_response(rel@, match content { Some(c) => Some(c@), None => None }),
            r.wf(),
    {
        let empty = rel.unicode_len() == 0;
        match content {
            Some(c) => {
                let r = Response::new(Status::OK, c);
                if empty {
                    r.with_header("content-type", "text/html")
                } else {
                    r
                }
            },
            None => {
                let text = if empty {
                    "404 Not Found"
                } else {
                    "StaticFiles: 404 Not Found"
                };
                Response::new(Status::NotFound, vstd::slice::slice_to_vec(text.as_bytes()))
            },
        }
    }
}

} // verus!
