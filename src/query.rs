//! Splitting a request target into path and query parameters.
use vstd::prelude::*;
use vstd::string::StrSliceExecFns;
use crate::table::{Pairs, StrMap, insert_pair, keys_unique, lookup, lemma_insert_pair};
use crate::text::{split_on, split_char, views};

verus! {

/// Position of the first `c` in `s`, or -1.
pub open spec fn first_index(s: Seq<char>, c: char) -> int
    decreases s.len(),
{
    if s.len() == 0 {
        -1
    } else if s[0] == c {
        0
    } else {
        let r = first_index(s.drop_first(), c);
        if r < 0 {
            -1
        } else {
            r + 1
        }
    }
}

/// The key of a `key=value` pair: what precedes the first `=`.
pub open spec fn pair_key(p: Seq<char>) -> Seq<char> {
    split_on(p, '=')[0]
}

/// The value of a `key=value` pair: the text between the first and second
/// `=`, empty when there is no `=`.
pub open spec fn pair_value(p: Seq<char>) -> Seq<char> {
    if split_on(p, '=').len() > 1 {
        split_on(p, '=')[1]
    } else {
        Seq::<char>::empty()
    }
}

/// The map of `&`-separated pairs; for a repeated key the last value wins.
pub open spec fn query_pairs(ps: Seq<Seq<char>>) -> Pairs
    decreases ps.len(),
{
    if ps.len() == 0 {
        Seq::empty()
    } else {
        insert_pair(query_pairs(ps.drop_last()), pair_key(ps.last()), pair_value(ps.last()))
    }
}

/// The path part of a request target: everything before the first `?`.
pub open spec fn target_path(t: Seq<char>) -> Seq<char> {
    let i = first_index(t, '?');
    if i < 0 {
        t
    } else {
        t.subrange(0, i)
    }
}

/// The query parameters of a request target.
pub open spec fn target_query(t: Seq<char>) -> Pairs {
    let i = first_index(t, '?');
    if i < 0 {
        Seq::empty()
    } else {
        query_pairs(split_on(t.subrange(i + 1, t.len() as int), '&'))
    }
}

/// `first_index` gives -1 or a position holding `c`, with no `c` before it.
pub proof fn lemma_first_index(s: Seq<char>, c: char)
    ensures
        -1 <= first_index(s, c) < s.len(),
        first_index(s, c) >= 0 ==> s[first_index(s, c)] == c,
        forall|j: int| 0 <= j < s.len() && (first_index(s, c) < 0 || j < first_index(s, c)) ==> s[j] != c,
    decreases s.len(),
{
    if s.len() > 0 {
        lemma_first_index(s.drop_first(), c);
        assert forall|j: int| 1 <= j < s.len() implies s[j] == s.drop_first()[j - 1] by {}
    }
}

proof fn lemma_first_index_at(s: Seq<char>, c: char, i: int)
    requires
        0 <= i <= s.len(),
        forall|j: int| 0 <= j < i ==> s[j] != c,
        i < s.len() ==> s[i] == c,
    ensures
        first_index(s, c) == if i < s.len() { i } else { -1 },
    decreases s.len(),
{
    if s.len() > 0 && i > 0 {
        lemma_first_index_at(s.drop_first(), c, i - 1);
    }
}

/// Position of the first `c` in `s`.
pub fn find_char(s: &str, c: char) -> (r: Option<usize>)
    ensures
        match r {
            Some(i) => i == first_index(s@, c),
            None => first_index(s@, c) == -1,
        },
{
    let n = s.unicode_len();
    let mut i: usize = 0;
    while i < n
        invariant
            n == s@.len(),
            i <= n,
            forall|j: int| 0 <= j < i ==> s@[j] != c,
        decreases n - i,
    {
        if s.get_char(i) == c {
            proof {
                lemma_first_index_at(s@, c, i as int);
            }
            return Some(i);
        }
        i = i + 1;
    }
    proof {
        lemma_first_index_at(s@, c, n as int);
    }
    None
}

/// Splits a request target on its first `?` into the path and the map of
/// query parameters.
pub fn parse_query(path: &str) -> (r: (String, StrMap))
    ensures
        r.0@ == target_path(path@),
        r.1@ == target_query(path@),
        r.1.wf(),
{
    let mut query = StrMap::new();
    match find_char(path, '?') {
        None => (path.to_owned(), query),
        Some(i) => {
            proof {
                lemma_first_index(path@, '?');
            }
            let n = path.unicode_len();
            let head = path.substring_char(0, i).to_owned();
            let tail = path.substring_char(i + 1, n);
            let parts = split_char(tail, '&');
            let ghost ps = views(parts@);
            let mut k: usize = 0;
            proof {
                assert(ps.subrange(0, 0) =~= Seq::<Seq<char>>::empty());
            }
            while k < parts.len()
                invariant
                    ps == views(parts@),
                    k <= parts@.len(),
                    query.wf(),
                    query@ == query_pairs(ps.subrange(0, k as int)),
                decreases parts@.len() - k,
            {
                let pieces = split_char(parts[k].as_str(), '=');
                proof {
                    crate::text::lemma_split_nonempty(parts@[k as int]@, '=');
                    assert(ps.subrange(0, k + 1).drop_last() =~= ps.subrange(0, k as int));
                }
                let key = pieces[0].clone();
                let value = if pieces.len() > 1 {
                    pieces[1].clone()
                } else {
                    String::new()
                };
                query.insert(key, value);
                k = k + 1;
            }
            proof {
                assert(ps.subrange(0, parts@.len() as int) =~= ps);
            }
            (head, query)
        },
    }
}

/// The pairs of a query string never repeat a key.
pub proof fn lemma_query_keys_unique(ps: Seq<Seq<char>>)
    ensures
        keys_unique(query_pairs(ps)),
    decreases ps.len(),
{
    if ps.len() > 0 {
        lemma_query_keys_unique(ps.drop_last());
        lemma_insert_pair(query_pairs(ps.drop_last()), pair_key(ps.last()), pair_value(ps.last()));
    }
}

/// For a key that occurs more than once in a query string, the last
/// occurrence gives the value; the pairs before it decide the other keys.
pub proof fn lemma_query_last_wins(ps: Seq<Seq<char>>, p: Seq<char>, k: Seq<char>)
    ensures
        lookup(query_pairs(ps.push(p)), pair_key(p)) == Some(pair_value(p)),
        k != pair_key(p) ==> lookup(query_pairs(ps.push(p)), k) == lookup(query_pairs(ps), k),
{
    lemma_query_keys_unique(ps);
    assert(ps.push(p).drop_last() =~= ps);
    lemma_insert_pair(query_pairs(ps), pair_key(p), pair_value(p));
}

} // verus!
