//! An insertion-ordered map from strings to strings.
use vstd::prelude::*;
use crate::text::str_eq;

verus! {

/// Entries as character sequences, in insertion order.
pub type Pairs = Seq<(Seq<char>, Seq<char>)>;

/// Position of key `k` in `p`, or -1 when absent.
pub open spec fn find_key(p: Pairs, k: Seq<char>) -> int
    decreases p.len(),
{
    if p.len() == 0 {
        -1
    } else if p.last().0 == k {
        p.len() - 1
    } else {
        find_key(p.drop_last(), k)
    }
}

/// The value stored under `k`.
pub open spec fn lookup(p: Pairs, k: Seq<char>) -> Option<Seq<char>> {
    let i = find_key(p, k);
    if i >= 0 {
        Some(p[i].1)
    } else {
        None
    }
}

/// `p` with `k` bound to `v`: an existing entry keeps its place and takes the
/// new value, a new key goes last.
pub open spec fn insert_pair(p: Pairs, k: Seq<char>, v: Seq<char>) -> Pairs {
    let i = find_key(p, k);
    if i >= 0 {
        p.update(i, (k, v))
    } else {
        p.push((k, v))
    }
}

/// No key occurs twice.
pub open spec fn keys_unique(p: Pairs) -> bool {
    forall|i: int, j: int| 0 <= i < j < p.len() ==> p[i].0 != p[j].0
}

/// `find_key` gives -1 or a position holding the key, and -1 only when no
/// entry holds it.
pub proof fn lemma_find_key(p: Pairs, k: Seq<char>)
    ensures
        -1 <= find_key(p, k) < p.len(),
        find_key(p, k) >= 0 ==> p[find_key(p, k)].0 == k,
        find_key(p, k) == -1 ==> forall|i: int| 0 <= i < p.len() ==> p[i].0 != k,
    decreases p.len(),
{
    if p.len() > 0 {
        lemma_find_key(p.drop_last(), k);
        if p.last().0 != k {
            assert forall|i: int| 0 <= i < p.len() - 1 implies p[i] == p.drop_last()[i] by {}
        }
    }
}

/// Inserting keeps keys unique, binds the key to the new value, and leaves
/// every other key as it was.
pub proof fn lemma_insert_pair(p: Pairs, k: Seq<char>, v: Seq<char>)
    requires
        keys_unique(p),
    ensures
        keys_unique(insert_pair(p, k, v)),
        lookup(insert_pair(p, k, v), k) == Some(v),
        forall|k2: Seq<char>| k2 != k ==> lookup(insert_pair(p, k, v), k2) == lookup(p, k2),
{
    lemma_find_key(p, k);
    let q = insert_pair(p, k, v);
    assert(keys_unique(q));
    let i = if find_key(p, k) >= 0 { find_key(p, k) } else { p.len() as int };
    lemma_find_last(q, k, i);
    assert forall|k2: Seq<char>| k2 != k implies lookup(q, k2) == lookup(p, k2) by {
        lemma_find_key(p, k2);
        lemma_find_key(q, k2);
        let j = find_key(p, k2);
        if j >= 0 {
            lemma_find_last(q, k2, j);
        } else if find_key(q, k2) >= 0 {
            assert(q[find_key(q, k2)].0 == k2);
        }
    }
}

/// The character view of the stored entries.
pub open spec fn pairs_view(v: Seq<(String, String)>) -> Pairs {
    v.map_values(|e: (String, String)| (e.0@, e.1@))
}

/// Insertion-ordered map from strings to strings; a key is stored once.
#[derive(Debug, Clone)]
pub struct StrMap {
    entries: Vec<(String, String)>,
}

impl View for StrMap {
    type V = Pairs;

    closed spec fn view(&self) -> Pairs {
        pairs_view(self.entries@)
    }
}

impl StrMap {
    /// Keys are unique.
    pub open spec fn wf(&self) -> bool {
        keys_unique(self@)
    }

    pub fn new() -> (r: StrMap)
        ensures
            r@ == Seq::<(Seq<char>, Seq<char>)>::empty(),
            r.wf(),
    {
        StrMap { entries: Vec::new() }
    }

    pub fn len(&self) -> (r: usize)
        ensures
            r == self@.len(),
    {
        self.entries.len()
    }

    /// The entry at position `i`, in insertion order.
    pub fn entry(&self, i: usize) -> (r: (&String, &String))
        requires
            i < self@.len(),
        ensures
            (r.0@, r.1@) == self@[i as int],
    {
        (&self.entries[i].0, &self.entries[i].1)
    }

    fn position(&self, k: &str) -> (r: Option<usize>)
        ensures
            match r {
                Some(i) => i == find_key(self@, k@),
                None => find_key(self@, k@) == -1,
            },
    {
        let mut i: usize = self.entries.len();
        proof {
            lemma_find_key(self@, k@);
        }
        while i > 0
            invariant
                i <= self@.len(),
                find_key(self@, k@) < i,
                forall|j: int| i <= j < self@.len() ==> self@[j].0 != k@,
            decreases i,
        {
            proof {
                lemma_find_key(self@, k@);
            }
            if str_eq(self.entries[i - 1].0.as_str(), k) {
                proof {
                    lemma_find_last(self@, k@, (i - 1) as int);
                }
                return Some(i - 1);
            }
            i = i - 1;
        }
        proof {
            lemma_find_key(self@, k@);
        }
        None
    }

    /// The value stored under `k`.
    pub fn get(&self, k: &str) -> (r: Option<&String>)
        ensures
            match r {
                Some(v) => lookup(self@, k@) == Some(v@),
                None => lookup(self@, k@) is None,
            },
    {
        proof {
            lemma_find_key(self@, k@);
        }
        match self.position(k) {
            Some(i) => Some(&self.entries[i].1),
            None => None,
        }
    }

    /// Binds `k` to `v`, replacing the value of an existing entry in place.
    pub fn insert(&mut self, k: String, v: String)
        requires
            old(self).wf(),
        ensures
            final(self).wf(),
            final(self)@ == insert_pair(old(self)@, k@, v@),
    {
        proof {
            lemma_find_key(self@, k@);
            lemma_insert_pair(self@, k@, v@);
        }
        match self.position(k.as_str()) {
            Some(i) => {
                self.entries.set(i, (k, v));
            },
            None => {
                self.entries.push((k, v));
            },
        }
        proof {
            assert(self@ =~= insert_pair(old(self)@, k@, v@));
        }
    }
}

/// The last entry with key `k` sits at position `i` when no later one has it.
pub proof fn lemma_find_last(p: Pairs, k: Seq<char>, i: int)
    requires
        0 <= i < p.len(),
        p[i].0 == k,
        forall|j: int| i < j < p.len() ==> p[j].0 != k,
    ensures
        find_key(p, k) == i,
    decreases p.len(),
{
    if i < p.len() - 1 {
        lemma_find_last(p.drop_last(), k, i);
    }
}

} // verus!
