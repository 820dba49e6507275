//! An insertion-ordered map from variable names to values.

use vstd::prelude::*;
use vstd::string::*;
use crate::text::same_text;

verus! {

/// Name and value of one entry, as character sequences.
pub type Entry = (Seq<char>, Seq<char>);

/// The position of the entry named `k`, searching from the back; `-1` where
/// there is none.
pub open spec fn key_index(s: Seq<Entry>, k: Seq<char>) -> int
    decreases s.len(),
{
    if s.len() == 0 {
        -1
    } else if s.last().0 == k {
        s.len() - 1
    } else {
        key_index(s.drop_last(), k)
    }
}

/// The value stored under `k`.
pub open spec fn lookup(s: Seq<Entry>, k: Seq<char>) -> Option<Seq<char>> {
    let i = key_index(s, k);
    if 0 <= i {
        Some(s[i].1)
    } else {
        None
    }
}

/// `s` with `k` bound to `v`: an existing entry keeps its place and takes the
/// new value, a new name goes at the end.
pub open spec fn put(s: Seq<Entry>, k: Seq<char>, v: Seq<char>) -> Seq<Entry> {
    let i = key_index(s, k);
    if 0 <= i {
        s.update(i, (k, v))
    } else {
        s.push((k, v))
    }
}

/// `s` with each entry of `t` put in, in order.
pub open spec fn put_all(s: Seq<Entry>, t: Seq<Entry>) -> Seq<Entry>
    decreases t.len(),
{
    if t.len() == 0 {
        s
    } else {
        put(put_all(s, t.drop_last()), t.last().0, t.last().1)
    }
}

/// The position found for a name is in range and holds that name; where
/// none is found, no entry holds it.
pub proof fn lemma_key_index_bounds(s: Seq<Entry>, k: Seq<char>)
    ensures
        -1 <= key_index(s, k) < s.len(),
        0 <= key_index(s, k) ==> s[key_index(s, k)].0 == k,
        key_index(s, k) == -1 ==> forall|i: int| 0 <= i < s.len() ==> s[i].0 != k,
    decreases s.len(),
{
    if s.len() > 0 {
        lemma_key_index_bounds(s.drop_last(), k);
        if key_index(s, k) == -1 {
            assert forall|i: int| 0 <= i < s.len() implies s[i].0 != k by {
                if i < s.len() - 1 {
                    assert(s[i] == s.drop_last()[i]);
                }
            }
        }
    }
}

/// Variables and their values, in the order in which names were first put in.
#[derive(Debug, Clone)]
pub struct EnvMap {
    entries: Vec<(String, String)>,
}

impl View for EnvMap {
    type V = Seq<Entry>;

    closed spec fn view(&self) -> Seq<Entry> {
        self.entries@.map_values(|p: (String, String)| (p.0@, p.1@))
    }
}

impl EnvMap {
    /// The empty map.
    pub fn new() -> (r: EnvMap)
        ensures
            r@ == Seq::<Entry>::empty(),
    {
        let r = EnvMap { entries: Vec::new() };
        assert(r@ =~= Seq::<Entry>::empty());
        r
    }

    /// The number of entries.
    pub fn len(&self) -> (r: usize)
        ensures
            r == self@.len(),
    {
        self.entries.len()
    }

    /// The name and the value of the entry at position `i`.
    pub fn entry(&self, i: usize) -> (r: (&String, &String))
        requires
            i < self@.len(),
        ensures
            r.0@ == self@[i as int].0,
            r.1@ == self@[i as int].1,
    {
        let p = &self.entries[i];
        (&p.0, &p.1)
    }

    /// The position of the entry named `k`.
    pub fn find(&self, k: &str) -> (r: Option<usize>)
        ensures
            match r {
                Some(i) => i as int == key_index(self@, k@) && i < self@.len(),
                None => key_index(self@, k@) == -1,
            },
    {
        let mut j = self.entries.len();
        assert(self@.subrange(0, j as int) =~= self@);
        while j > 0
            invariant
                j <= self@.len(),
                self@.len() == self.entries@.len(),
                key_index(self@.subrange(0, j as int), k@) == key_index(self@, k@),
            decreases j,
        {
            let p = &self.entries[j - 1];
            assert(self@.subrange(0, j as int).drop_last() =~= self@.subrange(0, j - 1));
            if same_text(p.0.as_str(), k) {
                return Some(j - 1);
            }
            j -= 1;
        }
        None
    }

    /// Whether some entry is named `k`.
    pub fn contains_key(&self, k: &str) -> (r: bool)
        ensures
            r == (lookup(self@, k@) is Some),
    {
        proof { lemma_key_index_bounds(self@, k@); }
        self.find(k).is_some()
    }

    /// The value stored under `k`.
    pub fn get(&self, k: &str) -> (r: Option<String>)
        ensures
            match r {
                Some(v) => lookup(self@, k@) == Some(v@),
                None => lookup(self@, k@) is None,
            },
    {
        proof { lemma_key_index_bounds(self@, k@); }
        match self.find(k) {
            Some(i) => Some(self.entries[i].1.clone()),
            None => None,
        }
    }

    /// A copy with the same entries in the same order.
    pub fn duplicate(&self) -> (r: EnvMap)
        ensures
            r@ == self@,
    {
        let mut entries: Vec<(String, String)> = Vec::new();
        let mut i: usize = 0;
        while i < self.entries.len()
            invariant
                i <= self.entries@.len(),
                entries@.len() == i,
                forall|j: int| 0 <= j < i ==> #[trigger] entries@[j] == self.entries@[j],
            decreases self.entries@.len() - i,
        {
            let p = &self.entries[i];
            entries.push((p.0.clone(), p.1.clone()));
            i += 1;
        }
        let r = EnvMap { entries };
        assert(r.entries@ =~= self.entries@);
        r
    }

    /// Binds `k` to `v`.
    pub fn insert(&mut self, k: String, v: String)
        ensures
            final(self)@ == put(old(self)@, k@, v@),
    {
        proof { lemma_key_index_bounds(old(self)@, k@); }
        match self.find(k.as_str()) {
            Some(i) => {
                self.entries.set(i, (k, v));
                assert(self@ =~= put(old(self)@, k@, v@));
            },
            None => {
                self.entries.push((k, v));
                assert(self@ =~= put(old(self)@, k@, v@));
            },
        }
    }
}

} // verus!
