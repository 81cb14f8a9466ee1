//! A table keyed by 256-bit words that keeps its entries in the order in
//! which they were first added; no key occurs twice.
use vstd::prelude::*;
use crate::uint::Uint256;

verus! {

/// Whether no key occurs twice among the entries.
pub open spec fn keys_distinct<V>(s: Seq<(Uint256, V)>) -> bool {
    forall|i: int, j: int|
        0 <= i < s.len() && 0 <= j < s.len() && i != j ==> #[trigger] s[i].0 != #[trigger] s[j].0
}

/// Whether some entry has key `k`.
pub open spec fn has_key<V>(s: Seq<(Uint256, V)>, k: Uint256) -> bool {
    exists|i: int| 0 <= i < s.len() && #[trigger] s[i].0 == k
}

/// The position of the entry with key `k` (meaningful when `has_key(s, k)`).
pub open spec fn key_index<V>(s: Seq<(Uint256, V)>, k: Uint256) -> int {
    choose|i: int| 0 <= i < s.len() && #[trigger] s[i].0 == k
}

/// The value stored under `k`, if any.
pub open spec fn lookup<V>(s: Seq<(Uint256, V)>, k: Uint256) -> Option<V> {
    if has_key(s, k) {
        Some(s[key_index(s, k)].1)
    } else {
        None
    }
}

/// The entries after `k` is given the value `v`: replaced in place when `k`
/// is present, appended otherwise.
pub open spec fn inserted<V>(s: Seq<(Uint256, V)>, k: Uint256, v: V) -> Seq<(Uint256, V)> {
    if has_key(s, k) {
        s.update(key_index(s, k), (k, v))
    } else {
        s.push((k, v))
    }
}

/// The entries after the one with key `k` is taken out; the rest keep their order.
pub open spec fn removed<V>(s: Seq<(Uint256, V)>, k: Uint256) -> Seq<(Uint256, V)> {
    if has_key(s, k) {
        s.remove(key_index(s, k))
    } else {
        s
    }
}

/// With distinct keys, the entry at position `i` is the one found for its key.
pub proof fn lemma_key_index_unique<V>(s: Seq<(Uint256, V)>, i: int)
    requires
        keys_distinct(s),
        0 <= i < s.len(),
    ensures
        has_key(s, s[i].0),
        key_index(s, s[i].0) == i,
        lookup(s, s[i].0) == Some(s[i].1),
{
    assert(has_key(s, s[i].0));
    let j = key_index(s, s[i].0);
    assert(s[j].0 == s[i].0);
}

/// What `inserted` does to keys and values, for distinct keys.
pub proof fn lemma_inserted<V>(s: Seq<(Uint256, V)>, k: Uint256, v: V)
    requires
        keys_distinct(s),
    ensures
        keys_distinct(inserted(s, k, v)),
        forall|j: Uint256| #[trigger] has_key(inserted(s, k, v), j) <==> (has_key(s, j) || j == k),
        forall|j: Uint256|
            #[trigger] lookup(inserted(s, k, v), j) == if j == k {
                Some(v)
            } else {
                lookup(s, j)
            },
        inserted(s, k, v).len() == if has_key(s, k) { s.len() } else { s.len() + 1 },
{
    let t = inserted(s, k, v);
    if has_key(s, k) {
        let idx = key_index(s, k);
        assert forall|a: int, b: int|
            0 <= a < t.len() && 0 <= b < t.len() && a != b implies #[trigger] t[a].0
            != #[trigger] t[b].0 by {
            assert(s[a].0 == t[a].0 && s[b].0 == t[b].0);
        }
        assert forall|j: Uint256| #[trigger] has_key(t, j) <==> (has_key(s, j) || j == k) by {
            if has_key(s, j) {
                let w = key_index(s, j);
                assert(t[w].0 == j);
            }
            if has_key(t, j) {
                let w = key_index(t, j);
                assert(s[w].0 == j);
            }
        }
        assert forall|j: Uint256| #[trigger] lookup(t, j) == if j == k {
            Some(v)
        } else {
            lookup(s, j)
        } by {
            if j == k {
                lemma_key_index_unique(t, idx);
            } else if has_key(s, j) {
                let w = key_index(s, j);
                lemma_key_index_unique(s, w);
                lemma_key_index_unique(t, w);
            } else {
                assert(!has_key(t, j));
            }
        }
    } else {
        assert forall|a: int, b: int|
            0 <= a < t.len() && 0 <= b < t.len() && a != b implies #[trigger] t[a].0
            != #[trigger] t[b].0 by {
            if a == s.len() as int {
                assert(s[b].0 == t[b].0);
            } else if b == s.len() as int {
                assert(s[a].0 == t[a].0);
            } else {
                assert(s[a].0 == t[a].0 && s[b].0 == t[b].0);
            }
        }
        assert forall|j: Uint256| #[trigger] has_key(t, j) <==> (has_key(s, j) || j == k) by {
            if has_key(s, j) {
                let w = key_index(s, j);
                assert(t[w].0 == j);
            }
            if j == k {
                assert(t[s.len() as int].0 == k);
            }
            if has_key(t, j) {
                let w = key_index(t, j);
                if w < s.len() {
                    assert(s[w].0 == j);
                }
            }
        }
        assert forall|j: Uint256| #[trigger] lookup(t, j) == if j == k {
            Some(v)
        } else {
            lookup(s, j)
        } by {
            if j == k {
                lemma_key_index_unique(t, s.len() as int);
            } else if has_key(s, j) {
                let w = key_index(s, j);
                lemma_key_index_unique(s, w);
                lemma_key_index_unique(t, w);
            } else {
                assert(!has_key(t, j));
            }
        }
    }
}

/// What `removed` does to keys and values, for distinct keys.
pub proof fn lemma_removed<V>(s: Seq<(Uint256, V)>, k: Uint256)
    requires
        keys_distinct(s),
    ensures
        keys_distinct(removed(s, k)),
        forall|j: Uint256| #[trigger] has_key(removed(s, k), j) <==> (has_key(s, j) && j != k),
        forall|j: Uint256|
            #[trigger] lookup(removed(s, k), j) == if j == k {
                None
            } else {
                lookup(s, j)
            },
        removed(s, k).len() == if has_key(s, k) { (s.len() - 1) as nat } else { s.len() },
{
    let t = removed(s, k);
    if has_key(s, k) {
        let idx = key_index(s, k);
        assert forall|a: int| 0 <= a < t.len() implies #[trigger] t[a] == if a < idx {
            s[a]
        } else {
            s[a + 1]
        } by {}
        assert forall|a: int, b: int|
            0 <= a < t.len() && 0 <= b < t.len() && a != b implies #[trigger] t[a].0
            != #[trigger] t[b].0 by {
            let sa = if a < idx { a } else { a + 1 };
            let sb = if b < idx { b } else { b + 1 };
            assert(t[a] == s[sa] && t[b] == s[sb]);
        }
        assert forall|j: Uint256| #[trigger] has_key(t, j) <==> (has_key(s, j) && j != k) by {
            if has_key(s, j) && j != k {
                let w = key_index(s, j);
                assert(w != idx);
                let tw = if w < idx { w } else { w - 1 };
                assert(t[tw] == s[w]);
            }
            if has_key(t, j) {
                let w = key_index(t, j);
                let sw = if w < idx { w } else { w + 1 };
                assert(t[w] == s[sw]);
                assert(sw != idx);
            }
        }
        assert forall|j: Uint256| #[trigger] lookup(t, j) == if j == k {
            None
        } else {
            lookup(s, j)
        } by {
            if j != k && has_key(s, j) {
                let w = key_index(s, j);
                lemma_key_index_unique(s, w);
                let tw = if w < idx { w } else { w - 1 };
                assert(t[tw] == s[w]);
                lemma_key_index_unique(t, tw);
            }
        }
    } else {
        assert forall|j: Uint256| #[trigger] lookup(t, j) == if j == k {
            None
        } else {
            lookup(s, j)
        } by {}
    }
}

/// Adding an absent key and taking it out again gives back the same entries.
pub proof fn lemma_removed_inserted<V>(s: Seq<(Uint256, V)>, k: Uint256, v: V)
    requires
        keys_distinct(s),
        !has_key(s, k),
    ensures
        removed(inserted(s, k, v), k) == s,
{
    lemma_inserted(s, k, v);
    let t = inserted(s, k, v);
    assert(t == s.push((k, v)));
    lemma_key_index_unique(t, s.len() as int);
    assert(t.remove(s.len() as int) =~= s);
}

/// A table of values keyed by 256-bit words, in insertion order.
pub struct WordMap<V> {
    entries: Vec<(Uint256, V)>,
}

impl<V> View for WordMap<V> {
    type V = Seq<(Uint256, V)>;

    closed spec fn view(&self) -> Seq<(Uint256, V)> {
        self.entries@
    }
}

impl<V> WordMap<V> {
    /// Well-formedness: no key occurs twice, and the length fits in a `usize`.
    pub closed spec fn wf(&self) -> bool {
        &&& keys_distinct(self.entries@)
        &&& self.entries@.len() <= usize::MAX
    }

    /// The well-formed tables are those whose entries have distinct keys and
    /// whose length fits in a `usize`.
    pub proof fn lemma_wf(&self)
        ensures
            self.wf() <==> (keys_distinct(self@) && self@.len() <= usize::MAX),
    {
    }

    /// An empty table.
    pub fn new() -> (m: Self)
        ensures
            m.wf(),
            m@ == Seq::<(Uint256, V)>::empty(),
    {
        WordMap { entries: Vec::new() }
    }

    /// The number of entries.
    pub fn len(&self) -> (n: usize)
        ensures
            n == self@.len(),
    {
        self.entries.len()
    }

    /// Whether the table is empty.
    pub fn is_empty(&self) -> (b: bool)
        ensures
            b == (self@.len() == 0),
    {
        self.entries.len() == 0
    }

    /// The entries, in table order.
    pub fn entries(&self) -> (r: &Vec<(Uint256, V)>)
        ensures
            r@ == self@,
    {
        &self.entries
    }

    /// The position of key `k`, if present.
    fn find(&self, k: &Uint256) -> (r: Option<usize>)
        requires
            self.wf(),
        ensures
            match r {
                Some(i) => i < self@.len() && self@[i as int].0 == *k && has_key(self@, *k)
                    && key_index(self@, *k) == i,
                None => !has_key(self@, *k),
            },
    {
        let mut i: usize = 0;
        while i < self.entries.len()
            invariant
                i <= self.entries@.len(),
                keys_distinct(self.entries@),
                forall|j: int| 0 <= j < i ==> #[trigger] self.entries@[j].0 != *k,
            decreases self.entries@.len() - i,
        {
            if self.entries[i].0 == *k {
                proof {
                    lemma_key_index_unique(self.entries@, i as int);
                }
                return Some(i);
            }
            i = i + 1;
        }
        None
    }

    /// Whether key `k` is present.
    pub fn contains_key(&self, k: &Uint256) -> (b: bool)
        requires
            self.wf(),
        ensures
            b == has_key(self@, *k),
    {
        self.find(k).is_some()
    }

    /// The value under key `k`, if present.
    pub fn get(&self, k: &Uint256) -> (r: Option<&V>)
        requires
            self.wf(),
        ensures
            match r {
                Some(v) => lookup(self@, *k) == Some(*v),
                None => lookup(self@, *k) is None,
            },
    {
        match self.find(k) {
            Some(i) => Some(&self.entries[i].1),
            None => None,
        }
    }

    /// The value of the entry at position `i` in table order, if there is one.
    pub fn nth_value(&self, i: usize) -> (r: Option<&V>)
        ensures
            match r {
                Some(v) => i < self@.len() && *v == self@[i as int].1,
                None => i >= self@.len(),
            },
    {
        if i < self.entries.len() {
            Some(&self.entries[i].1)
        } else {
            None
        }
    }

    /// Gives key `k` the value `v`: in place if present, at the end otherwise.
    pub fn insert(&mut self, k: Uint256, v: V)
        requires
            old(self).wf(),
        ensures
            final(self).wf(),
            final(self)@ == inserted(old(self)@, k, v),
    {
        match self.find(&k) {
            Some(i) => {
                self.entries.set(i, (k, v));
            },
            None => {
                self.entries.push((k, v));
                // A vector's length always fits in a usize; asking for it records that.
                let _len: usize = self.entries.len();
            },
        }
        proof {
            lemma_inserted(old(self)@, k, v);
        }
    }

    /// Takes out the entry with key `k`, returning its value; the other
    /// entries keep their order.
    pub fn remove(&mut self, k: &Uint256) -> (r: Option<V>)
        requires
            old(self).wf(),
        ensures
            final(self).wf(),
            final(self)@ == removed(old(self)@, *k),
            r == lookup(old(self)@, *k),
    {
        proof {
            lemma_removed(old(self)@, *k);
        }
        match self.find(k) {
            Some(i) => {
                proof {
                    lemma_key_index_unique(self@, i as int);
                }
                let (_, v) = self.entries.remove(i);
                Some(v)
            },
            None => None,
        }
    }
    /// Takes out the entry with key `k`, returning its position and value,
    /// so that it can be put back in the same place.
    pub fn remove_indexed(&mut self, k: &Uint256) -> (r: Option<(usize, V)>)
        requires
            old(self).wf(),
        ensures
            final(self).wf(),
            final(self)@ == removed(old(self)@, *k),
            match r {
                Some((i, v)) => has_key(old(self)@, *k) && i == key_index(old(self)@, *k)
                    && old(self)@[i as int] == (*k, v),
                None => !has_key(old(self)@, *k),
            },
    {
        proof {
            lemma_removed(old(self)@, *k);
        }
        match self.find(k) {
            Some(i) => {
                let (_, v) = self.entries.remove(i);
                Some((i, v))
            },
            None => None,
        }
    }

    /// Puts an entry with a key that is absent at position `i`.
    pub fn insert_at(&mut self, i: usize, k: Uint256, v: V)
        requires
            old(self).wf(),
            i <= old(self)@.len(),
            !has_key(old(self)@, k),
        ensures
            final(self).wf(),
            final(self)@ == old(self)@.insert(i as int, (k, v)),
    {
        self.entries.insert(i, (k, v));
        // A vector's length always fits in a usize; asking for it records that.
        let _len: usize = self.entries.len();
        proof {
            let s = old(self)@;
            let t = self.entries@;
            assert forall|a: int, b: int|
                0 <= a < t.len() && 0 <= b < t.len() && a != b implies #[trigger] t[a].0
                != #[trigger] t[b].0 by {
                if a != i && b != i {
                    let sa = if a < i { a } else { a - 1 };
                    let sb = if b < i { b } else { b - 1 };
                    assert(t[a] == s[sa] && t[b] == s[sb]);
                } else if a == i {
                    let sb = if b < i { b } else { b - 1 };
                    assert(t[b] == s[sb]);
                } else {
                    let sa = if a < i { a } else { a - 1 };
                    assert(t[a] == s[sa]);
                }
            }
        }
    }
}


} // verus!
