//! Small association maps with fully specified views: one keyed by 64-bit
//! ids, one keyed by byte-string tokens. Entries are kept in insertion
//! order, which the resume store relies on for eviction.

use vstd::prelude::*;

use crate::events::bytes_eq;

verus! {

/// The map described by an association list, later entries winning.
pub open spec fn assoc_view<K, V>(s: Seq<(K, V)>) -> Map<K, V>
    decreases s.len(),
{
    if s.len() == 0 {
        Map::empty()
    } else {
        assoc_view(s.drop_last()).insert(s.last().0, s.last().1)
    }
}

/// No two entries share a key.
pub open spec fn unique_keys<K, V>(s: Seq<(K, V)>) -> bool {
    forall|i: int, j: int| 0 <= i < j < s.len() ==> (#[trigger] s[i]).0 != (#[trigger] s[j]).0
}

/// A key is in the map iff some entry holds it.
pub proof fn lemma_assoc_contains<K, V>(s: Seq<(K, V)>, k: K)
    ensures
        assoc_view(s).contains_key(k) <==> exists|i: int| 0 <= i < s.len() && (#[trigger] s[i]).0
            == k,
    decreases s.len(),
{
    if s.len() > 0 {
        lemma_assoc_contains(s.drop_last(), k);
        assert(forall|i: int| 0 <= i < s.len() - 1 ==> (#[trigger] s.drop_last()[i]) == s[i]);
        if assoc_view(s).contains_key(k) {
            if s.last().0 == k {
                assert((#[trigger] s[s.len() - 1]).0 == k);
            } else {
                let i = choose|i: int|
                    0 <= i < s.drop_last().len() && (#[trigger] s.drop_last()[i]).0 == k;
                assert((#[trigger] s[i]).0 == k);
            }
        }
        if exists|i: int| 0 <= i < s.len() && (#[trigger] s[i]).0 == k {
            let i = choose|i: int| 0 <= i < s.len() && (#[trigger] s[i]).0 == k;
            if i < s.len() - 1 {
                assert((#[trigger] s.drop_last()[i]).0 == k);
            }
            assert(assoc_view(s).contains_key(k));
        }
    }
}

/// With unique keys, the entry holding a key gives the map's value at it.
pub proof fn lemma_assoc_get<K, V>(s: Seq<(K, V)>, i: int)
    requires
        unique_keys(s),
        0 <= i < s.len(),
    ensures
        assoc_view(s).contains_key(s[i].0),
        assoc_view(s)[s[i].0] == s[i].1,
    decreases s.len(),
{
    lemma_assoc_contains(s, s[i].0);
    if i < s.len() - 1 {
        assert(s.drop_last()[i] == s[i]);
        lemma_assoc_get(s.drop_last(), i);
        assert(s.last().0 != s[i].0);
    }
}

/// Removing the entry holding a key removes the key from the map.
pub proof fn lemma_assoc_remove<K, V>(s: Seq<(K, V)>, i: int)
    requires
        unique_keys(s),
        0 <= i < s.len(),
    ensures
        assoc_view(s.remove(i)) == assoc_view(s).remove(s[i].0),
        unique_keys(s.remove(i)),
    decreases s.len(),
{
    let k = s[i].0;
    lemma_assoc_contains(s.drop_last(), k);
    if i == s.len() - 1 {
        assert(s.remove(i) =~= s.drop_last());
        assert(!assoc_view(s.drop_last()).contains_key(k)) by {
            assert(forall|m: int|
                0 <= m < s.len() - 1 ==> (#[trigger] s.drop_last()[m]) == s[m]);
        }
        assert(assoc_view(s.drop_last()).insert(k, s[i].1).remove(k) =~= assoc_view(
            s.drop_last(),
        ));
    } else {
        let s2 = s.drop_last();
        assert(forall|m: int| 0 <= m < s2.len() ==> (#[trigger] s2[m]) == s[m]);
        lemma_assoc_remove(s2, i);
        assert(s.remove(i).drop_last() =~= s2.remove(i));
        assert(s.remove(i).last() == s.last());
        assert(assoc_view(s.remove(i)) == assoc_view(s2.remove(i)).insert(
            s.last().0,
            s.last().1,
        ));
        assert(s.last().0 != k);
        assert(assoc_view(s2).remove(k).insert(s.last().0, s.last().1) =~= assoc_view(s2).insert(
            s.last().0,
            s.last().1,
        ).remove(k));
    }
}

/// A map from 64-bit ids to values, with its exact mathematical view.
pub struct IdMap<V> {
    pub entries: Vec<(u64, V)>,
}

impl<V> View for IdMap<V> {
    type V = Map<u64, V>;

    open spec fn view(&self) -> Map<u64, V> {
        assoc_view(self.entries@)
    }
}

impl<V> IdMap<V> {
    /// Well-formed: no key occurs twice.
    pub open spec fn wf(&self) -> bool {
        unique_keys(self.entries@)
    }

    /// An empty map.
    pub fn new() -> (r: IdMap<V>)
        ensures
            r.wf(),
            r@ == Map::<u64, V>::empty(),
    {
        IdMap { entries: Vec::new() }
    }

    /// Index of the entry holding `k`, if any.
    fn index_of(&self, k: u64) -> (r: Option<usize>)
        ensures
            match r {
                Option::Some(i) => i < self.entries@.len() && self.entries@[i as int].0 == k,
                Option::None => forall|i: int|
                    0 <= i < self.entries@.len() ==> (#[trigger] self.entries@[i]).0 != k,
            },
    {
        let mut i: usize = 0;
        while i < self.entries.len()
            invariant
                0 <= i <= self.entries@.len(),
                forall|m: int| 0 <= m < i ==> (#[trigger] self.entries@[m]).0 != k,
            decreases self.entries@.len() - i,
        {
            if self.entries[i].0 == k {
                return Option::Some(i);
            }
            i += 1;
        }
        Option::None
    }

    /// Whether the map holds `k`.
    pub fn contains_key(&self, k: u64) -> (r: bool)
        ensures
            r == self@.contains_key(k),
    {
        proof {
            lemma_assoc_contains(self.entries@, k);
        }
        match self.index_of(k) {
            Option::Some(_) => true,
            Option::None => false,
        }
    }

    /// The value at `k`, if any.
    pub fn get(&self, k: u64) -> (r: Option<&V>)
        requires
            self.wf(),
        ensures
            match r {
                Option::Some(v) => self@.contains_key(k) && *v == self@[k],
                Option::None => !self@.contains_key(k),
            },
    {
        proof {
            lemma_assoc_contains(self.entries@, k);
        }
        match self.index_of(k) {
            Option::Some(i) => {
                proof {
                    lemma_assoc_get(self.entries@, i as int);
                }
                Option::Some(&self.entries[i].1)
            },
            Option::None => Option::None,
        }
    }

    /// Maps `k` to `v`, replacing any previous value.
    pub fn insert(&mut self, k: u64, v: V)
        requires
            old(self).wf(),
        ensures
            final(self).wf(),
            final(self)@ == old(self)@.insert(k, v),
    {
        match self.index_of(k) {
            Option::Some(i) => {
                proof {
                    lemma_assoc_remove(self.entries@, i as int);
                    lemma_assoc_contains(self.entries@.remove(i as int), k);
                }
                let _ = self.entries.remove(i);
                self.entries.push((k, v));
                proof {
                    assert(self.entries@.drop_last() =~= old(self).entries@.remove(i as int));
                    assert(final(self)@ =~= old(self)@.insert(k, v));
                }
            },
            Option::None => {
                proof {
                    lemma_assoc_contains(self.entries@, k);
                }
                self.entries.push((k, v));
                proof {
                    assert(self.entries@.drop_last() =~= old(self).entries@);
                }
            },
        }
    }

    /// Removes `k` if present.
    pub fn remove(&mut self, k: u64)
        requires
            old(self).wf(),
        ensures
            final(self).wf(),
            final(self)@ == old(self)@.remove(k),
    {
        match self.index_of(k) {
            Option::Some(i) => {
                proof {
                    lemma_assoc_remove(self.entries@, i as int);
                }
                let _ = self.entries.remove(i);
            },
            Option::None => {
                proof {
                    lemma_assoc_contains(self.entries@, k);
                    assert(old(self)@.remove(k) =~= old(self)@);
                }
            },
        }
    }

    /// Removes and returns the value at `k`, if any.
    pub fn take(&mut self, k: u64) -> (r: Option<V>)
        requires
            old(self).wf(),
        ensures
            final(self).wf(),
            match r {
                Option::Some(v) => old(self)@.contains_key(k) && v == old(self)@[k]
                    && final(self)@ == old(self)@.remove(k),
                Option::None => !old(self)@.contains_key(k) && final(self)@ == old(self)@,
            },
    {
        proof {
            lemma_assoc_contains(self.entries@, k);
        }
        match self.index_of(k) {
            Option::Some(i) => {
                proof {
                    lemma_assoc_get(self.entries@, i as int);
                    lemma_assoc_remove(self.entries@, i as int);
                }
                let e = self.entries.remove(i);
                Option::Some(e.1)
            },
            Option::None => Option::None,
        }
    }

    /// Whether the map is empty.
    pub fn is_empty(&self) -> (r: bool)
        ensures
            r == (self@ == Map::<u64, V>::empty()),
    {
        proof {
            if self.entries@.len() == 0 {
                assert(self@ =~= Map::<u64, V>::empty());
            } else {
                lemma_assoc_contains(self.entries@, self.entries@.last().0);
                assert((#[trigger] self.entries@[self.entries@.len() - 1]).0
                    == self.entries@.last().0);
                assert(self@.contains_key(self.entries@.last().0));
            }
        }
        self.entries.len() == 0
    }
}

/// The entries of a token-keyed list, with the keys as byte sequences.
pub open spec fn tok_entries<V>(s: Seq<(Vec<u8>, V)>) -> Seq<(Seq<u8>, V)> {
    s.map_values(|e: (Vec<u8>, V)| (e.0@, e.1))
}

/// Index-wise description of [`tok_entries`].
proof fn lemma_tok_index<V>(s: Seq<(Vec<u8>, V)>)
    ensures
        tok_entries(s).len() == s.len(),
        forall|i: int|
            0 <= i < s.len() ==> (#[trigger] tok_entries(s)[i]) == ((#[trigger] s[i]).0@, s[i].1),
{
}

/// A map from byte-string tokens to values, in insertion order, with its
/// exact mathematical view.
pub struct TokenMap<V> {
    pub entries: Vec<(Vec<u8>, V)>,
}

impl<V> View for TokenMap<V> {
    type V = Map<Seq<u8>, V>;

    open spec fn view(&self) -> Map<Seq<u8>, V> {
        assoc_view(tok_entries(self.entries@))
    }
}

impl<V> TokenMap<V> {
    /// Well-formed: no token occurs twice.
    pub open spec fn wf(&self) -> bool {
        unique_keys(tok_entries(self.entries@))
    }

    /// Number of entries.
    pub open spec fn spec_len(&self) -> nat {
        self.entries@.len()
    }

    /// An empty map.
    pub fn new() -> (r: TokenMap<V>)
        ensures
            r.wf(),
            r@ == Map::<Seq<u8>, V>::empty(),
            r.spec_len() == 0,
    {
        TokenMap { entries: Vec::new() }
    }

    /// Number of entries, which with unique tokens is the size of the map.
    pub fn len(&self) -> (r: usize)
        ensures
            r == self.spec_len(),
    {
        self.entries.len()
    }

    /// Index of the entry holding `k`, if any.
    fn index_of(&self, k: &Vec<u8>) -> (r: Option<usize>)
        ensures
            match r {
                Option::Some(i) => i < self.entries@.len() && self.entries@[i as int].0@ == k@,
                Option::None => forall|i: int|
                    0 <= i < self.entries@.len() ==> (#[trigger] self.entries@[i]).0@ != k@,
            },
    {
        let mut i: usize = 0;
        while i < self.entries.len()
            invariant
                0 <= i <= self.entries@.len(),
                forall|m: int| 0 <= m < i ==> (#[trigger] self.entries@[m]).0@ != k@,
            decreases self.entries@.len() - i,
        {
            if bytes_eq(&self.entries[i].0, k) {
                return Option::Some(i);
            }
            i += 1;
        }
        Option::None
    }

    /// Whether the map holds `k`.
    pub fn contains_key(&self, k: &Vec<u8>) -> (r: bool)
        ensures
            r == self@.contains_key(k@),
    {
        proof {
            lemma_assoc_contains(tok_entries(self.entries@), k@);
        }
        match self.index_of(k) {
            Option::Some(i) => {
                proof {
                    assert((#[trigger] tok_entries(self.entries@)[i as int]).0 == k@);
                }
                true
            },
            Option::None => {
                proof {
                    assert forall|i: int|
                        0 <= i < tok_entries(self.entries@).len() implies (#[trigger] tok_entries(
                        self.entries@,
                    )[i]).0 != k@ by {
                        assert(tok_entries(self.entries@)[i].0 == self.entries@[i].0@);
                    }
                }
                false
            },
        }
    }

    /// The value at `k`, if any.
    pub fn get(&self, k: &Vec<u8>) -> (r: Option<&V>)
        requires
            self.wf(),
        ensures
            match r {
                Option::Some(v) => self@.contains_key(k@) && *v == self@[k@],
                Option::None => !self@.contains_key(k@),
            },
    {
        proof {
            lemma_assoc_contains(tok_entries(self.entries@), k@);
        }
        match self.index_of(k) {
            Option::Some(i) => {
                proof {
                    lemma_assoc_get(tok_entries(self.entries@), i as int);
                }
                Option::Some(&self.entries[i].1)
            },
            Option::None => Option::None,
        }
    }

    /// Maps `k` to `v`, replacing any previous value.
    pub fn insert(&mut self, k: Vec<u8>, v: V)
        requires
            old(self).wf(),
        ensures
            final(self).wf(),
            final(self)@ == old(self)@.insert(k@, v),
            final(self).spec_len() <= old(self).spec_len() + 1,
            old(self)@.contains_key(k@) ==> final(self).spec_len() <= old(self).spec_len(),
    {
        self.remove(&k);
        let ghost mid = self.entries@;
        proof {
            lemma_assoc_contains(tok_entries(mid), k@);
            assert forall|m: int| 0 <= m < mid.len() implies (#[trigger] mid[m]).0@ != k@ by {
                assert((#[trigger] tok_entries(mid)[m]).0 == mid[m].0@);
            }
        }
        self.entries.push((k, v));
        proof {
            lemma_tok_index(self.entries@);
            let nt = tok_entries(self.entries@);
            assert(nt.drop_last() =~= tok_entries(mid));
            assert(nt.last().0 == k@);
            assert(unique_keys(nt)) by {
                assert(forall|a: int, b: int|
                    0 <= a < b < nt.len() ==> (#[trigger] nt[a]).0 != (#[trigger] nt[b]).0) by {
                    assert(forall|a: int|
                        0 <= a < nt.len() - 1 ==> (#[trigger] nt[a]) == tok_entries(mid)[a]);
                }
            }
            assert(final(self)@ =~= old(self)@.insert(k@, v));
        }
    }

    /// Removes `k` if present.
    pub fn remove(&mut self, k: &Vec<u8>)
        requires
            old(self).wf(),
        ensures
            final(self).wf(),
            final(self)@ == old(self)@.remove(k@),
            final(self).spec_len() <= old(self).spec_len(),
            old(self)@.contains_key(k@) ==> final(self).spec_len() < old(self).spec_len(),
    {
        proof {
            lemma_assoc_contains(tok_entries(self.entries@), k@);
        }
        match self.index_of(k) {
            Option::Some(i) => {
                proof {
                    lemma_assoc_remove(tok_entries(self.entries@), i as int);
                    assert(tok_entries(self.entries@.remove(i as int)) =~= tok_entries(
                        self.entries@,
                    ).remove(i as int));
                }
                let _ = self.entries.remove(i);
            },
            Option::None => {
                proof {
                    lemma_assoc_contains(tok_entries(self.entries@), k@);
                    assert(old(self)@.remove(k@) =~= old(self)@);
                }
            },
        }
    }

    /// Removes and returns the value at `k`, if any.
    pub fn take(&mut self, k: &Vec<u8>) -> (r: Option<V>)
        requires
            old(self).wf(),
        ensures
            final(self).wf(),
            final(self).spec_len() <= old(self).spec_len(),
            match r {
                Option::Some(v) => old(self)@.contains_key(k@) && v == old(self)@[k@]
                    && final(self)@ == old(self)@.remove(k@),
                Option::None => !old(self)@.contains_key(k@) && final(self)@ == old(self)@,
            },
    {
        proof {
            lemma_assoc_contains(tok_entries(self.entries@), k@);
        }
        match self.index_of(k) {
            Option::Some(i) => {
                proof {
                    assert((#[trigger] tok_entries(self.entries@)[i as int]).0 == k@);
                    lemma_assoc_get(tok_entries(self.entries@), i as int);
                    lemma_assoc_remove(tok_entries(self.entries@), i as int);
                    assert(tok_entries(self.entries@.remove(i as int)) =~= tok_entries(
                        self.entries@,
                    ).remove(i as int));
                }
                let e = self.entries.remove(i);
                Option::Some(e.1)
            },
            Option::None => {
                proof {
                    assert forall|m: int|
                        0 <= m < tok_entries(self.entries@).len() implies (#[trigger] tok_entries(
                        self.entries@,
                    )[m]).0 != k@ by {
                        assert(tok_entries(self.entries@)[m].0 == self.entries@[m].0@);
                    }
                }
                Option::None
            },
        }
    }

    /// Removes the oldest entry; used for bounded eviction.
    pub fn remove_oldest(&mut self)
        requires
            old(self).wf(),
            old(self).spec_len() > 0,
        ensures
            final(self).wf(),
            final(self)@ == old(self)@.remove(tok_entries(old(self).entries@)[0].0),
            final(self).spec_len() == old(self).spec_len() - 1,
    {
        proof {
            lemma_assoc_remove(tok_entries(self.entries@), 0);
            assert(tok_entries(self.entries@.remove(0)) =~= tok_entries(self.entries@).remove(0));
        }
        let _ = self.entries.remove(0);
    }

    /// Whether the map is empty.
    pub fn is_empty(&self) -> (r: bool)
        ensures
            r == (self@ == Map::<Seq<u8>, V>::empty()),
            r == (self.spec_len() == 0),
    {
        proof {
            let te = tok_entries(self.entries@);
            if te.len() == 0 {
                assert(self@ =~= Map::<Seq<u8>, V>::empty());
            } else {
                lemma_assoc_contains(te, te.last().0);
                assert((#[trigger] te[te.len() - 1]).0 == te.last().0);
                assert(self@.contains_key(te.last().0));
            }
        }
        self.entries.len() == 0
    }
}

} // verus!
