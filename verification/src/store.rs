use vstd::prelude::*;

verus! {

/// A key usable in an association map. A key abstracts to a mathematical
/// value, and executable equality of keys decides equality of abstractions.
pub trait MapKey: Sized {
    /// The mathematical value this key stands for.
    type Abs;

    /// The abstraction of this key.
    spec fn abs(&self) -> Self::Abs;

    /// Decides whether two keys abstract to the same value.
    fn key_eq(&self, other: &Self) -> (r: bool)
        ensures
            r == (self.abs() == other.abs()),
    ;
}

impl MapKey for String {
    type Abs = Seq<char>;

    open spec fn abs(&self) -> Seq<char> {
        self@
    }

    fn key_eq(&self, other: &Self) -> (r: bool) {
        self.eq(other)
    }
}

impl MapKey for u128 {
    type Abs = u128;

    open spec fn abs(&self) -> u128 {
        *self
    }

    fn key_eq(&self, other: &Self) -> (r: bool) {
        *self == *other
    }
}

/// An ordered pair of identities; the key of the operator-grant and
/// fractional-allowance maps.
#[derive(Debug)]
pub struct AddrPair {
    pub owner: String,
    pub spender: String,
}

impl MapKey for AddrPair {
    type Abs = (Seq<char>, Seq<char>);

    open spec fn abs(&self) -> (Seq<char>, Seq<char>) {
        (self.owner@, self.spender@)
    }

    fn key_eq(&self, other: &Self) -> (r: bool) {
        let a = self.owner.eq(&other.owner);
        let b = self.spender.eq(&other.spender);
        a && b
    }
}

/// The mapping denoted by a sequence of key-value pairs; later entries win.
pub open spec fn map_of<K: MapKey, V>(s: Seq<(K, V)>) -> Map<<K as MapKey>::Abs, V>
    decreases s.len(),
{
    if s.len() == 0 {
        Map::empty()
    } else {
        map_of(s.drop_last()).insert(s.last().0.abs(), s.last().1)
    }
}

/// Pairwise distinct key abstractions.
pub open spec fn distinct_keys<K: MapKey, V>(s: Seq<(K, V)>) -> bool {
    forall|i: int, j: int| 0 <= i < j < s.len() ==> s[i].0.abs() != s[j].0.abs()
}

proof fn lemma_distinct_drop_last<K: MapKey, V>(s: Seq<(K, V)>)
    requires
        distinct_keys(s),
        s.len() > 0,
    ensures
        distinct_keys(s.drop_last()),
{
    assert forall|i: int, j: int| 0 <= i < j < s.drop_last().len() implies s.drop_last()[i].0.abs()
        != s.drop_last()[j].0.abs() by {
        assert(s.drop_last()[i] == s[i]);
        assert(s.drop_last()[j] == s[j]);
    }
}

/// Every entry of a duplicate-free pair sequence is found by the map it denotes.
pub proof fn lemma_map_of_index<K: MapKey, V>(s: Seq<(K, V)>, i: int)
    requires
        distinct_keys(s),
        0 <= i < s.len(),
    ensures
        map_of(s).contains_key(s[i].0.abs()),
        map_of(s)[s[i].0.abs()] == s[i].1,
    decreases s.len(),
{
    if i < s.len() - 1 {
        lemma_distinct_drop_last(s);
        lemma_map_of_index(s.drop_last(), i);
        assert(s.drop_last()[i] == s[i]);
        assert(s[i].0.abs() != s.last().0.abs());
    }
}

/// A key in the denoted map comes from some entry of the sequence.
pub proof fn lemma_map_of_domain<K: MapKey, V>(s: Seq<(K, V)>, k: <K as MapKey>::Abs)
    requires
        map_of(s).contains_key(k),
    ensures
        exists|i: int| 0 <= i < s.len() && s[i].0.abs() == k,
    decreases s.len(),
{
    if s.len() > 0 {
        if s.last().0.abs() == k {
            assert(s[s.len() - 1].0.abs() == k);
        } else {
            lemma_map_of_domain(s.drop_last(), k);
            let i = choose|i: int| 0 <= i < s.drop_last().len() && s.drop_last()[i].0.abs() == k;
            assert(s[i].0.abs() == k);
        }
    }
}

/// A key matching no entry is absent from the denoted map.
pub proof fn lemma_map_of_absent<K: MapKey, V>(s: Seq<(K, V)>, k: <K as MapKey>::Abs)
    requires
        forall|i: int| 0 <= i < s.len() ==> s[i].0.abs() != k,
    ensures
        !map_of(s).contains_key(k),
{
    if map_of(s).contains_key(k) {
        lemma_map_of_domain(s, k);
    }
}

/// Removing an entry of a duplicate-free sequence removes its key from the map.
pub proof fn lemma_map_of_remove<K: MapKey, V>(s: Seq<(K, V)>, i: int)
    requires
        distinct_keys(s),
        0 <= i < s.len(),
    ensures
        distinct_keys(s.remove(i)),
        map_of(s.remove(i)) == map_of(s).remove(s[i].0.abs()),
    decreases s.len(),
{
    assert forall|p: int, q: int| 0 <= p < q < s.remove(i).len() implies s.remove(i)[p].0.abs()
        != s.remove(i)[q].0.abs() by {
        let p0 = if p < i { p } else { p + 1 };
        let q0 = if q < i { q } else { q + 1 };
        assert(s.remove(i)[p] == s[p0]);
        assert(s.remove(i)[q] == s[q0]);
    }
    if i == s.len() - 1 {
        assert(s.remove(i) =~= s.drop_last());
        assert forall|j: int| 0 <= j < s.drop_last().len() implies s.drop_last()[j].0.abs()
            != s[i].0.abs() by {
            assert(s.drop_last()[j] == s[j]);
        }
        lemma_map_of_absent(s.drop_last(), s[i].0.abs());
        assert(map_of(s.remove(i)) =~= map_of(s).remove(s[i].0.abs()));
    } else {
        lemma_distinct_drop_last(s);
        lemma_map_of_remove(s.drop_last(), i);
        assert(s.remove(i).drop_last() =~= s.drop_last().remove(i));
        assert(s.remove(i).last() == s.last());
        assert(s.drop_last()[i] == s[i]);
        assert(s.remove(i).len() > 0);
        assert(map_of(s.remove(i)) == map_of(s.drop_last().remove(i)).insert(
            s.last().0.abs(),
            s.last().1,
        ));
        assert(s[i].0.abs() != s.last().0.abs());
        assert(map_of(s.drop_last()).remove(s[i].0.abs()).insert(s.last().0.abs(), s.last().1)
            =~= map_of(s.drop_last()).insert(s.last().0.abs(), s.last().1).remove(s[i].0.abs()));
    }
}

/// A mapping kept as a vector of key-value pairs with pairwise distinct
/// keys; lookups scan the vector.
#[derive(Debug)]
pub struct AssocMap<K: MapKey, V> {
    pairs: Vec<(K, V)>,
}

impl<K: MapKey, V> AssocMap<K, V> {
    /// The raw entry sequence.
    pub closed spec fn kvs(&self) -> Seq<(K, V)> {
        self.pairs@
    }

    /// The mapping this table denotes.
    pub open spec fn view(&self) -> Map<<K as MapKey>::Abs, V> {
        map_of(self.kvs())
    }

    /// Keys are pairwise distinct.
    pub open spec fn wf(&self) -> bool {
        distinct_keys(self.kvs())
    }

    /// An empty mapping.
    pub fn new() -> (r: Self)
        ensures
            r.wf(),
            r@ == Map::<<K as MapKey>::Abs, V>::empty(),
            r.kvs() == Seq::<(K, V)>::empty(),
    {
        AssocMap { pairs: Vec::new() }
    }

    fn find(&self, k: &K) -> (r: Option<usize>)
        ensures
            match r {
                Some(i) => i < self.kvs().len() && self.kvs()[i as int].0.abs() == k.abs(),
                None => forall|i: int| 0 <= i < self.kvs().len() ==> self.kvs()[i].0.abs()
                    != k.abs(),
            },
    {
        let n = self.pairs.len();
        let mut i: usize = 0;
        while i < n
            invariant
                i <= n,
                n == self.kvs().len(),
                forall|j: int| 0 <= j < i ==> self.kvs()[j].0.abs() != k.abs(),
            decreases n - i,
        {
            if self.pairs[i].0.key_eq(k) {
                return Some(i);
            }
            i = i + 1;
        }
        None
    }

    /// The stored entries, for persistence by a host.
    pub fn entries(&self) -> (r: &Vec<(K, V)>)
        ensures
            r@ == self.kvs(),
    {
        &self.pairs
    }

    /// Looks the key up.
    pub fn get(&self, k: &K) -> (r: Option<&V>)
        requires
            self.wf(),
        ensures
            match r {
                Some(v) => self@.contains_key(k.abs()) && *v == self@[k.abs()],
                None => !self@.contains_key(k.abs()),
            },
    {
        match self.find(k) {
            Some(i) => {
                proof {
                    lemma_map_of_index(self.kvs(), i as int);
                }
                Some(&self.pairs[i].1)
            },
            None => {
                proof {
                    lemma_map_of_absent(self.kvs(), k.abs());
                }
                None
            },
        }
    }

    /// Removes the key's entry, handing it back if it was present.
    pub fn take(&mut self, k: &K) -> (r: Option<(K, V)>)
        requires
            old(self).wf(),
        ensures
            final(self).wf(),
            final(self)@ == old(self)@.remove(k.abs()),
            match r {
                Some(p) => {
                    &&& old(self)@.contains_key(k.abs())
                    &&& p.0.abs() == k.abs()
                    &&& p.1 == old(self)@[k.abs()]
                    &&& exists|i: int|
                        0 <= i < old(self).kvs().len() && old(self).kvs()[i] == p
                            && final(self).kvs() == old(self).kvs().remove(i)
                },
                None => !old(self)@.contains_key(k.abs()) && *final(self) == *old(self),
            },
    {
        match self.find(k) {
            Some(i) => {
                proof {
                    lemma_map_of_index(self.kvs(), i as int);
                    lemma_map_of_remove(self.kvs(), i as int);
                }
                let p = self.pairs.remove(i);
                Some(p)
            },
            None => {
                proof {
                    lemma_map_of_absent(self.kvs(), k.abs());
                    assert(self@.remove(k.abs()) =~= self@);
                }
                None
            },
        }
    }

    /// Adds an entry for a key known to be absent.
    pub fn insert(&mut self, k: K, v: V)
        requires
            old(self).wf(),
            !old(self)@.contains_key(k.abs()),
        ensures
            final(self).wf(),
            final(self)@ == old(self)@.insert(k.abs(), v),
            final(self).kvs() == old(self).kvs().push((k, v)),
    {
        proof {
            assert forall|i: int| 0 <= i < self.kvs().len() implies self.kvs()[i].0.abs()
                != k.abs() by {
                lemma_map_of_index(self.kvs(), i);
            }
        }
        self.pairs.push((k, v));
        proof {
            assert(self.kvs().drop_last() =~= old(self).kvs());
            assert forall|i: int, j: int| 0 <= i < j < self.kvs().len() implies self.kvs()[i].0.abs()
                != self.kvs()[j].0.abs() by {
                if j < self.kvs().len() - 1 {
                    assert(self.kvs()[i] == old(self).kvs()[i]);
                    assert(self.kvs()[j] == old(self).kvs()[j]);
                } else {
                    assert(self.kvs()[i] == old(self).kvs()[i]);
                    lemma_map_of_index(old(self).kvs(), i);
                }
            }
        }
    }

    /// Binds the key to the value, replacing any previous entry.
    pub fn set(&mut self, k: K, v: V)
        requires
            old(self).wf(),
        ensures
            final(self).wf(),
            final(self)@ == old(self)@.insert(k.abs(), v),
    {
        let taken = self.take(&k);
        proof {
            assert(self@ == old(self)@.remove(k.abs()));
        }
        self.insert(k, v);
        proof {
            assert(old(self)@.remove(k.abs()).insert(k.abs(), v) =~= old(self)@.insert(
                k.abs(),
                v,
            ));
        }
    }
}

} // verus!
