//! Small insertion-ordered maps and sets over keys that can be compared in
//! executable code. Their views are the mathematical `Map` and `Set`.

use vstd::prelude::*;

verus! {

/// A key whose executable equality test agrees with mathematical equality.
pub trait Key: Copy {
    fn same(&self, other: &Self) -> (r: bool)
        ensures
            r == (*self == *other),
    ;
}

impl Key for usize {
    fn same(&self, other: &Self) -> (r: bool) {
        *self == *other
    }
}

/// In a sequence without duplicates, every element is found at its own index.
pub proof fn lemma_index_of_unique<K>(s: Seq<K>, i: int)
    requires
        s.no_duplicates(),
        0 <= i < s.len(),
    ensures
        s.contains(s[i]),
        s.index_of(s[i]) == i,
{
    let j = s.index_of(s[i]);
    assert(0 <= j < s.len() && s[j] == s[i]);
}

/// A map from keys to values, kept in insertion order.
pub struct VecMap<K: Key, V> {
    keys: Vec<K>,
    vals: Vec<V>,
}

impl<K: Key, V> View for VecMap<K, V> {
    type V = Map<K, V>;

    closed spec fn view(&self) -> Map<K, V> {
        Map::new(|k: K| self.keys@.contains(k), |k: K| self.vals@[self.keys@.index_of(k)])
    }
}

impl<K: Key, V> VecMap<K, V> {
    /// No key is stored twice.
    pub closed spec fn wf(&self) -> bool {
        &&& self.keys@.len() == self.vals@.len()
        &&& self.keys@.no_duplicates()
    }

    /// The keys in the order in which they were first inserted.
    pub closed spec fn keys(&self) -> Seq<K> {
        self.keys@
    }

    /// What a well-formed map's key sequence says about its view.
    pub proof fn lemma_keys(&self)
        requires
            self.wf(),
        ensures
            self.keys().no_duplicates(),
            self@.dom() == self.keys().to_set(),
            self@.dom().finite(),
            self@.dom().len() == self.keys().len(),
            forall|k: K| self@.contains_key(k) <==> self.keys().contains(k),
    {
        assert(self@.dom() =~= self.keys@.to_set());
        self.keys@.unique_seq_to_set();
    }

    pub fn new() -> (m: Self)
        ensures
            m.wf(),
            m@ == Map::<K, V>::empty(),
            m.keys() == Seq::<K>::empty(),
    {
        let m = VecMap { keys: Vec::new(), vals: Vec::new() };
        assert(m@ =~= Map::<K, V>::empty());
        m
    }

    pub fn len(&self) -> (n: usize)
        requires
            self.wf(),
        ensures
            n == self@.dom().len(),
            n == self.keys().len(),
    {
        proof {
            self.lemma_keys();
        }
        self.keys.len()
    }

    fn find(&self, k: &K) -> (r: Option<usize>)
        requires
            self.wf(),
        ensures
            match r {
                Some(i) => i < self.keys@.len() && self.keys@[i as int] == *k,
                None => !self.keys@.contains(*k),
            },
    {
        let mut i: usize = 0;
        while i < self.keys.len()
            invariant
                i <= self.keys@.len(),
                forall|j: int| 0 <= j < i ==> self.keys@[j] != *k,
            decreases self.keys@.len() - i,
        {
            if self.keys[i].same(k) {
                return Some(i);
            }
            i += 1;
        }
        None
    }

    pub fn contains_key(&self, k: &K) -> (r: bool)
        requires
            self.wf(),
        ensures
            r == self@.contains_key(*k),
    {
        self.find(k).is_some()
    }

    pub fn get(&self, k: &K) -> (r: Option<&V>)
        requires
            self.wf(),
        ensures
            match r {
                Some(v) => self@.contains_key(*k) && *v == self@[*k],
                None => !self@.contains_key(*k),
            },
    {
        match self.find(k) {
            Some(i) => {
                proof {
                    lemma_index_of_unique(self.keys@, i as int);
                }
                Some(&self.vals[i])
            },
            None => None,
        }
    }

    /// The key stored at position `i`.
    pub fn key_at(&self, i: usize) -> (k: K)
        requires
            self.wf(),
            i < self.keys().len(),
        ensures
            k == self.keys()[i as int],
            self@.contains_key(k),
    {
        self.keys[i]
    }

    /// The value stored at position `i`.
    pub fn value_at(&self, i: usize) -> (v: &V)
        requires
            self.wf(),
            i < self.keys().len(),
        ensures
            *v == self@[self.keys()[i as int]],
    {
        proof {
            lemma_index_of_unique(self.keys@, i as int);
        }
        &self.vals[i]
    }

    /// Binds `k` to `v`. A key that is already present keeps its position.
    pub fn insert(&mut self, k: K, v: V)
        requires
            old(self).wf(),
        ensures
            final(self).wf(),
            final(self)@ == old(self)@.insert(k, v),
            final(self).keys() == if old(self)@.contains_key(k) {
                old(self).keys()
            } else {
                old(self).keys().push(k)
            },
    {
        let ghost before = *self;
        match self.find(&k) {
            Some(i) => {
                self.vals.set(i, v);
                proof {
                    assert forall|q: K| #[trigger] self@.contains_key(q) implies self@[q]
                        == before@.insert(k, v)[q] by {
                        let j = self.keys@.index_of(q);
                        lemma_index_of_unique(self.keys@, j);
                        lemma_index_of_unique(self.keys@, i as int);
                    }
                    assert(self@ =~= before@.insert(k, v));
                }
            },
            None => {
                self.keys.push(k);
                self.vals.push(v);
                proof {
                    let n = before.keys@.len() as int;
                    assert(self.keys@.no_duplicates()) by {
                        assert forall|a: int, b: int|
                            0 <= a < self.keys@.len() && 0 <= b < self.keys@.len() && a
                                != b implies self.keys@[a] != self.keys@[b] by {
                            if a < n && b < n {
                            } else if a == n {
                                assert(before.keys@[b] == self.keys@[b]);
                            } else {
                                assert(before.keys@[a] == self.keys@[a]);
                            }
                        }
                    }
                    assert forall|q: K| self@.contains_key(q) <==> before@.insert(
                        k,
                        v,
                    ).contains_key(q) by {
                        if q == k {
                            assert(self.keys@[n] == k);
                        } else if before.keys@.contains(q) {
                            let j = before.keys@.index_of(q);
                            assert(self.keys@[j] == q);
                        } else if self.keys@.contains(q) {
                            let j = self.keys@.index_of(q);
                            assert(j < n);
                            assert(before.keys@[j] == q);
                        }
                    }
                    assert forall|q: K| #[trigger] self@.contains_key(q) implies self@[q]
                        == before@.insert(k, v)[q] by {
                        let j = self.keys@.index_of(q);
                        lemma_index_of_unique(self.keys@, j);
                        if j < n {
                            assert(before.keys@[j] == q);
                            lemma_index_of_unique(before.keys@, j);
                        }
                    }
                    assert(self@ =~= before@.insert(k, v));
                }
            },
        }
    }

    /// Takes the binding that was inserted last out of the map.
    pub fn pop(&mut self) -> (r: Option<(K, V)>)
        requires
            old(self).wf(),
        ensures
            final(self).wf(),
            match r {
                Some((k, v)) => {
                    &&& old(self)@.contains_key(k)
                    &&& old(self)@[k] == v
                    &&& old(self).keys().len() > 0
                    &&& k == old(self).keys().last()
                    &&& final(self)@ == old(self)@.remove(k)
                    &&& final(self).keys() == old(self).keys().drop_last()
                },
                None => {
                    &&& old(self).keys().len() == 0
                    &&& old(self)@ == Map::<K, V>::empty()
                    &&& final(self)@ == old(self)@
                    &&& final(self).keys() == old(self).keys()
                },
            },
    {
        let ghost before = *self;
        if self.keys.len() == 0 {
            assert(self@ =~= Map::<K, V>::empty());
            return None;
        }
        let k = self.keys.pop().unwrap();
        let v = self.vals.pop().unwrap();
        proof {
            let n = self.keys@.len() as int;
            lemma_index_of_unique(before.keys@, n);
            assert forall|q: K| self@.contains_key(q) <==> before@.remove(k).contains_key(q) by {
                if self.keys@.contains(q) {
                    let j = self.keys@.index_of(q);
                    assert(before.keys@[j] == q);
                }
                if q != k && before.keys@.contains(q) {
                    let j = before.keys@.index_of(q);
                    assert(self.keys@[j] == q);
                }
            }
            assert forall|q: K| #[trigger] self@.contains_key(q) implies self@[q] == before@.remove(
                k,
            )[q] by {
                let j = self.keys@.index_of(q);
                lemma_index_of_unique(self.keys@, j);
                lemma_index_of_unique(before.keys@, j);
            }
            assert(self@ =~= before@.remove(k));
        }
        Some((k, v))
    }

    /// Takes the bindings of all of `keys` out of the map.
    pub fn remove_all(&mut self, keys: &Vec<K>)
        requires
            old(self).wf(),
        ensures
            final(self).wf(),
            final(self)@ == Map::new(
                |k: K| old(self)@.contains_key(k) && !keys@.contains(k),
                |k: K| old(self)@[k],
            ),
    {
        let ghost before = self@;
        let mut i: usize = 0;
        assert(self@ =~= Map::new(
            |k: K| before.contains_key(k) && !keys@.take(0).contains(k),
            |k: K| before[k],
        ));
        while i < keys.len()
            invariant
                i <= keys.len(),
                self.wf(),
                self@ == Map::new(
                    |k: K| before.contains_key(k) && !keys@.take(i as int).contains(k),
                    |k: K| before[k],
                ),
            decreases keys.len() - i,
        {
            let _ = self.remove(&keys[i]);
            proof {
                let shorter = keys@.take(i as int);
                let longer = keys@.take(i + 1);
                assert forall|k: K| longer.contains(k) <==> (shorter.contains(k) || k
                    == keys@[i as int]) by {
                    if shorter.contains(k) {
                        let j = shorter.index_of(k);
                        assert(longer[j] == k);
                    }
                    if k == keys@[i as int] {
                        assert(longer[i as int] == k);
                    }
                    if longer.contains(k) {
                        let j = longer.index_of(k);
                        if j < i {
                            assert(shorter[j] == k);
                        }
                    }
                }
                assert(self@ =~= Map::new(
                    |k: K| before.contains_key(k) && !longer.contains(k),
                    |k: K| before[k],
                ));
            }
            i += 1;
        }
        assert(keys@.take(keys@.len() as int) =~= keys@);
    }

    /// Takes the binding of `k` out of the map.
    pub fn remove(&mut self, k: &K) -> (r: Option<V>)
        requires
            old(self).wf(),
        ensures
            final(self).wf(),
            final(self)@ == old(self)@.remove(*k),
            match r {
                Some(v) => old(self)@.contains_key(*k) && v == old(self)@[*k],
                None => !old(self)@.contains_key(*k),
            },
            final(self).keys() == old(self).keys().filter(|q: K| q != *k),
    {
        let ghost before = *self;
        match self.find(k) {
            Some(i) => {
                proof {
                    lemma_index_of_unique(self.keys@, i as int);
                }
                let _ = self.keys.remove(i);
                let v = self.vals.remove(i);
                proof {
                    let n = before.keys@.len() as int;
                    let ii = i as int;
                    assert(self.keys@ == before.keys@.remove(ii));
                    assert forall|a: int| 0 <= a < self.keys@.len() implies self.keys@[a] == (if a
                        < ii {
                        before.keys@[a]
                    } else {
                        before.keys@[a + 1]
                    }) by {}
                    assert(self.keys@.no_duplicates());
                    assert forall|q: K| self@.contains_key(q) <==> before@.remove(*k).contains_key(
                        q,
                    ) by {
                        if self.keys@.contains(q) {
                            let j = self.keys@.index_of(q);
                            if j < ii {
                                assert(before.keys@[j] == q);
                            } else {
                                assert(before.keys@[j + 1] == q);
                            }
                        }
                        if q != *k && before.keys@.contains(q) {
                            let j = before.keys@.index_of(q);
                            if j < ii {
                                assert(self.keys@[j] == q);
                            } else {
                                assert(self.keys@[j - 1] == q);
                            }
                        }
                    }
                    assert forall|q: K| #[trigger] self@.contains_key(q) implies self@[q]
                        == before@.remove(*k)[q] by {
                        let j = self.keys@.index_of(q);
                        lemma_index_of_unique(self.keys@, j);
                        if j < ii {
                            lemma_index_of_unique(before.keys@, j);
                        } else {
                            lemma_index_of_unique(before.keys@, j + 1);
                        }
                    }
                    assert(self@ =~= before@.remove(*k));
                    lemma_filter_out_unique(before.keys@, ii);
                }
                Some(v)
            },
            None => {
                proof {
                    assert(self@ =~= before@.remove(*k));
                    lemma_filter_out_absent(before.keys@, *k);
                }
                None
            },
        }
    }
}

/// A set of keys, kept in insertion order.
pub struct VecSet<K: Key> {
    items: Vec<K>,
}

impl<K: Key> View for VecSet<K> {
    type V = Set<K>;

    closed spec fn view(&self) -> Set<K> {
        self.items@.to_set()
    }
}

impl<K: Key> VecSet<K> {
    /// No key is stored twice.
    pub closed spec fn wf(&self) -> bool {
        self.items@.no_duplicates()
    }

    /// The keys in the order in which they were inserted.
    pub closed spec fn items(&self) -> Seq<K> {
        self.items@
    }

    /// What a well-formed set's key sequence says about its view.
    pub proof fn lemma_items(&self)
        requires
            self.wf(),
        ensures
            self.items().no_duplicates(),
            self@ == self.items().to_set(),
            self@.finite(),
            self@.len() == self.items().len(),
    {
        self.items@.unique_seq_to_set();
    }

    pub fn new() -> (s: Self)
        ensures
            s.wf(),
            s@ == Set::<K>::empty(),
    {
        let s = VecSet { items: Vec::new() };
        assert(s@ =~= Set::<K>::empty());
        s
    }

    pub fn len(&self) -> (n: usize)
        requires
            self.wf(),
        ensures
            n == self@.len(),
            n == self.items().len(),
    {
        proof {
            self.lemma_items();
        }
        self.items.len()
    }

    fn find(&self, k: &K) -> (r: Option<usize>)
        requires
            self.wf(),
        ensures
            match r {
                Some(i) => i < self.items@.len() && self.items@[i as int] == *k,
                None => !self.items@.contains(*k),
            },
    {
        let mut i: usize = 0;
        while i < self.items.len()
            invariant
                i <= self.items@.len(),
                forall|j: int| 0 <= j < i ==> self.items@[j] != *k,
            decreases self.items@.len() - i,
        {
            if self.items[i].same(k) {
                return Some(i);
            }
            i += 1;
        }
        None
    }

    pub fn contains(&self, k: &K) -> (r: bool)
        requires
            self.wf(),
        ensures
            r == self@.contains(*k),
    {
        self.find(k).is_some()
    }

    /// The key stored at position `i`.
    pub fn item_at(&self, i: usize) -> (k: K)
        requires
            self.wf(),
            i < self.items().len(),
        ensures
            k == self.items()[i as int],
            self@.contains(k),
    {
        self.items[i]
    }

    /// Adds `k`; says whether it was new.
    pub fn insert(&mut self, k: K) -> (fresh: bool)
        requires
            old(self).wf(),
        ensures
            final(self).wf(),
            final(self)@ == old(self)@.insert(k),
            fresh == !old(self)@.contains(k),
    {
        let ghost before = self.items@;
        match self.find(&k) {
            Some(_) => {
                assert(self@ =~= old(self)@.insert(k));
                false
            },
            None => {
                self.items.push(k);
                proof {
                    assert forall|q: K| self.items@.contains(q) <==> (before.contains(q) || q
                        == k) by {
                        if before.contains(q) {
                            let j = before.index_of(q);
                            assert(self.items@[j] == q);
                        }
                        if q == k {
                            assert(self.items@[before.len() as int] == k);
                        }
                        if self.items@.contains(q) {
                            let j = self.items@.index_of(q);
                            if j < before.len() {
                                assert(before[j] == q);
                            }
                        }
                    }
                    assert(self@ =~= old(self)@.insert(k));
                }
                true
            },
        }
    }

    /// Takes `k` out; says whether it was there.
    pub fn remove(&mut self, k: &K) -> (found: bool)
        requires
            old(self).wf(),
        ensures
            final(self).wf(),
            final(self)@ == old(self)@.remove(*k),
            found == old(self)@.contains(*k),
    {
        let ghost before = self.items@;
        match self.find(k) {
            Some(i) => {
                let _ = self.items.remove(i);
                proof {
                    let ii = i as int;
                    assert forall|a: int| 0 <= a < self.items@.len() implies self.items@[a] == (if a
                        < ii {
                        before[a]
                    } else {
                        before[a + 1]
                    }) by {}
                    assert forall|q: K| self.items@.contains(q) <==> (before.contains(q) && q
                        != *k) by {
                        if self.items@.contains(q) {
                            let j = self.items@.index_of(q);
                            if j < ii {
                                assert(before[j] == q);
                            } else {
                                assert(before[j + 1] == q);
                            }
                        }
                        if q != *k && before.contains(q) {
                            let j = before.index_of(q);
                            if j < ii {
                                assert(self.items@[j] == q);
                            } else {
                                assert(self.items@[j - 1] == q);
                            }
                        }
                    }
                    assert(self@ =~= old(self)@.remove(*k));
                }
                true
            },
            None => {
                assert(self@ =~= old(self)@.remove(*k));
                false
            },
        }
    }
}

/// Filtering a key out of a sequence that does not hold it changes nothing.
pub proof fn lemma_filter_out_absent<K>(s: Seq<K>, k: K)
    requires
        !s.contains(k),
    ensures
        s.filter(|q: K| q != k) == s,
    decreases s.len(),
{
    reveal(Seq::filter);
    if s.len() > 0 {
        let t = s.drop_last();
        assert forall|q: K| t.contains(q) implies s.contains(q) by {
            let j = t.index_of(q);
            assert(s[j] == q);
        }
        assert(s[s.len() - 1] != k) by {
            assert(s.contains(s[s.len() - 1]));
        }
        lemma_filter_out_absent(t, k);
        assert(t.push(s.last()) =~= s);
    }
}

/// Filtering out the element at `i` of a sequence without duplicates removes
/// exactly that position.
pub proof fn lemma_filter_out_unique<K>(s: Seq<K>, i: int)
    requires
        s.no_duplicates(),
        0 <= i < s.len(),
    ensures
        s.filter(|q: K| q != s[i]) == s.remove(i),
    decreases s.len(),
{
    reveal(Seq::filter);
    let k = s[i];
    let t = s.drop_last();
    if i == s.len() - 1 {
        assert(!t.contains(k)) by {
            if t.contains(k) {
                let j = t.index_of(k);
                assert(s[j] == k);
            }
        }
        lemma_filter_out_absent(t, k);
        assert(s.remove(i) =~= t);
    } else {
        assert(t[i] == k);
        lemma_filter_out_unique(t, i);
        assert(s.last() != k);
        assert(t.remove(i).push(s.last()) =~= s.remove(i));
    }
}

} // verus!
