//! A small map from CSS property names to values, kept as a list of entries
//! in which no property name occurs twice.
use vstd::prelude::*;

verus! {

/// One property name and the value stored for it.
#[derive(Clone)]
pub struct PropEntry<T> {
    pub key: String,
    pub value: T,
}

/// A map from property names to values of type `T`.
pub struct PropMap<T> {
    entries: Vec<PropEntry<T>>,
}

impl<T> PropMap<T> {
    /// No property name occurs twice.
    #[verifier::type_invariant]
    spec fn keys_distinct(self) -> bool {
        forall|i: int, j: int|
            0 <= i < self.entries@.len() && 0 <= j < self.entries@.len() && i != j
                ==> #[trigger] self.entries@[i].key@ != #[trigger] self.entries@[j].key@
    }

    /// Whether some entry has the name `k`.
    pub closed spec fn has_key(self, k: Seq<char>) -> bool {
        exists|i: int| 0 <= i < self.entries@.len() && #[trigger] self.entries@[i].key@ == k
    }

    /// The position of the entry named `k`.
    closed spec fn index_of(self, k: Seq<char>) -> int {
        choose|i: int| 0 <= i < self.entries@.len() && #[trigger] self.entries@[i].key@ == k
    }

    /// The map that the entries stand for.
    pub closed spec fn as_map(self) -> Map<Seq<char>, T> {
        Map::new(|k: Seq<char>| self.has_key(k), |k: Seq<char>| self.entries@[self.index_of(k)].value)
    }

    /// An empty map.
    pub fn new() -> (m: Self)
        ensures
            m.as_map() == Map::<Seq<char>, T>::empty(),
    {
        let m = PropMap { entries: Vec::new() };
        assert(m.as_map() =~= Map::<Seq<char>, T>::empty());
        m
    }

    /// The position of the entry named `key`, if there is one.
    fn find(&self, key: &String) -> (r: Option<usize>)
        ensures
            match r {
                Some(i) => i < self.entries@.len() && self.entries@[i as int].key@ == key@
                    && self.index_of(key@) == i,
                None => !self.has_key(key@),
            },
    {
        proof {
            use_type_invariant(self);
        }
        let mut i: usize = 0;
        while i < self.entries.len()
            invariant
                i <= self.entries@.len(),
                self.keys_distinct(),
                forall|j: int| 0 <= j < i ==> #[trigger] self.entries@[j].key@ != key@,
            decreases self.entries@.len() - i,
        {
            if self.entries[i].key == *key {
                assert(self.entries@[i as int].key@ == key@);
                let ghost c = self.index_of(key@);
                assert(self.entries@[c].key@ == key@);
                assert(c == i as int);
                return Some(i);
            }
            i = i + 1;
        }
        None
    }

    /// The value stored for `key`, if any.
    pub fn get(&self, key: &String) -> (r: Option<&T>)
        ensures
            match r {
                Some(v) => self.as_map().dom().contains(key@) && *v == self.as_map()[key@],
                None => !self.as_map().dom().contains(key@),
            },
    {
        match self.find(key) {
            Some(i) => Some(&self.entries[i].value),
            None => None,
        }
    }

    /// Whether a value is stored for `key`.
    pub fn contains_key(&self, key: &String) -> (r: bool)
        ensures
            r == self.as_map().dom().contains(key@),
    {
        self.find(key).is_some()
    }

    /// Stores `value` for `key`, in place of any value stored for it before.
    pub fn insert(&mut self, key: String, value: T)
        ensures
            final(self).as_map() == old(self).as_map().insert(key@, value),
    {
        proof {
            use_type_invariant(&*self);
        }
        let ghost k = key@;
        let ghost old_self = *self;
        match self.find(&key) {
            Some(i) => {
                let mut entries = Vec::new();
                std::mem::swap(&mut entries, &mut self.entries);
                entries.set(i, PropEntry { key, value });
                self.entries = entries;
                assert forall|q: Seq<char>| #[trigger] self.has_key(q) == (old_self.has_key(q) || q == k) by {
                    if old_self.has_key(q) {
                        let j = choose|j: int| 0 <= j < old_self.entries@.len() && #[trigger] old_self.entries@[j].key@ == q;
                        assert(self.entries@[j].key@ == q);
                    }
                    if self.has_key(q) {
                        let j = choose|j: int| 0 <= j < self.entries@.len() && #[trigger] self.entries@[j].key@ == q;
                        assert(old_self.entries@[j].key@ == q);
                    }
                }
                assert forall|q: Seq<char>| #[trigger] self.has_key(q) implies self.index_of(q) == old_self.index_of(q) || q == k by {
                    let a = self.index_of(q);
                    let b = old_self.index_of(q);
                    assert(self.entries@[a].key@ == q);
                    assert(old_self.entries@[a].key@ == q);
                    assert(old_self.has_key(q));
                    assert(old_self.entries@[b].key@ == q);
                }
                assert(self.index_of(k) == i as int) by {
                    assert(self.entries@[i as int].key@ == k);
                    let a = self.index_of(k);
                    assert(self.entries@[a].key@ == k);
                }
                assert(self.as_map() =~= old_self.as_map().insert(k, value));
            },
            None => {
                let mut entries = Vec::new();
                std::mem::swap(&mut entries, &mut self.entries);
                entries.push(PropEntry { key, value });
                self.entries = entries;
                let ghost n = old_self.entries@.len() as int;
                assert forall|q: Seq<char>| #[trigger] self.has_key(q) == (old_self.has_key(q) || q == k) by {
                    if old_self.has_key(q) {
                        let j = choose|j: int| 0 <= j < old_self.entries@.len() && #[trigger] old_self.entries@[j].key@ == q;
                        assert(self.entries@[j].key@ == q);
                    }
                    if q == k {
                        assert(self.entries@[n].key@ == q);
                    }
                    if self.has_key(q) && q != k {
                        let j = choose|j: int| 0 <= j < self.entries@.len() && #[trigger] self.entries@[j].key@ == q;
                        assert(j != n);
                        assert(old_self.entries@[j].key@ == q);
                    }
                }
                assert forall|q: Seq<char>| #[trigger] self.has_key(q) && q != k implies self.index_of(q) == old_self.index_of(q) by {
                    let a = self.index_of(q);
                    let b = old_self.index_of(q);
                    assert(self.entries@[a].key@ == q);
                    assert(a != n);
                    assert(old_self.entries@[a].key@ == q);
                    assert(old_self.has_key(q));
                    assert(old_self.entries@[b].key@ == q);
                    assert(self.entries@[b].key@ == q);
                }
                assert(self.index_of(k) == n) by {
                    assert(self.entries@[n].key@ == k);
                    let a = self.index_of(k);
                    assert(self.entries@[a].key@ == k);
                    if a != n {
                        assert(old_self.entries@[a].key@ == k);
                    }
                }
                assert(self.as_map() =~= old_self.as_map().insert(k, value));
            },
        }
    }

    /// Removes the value stored for `key`, if any.
    pub fn remove(&mut self, key: &String)
        ensures
            final(self).as_map() == old(self).as_map().remove(key@),
    {
        proof {
            use_type_invariant(&*self);
        }
        let ghost k = key@;
        let ghost old_self = *self;
        match self.find(key) {
            Some(i) => {
                let mut entries = Vec::new();
                std::mem::swap(&mut entries, &mut self.entries);
                entries.remove(i);
                self.entries = entries;
                let ghost im = i as int;
                assert forall|q: Seq<char>| #[trigger] self.has_key(q) == (old_self.has_key(q) && q != k) by {
                    if old_self.has_key(q) && q != k {
                        let j = choose|j: int| 0 <= j < old_self.entries@.len() && #[trigger] old_self.entries@[j].key@ == q;
                        assert(j != im);
                        if j < im {
                            assert(self.entries@[j].key@ == q);
                        } else {
                            assert(self.entries@[j - 1].key@ == q);
                        }
                    }
                    if self.has_key(q) {
                        let j = choose|j: int| 0 <= j < self.entries@.len() && #[trigger] self.entries@[j].key@ == q;
                        if j < im {
                            assert(old_self.entries@[j].key@ == q);
                        } else {
                            assert(old_self.entries@[j + 1].key@ == q);
                            assert(j + 1 != im);
                        }
                    }
                }
                assert forall|q: Seq<char>| #[trigger] self.has_key(q) implies self.entries@[self.index_of(q)].value
                    == old_self.entries@[old_self.index_of(q)].value by {
                    let a = self.index_of(q);
                    let b = old_self.index_of(q);
                    assert(self.entries@[a].key@ == q);
                    assert(old_self.entries@[b].key@ == q);
                    if a < im {
                        assert(old_self.entries@[a].key@ == q);
                        assert(self.entries@[a] == old_self.entries@[a]);
                    } else {
                        assert(old_self.entries@[a + 1].key@ == q);
                        assert(self.entries@[a] == old_self.entries@[a + 1]);
                    }
                }
                assert(self.as_map() =~= old_self.as_map().remove(k));
            },
            None => {
                assert(old_self.as_map() =~= old_self.as_map().remove(k));
            },
        }
    }
}

impl<T: Clone> Clone for PropMap<T> {
    /// A copy with the same property names; each value is a clone of the
    /// value stored for the same name.
    fn clone(&self) -> (r: Self)
        ensures
            r.as_map().dom() == self.as_map().dom(),
            forall|k: Seq<char>| #[trigger] r.as_map().dom().contains(k) ==> cloned(self.as_map()[k], r.as_map()[k]),
    {
        proof {
            use_type_invariant(self);
        }
        let mut entries: Vec<PropEntry<T>> = Vec::new();
        let mut i: usize = 0;
        while i < self.entries.len()
            invariant
                i <= self.entries@.len(),
                entries@.len() == i,
                self.keys_distinct(),
                forall|j: int| 0 <= j < i ==> #[trigger] entries@[j].key@ == self.entries@[j].key@,
                forall|j: int| 0 <= j < i ==> cloned(self.entries@[j].value, #[trigger] entries@[j].value),
            decreases self.entries@.len() - i,
        {
            let value = self.entries[i].value.clone();
            entries.push(PropEntry { key: self.entries[i].key.clone(), value });
            i = i + 1;
        }
        let r = PropMap { entries };
        assert forall|q: Seq<char>| #[trigger] r.has_key(q) == self.has_key(q) by {
            if r.has_key(q) {
                let j = choose|j: int| 0 <= j < r.entries@.len() && #[trigger] r.entries@[j].key@ == q;
                assert(self.entries@[j].key@ == q);
            }
            if self.has_key(q) {
                let j = choose|j: int| 0 <= j < self.entries@.len() && #[trigger] self.entries@[j].key@ == q;
                assert(r.entries@[j].key@ == q);
            }
        }
        assert(r.as_map().dom() =~= self.as_map().dom());
        assert forall|k: Seq<char>| #[trigger] r.as_map().dom().contains(k) implies cloned(
            self.as_map()[k],
            r.as_map()[k],
        ) by {
            let a = r.index_of(k);
            let b = self.index_of(k);
            assert(r.entries@[a].key@ == k);
            assert(self.entries@[a].key@ == k);
            assert(self.has_key(k));
            assert(self.entries@[b].key@ == k);
            assert(a == b);
        }
        r
    }
}

/// Law: a map of texts and any clone of it (a map with the same names, each
/// holding a clone of the text stored for that name) are the same map: every
/// name keeps its own value.
pub proof fn law_clone_of_texts_is_equal(m: PropMap<String>, r: PropMap<String>)
    requires
        r.as_map().dom() == m.as_map().dom(),
        forall|k: Seq<char>| #[trigger] r.as_map().dom().contains(k) ==> cloned(m.as_map()[k], r.as_map()[k]),
    ensures
        r.as_map() == m.as_map(),
{
    assert forall|k: Seq<char>| #[trigger] r.as_map().dom().contains(k) implies r.as_map()[k] == m.as_map()[k] by {
        assert(cloned(m.as_map()[k], r.as_map()[k]));
    }
    assert(r.as_map() =~= m.as_map());
}

} // verus!
