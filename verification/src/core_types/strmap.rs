//! A small map from strings to strings, used for variables, captures and
//! metadata. Each key appears once; inserting an existing key replaces its value.
use vstd::prelude::*;
use crate::core_types::text::str_eq;

verus! {

/// A map from strings to strings with unique keys, kept in insertion order.
#[derive(Debug)]
pub struct StrMap {
    entries: Vec<(String, String)>,
}

impl View for StrMap {
    type V = Map<Seq<char>, Seq<char>>;

    closed spec fn view(&self) -> Map<Seq<char>, Seq<char>> {
        Map::new(
            |k: Seq<char>| exists|i: int| 0 <= i < self.entries@.len() && #[trigger] self.entries@[i].0@ == k,
            |k: Seq<char>| self.entries@[self.index_of(k)].1@,
        )
    }
}

impl StrMap {
    /// The position of key `k`.
    closed spec fn index_of(&self, k: Seq<char>) -> int {
        choose|i: int| 0 <= i < self.entries@.len() && self.entries@[i].0@ == k
    }

    #[verifier::type_invariant]
    closed spec fn wf(self) -> bool {
        forall|i: int, j: int|
            0 <= i < j < self.entries@.len() ==> #[trigger] self.entries@[i].0@
                != #[trigger] self.entries@[j].0@
    }

    /// The keys, in insertion order.
    pub closed spec fn key_seq(&self) -> Seq<Seq<char>> {
        self.entries@.map_values(|e: (String, String)| e.0@)
    }

    /// The values, in the order of their keys.
    pub closed spec fn value_seq(&self) -> Seq<Seq<char>> {
        self.entries@.map_values(|e: (String, String)| e.1@)
    }

    proof fn lemma_view_at(&self, i: int)
        requires
            0 <= i < self.entries@.len(),
            forall|a: int, b: int|
                0 <= a < b < self.entries@.len() ==> #[trigger] self.entries@[a].0@
                    != #[trigger] self.entries@[b].0@,
        ensures
            self@.contains_key(self.entries@[i].0@),
            self@[self.entries@[i].0@] == self.entries@[i].1@,
    {
        let k = self.entries@[i].0@;
        assert(exists|j: int| 0 <= j < self.entries@.len() && #[trigger] self.entries@[j].0@ == k);
        let j = self.index_of(k);
        assert(j == i);
    }

    /// The empty map.
    pub fn new() -> (m: Self)
        ensures
            m@ == Map::<Seq<char>, Seq<char>>::empty(),
            m.key_seq().len() == 0,
    {
        let m = StrMap { entries: Vec::new() };
        assert(m@ =~= Map::<Seq<char>, Seq<char>>::empty());
        assert(m.key_seq() =~= Seq::<Seq<char>>::empty());
        m
    }

    /// The position of `key`, if present.
    fn find(&self, key: &str) -> (r: Option<usize>)
        ensures
            r matches Some(i) ==> i < self.entries@.len() && self.entries@[i as int].0@ == key@,
            r is None ==> forall|i: int| 0 <= i < self.entries@.len() ==> #[trigger] self.entries@[i].0@ != key@,
    {
        let mut i: usize = 0;
        while i < self.entries.len()
            invariant
                i <= self.entries@.len(),
                forall|j: int| 0 <= j < i ==> #[trigger] self.entries@[j].0@ != key@,
            decreases self.entries@.len() - i,
        {
            if str_eq(self.entries[i].0.as_str(), key) {
                return Some(i);
            }
            i = i + 1;
        }
        None
    }

    /// The value of `key`, if present.
    pub fn get(&self, key: &str) -> (r: Option<&String>)
        ensures
            r matches Some(v) ==> self@.contains_key(key@) && self@[key@] == v@,
            r is None ==> !self@.contains_key(key@),
    {
        proof {
            use_type_invariant(self);
        }
        match self.find(key) {
            Some(i) => {
                proof {
                    self.lemma_view_at(i as int);
                }
                Some(&self.entries[i].1)
            },
            None => None,
        }
    }

    /// Whether `key` is present.
    pub fn contains_key(&self, key: &str) -> (b: bool)
        ensures
            b == self@.contains_key(key@),
    {
        self.find(key).is_some()
    }

    /// Sets `key` to `value`, replacing any earlier value.
    pub fn insert(&mut self, key: String, value: String)
        ensures
            final(self)@ == old(self)@.insert(key@, value@),
    {
        proof {
            use_type_invariant(&*self);
        }
        let ghost old_entries = self.entries@;
        match self.find(key.as_str()) {
            Some(i) => {
                let mut entries = Vec::new();
                std::mem::swap(&mut entries, &mut self.entries);
                entries.set(i, (key, value));
                self.entries = entries;
                assert(forall|j: int| 0 <= j < old_entries.len() && j != i ==> self.entries@[j] == old_entries[j]);
            },
            None => {
                let mut entries = Vec::new();
                std::mem::swap(&mut entries, &mut self.entries);
                entries.push((key, value));
                self.entries = entries;
            },
        }
        proof {
            let m = old(self)@.insert(key@, value@);
            assert forall|k: Seq<char>| #[trigger] self@.contains_key(k) <==> m.contains_key(k) by {
                if self@.contains_key(k) {
                    let j = choose|j: int| 0 <= j < self.entries@.len() && #[trigger] self.entries@[j].0@ == k;
                    if k != key@ {
                        assert(old_entries[j].0@ == k);
                    }
                }
                if m.contains_key(k) && k != key@ {
                    let j = choose|j: int| 0 <= j < old_entries.len() && #[trigger] old_entries[j].0@ == k;
                    assert(self.entries@[j].0@ == k);
                }
                if k == key@ {
                    let j = if self.entries@.len() > old_entries.len() { old_entries.len() as int } else {
                        choose|j: int| 0 <= j < old_entries.len() && old_entries[j].0@ == key@
                    };
                    assert(self.entries@[j].0@ == k);
                }
            }
            assert forall|k: Seq<char>| #[trigger] self@.contains_key(k) implies self@[k] == m[k] by {
                let j = choose|j: int| 0 <= j < self.entries@.len() && #[trigger] self.entries@[j].0@ == k;
                self.lemma_view_at(j);
                if k != key@ {
                    old(self).lemma_view_at(j);
                }
            }
            assert(self@ =~= m);
        }
    }

    /// The number of keys.
    pub fn len(&self) -> (n: usize)
        ensures
            n == self.key_seq().len(),
    {
        self.entries.len()
    }

    /// Whether there are no keys.
    pub fn is_empty(&self) -> (b: bool)
        ensures
            b == (self@ == Map::<Seq<char>, Seq<char>>::empty()),
    {
        proof {
            use_type_invariant(self);
            if self.entries@.len() > 0 {
                self.lemma_view_at(0);
                assert(self@.contains_key(self.entries@[0].0@));
            } else {
                assert(self@ =~= Map::<Seq<char>, Seq<char>>::empty());
            }
        }
        self.entries.len() == 0
    }

    /// The entry at position `i` of the insertion order.
    pub fn entry_at(&self, i: usize) -> (r: (&String, &String))
        requires
            i < self.key_seq().len(),
        ensures
            r.0@ == self.key_seq()[i as int],
            r.1@ == self.value_seq()[i as int],
            self@.contains_key(r.0@),
            self@[r.0@] == r.1@,
    {
        proof {
            use_type_invariant(self);
            self.lemma_view_at(i as int);
        }
        (&self.entries[i].0, &self.entries[i].1)
    }

    /// The keys of the map are exactly those of the insertion order.
    pub proof fn lemma_key_domain(&self)
        ensures
            forall|k: Seq<char>| #[trigger] self@.contains_key(k) <==> self.key_seq().contains(k),
    {
        assert forall|k: Seq<char>| #[trigger] self@.contains_key(k) <==> self.key_seq().contains(k) by {
            if self@.contains_key(k) {
                let j = choose|j: int| 0 <= j < self.entries@.len() && #[trigger] self.entries@[j].0@ == k;
                assert(self.key_seq()[j] == k);
            }
            if self.key_seq().contains(k) {
                let j = choose|j: int| 0 <= j < self.key_seq().len() && self.key_seq()[j] == k;
                assert(self.entries@[j].0@ == k);
            }
        }
    }

    /// Inserts every entry of `other`, in its order; later entries override.
    pub fn extend_from(&mut self, other: &StrMap)
        ensures
            final(self)@ == old(self)@.union_prefer_right(other@),
    {
        let ghost m0 = self@;
        let n = other.len();
        let mut i: usize = 0;
        while i < n
            invariant
                n == other.key_seq().len(),
                i <= n,
                self@ == m0.union_prefer_right(other@.restrict(other.key_seq().take(i as int).to_set())),
            decreases n - i,
        {
            let (k, v) = other.entry_at(i);
            self.insert(k.clone(), v.clone());
            i = i + 1;
            proof {
                let ks = other.key_seq();
                assert(ks.take(i as int) =~= ks.take(i - 1).push(ks[i - 1]));
                ks.take(i - 1).lemma_push_to_set_commute(ks[i - 1]);
                assert(self@ =~= m0.union_prefer_right(other@.restrict(ks.take(i as int).to_set())));
            }
        }
        proof {
            let ks = other.key_seq();
            assert(ks.take(ks.len() as int) =~= ks);
            other.lemma_key_domain();
            assert(other@.restrict(ks.to_set()) =~= other@);
        }
    }

    /// A copy of the map.
    pub fn duplicate(&self) -> (m: Self)
        ensures
            m@ == self@,
            m.key_seq() == self.key_seq(),
            m.value_seq() == self.value_seq(),
    {
        proof {
            use_type_invariant(self);
        }
        let mut entries: Vec<(String, String)> = Vec::new();
        let mut i: usize = 0;
        while i < self.entries.len()
            invariant
                i <= self.entries@.len(),
                entries@.len() == i,
                forall|j: int| 0 <= j < i ==> #[trigger] entries@[j].0@ == self.entries@[j].0@,
                forall|j: int| 0 <= j < i ==> #[trigger] entries@[j].1@ == self.entries@[j].1@,
                forall|a: int, b: int| 0 <= a < b < self.entries@.len() ==> #[trigger] self.entries@[a].0@ != #[trigger] self.entries@[b].0@,
            decreases self.entries@.len() - i,
        {
            entries.push((self.entries[i].0.clone(), self.entries[i].1.clone()));
            i = i + 1;
        }
        let m = StrMap { entries };
        assert(m.key_seq() =~= self.key_seq());
        assert(m.value_seq() =~= self.value_seq());
        proof {
            assert forall|k: Seq<char>| #[trigger] m@.contains_key(k) <==> self@.contains_key(k) by {
                if m@.contains_key(k) {
                    let j = choose|j: int| 0 <= j < m.entries@.len() && #[trigger] m.entries@[j].0@ == k;
                    assert(self.entries@[j].0@ == k);
                }
                if self@.contains_key(k) {
                    let j = choose|j: int| 0 <= j < self.entries@.len() && #[trigger] self.entries@[j].0@ == k;
                    assert(m.entries@[j].0@ == k);
                }
            }
            assert forall|k: Seq<char>| #[trigger] m@.contains_key(k) implies m@[k] == self@[k] by {
                let j = choose|j: int| 0 <= j < m.entries@.len() && #[trigger] m.entries@[j].0@ == k;
                m.lemma_view_at(j);
                self.lemma_view_at(j);
            }
            assert(m@ =~= self@);
        }
        m
    }
}

impl Default for StrMap {
    fn default() -> (m: Self)
        ensures
            m@ == Map::<Seq<char>, Seq<char>>::empty(),
    {
        StrMap::new()
    }
}

} // verus!
