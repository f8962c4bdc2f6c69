//! A small map keyed by strings: entries are kept in insertion order with
//! each key stored once, and the map is viewed as a mathematical map from
//! the keys' characters to the values.

use vstd::prelude::*;

verus! {

/// String-keyed map.
#[derive(Clone, Debug)]
pub struct StrMap<V> {
    entries: Vec<(String, V)>,
}

impl<V> StrMap<V> {
    /// Each key is stored at most once.
    pub closed spec fn wf(&self) -> bool {
        forall|i: int, j: int|
            0 <= i < self.entries@.len() && 0 <= j < self.entries@.len() && i != j
                ==> #[trigger] self.entries@[i].0@ != #[trigger] self.entries@[j].0@
    }

    /// The entries as a map.
    pub closed spec fn map(&self) -> Map<Seq<char>, V> {
        Map::new(
            |k: Seq<char>| exists|i: int| 0 <= i < self.entries@.len() && self.entries@[i].0@ == k,
            |k: Seq<char>|
                self.entries@[choose|i: int| 0 <= i < self.entries@.len() && self.entries@[i].0@ == k].1,
        )
    }

    /// An empty map.
    pub fn new() -> (m: StrMap<V>)
        ensures
            m.wf(),
            m.map() == Map::<Seq<char>, V>::empty(),
    {
        let m = StrMap { entries: Vec::new() };
        proof {
            assert(m.map() =~= Map::<Seq<char>, V>::empty());
        }
        m
    }

    fn find(&self, key: &str) -> (r: Option<usize>)
        requires
            self.wf(),
        ensures
            r matches Some(i) ==> i < self.entries@.len() && self.entries@[i as int].0@ == key@
                && self.map().contains_key(key@) && self.map()[key@] == self.entries@[i as int].1,
            r is None ==> !self.map().contains_key(key@),
    {
        let key_string = key.to_owned();
        let mut i: usize = 0;
        while i < self.entries.len()
            invariant
                i <= self.entries@.len(),
                self.wf(),
                key_string@ == key@,
                forall|j: int| 0 <= j < i ==> self.entries@[j].0@ != key@,
            decreases self.entries@.len() - i,
        {
            if self.entries[i].0 == key_string {
                proof {
                    let w = choose|j: int| 0 <= j < self.entries@.len() && self.entries@[j].0@ == key@;
                    if w != i as int {
                        assert(self.entries@[w].0@ != self.entries@[i as int].0@);
                    }
                }
                return Some(i);
            }
            i += 1;
        }
        None
    }

    /// Whether `key` is present.
    pub fn contains_key(&self, key: &str) -> (b: bool)
        requires
            self.wf(),
        ensures
            b == self.map().contains_key(key@),
    {
        self.find(key).is_some()
    }

    /// The value stored under `key`.
    pub fn get(&self, key: &str) -> (r: Option<&V>)
        requires
            self.wf(),
        ensures
            r matches Some(v) ==> self.map().contains_key(key@) && *v == self.map()[key@],
            r is None ==> !self.map().contains_key(key@),
    {
        match self.find(key) {
            Some(i) => Some(&self.entries[i].1),
            None => None,
        }
    }

    /// Number of keys.
    pub fn len(&self) -> (n: usize)
        requires
            self.wf(),
        ensures
            n == self.map().len(),
    {
        proof {
            let keys = Seq::new(self.entries@.len(), |i: int| self.entries@[i].0@);
            assert(keys.no_duplicates()) by {
                assert forall|i: int, j: int|
                    0 <= i < keys.len() && 0 <= j < keys.len() && i != j implies keys[i] != keys[j] by {
                    assert(self.entries@[i].0@ != self.entries@[j].0@);
                }
            }
            keys.unique_seq_to_set();
            assert forall|k: Seq<char>| #[trigger] keys.to_set().contains(k) <==> self.map().dom().contains(k) by {
                if keys.to_set().contains(k) {
                    let i = choose|i: int| 0 <= i < keys.len() && keys[i] == k;
                    assert(self.entries@[i].0@ == k);
                }
                if self.map().dom().contains(k) {
                    let i = choose|i: int| 0 <= i < self.entries@.len() && self.entries@[i].0@ == k;
                    assert(keys[i] == k);
                }
            }
            assert(keys.to_set() =~= self.map().dom());
        }
        self.entries.len()
    }

    /// The keys, each once, in insertion order.
    pub fn keys(&self) -> (v: Vec<String>)
        requires
            self.wf(),
        ensures
            forall|i: int| 0 <= i < v@.len() ==> self.map().contains_key(#[trigger] v@[i]@),
            forall|k: Seq<char>| #[trigger] self.map().contains_key(k) ==> exists|i: int| 0 <= i < v@.len() && v@[i]@ == k,
            forall|i: int, j: int| 0 <= i < j < v@.len() ==> #[trigger] v@[i]@ != #[trigger] v@[j]@,
    {
        let mut v: Vec<String> = Vec::new();
        let mut i: usize = 0;
        while i < self.entries.len()
            invariant
                self.wf(),
                i <= self.entries@.len(),
                v@.len() == i,
                forall|j: int| 0 <= j < i ==> (#[trigger] v@[j])@ == self.entries@[j].0@,
            decreases self.entries@.len() - i,
        {
            let k = self.entries[i].0.as_str().to_owned();
            v.push(k);
            i += 1;
        }
        proof {
            assert forall|j: int| 0 <= j < v@.len() implies self.map().contains_key(#[trigger] v@[j]@) by {
                assert(self.entries@[j].0@ == v@[j]@);
            }
            assert forall|k: Seq<char>| #[trigger] self.map().contains_key(k) implies exists|j: int| 0 <= j < v@.len() && v@[j]@ == k by {
                let j = choose|j: int| 0 <= j < self.entries@.len() && self.entries@[j].0@ == k;
                assert(v@[j]@ == k);
            }
            assert forall|a: int, b: int| 0 <= a < b < v@.len() implies #[trigger] v@[a]@ != #[trigger] v@[b]@ by {
                assert(self.entries@[a].0@ != self.entries@[b].0@);
            }
        }
        v
    }

    /// Store `value` under `key`, replacing any previous value.
    pub fn insert(&mut self, key: String, value: V)
        requires
            old(self).wf(),
        ensures
            final(self).wf(),
            final(self).map() == old(self).map().insert(key@, value),
    {
        let ghost k = key@;
        let ghost val = value;
        let found = self.find(key.as_str());
        match found {
            Some(i) => {
                self.entries.set(i, (key, value));
                proof {
                    assert forall|kk: Seq<char>| #[trigger] self.map().contains_key(kk) <==> old(
                        self,
                    ).map().insert(k, val).contains_key(kk) by {
                        if kk == k {
                            assert(self.entries@[i as int].0@ == kk);
                        }
                        if old(self).map().contains_key(kk) && kk != k {
                            let w = choose|j: int|
                                0 <= j < old(self).entries@.len() && old(self).entries@[j].0@ == kk;
                            assert(self.entries@[w].0@ == kk);
                        }
                        if self.map().contains_key(kk) {
                            let w = choose|j: int| 0 <= j < self.entries@.len() && self.entries@[j].0@ == kk;
                            if w != i {
                                assert(old(self).entries@[w].0@ == kk);
                            }
                        }
                    }
                    assert forall|kk: Seq<char>| #[trigger] self.map().contains_key(kk) implies self.map()[kk]
                        == old(self).map().insert(k, val)[kk] by {
                        let w = choose|j: int| 0 <= j < self.entries@.len() && self.entries@[j].0@ == kk;
                        if kk == k {
                            assert(w == i as int);
                        } else {
                            let w2 = choose|j: int|
                                0 <= j < old(self).entries@.len() && old(self).entries@[j].0@ == kk;
                            assert(w != i as int);
                            assert(old(self).entries@[w].0@ == kk);
                            assert(w == w2);
                        }
                    }
                    assert(self.map() =~= old(self).map().insert(k, val));
                }
            },
            None => {
                self.entries.push((key, value));
                proof {
                    let n = old(self).entries@.len() as int;
                    assert forall|kk: Seq<char>| #[trigger] self.map().contains_key(kk) <==> old(
                        self,
                    ).map().insert(k, val).contains_key(kk) by {
                        if old(self).map().contains_key(kk) && kk != k {
                            let w = choose|j: int|
                                0 <= j < old(self).entries@.len() && old(self).entries@[j].0@ == kk;
                            assert(self.entries@[w].0@ == kk);
                        }
                        if kk == k {
                            assert(self.entries@[n].0@ == kk);
                        }
                        if self.map().contains_key(kk) {
                            let w = choose|j: int| 0 <= j < self.entries@.len() && self.entries@[j].0@ == kk;
                            if w != n {
                                assert(old(self).entries@[w].0@ == kk);
                            }
                        }
                    }
                    assert forall|kk: Seq<char>| #[trigger] self.map().contains_key(kk) implies self.map()[kk]
                        == old(self).map().insert(k, val)[kk] by {
                        let w = choose|j: int| 0 <= j < self.entries@.len() && self.entries@[j].0@ == kk;
                        if kk == k {
                            assert(self.entries@[n].0@ == kk);
                            if w != n {
                                assert(old(self).entries@[w].0@ == kk);
                                assert(old(self).map().contains_key(kk));
                            }
                        } else {
                            let w2 = choose|j: int|
                                0 <= j < old(self).entries@.len() && old(self).entries@[j].0@ == kk;
                            assert(w != n);
                            assert(old(self).entries@[w].0@ == kk);
                            assert(w == w2);
                        }
                    }
                    assert(self.map() =~= old(self).map().insert(k, val));
                }
            },
        }
    }
}


/// The character view of a string-to-string map.
pub open spec fn text_map(m: Map<Seq<char>, String>) -> Map<Seq<char>, Seq<char>> {
    m.map_values(|s: String| s@)
}

impl StrMap<String> {
    /// A copy of this map.
    pub fn duplicate(&self) -> (m: StrMap<String>)
        requires
            self.wf(),
        ensures
            m.wf(),
            m.map() == self.map(),
    {
        let mut entries: Vec<(String, String)> = Vec::new();
        let mut i: usize = 0;
        while i < self.entries.len()
            invariant
                i <= self.entries@.len(),
                entries@ == self.entries@.subrange(0, i as int),
            decreases self.entries@.len() - i,
        {
            let k = self.entries[i].0.clone();
            let v = self.entries[i].1.clone();
            entries.push((k, v));
            i += 1;
            proof {
                assert(entries@ =~= self.entries@.subrange(0, i as int));
            }
        }
        proof {
            assert(entries@ =~= self.entries@);
        }
        StrMap { entries }
    }
}

} // verus!
