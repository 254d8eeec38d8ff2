//! Sets and maps keyed by strings, stored as vectors without repeated keys.

use vstd::prelude::*;

verus! {

/// The character sequences of a list of strings.
pub open spec fn string_views(items: Seq<String>) -> Seq<Seq<char>> {
    items.map_values(|s: String| s@)
}

/// The position of key `k` in `ks` (meaningful when `k` occurs exactly once).
pub open spec fn key_pos<K>(ks: Seq<K>, k: K) -> int {
    choose|i: int| 0 <= i < ks.len() && ks[i] == k
}

proof fn lemma_key_pos<K>(ks: Seq<K>, i: int)
    requires
        ks.no_duplicates(),
        0 <= i < ks.len(),
    ensures
        key_pos(ks, ks[i]) == i,
{
    let j = key_pos(ks, ks[i]);
    assert(0 <= j < ks.len() && ks[j] == ks[i]);
}

proof fn lemma_push_unique<K>(ks: Seq<K>, k: K)
    requires
        ks.no_duplicates(),
        !ks.contains(k),
    ensures
        ks.push(k).no_duplicates(),
        ks.push(k).to_set() == ks.to_set().insert(k),
{
    assert forall|i: int, j: int| 0 <= i < ks.len() + 1 && 0 <= j < ks.len() + 1 && i != j implies ks.push(
        k,
    )[i] != ks.push(k)[j] by {
        if i == ks.len() {
            assert(ks[j] != k);
        } else if j == ks.len() {
            assert(ks[i] != k);
        }
    }
    assert forall|x: K| ks.push(k).to_set().contains(x) <==> ks.to_set().insert(k).contains(x) by {
        if ks.push(k).contains(x) && x != k {
            let i = choose|i: int| 0 <= i < ks.len() + 1 && ks.push(k)[i] == x;
            assert(ks[i] == x);
        }
        if ks.contains(x) {
            let i = choose|i: int| 0 <= i < ks.len() && ks[i] == x;
            assert(ks.push(k)[i] == x);
        }
        if x == k {
            assert(ks.push(k)[ks.len() as int] == k);
        }
    }
    assert(ks.push(k).to_set() =~= ks.to_set().insert(k));
}

proof fn lemma_push_key_pos<K>(ks: Seq<K>, key: K)
    requires
        ks.no_duplicates(),
        !ks.contains(key),
    ensures
        ks.push(key).no_duplicates(),
        key_pos(ks.push(key), key) == ks.len(),
        forall|k: K| #![auto] ks.contains(k) ==> key_pos(ks.push(key), k) == key_pos(ks, k),
        forall|k: K| #![auto] ks.push(key).contains(k) <==> (ks.contains(k) || k == key),
{
    lemma_push_unique(ks, key);
    let ks2 = ks.push(key);
    lemma_key_pos(ks2, ks.len() as int);
    assert forall|k: K| #![auto] ks.contains(k) implies key_pos(ks2, k) == key_pos(ks, k) by {
        let p = key_pos(ks, k);
        assert(0 <= p < ks.len() && ks[p] == k);
        assert(ks2[p] == k);
        lemma_key_pos(ks2, p);
    }
    assert forall|k: K| #![auto] ks2.contains(k) <==> (ks.contains(k) || k == key) by {
        if ks2.contains(k) && k != key {
            let j = choose|j: int| 0 <= j < ks2.len() && ks2[j] == k;
            assert(ks[j] == k);
        }
        if ks.contains(k) {
            let j = choose|j: int| 0 <= j < ks.len() && ks[j] == k;
            assert(ks2[j] == k);
        }
        if k == key {
            assert(ks2[ks.len() as int] == k);
        }
    }
}

proof fn lemma_remove_unique<K>(ks: Seq<K>, i: int)
    requires
        ks.no_duplicates(),
        0 <= i < ks.len(),
    ensures
        ks.remove(i).no_duplicates(),
        ks.remove(i).to_set() == ks.to_set().remove(ks[i]),
        forall|j: int| 0 <= j < i ==> #[trigger] ks.remove(i)[j] == ks[j],
        forall|j: int| i <= j < ks.len() - 1 ==> #[trigger] ks.remove(i)[j] == ks[j + 1],
{
    let r = ks.remove(i);
    assert forall|a: int, b: int| 0 <= a < r.len() && 0 <= b < r.len() && a != b implies r[a] != r[b] by {
        let a2 = if a < i { a } else { a + 1 };
        let b2 = if b < i { b } else { b + 1 };
        assert(r[a] == ks[a2] && r[b] == ks[b2]);
    }
    assert forall|x: K| r.to_set().contains(x) <==> ks.to_set().remove(ks[i]).contains(x) by {
        if r.contains(x) {
            let a = choose|a: int| 0 <= a < r.len() && r[a] == x;
            let a2 = if a < i { a } else { a + 1 };
            assert(ks[a2] == x);
            assert(a2 != i);
        }
        if ks.contains(x) && x != ks[i] {
            let a = choose|a: int| 0 <= a < ks.len() && ks[a] == x;
            if a < i {
                assert(r[a] == x);
            } else {
                assert(a != i);
                assert(r[a - 1] == x);
            }
        }
    }
    assert(r.to_set() =~= ks.to_set().remove(ks[i]));
}

/// A set of strings, compared by their characters.
#[derive(Clone, Debug)]
pub struct StringSet {
    items: Vec<String>,
}

impl View for StringSet {
    type V = Set<Seq<char>>;

    closed spec fn view(&self) -> Set<Seq<char>> {
        string_views(self.items@).to_set()
    }
}

impl StringSet {
    /// No string is stored twice.
    pub closed spec fn wf(&self) -> bool {
        string_views(self.items@).no_duplicates()
    }

    /// The empty set.
    pub fn new() -> (s: Self)
        ensures
            s.wf(),
            s@ == Set::<Seq<char>>::empty(),
    {
        let s = StringSet { items: Vec::new() };
        assert(string_views(s.items@).to_set() =~= Set::<Seq<char>>::empty());
        s
    }

    fn find(&self, key: &str) -> (r: Option<usize>)
        ensures
            match r {
                Some(i) => i < self.items@.len() && self.items@[i as int]@ == key@,
                None => !string_views(self.items@).contains(key@),
            },
    {
        let owned = key.to_owned();
        let mut i: usize = 0;
        while i < self.items.len()
            invariant
                owned@ == key@,
                i <= self.items@.len(),
                forall|j: int| 0 <= j < i ==> self.items@[j]@ != key@,
            decreases self.items@.len() - i,
        {
            if self.items[i] == owned {
                return Some(i);
            }
            i = i + 1;
        }
        assert(!string_views(self.items@).contains(key@)) by {
            if string_views(self.items@).contains(key@) {
                let j = choose|j: int| 0 <= j < self.items@.len() && string_views(self.items@)[j] == key@;
                assert(self.items@[j]@ == key@);
            }
        }
        None
    }

    /// Whether `key` is in the set.
    pub fn contains(&self, key: &str) -> (b: bool)
        ensures
            b == self@.contains(key@),
    {
        match self.find(key) {
            Some(i) => {
                assert(string_views(self.items@)[i as int] == key@);
                true
            },
            None => false,
        }
    }

    /// Adds `key` (no effect if present).
    pub fn insert(&mut self, key: &str)
        requires
            old(self).wf(),
        ensures
            final(self).wf(),
            final(self)@ == old(self)@.insert(key@),
    {
        match self.find(key) {
            Some(i) => {
                assert(string_views(self.items@)[i as int] == key@);
                assert(self@.insert(key@) =~= self@);
            },
            None => {
                let ghost ks = string_views(self.items@);
                proof {
                    lemma_push_unique(ks, key@);
                }
                self.items.push(key.to_owned());
                assert(string_views(self.items@) =~= ks.push(key@));
            },
        }
    }

    /// Removes `key` (no effect if absent).
    pub fn remove(&mut self, key: &str)
        requires
            old(self).wf(),
        ensures
            final(self).wf(),
            final(self)@ == old(self)@.remove(key@),
    {
        match self.find(key) {
            Some(i) => {
                let ghost ks = string_views(self.items@);
                proof {
                    lemma_remove_unique(ks, i as int);
                }
                self.items.remove(i);
                assert(string_views(self.items@) =~= ks.remove(i as int));
            },
            None => {
                assert(self@.remove(key@) =~= self@);
            },
        }
    }

    /// Number of strings in the set.
    pub fn len(&self) -> (n: usize)
        requires
            self.wf(),
        ensures
            n == self@.len(),
    {
        proof {
            string_views(self.items@).unique_seq_to_set();
        }
        self.items.len()
    }

    /// Whether the set is empty.
    pub fn is_empty(&self) -> (b: bool)
        requires
            self.wf(),
        ensures
            b == (self@.len() == 0),
    {
        self.len() == 0
    }

    /// The strings of the set, each once.
    pub fn to_vec(&self) -> (v: Vec<String>)
        requires
            self.wf(),
        ensures
            string_views(v@).to_set() == self@,
            string_views(v@).no_duplicates(),
    {
        let v = self.items.clone();
        assert(string_views(v@) =~= string_views(self.items@)) by {
            assert forall|i: int| 0 <= i < v@.len() implies v@[i]@ == self.items@[i]@ by {
                assert(v@[i] == self.items@[i]);
            }
        }
        v
    }
}

/// A map from strings to values, compared by the keys' characters.
#[derive(Clone, Debug)]
pub struct StringMap<V> {
    keys: Vec<String>,
    vals: Vec<V>,
}

impl<V> View for StringMap<V> {
    type V = Map<Seq<char>, V>;

    closed spec fn view(&self) -> Map<Seq<char>, V> {
        Map::new(
            |k: Seq<char>| string_views(self.keys@).contains(k),
            |k: Seq<char>| self.vals@[key_pos(string_views(self.keys@), k)],
        )
    }
}

impl<V> StringMap<V> {
    /// Keys and values line up and no key is stored twice.
    pub closed spec fn wf(&self) -> bool {
        &&& self.keys@.len() == self.vals@.len()
        &&& string_views(self.keys@).no_duplicates()
    }

    /// The empty map.
    pub fn new() -> (m: Self)
        ensures
            m.wf(),
            m@ == Map::<Seq<char>, V>::empty(),
    {
        let m = StringMap { keys: Vec::new(), vals: Vec::new() };
        assert(m@ =~= Map::<Seq<char>, V>::empty());
        m
    }

    fn find(&self, key: &str) -> (r: Option<usize>)
        requires
            self.wf(),
        ensures
            match r {
                Some(i) => {
                    &&& i < self.keys@.len()
                    &&& self.keys@[i as int]@ == key@
                    &&& self@.contains_key(key@)
                    &&& self@[key@] == self.vals@[i as int]
                },
                None => !self@.contains_key(key@),
            },
    {
        let owned = key.to_owned();
        let mut i: usize = 0;
        while i < self.keys.len()
            invariant
                self.wf(),
                owned@ == key@,
                i <= self.keys@.len(),
                forall|j: int| 0 <= j < i ==> self.keys@[j]@ != key@,
            decreases self.keys@.len() - i,
        {
            if self.keys[i] == owned {
                proof {
                    assert(string_views(self.keys@)[i as int] == key@);
                    lemma_key_pos(string_views(self.keys@), i as int);
                }
                return Some(i);
            }
            i = i + 1;
        }
        assert(!string_views(self.keys@).contains(key@)) by {
            if string_views(self.keys@).contains(key@) {
                let j = choose|j: int| 0 <= j < self.keys@.len() && string_views(self.keys@)[j] == key@;
                assert(self.keys@[j]@ == key@);
            }
        }
        None
    }

    /// Whether `key` has a value.
    pub fn contains_key(&self, key: &str) -> (b: bool)
        requires
            self.wf(),
        ensures
            b == self@.contains_key(key@),
    {
        self.find(key).is_some()
    }

    /// The value of `key`, if any.
    pub fn get(&self, key: &str) -> (r: Option<&V>)
        requires
            self.wf(),
        ensures
            r == (if self@.contains_key(key@) { Some(&self@[key@]) } else { None }),
    {
        match self.find(key) {
            Some(i) => Some(&self.vals[i]),
            None => None,
        }
    }

    /// Mutable access to the value of `key`, if any.
    pub fn get_mut(&mut self, key: &str) -> (r: Option<&mut V>)
        requires
            old(self).wf(),
        ensures
            final(self).wf(),
            match r {
                Some(v) => {
                    &&& old(self)@.contains_key(key@)
                    &&& *v == old(self)@[key@]
                    &&& final(self)@ == old(self)@.insert(key@, *final(v))
                },
                None => {
                    &&& !old(self)@.contains_key(key@)
                    &&& final(self)@ == old(self)@
                },
            },
    {
        match self.find(key) {
            Some(i) => {
                let ghost ks = string_views(self.keys@);
                let ghost old_map = self@;
                proof {
                    lemma_key_pos(ks, i as int);
                }
                let r = &mut self.vals[i];
                proof {
                    assert forall|k: Seq<char>| #![auto] ks.contains(k) && k != key@ implies key_pos(ks, k) != i by {}
                }
                Some(r)
            },
            None => None,
        }
    }
}
impl<V> StringMap<V> {
    /// Sets the value of `key`, replacing any previous value.
    pub fn insert(&mut self, key: &str, value: V)
        requires
            old(self).wf(),
        ensures
            final(self).wf(),
            final(self)@ == old(self)@.insert(key@, value),
    {
        let ghost ks = string_views(self.keys@);
        match self.find(key) {
            Some(i) => {
                proof {
                    lemma_key_pos(ks, i as int);
                    assert forall|k: Seq<char>| #![auto] ks.contains(k) && k != key@ implies key_pos(ks, k) != i by {}
                }
                self.vals.set(i, value);
                assert(self@ =~= old(self)@.insert(key@, value));
            },
            None => {
                proof {
                    lemma_push_key_pos(ks, key@);
                }
                self.keys.push(key.to_owned());
                self.vals.push(value);
                let ghost ks2 = string_views(self.keys@);
                assert(ks2 =~= ks.push(key@));
                assert(self@ =~= old(self)@.insert(key@, value));
            },
        }
    }

    /// Removes `key` and its value (no effect if absent).
    pub fn remove(&mut self, key: &str)
        requires
            old(self).wf(),
        ensures
            final(self).wf(),
            final(self)@ == old(self)@.remove(key@),
    {
        let ghost ks = string_views(self.keys@);
        match self.find(key) {
            Some(i) => {
                proof {
                    lemma_remove_unique(ks, i as int);
                    lemma_key_pos(ks, i as int);
                }
                self.keys.remove(i);
                self.vals.remove(i);
                let ghost ks2 = string_views(self.keys@);
                assert(ks2 =~= ks.remove(i as int));
                proof {
                    assert forall|k: Seq<char>| #![auto] ks2.contains(k) implies (ks.contains(k) && k != key@
                        && self.vals@[key_pos(ks2, k)] == old(self).vals@[key_pos(ks, k)]) by {
                        let j = choose|j: int| 0 <= j < ks2.len() && ks2[j] == k;
                        lemma_key_pos(ks2, j);
                        let j2 = if j < i { j } else { j + 1 };
                        assert(ks[j2] == k);
                        lemma_key_pos(ks, j2);
                    }
                    assert forall|k: Seq<char>| ks.contains(k) && k != key@ implies #[trigger] ks2.contains(k) by {
                        let j = choose|j: int| 0 <= j < ks.len() && ks[j] == k;
                        assert(j != i);
                        if j < i {
                            assert(ks2[j] == k);
                        } else {
                            assert(ks2[j - 1] == k);
                        }
                    }
                }
                assert(self@ =~= old(self)@.remove(key@));
            },
            None => {
                assert(self@ =~= old(self)@.remove(key@));
            },
        }
    }

    /// Number of keys.
    pub fn len(&self) -> (n: usize)
        requires
            self.wf(),
        ensures
            n == self@.len(),
    {
        proof {
            let ks = string_views(self.keys@);
            ks.unique_seq_to_set();
            assert(self@.dom() =~= ks.to_set());
        }
        self.keys.len()
    }

    /// The value of `key`, inserting `default` first if `key` has none.
    pub fn get_or_insert(&mut self, key: &str, default: V) -> (r: &mut V)
        requires
            old(self).wf(),
        ensures
            final(self).wf(),
            *r == (if old(self)@.contains_key(key@) { old(self)@[key@] } else { default }),
            final(self)@ == old(self)@.insert(key@, *final(r)),
    {
        let i = match self.find(key) {
            Some(i) => i,
            None => {
                let ghost ks0 = string_views(self.keys@);
                proof {
                    lemma_push_key_pos(ks0, key@);
                }
                self.keys.push(key.to_owned());
                self.vals.push(default);
                assert(string_views(self.keys@) =~= ks0.push(key@));
                self.keys.len() - 1
            },
        };
        let ghost ks = string_views(self.keys@);
        let ghost mid = self@;
        proof {
            lemma_key_pos(ks, i as int);
            assert forall|k: Seq<char>| #![auto] ks.contains(k) && k != key@ implies key_pos(ks, k) != i by {}
        }
        &mut self.vals[i]
    }
}


/// A map from `u32` numbers to values, stored as two vectors without
/// repeated keys.
#[derive(Clone, Debug)]
pub struct IdMap<V> {
    keys: Vec<u32>,
    vals: Vec<V>,
}

impl<V> View for IdMap<V> {
    type V = Map<u32, V>;

    closed spec fn view(&self) -> Map<u32, V> {
        Map::new(|k: u32| self.keys@.contains(k), |k: u32| self.vals@[key_pos(self.keys@, k)])
    }
}

impl<V> IdMap<V> {
    /// Keys and values line up and no key is stored twice.
    pub closed spec fn wf(&self) -> bool {
        &&& self.keys@.len() == self.vals@.len()
        &&& self.keys@.no_duplicates()
    }

    /// The values in storage order.
    pub closed spec fn values_seq(&self) -> Seq<V> {
        self.vals@
    }

    /// The keys in storage order, lined up with [`Self::values_seq`].
    pub closed spec fn keys_seq(&self) -> Seq<u32> {
        self.keys@
    }

    /// The empty map.
    pub fn new() -> (m: Self)
        ensures
            m.wf(),
            m@ == Map::<u32, V>::empty(),
    {
        let m = IdMap { keys: Vec::new(), vals: Vec::new() };
        assert(m@ =~= Map::<u32, V>::empty());
        m
    }

    fn find(&self, key: u32) -> (r: Option<usize>)
        requires
            self.wf(),
        ensures
            match r {
                Some(i) => {
                    &&& i < self.keys@.len()
                    &&& self.keys@[i as int] == key
                    &&& self@.contains_key(key)
                    &&& self@[key] == self.vals@[i as int]
                },
                None => !self@.contains_key(key),
            },
    {
        let mut i: usize = 0;
        while i < self.keys.len()
            invariant
                self.wf(),
                i <= self.keys@.len(),
                forall|j: int| 0 <= j < i ==> self.keys@[j] != key,
            decreases self.keys@.len() - i,
        {
            if self.keys[i] == key {
                proof {
                    lemma_key_pos(self.keys@, i as int);
                }
                return Some(i);
            }
            i = i + 1;
        }
        None
    }

    /// The value of `key`, if any.
    pub fn get(&self, key: u32) -> (r: Option<&V>)
        requires
            self.wf(),
        ensures
            r == (if self@.contains_key(key) { Some(&self@[key]) } else { None }),
    {
        match self.find(key) {
            Some(i) => Some(&self.vals[i]),
            None => None,
        }
    }

    /// Mutable access to the value of `key`, if any.
    pub fn get_mut(&mut self, key: u32) -> (r: Option<&mut V>)
        requires
            old(self).wf(),
        ensures
            final(self).wf(),
            match r {
                Some(v) => {
                    &&& old(self)@.contains_key(key)
                    &&& *v == old(self)@[key]
                    &&& final(self)@ == old(self)@.insert(key, *final(v))
                },
                None => {
                    &&& !old(self)@.contains_key(key)
                    &&& final(self)@ == old(self)@
                },
            },
    {
        match self.find(key) {
            Some(i) => {
                let ghost ks = self.keys@;
                proof {
                    lemma_key_pos(ks, i as int);
                }
                let r = &mut self.vals[i];
                proof {
                    assert forall|k: u32| #![auto] ks.contains(k) && k != key implies key_pos(ks, k) != i by {}
                }
                Some(r)
            },
            None => None,
        }
    }

    /// Sets the value of `key`, replacing any previous value.
    pub fn insert(&mut self, key: u32, value: V)
        requires
            old(self).wf(),
        ensures
            final(self).wf(),
            final(self)@ == old(self)@.insert(key, value),
    {
        let ghost ks = self.keys@;
        match self.find(key) {
            Some(i) => {
                proof {
                    lemma_key_pos(ks, i as int);
                    assert forall|k: u32| #![auto] ks.contains(k) && k != key implies key_pos(ks, k) != i by {}
                }
                self.vals.set(i, value);
                assert(self@ =~= old(self)@.insert(key, value));
            },
            None => {
                proof {
                    lemma_push_key_pos(ks, key);
                }
                self.keys.push(key);
                self.vals.push(value);
                assert(self.keys@ =~= ks.push(key));
                assert(self@ =~= old(self)@.insert(key, value));
            },
        }
    }

    /// Removes `key` and its value (no effect if absent).
    pub fn remove(&mut self, key: u32)
        requires
            old(self).wf(),
        ensures
            final(self).wf(),
            final(self)@ == old(self)@.remove(key),
    {
        let ghost ks = self.keys@;
        match self.find(key) {
            Some(i) => {
                proof {
                    lemma_remove_unique(ks, i as int);
                    lemma_key_pos(ks, i as int);
                }
                self.keys.remove(i);
                self.vals.remove(i);
                let ghost ks2 = self.keys@;
                assert(ks2 =~= ks.remove(i as int));
                proof {
                    assert forall|k: u32| #![auto] ks2.contains(k) implies (ks.contains(k) && k != key
                        && self.vals@[key_pos(ks2, k)] == old(self).vals@[key_pos(ks, k)]) by {
                        let j = choose|j: int| 0 <= j < ks2.len() && ks2[j] == k;
                        lemma_key_pos(ks2, j);
                        let j2 = if j < i { j } else { j + 1 };
                        assert(ks[j2] == k);
                        lemma_key_pos(ks, j2);
                    }
                    assert forall|k: u32| ks.contains(k) && k != key implies #[trigger] ks2.contains(k) by {
                        let j = choose|j: int| 0 <= j < ks.len() && ks[j] == k;
                        assert(j != i);
                        if j < i {
                            assert(ks2[j] == k);
                        } else {
                            assert(ks2[j - 1] == k);
                        }
                    }
                }
                assert(self@ =~= old(self)@.remove(key));
            },
            None => {
                assert(self@ =~= old(self)@.remove(key));
            },
        }
    }

    /// The stored values, one per key, in an unspecified order.
    pub fn values(&self) -> (r: &Vec<V>)
        requires
            self.wf(),
        ensures
            r@ == self.values_seq(),
            r@.len() == self@.len(),
            forall|k: u32| #[trigger] self@.contains_key(k) ==> exists|i: int|
                0 <= i < self.values_seq().len() && self.values_seq()[i] == self@[k],
            self.keys_seq().len() == r@.len(),
            self.keys_seq().no_duplicates(),
            forall|i: int|
                0 <= i < r@.len() ==> #[trigger] self@.contains_key(self.keys_seq()[i]) && self@[self.keys_seq()[i]]
                    == r@[i],
    {
        proof {
            let ks = self.keys@;
            ks.unique_seq_to_set();
            assert(self@.dom() =~= ks.to_set());
            assert forall|k: u32| #[trigger] self@.contains_key(k) implies exists|i: int|
                0 <= i < self.vals@.len() && self.vals@[i] == self@[k] by {
                assert(ks.contains(k));
                let p = key_pos(ks, k);
                assert(0 <= p < ks.len() && ks[p] == k);
                assert(self@[k] == self.vals@[p]);
                assert(0 <= p < self.vals@.len() && self.vals@[p] == self@[k]);
            }
            assert forall|i: int| 0 <= i < self.vals@.len() implies #[trigger] self@.contains_key(ks[i])
                && self@[ks[i]] == self.vals@[i] by {
                lemma_key_pos(ks, i);
                assert(ks.contains(ks[i]));
            }
        }
        &self.vals
    }
}

} // verus!
