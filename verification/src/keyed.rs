use vstd::prelude::*;

use crate::text::str_equal;

verus! {

/// Whether `i` is the first position of `key` among the entries.
pub open spec fn is_first_key<V>(e: Seq<(String, V)>, key: Seq<char>, i: int) -> bool {
    &&& 0 <= i < e.len()
    &&& e[i].0@ == key
    &&& forall|j: int| 0 <= j < i ==> (#[trigger] e[j]).0@ != key
}

/// The first position of `key` among the entries, or -1 if it is absent.
pub open spec fn key_index<V>(e: Seq<(String, V)>, key: Seq<char>) -> int {
    if exists|i: int| is_first_key(e, key, i) {
        choose|i: int| is_first_key(e, key, i)
    } else {
        -1
    }
}

/// The value stored under `key`, if any.
pub open spec fn lookup<V>(e: Seq<(String, V)>, key: Seq<char>) -> Option<V> {
    if key_index(e, key) >= 0 {
        Some(e[key_index(e, key)].1)
    } else {
        None
    }
}

/// The entries after storing `value` under `key`: an existing entry keeps its
/// place and takes the new value, a new key goes at the end.
pub open spec fn insert_entry<V>(e: Seq<(String, V)>, key: String, value: V) -> Seq<(String, V)> {
    if key_index(e, key@) >= 0 {
        e.update(key_index(e, key@), (key, value))
    } else {
        e.push((key, value))
    }
}

/// No key occurs twice.
pub open spec fn keys_unique<V>(e: Seq<(String, V)>) -> bool {
    forall|i: int, j: int|
        0 <= i < e.len() && 0 <= j < e.len() && i != j ==> (#[trigger] e[i]).0@ != (#[trigger] e[j]).0@
}

pub proof fn lemma_first_key_exists<V>(e: Seq<(String, V)>, key: Seq<char>, i: int)
    requires
        0 <= i < e.len(),
        e[i].0@ == key,
    ensures
        exists|k: int| is_first_key(e, key, k),
        0 <= key_index(e, key) <= i,
        is_first_key(e, key, key_index(e, key)),
    decreases i,
{
    if exists|j: int| 0 <= j < i && (#[trigger] e[j]).0@ == key {
        let j = choose|j: int| 0 <= j < i && (#[trigger] e[j]).0@ == key;
        lemma_first_key_exists(e, key, j);
    } else {
        assert(is_first_key(e, key, i));
    }
}

/// The key index is the position of the key, and -1 exactly when absent.
pub proof fn lemma_key_index<V>(e: Seq<(String, V)>, key: Seq<char>)
    ensures
        key_index(e, key) == -1 <==> forall|j: int| 0 <= j < e.len() ==> (#[trigger] e[j]).0@ != key,
        key_index(e, key) != -1 ==> is_first_key(e, key, key_index(e, key)),
{
    if exists|j: int| 0 <= j < e.len() && (#[trigger] e[j]).0@ == key {
        let j = choose|j: int| 0 <= j < e.len() && (#[trigger] e[j]).0@ == key;
        lemma_first_key_exists(e, key, j);
    }
}

/// The entries after storing each of `e` in turn.
pub open spec fn stored_entries<V>(e: Seq<(String, V)>) -> Seq<(String, V)>
    decreases e.len(),
{
    if e.len() == 0 {
        Seq::empty()
    } else {
        insert_entry(stored_entries(e.drop_last()), e.last().0, e.last().1)
    }
}

/// A string-keyed map that keeps its entries in insertion order; no key
/// occurs twice.
#[derive(Debug, PartialEq, Eq)]
pub struct KeyedMap<V> {
    entries: Vec<(String, V)>,
}

impl<V: Clone> Clone for KeyedMap<V> {
    /// A copy with the same keys in the same order, each value cloned.
    fn clone(&self) -> (r: Self)
        ensures
            r.spec_entries().len() == self.spec_entries().len(),
            forall|i: int|
                0 <= i < r.spec_entries().len() ==> (#[trigger] r.spec_entries()[i]).0 == self.spec_entries()[i].0,
    {
        proof {
            use_type_invariant(self);
        }
        let mut entries: Vec<(String, V)> = Vec::new();
        let mut i: usize = 0;
        while i < self.entries.len()
            invariant
                i <= self.entries@.len(),
                keys_unique(self.entries@),
                entries@.len() == i,
                forall|j: int| 0 <= j < i ==> (#[trigger] entries@[j]).0 == self.entries@[j].0,
            decreases self.entries@.len() - i,
        {
            let key = self.entries[i].0.clone();
            let value = self.entries[i].1.clone();
            entries.push((key, value));
            i = i + 1;
        }
        assert(keys_unique(entries@)) by {
            assert forall|a: int, b: int|
                0 <= a < entries@.len() && 0 <= b < entries@.len() && a != b implies (#[trigger] entries@[a]).0@
                != (#[trigger] entries@[b]).0@ by {
                assert(self.entries@[a].0@ != self.entries@[b].0@);
            }
        }
        KeyedMap { entries }
    }
}

impl<V> KeyedMap<V> {
    #[verifier::type_invariant]
    spec fn keys_once(&self) -> bool {
        keys_unique(self.entries@)
    }

    /// The entries, in insertion order.
    pub closed spec fn spec_entries(&self) -> Seq<(String, V)> {
        self.entries@
    }

    pub fn new() -> (r: Self)
        ensures
            r.spec_entries() == Seq::<(String, V)>::empty(),
    {
        KeyedMap { entries: Vec::new() }
    }

    /// A map holding the given entries, each stored in turn: an entry under a
    /// key already stored replaces that entry's value in place. Entries with
    /// distinct keys are kept as given.
    pub fn from_entries(entries: Vec<(String, V)>) -> (r: Self)
        ensures
            r.spec_entries() == stored_entries(entries@),
            keys_unique(entries@) ==> r.spec_entries() == entries@,
    {
        let ghost e = entries@;
        let n = entries.len();
        let mut map = KeyedMap::new();
        let mut rest = entries;
        let mut i: usize = 0;
        while rest.len() > 0
            invariant
                e.len() == n,
                i <= e.len(),
                rest@ == e.skip(i as int),
                map.spec_entries() == stored_entries(e.take(i as int)),
                keys_unique(e) ==> map.spec_entries() == e.take(i as int),
            decreases rest@.len(),
        {
            assert(e.skip(i as int).len() > 0);
            let (key, value) = rest.remove(0);
            assert((key, value) == e[i as int]);
            proof {
                assert(e.take(i as int + 1).drop_last() =~= e.take(i as int));
                assert(e.take(i as int + 1).last() == e[i as int]);
                assert(rest@ =~= e.skip(i as int + 1));
                if keys_unique(e) {
                    lemma_key_index(e.take(i as int), key@);
                    assert forall|j: int| 0 <= j < e.take(i as int).len() implies (#[trigger] e.take(i as int)[j]).0@
                        != key@ by {
                        assert(e.take(i as int)[j] == e[j]);
                    }
                    assert(e.take(i as int).push((key, value)) =~= e.take(i as int + 1));
                }
            }
            map.insert(key, value);
            i = i + 1;
        }
        assert(e.take(e.len() as int) =~= e);
        map
    }

    pub fn len(&self) -> (r: usize)
        ensures
            r == self.spec_entries().len(),
    {
        self.entries.len()
    }

    pub fn is_empty(&self) -> (r: bool)
        ensures
            r == (self.spec_entries().len() == 0),
    {
        self.entries.len() == 0
    }

    /// All entries in order; no key occurs twice.
    pub fn entries(&self) -> (r: &[(String, V)])
        ensures
            r@ == self.spec_entries(),
            keys_unique(r@),
    {
        proof {
            use_type_invariant(self);
        }
        self.entries.as_slice()
    }

    /// The position of `key`, or `None` when it is absent.
    pub fn position(&self, key: &str) -> (r: Option<usize>)
        ensures
            match r {
                Some(i) => i as int == key_index(self.spec_entries(), key@) && i < self.spec_entries().len(),
                None => key_index(self.spec_entries(), key@) == -1,
            },
    {
        proof {
            lemma_key_index(self.spec_entries(), key@);
        }
        let mut i: usize = 0;
        while i < self.entries.len()
            invariant
                i <= self.entries@.len(),
                forall|j: int| 0 <= j < i ==> (#[trigger] self.entries@[j]).0@ != key@,
            decreases self.entries@.len() - i,
        {
            if str_equal(self.entries[i].0.as_str(), key) {
                assert(is_first_key(self.entries@, key@, i as int));
                return Some(i);
            }
            i = i + 1;
        }
        None
    }

    pub fn get(&self, key: &str) -> (r: Option<&V>)
        ensures
            match r {
                Some(v) => lookup(self.spec_entries(), key@) == Some(*v),
                None => lookup(self.spec_entries(), key@) is None,
            },
    {
        match self.position(key) {
            Some(i) => Some(&self.entries[i].1),
            None => None,
        }
    }

    pub fn contains_key(&self, key: &str) -> (r: bool)
        ensures
            r == (lookup(self.spec_entries(), key@) is Some),
    {
        self.position(key).is_some()
    }

    /// Stores `value` under `key`, replacing the value already stored there.
    pub fn insert(&mut self, key: String, value: V)
        ensures
            final(self).spec_entries() == insert_entry(old(self).spec_entries(), key, value),
    {
        proof {
            use_type_invariant(&*self);
            lemma_key_index(self.spec_entries(), key@);
        }
        let position = self.position(key.as_str());
        let mut entries: Vec<(String, V)> = Vec::new();
        std::mem::swap(&mut entries, &mut self.entries);
        let ghost before = entries@;
        match position {
            Some(i) => {
                entries.set(i, (key, value));
                proof {
                    assert forall|a: int, b: int|
                        0 <= a < entries@.len() && 0 <= b < entries@.len() && a != b implies (#[trigger] entries@[a]).0@
                        != (#[trigger] entries@[b]).0@ by {
                        if a != i as int && b != i as int {
                            assert(entries@[a] == before[a] && entries@[b] == before[b]);
                        } else if a == i as int {
                            assert(entries@[b] == before[b]);
                            assert(before[a].0@ != before[b].0@);
                        } else {
                            assert(entries@[a] == before[a]);
                            assert(before[a].0@ != before[b].0@);
                        }
                    }
                }
            },
            None => {
                entries.push((key, value));
                proof {
                    assert forall|a: int, b: int|
                        0 <= a < entries@.len() && 0 <= b < entries@.len() && a != b implies (#[trigger] entries@[a]).0@
                        != (#[trigger] entries@[b]).0@ by {
                        if a < before.len() && b < before.len() {
                            assert(entries@[a] == before[a] && entries@[b] == before[b]);
                        } else if a < before.len() {
                            assert(entries@[a] == before[a]);
                        } else {
                            assert(entries@[b] == before[b]);
                        }
                    }
                }
            },
        }
        self.entries = entries;
    }
}

} // verus!

verus! {

/// Where `key` is first found among entries that hold it first at `i`.
proof fn lemma_key_index_at<V>(e: Seq<(String, V)>, key: Seq<char>, i: int)
    requires
        is_first_key(e, key, i),
    ensures
        key_index(e, key) == i,
{
    lemma_key_index(e, key);
    let k = key_index(e, key);
    if k != i {
        if k < i {
            assert(e[k].0@ != key);
        } else {
            assert(e[i].0@ == key);
        }
    }
}

/// A read after a write gives back what was written.
pub proof fn lemma_lookup_after_insert<V>(e: Seq<(String, V)>, key: String, value: V)
    ensures
        lookup(insert_entry(e, key, value), key@) == Some(value),
{
    lemma_key_index(e, key@);
    let n = insert_entry(e, key, value);
    let k = key_index(e, key@);
    if k >= 0 {
        assert(is_first_key(n, key@, k));
        lemma_key_index_at(n, key@, k);
    } else {
        assert(is_first_key(n, key@, e.len() as int));
        lemma_key_index_at(n, key@, e.len() as int);
    }
}

/// A write leaves every other key as it was.
pub proof fn lemma_lookup_other_after_insert<V>(e: Seq<(String, V)>, key: String, value: V, other: Seq<char>)
    requires
        other != key@,
    ensures
        lookup(insert_entry(e, key, value), other) == lookup(e, other),
{
    lemma_key_index(e, key@);
    lemma_key_index(e, other);
    let n = insert_entry(e, key, value);
    lemma_key_index(n, other);
    let j = key_index(e, other);
    if j >= 0 {
        assert(is_first_key(n, other, j));
        lemma_key_index_at(n, other, j);
    } else {
        assert forall|i: int| 0 <= i < n.len() implies (#[trigger] n[i]).0@ != other by {
            if i < e.len() {
                assert(e[i].0@ != other);
            }
        }
    }
}

} // verus!
