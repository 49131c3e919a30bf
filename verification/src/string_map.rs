//! A map from strings to values that remembers the order in which its keys came.
use vstd::prelude::*;
use vstd::string::*;

verus! {

/// Position of `key` among `entries`, or their number where it is missing.
pub open spec fn position_of<V>(entries: Seq<(Seq<char>, V)>, key: Seq<char>) -> int
    decreases entries.len(),
{
    if entries.len() == 0 {
        0
    } else if entries[0].0 == key {
        0
    } else {
        1 + position_of(entries.drop_first(), key)
    }
}

/// No key stands twice in `entries`.
pub open spec fn distinct_keys<V>(entries: Seq<(Seq<char>, V)>) -> bool {
    forall|i: int, j: int|
        0 <= i < j < entries.len() ==> (#[trigger] entries[i]).0 != (#[trigger] entries[j]).0
}

/// A key is found at its first place, or not at all.
pub proof fn lemma_position_of<V>(entries: Seq<(Seq<char>, V)>, key: Seq<char>)
    ensures
        0 <= position_of(entries, key) <= entries.len(),
        position_of(entries, key) < entries.len() ==> entries[position_of(entries, key)].0 == key,
        forall|i: int| 0 <= i < position_of(entries, key) ==> (#[trigger] entries[i]).0 != key,
    decreases entries.len(),
{
    if entries.len() > 0 && entries[0].0 != key {
        let rest = entries.drop_first();
        lemma_position_of(rest, key);
        assert forall|i: int| 0 <= i < position_of(entries, key) implies (#[trigger] entries[i]).0
            != key by {
            if i > 0 {
                assert(rest[i - 1] == entries[i]);
            }
        }
    }
}

/// A key that stands at `i`, and nowhere before `i`, is found at `i`.
pub proof fn lemma_position_of_at<V>(entries: Seq<(Seq<char>, V)>, key: Seq<char>, i: int)
    requires
        0 <= i < entries.len(),
        entries[i].0 == key,
        forall|j: int| 0 <= j < i ==> (#[trigger] entries[j]).0 != key,
    ensures
        position_of(entries, key) == i,
{
    lemma_position_of(entries, key);
}

/// The value that `entries` hold for `key`, if they hold one.
pub open spec fn lookup<V>(entries: Seq<(Seq<char>, V)>, key: Seq<char>) -> Option<V> {
    if position_of(entries, key) < entries.len() {
        Some(entries[position_of(entries, key)].1)
    } else {
        None
    }
}

/// A map from strings to `V`. A key that is inserted again keeps its place and
/// takes the new value, so a map that grows by `insert` alone holds each key once.
#[derive(Debug)]
pub struct StringMap<V> {
    entries: Vec<(String, V)>,
}

/// The entries of a map with each key taken by its characters.
pub open spec fn viewed<V>(entries: Seq<(String, V)>) -> Seq<(Seq<char>, V)> {
    Seq::new(entries.len(), |i: int| (entries[i].0@, entries[i].1))
}

impl<V> View for StringMap<V> {
    type V = Map<Seq<char>, V>;

    open spec fn view(&self) -> Map<Seq<char>, V> {
        Map::new(
            |key: Seq<char>| position_of(self.entries(), key) < self.entries().len(),
            |key: Seq<char>| self.entries()[position_of(self.entries(), key)].1,
        )
    }
}

impl<V> StringMap<V> {
    /// The entries in the order in which their keys first came.
    pub closed spec fn entries(&self) -> Seq<(Seq<char>, V)> {
        viewed(self.entries@)
    }

    /// An empty map.
    pub fn new() -> (m: Self)
        ensures
            m.entries() == Seq::<(Seq<char>, V)>::empty(),
            m@ == Map::<Seq<char>, V>::empty(),
    {
        let m = StringMap { entries: Vec::new() };
        m
    }

    /// Number of entries.
    pub fn len(&self) -> (n: usize)
        ensures
            n == self.entries().len(),
    {
        self.entries.len()
    }

    fn find(&self, key: &String) -> (i: usize)
        ensures
            i == position_of(self.entries(), key@),
            i <= self.entries@.len(),
    {
        let mut i: usize = 0;
        while i < self.entries.len()
            invariant
                i <= self.entries.len(),
                forall|j: int| 0 <= j < i ==> (#[trigger] self.entries()[j]).0 != key@,
            decreases self.entries.len() - i,
        {
            if self.entries[i].0 == *key {
                proof {
                    lemma_position_of_at(self.entries(), key@, i as int);
                }
                return i;
            }
            i += 1;
        }
        proof {
            lemma_position_of(self.entries(), key@);
        }
        i
    }

    /// True when the map holds `key`.
    pub fn contains_key(&self, key: &str) -> (b: bool)
        ensures
            b == self@.contains_key(key@),
    {
        let key = String::from_str(key);
        self.find(&key) < self.entries.len()
    }

    /// The value of `key`, if the map holds it.
    pub fn get(&self, key: &str) -> (r: Option<&V>)
        ensures
            self@.contains_key(key@) ==> r == Some(&self@[key@]),
            !self@.contains_key(key@) ==> r is None,
    {
        let key = String::from_str(key);
        let i = self.find(&key);
        if i < self.entries.len() {
            Some(&self.entries[i].1)
        } else {
            None
        }
    }

    /// The key at place `i`.
    pub fn key_at(&self, i: usize) -> (key: &String)
        requires
            i < self.entries().len(),
        ensures
            key@ == self.entries()[i as int].0,
    {
        &self.entries[i].0
    }

    /// The value at place `i`.
    pub fn value_at(&self, i: usize) -> (value: &V)
        requires
            i < self.entries().len(),
        ensures
            *value == self.entries()[i as int].1,
    {
        &self.entries[i].1
    }

    /// Binds `key` to `value`, in place of any value that `key` had.
    pub fn insert(&mut self, key: String, value: V)
        ensures
            final(self)@ == old(self)@.insert(key@, value),
            final(self).entries() == inserted(old(self).entries(), key@, value),
    {
        let i = self.find(&key);
        let ghost before = self.entries();
        let ghost k = key@;
        proof {
            lemma_position_of(before, k);
        }
        if i < self.entries.len() {
            self.entries.set(i, (key, value));
        } else {
            self.entries.push((key, value));
        }
        proof {
            assert(self.entries() =~= inserted(before, k, value));
            lemma_inserted(before, k, value);
        }
    }
}

/// `entries` with `key` bound to `value`: in its old place, or at the end.
pub open spec fn inserted<V>(entries: Seq<(Seq<char>, V)>, key: Seq<char>, value: V) -> Seq<
    (Seq<char>, V),
> {
    if position_of(entries, key) < entries.len() {
        entries.update(position_of(entries, key), (key, value))
    } else {
        entries.push((key, value))
    }
}

/// Inserting keeps distinct keys distinct, finds `key` where it was put, and
/// leaves every other key where it was.
pub proof fn lemma_inserted<V>(entries: Seq<(Seq<char>, V)>, key: Seq<char>, value: V)
    ensures
        distinct_keys(entries) ==> distinct_keys(inserted(entries, key, value)),
        position_of(inserted(entries, key, value), key) == position_of(entries, key),
        position_of(entries, key) < inserted(entries, key, value).len(),
        inserted(entries, key, value)[position_of(entries, key)] == (key, value),
        forall|other: Seq<char>|
            other != key ==> {
                let p = #[trigger] position_of(entries, other);
                let q = position_of(inserted(entries, key, value), other);
                if p < entries.len() {
                    q == p && inserted(entries, key, value)[q] == entries[p]
                } else {
                    q == inserted(entries, key, value).len()
                }
            },
{
    let after = inserted(entries, key, value);
    let i = position_of(entries, key);
    lemma_position_of(entries, key);
    lemma_position_of_at(after, key, i);
    assert forall|other: Seq<char>| other != key implies {
        let p = #[trigger] position_of(entries, other);
        let q = position_of(after, other);
        if p < entries.len() {
            q == p && after[q] == entries[p]
        } else {
            q == after.len()
        }
    } by {
        lemma_position_of(entries, other);
        lemma_position_of(after, other);
        let p = position_of(entries, other);
        let q = position_of(after, other);
        if p < entries.len() {
            lemma_position_of_at(after, other, p);
        } else if q < after.len() {
            assert(after[q].0 == other);
        }
    }
}

impl<V: Clone> Clone for StringMap<V> {
    fn clone(&self) -> (res: Self)
        ensures
            res.entries().len() == self.entries().len(),
            forall|i: int|
                0 <= i < self.entries().len() ==> (#[trigger] res.entries()[i]).0
                    == self.entries()[i].0 && cloned(self.entries()[i].1, res.entries()[i].1),
    {
        let mut entries: Vec<(String, V)> = Vec::new();
        let mut i: usize = 0;
        while i < self.entries.len()
            invariant
                i <= self.entries.len(),
                entries@.len() == i,
                forall|j: int|
                    0 <= j < i ==> (#[trigger] entries@[j]).0@ == self.entries@[j].0@ && cloned(
                        self.entries@[j].1,
                        entries@[j].1,
                    ),
            decreases self.entries.len() - i,
        {
            let key = self.entries[i].0.clone();
            let value = self.entries[i].1.clone();
            entries.push((key, value));
            i += 1;
        }
        StringMap { entries }
    }
}

} // verus!
