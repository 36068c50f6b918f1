//! A map from texts to values, kept as a list in the order of first insertion.
use vstd::prelude::*;

use crate::text;

verus! {

/// The map. No key occurs twice.
#[derive(Debug, PartialEq, Eq)]
pub struct TextMap<V> {
    entries: Vec<(String, V)>,
}

/// Whether the entry at `i` has the key `k`.
pub open spec fn key_at<V>(entries: Seq<(String, V)>, i: int, k: Seq<char>) -> bool {
    0 <= i < entries.len() && entries[i].0@ == k
}

/// Whether some entry has the key `k`.
pub open spec fn has_key<V>(entries: Seq<(String, V)>, k: Seq<char>) -> bool {
    exists|i: int| key_at(entries, i, k)
}

/// Whether no key occurs twice.
pub open spec fn distinct_keys<V>(entries: Seq<(String, V)>) -> bool {
    forall|i: int, j: int|
        0 <= i < entries.len() && 0 <= j < entries.len() && #[trigger] entries[i].0@
            == #[trigger] entries[j].0@ ==> i == j
}

/// The map that a list of entries stands for.
pub open spec fn map_of<V>(entries: Seq<(String, V)>) -> Map<Seq<char>, V> {
    Map::new(
        |k: Seq<char>| has_key(entries, k),
        |k: Seq<char>| entries[choose|i: int| key_at(entries, i, k)].1,
    )
}

/// The map holds each entry.
pub proof fn lemma_map_at<V>(entries: Seq<(String, V)>, i: int)
    requires
        distinct_keys(entries),
        0 <= i < entries.len(),
    ensures
        map_of(entries).dom().contains(entries[i].0@),
        map_of(entries)[entries[i].0@] == entries[i].1,
{
    let k = entries[i].0@;
    assert(key_at(entries, i, k));
    let j = choose|j: int| key_at(entries, j, k);
    assert(key_at(entries, j, k));
}

impl<V> TextMap<V> {
    #[verifier::type_invariant]
    spec fn distinct(self) -> bool {
        distinct_keys(self.entries@)
    }

    /// The entries, in the order in which their keys were first inserted.
    pub closed spec fn entries(self) -> Seq<(String, V)> {
        self.entries@
    }

    pub fn new() -> (r: TextMap<V>)
        ensures
            r@ == Map::<Seq<char>, V>::empty(),
            r.entries().len() == 0,
    {
        let r = TextMap { entries: Vec::new() };
        assert(r@ =~= Map::<Seq<char>, V>::empty());
        r
    }

    pub fn len(&self) -> (r: usize)
        ensures
            r == self.entries().len(),
            distinct_keys(self.entries()),
            self@ == map_of(self.entries()),
    {
        proof {
            use_type_invariant(self);
        }
        self.entries.len()
    }

    pub fn is_empty(&self) -> (r: bool)
        ensures
            r == (self@ == Map::<Seq<char>, V>::empty()),
    {
        proof {
            use_type_invariant(self);
            if self.entries@.len() > 0 {
                lemma_map_at(self.entries@, 0);
                assert(self@.dom().contains(self.entries@[0].0@));
            } else {
                assert(self@ =~= Map::<Seq<char>, V>::empty());
            }
        }
        self.entries.len() == 0
    }

    /// The entry at `i`, in insertion order.
    pub fn entry(&self, i: usize) -> (r: (&str, &V))
        requires
            i < self.entries().len(),
        ensures
            r.0@ == self.entries()[i as int].0@,
            *r.1 == self.entries()[i as int].1,
            self@.dom().contains(r.0@),
            self@[r.0@] == *r.1,
    {
        proof {
            use_type_invariant(self);
            lemma_map_at(self.entries@, i as int);
        }
        (self.entries[i].0.as_str(), &self.entries[i].1)
    }

    fn position(entries: &Vec<(String, V)>, key: &str) -> (r: usize)
        ensures
            r <= entries.len(),
            r < entries.len() ==> key_at(entries@, r as int, key@),
            r == entries.len() ==> !has_key(entries@, key@),
    {
        let mut i: usize = 0;
        while i < entries.len()
            invariant
                i <= entries.len(),
                forall|j: int| 0 <= j < i ==> !key_at(entries@, j, key@),
            decreases entries.len() - i,
        {
            if text::same(entries[i].0.as_str(), key) {
                return i;
            }
            i += 1;
        }
        i
    }

    pub fn contains_key(&self, key: &str) -> (r: bool)
        ensures
            r == self@.dom().contains(key@),
    {
        Self::position(&self.entries, key) < self.entries.len()
    }

    pub fn get(&self, key: &str) -> (r: Option<&V>)
        ensures
            match r {
                Some(v) => self@.dom().contains(key@) && *v == self@[key@],
                None => !self@.dom().contains(key@),
            },
    {
        proof {
            use_type_invariant(self);
        }
        let i = Self::position(&self.entries, key);
        if i < self.entries.len() {
            proof {
                lemma_map_at(self.entries@, i as int);
            }
            Some(&self.entries[i].1)
        } else {
            None
        }
    }

    /// Puts `value` under `key`, in place of what was there.
    pub fn insert(&mut self, key: String, value: V)
        ensures
            final(self)@ == old(self)@.insert(key@, value),
    {
        proof {
            use_type_invariant(&*self);
        }
        let mut entries: Vec<(String, V)> = Vec::new();
        std::mem::swap(&mut entries, &mut self.entries);
        let ghost before = entries@;
        let ghost k = key@;
        let i = Self::position(&entries, key.as_str());
        if i < entries.len() {
            entries.set(i, (key, value));
        } else {
            entries.push((key, value));
        }
        proof {
            let after = entries@;
            assert forall|a: int, b: int|
                0 <= a < after.len() && 0 <= b < after.len() && #[trigger] after[a].0@
                    == #[trigger] after[b].0@ implies a == b by {
                if a < before.len() && b < before.len() {
                    assert(after[a].0@ == before[a].0@);
                    assert(after[b].0@ == before[b].0@);
                } else if a < before.len() {
                    assert(!key_at(before, a, k));
                } else if b < before.len() {
                    assert(!key_at(before, b, k));
                }
            }
            assert forall|q: Seq<char>| has_key(after, q) <==> (has_key(before, q) || q == k) by {
                if has_key(before, q) {
                    let j = choose|j: int| key_at(before, j, q);
                    assert(key_at(after, j, q));
                }
                if q == k {
                    assert(key_at(after, i as int, q));
                }
                if has_key(after, q) {
                    let j = choose|j: int| key_at(after, j, q);
                    if j < before.len() {
                        assert(key_at(before, j, q));
                    }
                }
            }
            assert forall|q: Seq<char>| has_key(after, q) implies #[trigger] map_of(after)[q]
                == map_of(before).insert(k, value)[q] by {
                let j = choose|j: int| key_at(after, j, q);
                lemma_map_at(after, j);
                if q != k {
                    assert(key_at(before, j, q));
                    lemma_map_at(before, j);
                    if j == i {
                        assert(after[j].0@ == k);
                    }
                    assert(after[j] == before[j]);
                } else {
                    assert(after[i as int].0@ == after[j].0@);
                    assert(j == i);
                    assert(after[i as int].1 == value);
                }
            }
            assert(map_of(after) =~= map_of(before).insert(k, value));
        }
        self.entries = entries;
    }

    /// Takes the entry of `key` out.
    pub fn remove(&mut self, key: &str)
        ensures
            final(self)@ == old(self)@.remove(key@),
    {
        proof {
            use_type_invariant(&*self);
        }
        let mut entries: Vec<(String, V)> = Vec::new();
        std::mem::swap(&mut entries, &mut self.entries);
        let ghost before = entries@;
        let i = Self::position(&entries, key);
        if i < entries.len() {
            let _gone = entries.remove(i);
        }
        proof {
            let after = entries@;
            assert forall|a: int| 0 <= a < after.len() implies #[trigger] after[a] == before[if a < i {
                a
            } else {
                a + 1
            }] by {}
            assert(distinct_keys(after));
            assert forall|q: Seq<char>| has_key(after, q) <==> (has_key(before, q) && q != key@) by {
                if has_key(before, q) && q != key@ {
                    let j = choose|j: int| key_at(before, j, q);
                    assert(key_at(after, if j < i { j } else { j - 1 }, q));
                }
                if has_key(after, q) {
                    let j = choose|j: int| key_at(after, j, q);
                    let b = if j < i {
                        j
                    } else {
                        j + 1
                    };
                    assert(key_at(before, b, q));
                    if i < before.len() {
                        assert(before[b].0@ == before[i as int].0@ ==> b == i);
                    }
                }
            }
            assert forall|q: Seq<char>| has_key(after, q) implies #[trigger] map_of(after)[q]
                == map_of(before)[q] by {
                let j = choose|j: int| key_at(after, j, q);
                lemma_map_at(after, j);
                let b = if j < i {
                    j
                } else {
                    j + 1
                };
                assert(key_at(before, b, q));
                lemma_map_at(before, b);
            }
            assert(map_of(after) =~= map_of(before).remove(key@));
        }
        self.entries = entries;
    }
}

impl<V> View for TextMap<V> {
    type V = Map<Seq<char>, V>;

    closed spec fn view(&self) -> Map<Seq<char>, V> {
        map_of(self.entries@)
    }
}

/// A map of texts holds a key exactly where an entry has it, with that entry's value.
pub proof fn maps_hold_their_entries<V>(entries: Seq<(String, V)>, k: Seq<char>)
    requires
        forall|i: int, j: int|
            0 <= i < j < entries.len() ==> (#[trigger] entries[i]).0@ != (#[trigger] entries[j]).0@,
    ensures
        map_of(entries).dom().contains(k) <==> exists|i: int|
            0 <= i < entries.len() && (#[trigger] entries[i]).0@ == k,
        forall|i: int|
            0 <= i < entries.len() && (#[trigger] entries[i]).0@ == k ==> map_of(entries)[k]
                == entries[i].1,
{
    assert(distinct_keys(entries));
    if map_of(entries).dom().contains(k) {
        let i = choose|i: int| key_at(entries, i, k);
        assert(entries[i].0@ == k);
    }
    assert forall|i: int| 0 <= i < entries.len() && (#[trigger] entries[i]).0@ == k implies map_of(
        entries,
    )[k] == entries[i].1 by {
        lemma_map_at(entries, i);
    }
    if exists|i: int| 0 <= i < entries.len() && (#[trigger] entries[i]).0@ == k {
        let i = choose|i: int| 0 <= i < entries.len() && (#[trigger] entries[i]).0@ == k;
        assert(key_at(entries, i, k));
    }
}

} // verus!
