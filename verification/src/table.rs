//! A small map from text keys to values, kept as a list without repeated
//! keys. The roster and the attendance record are both tables.
//!
//! The mathematical model of a table is a finite `Map` from the key's
//! characters to the value's view. The order in which a table lists its
//! entries carries no meaning; it is exposed only so that callers can walk
//! the entries one by one.

use vstd::prelude::*;
use crate::text::same_text;

verus! {

/// A listing of key/value pairs, as the contracts see it.
pub type Listing<T> = Seq<(Seq<char>, T)>;

/// Whether entry `i` of `list` exists and carries the key `k`.
pub open spec fn holds<T>(list: Listing<T>, i: int, k: Seq<char>) -> bool {
    0 <= i < list.len() && list[i].0 == k
}

/// Whether some entry of `list` carries the key `k`.
pub open spec fn has_key<T>(list: Listing<T>, k: Seq<char>) -> bool {
    exists|i: int| holds(list, i, k)
}

/// The position of an entry of `list` with key `k`, if there is one.
pub open spec fn position<T>(list: Listing<T>, k: Seq<char>) -> int {
    choose|i: int| holds(list, i, k)
}

/// Whether no key occurs twice in `list`.
pub open spec fn distinct_keys<T>(list: Listing<T>) -> bool {
    forall|i: int, j: int| 0 <= i < j < list.len() ==> list[i].0 != list[j].0
}

/// The map that `list` spells out.
pub open spec fn map_of<T>(list: Listing<T>) -> Map<Seq<char>, T> {
    Map::new(|k: Seq<char>| has_key(list, k), |k: Seq<char>| list[position(list, k)].1)
}

/// In a listing without repeated keys, an entry is what the map holds for
/// its key.
pub proof fn lemma_entry_in_map<T>(list: Listing<T>, i: int)
    requires
        distinct_keys(list),
        0 <= i < list.len(),
    ensures
        map_of(list).dom().contains(list[i].0),
        map_of(list)[list[i].0] == list[i].1,
        position(list, list[i].0) == i,
{
    let k = list[i].0;
    assert(holds(list, i, k));
    let p = position(list, k);
    assert(holds(list, p, k));
    if p < i {
        assert(list[p].0 != list[i].0);
    } else if i < p {
        assert(list[i].0 != list[p].0);
    }
}

/// Appending an entry under a new key inserts it into the map.
pub proof fn lemma_push<T>(list: Listing<T>, k: Seq<char>, v: T)
    requires
        distinct_keys(list),
        !has_key(list, k),
    ensures
        distinct_keys(list.push((k, v))),
        map_of(list.push((k, v))) == map_of(list).insert(k, v),
{
    let after = list.push((k, v));
    assert forall|i: int, j: int| 0 <= i < j < after.len() implies after[i].0 != after[j].0 by {
        if j == list.len() {
            assert(!holds(list, i, k));
        }
    }
    assert forall|q: Seq<char>| has_key(after, q) <==> (q == k || has_key(list, q)) by {
        if has_key(after, q) {
            let i = choose|i: int| holds(after, i, q);
            if i < list.len() {
                assert(holds(list, i, q));
            }
        }
        if q == k {
            assert(holds(after, list.len() as int, q));
        }
        if has_key(list, q) {
            let i = choose|i: int| holds(list, i, q);
            assert(holds(after, i, q));
        }
    }
    assert forall|q: Seq<char>| has_key(after, q) implies #[trigger] map_of(after)[q] == map_of(
        list,
    ).insert(k, v)[q] by {
        let i = position(after, q);
        assert(holds(after, i, q));
        lemma_entry_in_map(after, i);
        if i < list.len() {
            assert(holds(list, i, q));
            lemma_entry_in_map(list, i);
        }
    }
    assert(map_of(after) =~= map_of(list).insert(k, v));
}

/// Replacing the value of entry `i` overwrites the map at that entry's key.
pub proof fn lemma_update<T>(list: Listing<T>, i: int, v: T)
    requires
        distinct_keys(list),
        0 <= i < list.len(),
    ensures
        distinct_keys(list.update(i, (list[i].0, v))),
        map_of(list.update(i, (list[i].0, v))) == map_of(list).insert(list[i].0, v),
{
    let k = list[i].0;
    let after = list.update(i, (k, v));
    assert forall|q: Seq<char>| has_key(after, q) <==> has_key(list, q) by {
        if has_key(after, q) {
            let j = choose|j: int| holds(after, j, q);
            assert(holds(list, j, q));
        }
        if has_key(list, q) {
            let j = choose|j: int| holds(list, j, q);
            assert(holds(after, j, q));
        }
    }
    assert(holds(list, i, k));
    assert forall|q: Seq<char>| has_key(after, q) implies #[trigger] map_of(after)[q] == map_of(
        list,
    ).insert(k, v)[q] by {
        let j = position(after, q);
        assert(holds(after, j, q));
        lemma_entry_in_map(after, j);
        assert(holds(list, j, q));
        lemma_entry_in_map(list, j);
    }
    assert(map_of(after) =~= map_of(list).insert(k, v));
}

/// Dropping entry `i` removes that entry's key from the map.
pub proof fn lemma_remove<T>(list: Listing<T>, i: int)
    requires
        distinct_keys(list),
        0 <= i < list.len(),
    ensures
        distinct_keys(list.remove(i)),
        map_of(list.remove(i)) == map_of(list).remove(list[i].0),
{
    let k = list[i].0;
    let after = list.remove(i);
    assert forall|a: int, b: int| 0 <= a < b < after.len() implies after[a].0 != after[b].0 by {
        let a0 = if a < i { a } else { a + 1 };
        let b0 = if b < i { b } else { b + 1 };
        assert(after[a] == list[a0] && after[b] == list[b0]);
    }
    assert forall|q: Seq<char>| has_key(after, q) <==> (q != k && has_key(list, q)) by {
        if has_key(after, q) {
            let j = choose|j: int| holds(after, j, q);
            let j0 = if j < i { j } else { j + 1 };
            assert(holds(list, j0, q));
            if j0 < i {
                assert(list[j0].0 != list[i].0);
            } else {
                assert(list[i].0 != list[j0].0);
            }
        }
        if q != k && has_key(list, q) {
            let j = choose|j: int| holds(list, j, q);
            let j1 = if j < i { j } else { j - 1 };
            assert(holds(after, j1, q));
        }
    }
    assert forall|q: Seq<char>| has_key(after, q) implies #[trigger] map_of(after)[q] == map_of(
        list,
    ).remove(k)[q] by {
        let j = position(after, q);
        assert(holds(after, j, q));
        lemma_entry_in_map(after, j);
        let j0 = if j < i { j } else { j + 1 };
        assert(holds(list, j0, q));
        lemma_entry_in_map(list, j0);
    }
    assert(map_of(after) =~= map_of(list).remove(k));
}

/// A listing without repeated keys has as many entries as its map has keys.
pub proof fn lemma_size<T>(list: Listing<T>)
    requires
        distinct_keys(list),
    ensures
        map_of(list).dom().finite(),
        map_of(list).dom().len() == list.len(),
    decreases list.len(),
{
    if list.len() == 0 {
        assert(map_of(list).dom() =~= Set::<Seq<char>>::empty());
    } else {
        let front = list.drop_last();
        let last = list.last();
        assert forall|i: int, j: int| 0 <= i < j < front.len() implies front[i].0 != front[j].0 by {
            assert(front[i] == list[i] && front[j] == list[j]);
        }
        lemma_size(front);
        if has_key(front, last.0) {
            let i = choose|i: int| holds(front, i, last.0);
            assert(list[i].0 != list[list.len() - 1].0);
        }
        assert(list =~= front.push((last.0, last.1)));
        lemma_push(front, last.0, last.1);
        assert(map_of(list).dom() =~= map_of(front).dom().insert(last.0));
        assert(!map_of(front).dom().contains(last.0));
    }
}

/// One entry of a table.
#[derive(Debug)]
struct Entry<V> {
    key: String,
    value: V,
}

/// A map from text keys to values of type `V`.
#[derive(Debug)]
pub struct Table<V: View> {
    entries: Vec<Entry<V>>,
}

impl<V: View> Table<V> {
    /// The entries in the order in which the table lists them.
    pub closed spec fn listing(&self) -> Listing<V::V> {
        self.entries@.map_values(|e: Entry<V>| (e.key@, e.value@))
    }

    /// No key occurs twice.
    #[verifier::type_invariant]
    closed spec fn distinct(&self) -> bool {
        distinct_keys(self.listing())
    }

    /// The map from each key to its value.
    pub open spec fn view(&self) -> Map<Seq<char>, V::V> {
        map_of(self.listing())
    }

    /// A table without entries.
    pub fn new() -> (r: Self)
        ensures
            r.listing().len() == 0,
            r@ == Map::<Seq<char>, V::V>::empty(),
    {
        let r = Table { entries: Vec::new() };
        assert(r@ =~= Map::<Seq<char>, V::V>::empty()) by {
            assert forall|k: Seq<char>| !has_key(r.listing(), k) by {
                if has_key(r.listing(), k) {
                    let i = choose|i: int| holds(r.listing(), i, k);
                    assert(holds(r.listing(), i, k));
                }
            }
        }
        r
    }

    /// The number of entries. The listing has no key twice, so this is
    /// also the number of keys.
    pub fn len(&self) -> (n: usize)
        ensures
            n == self.listing().len(),
            distinct_keys(self.listing()),
            self@.dom().finite(),
            n == self@.dom().len(),
    {
        proof {
            use_type_invariant(self);
            lemma_size(self.listing());
        }
        self.entries.len()
    }

    /// The key of entry `i`.
    pub fn key_at(&self, i: usize) -> (k: &String)
        requires
            i < self.listing().len(),
        ensures
            k@ == self.listing()[i as int].0,
    {
        &self.entries[i].key
    }

    /// The value of entry `i`.
    pub fn value_at(&self, i: usize) -> (v: &V)
        requires
            i < self.listing().len(),
        ensures
            v@ == self.listing()[i as int].1,
    {
        &self.entries[i].value
    }

    /// Where the entry with key `key` stands, if there is one.
    pub fn find(&self, key: &str) -> (r: Option<usize>)
        ensures
            match r {
                Some(i) => holds(self.listing(), i as int, key@),
                None => !has_key(self.listing(), key@),
            },
    {
        let mut i: usize = 0;
        while i < self.entries.len()
            invariant
                i <= self.entries@.len(),
                forall|j: int| 0 <= j < i ==> !holds(self.listing(), j, key@),
            decreases self.entries@.len() - i,
        {
            if same_text(self.entries[i].key.as_str(), key) {
                return Some(i);
            }
            i = i + 1;
        }
        None
    }

    /// Whether the table has an entry for `key`.
    pub fn contains(&self, key: &str) -> (r: bool)
        ensures
            r == self@.dom().contains(key@),
    {
        self.find(key).is_some()
    }

    /// The value stored for `key`, if there is one.
    pub fn get(&self, key: &str) -> (r: Option<&V>)
        ensures
            match r {
                Some(v) => self@.dom().contains(key@) && v@ == self@[key@],
                None => !self@.dom().contains(key@),
            },
    {
        match self.find(key) {
            Some(i) => {
                proof {
                    use_type_invariant(self);
                    lemma_entry_in_map(self.listing(), i as int);
                }
                Some(&self.entries[i].value)
            },
            None => None,
        }
    }

    /// Stores `value` under `key`, replacing what was stored there before.
    /// Returns whether the key is new to the table; a new key goes to the
    /// end of the listing, an old one keeps its place.
    pub fn insert(&mut self, key: String, value: V) -> (added: bool)
        ensures
            final(self)@ == old(self)@.insert(key@, value@),
            added == !old(self)@.dom().contains(key@),
            added ==> final(self).listing() == old(self).listing().push((key@, value@)),
            !added ==> final(self).listing().len() == old(self).listing().len(),
    {
        let ghost before = self.listing();
        proof {
            use_type_invariant(&*self);
        }
        let found = self.find(key.as_str());
        let mut entries: Vec<Entry<V>> = Vec::new();
        core::mem::swap(&mut self.entries, &mut entries);
        let ghost listed = |e: Entry<V>| (e.key@, e.value@);
        assert(entries@.map_values(listed) == before);
        match found {
            Some(i) => {
                proof {
                    lemma_update(before, i as int, value@);
                }
                entries.set(i, Entry { key, value });
                assert(entries@.map_values(listed) =~= before.update(
                    i as int,
                    (before[i as int].0, value@),
                ));
                self.entries = entries;
                false
            },
            None => {
                proof {
                    lemma_push(before, key@, value@);
                }
                entries.push(Entry { key, value });
                assert(entries@.map_values(listed) =~= before.push((key@, value@)));
                self.entries = entries;
                true
            },
        }
    }

    /// Drops the entry for `key`, if there is one. Returns whether there
    /// was one.
    pub fn remove(&mut self, key: &str) -> (removed: bool)
        ensures
            final(self)@ == old(self)@.remove(key@),
            removed == old(self)@.dom().contains(key@),
    {
        let ghost before = self.listing();
        proof {
            use_type_invariant(&*self);
        }
        match self.find(key) {
            Some(i) => {
                proof {
                    lemma_remove(before, i as int);
                }
                let mut entries: Vec<Entry<V>> = Vec::new();
                core::mem::swap(&mut self.entries, &mut entries);
                let ghost listed = |e: Entry<V>| (e.key@, e.value@);
                assert(entries@.map_values(listed) == before);
                entries.remove(i);
                assert(entries@.map_values(listed) =~= before.remove(i as int));
                self.entries = entries;
                true
            },
            None => {
                assert(self@ =~= self@.remove(key@));
                false
            },
        }
    }
}

} // verus!
