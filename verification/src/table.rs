//! Values by number or by name, in the order in which the keys first came.

use crate::text::same_text;
use vstd::prelude::*;

verus! {

/// Where `key` first stands in a list of values by key; the length if it does not occur.
pub open spec fn place<K, A>(entries: Seq<(K, A)>, key: K) -> int
    decreases entries.len(),
{
    if entries.len() == 0 || entries[0].0 == key {
        0
    } else {
        1 + place(entries.skip(1), key)
    }
}

/// Whether `key` has a value.
pub open spec fn has_key<K, A>(entries: Seq<(K, A)>, key: K) -> bool {
    place(entries, key) < entries.len()
}

/// The value of `key`, if it has one.
pub open spec fn lookup<K, A>(entries: Seq<(K, A)>, key: K) -> Option<A> {
    if has_key(entries, key) {
        Some(entries[place(entries, key)].1)
    } else {
        None
    }
}

/// The list in which `key` has this value; a new key comes last.
pub open spec fn put<K, A>(entries: Seq<(K, A)>, key: K, value: A) -> Seq<(K, A)> {
    if has_key(entries, key) {
        entries.update(place(entries, key), (key, value))
    } else {
        entries.push((key, value))
    }
}

/// The list without these keys.
pub open spec fn without<K, A>(entries: Seq<(K, A)>, keys: Seq<K>) -> Seq<(K, A)> {
    entries.filter(|entry: (K, A)| !keys.contains(entry.0))
}

/// No key occurs twice.
pub open spec fn distinct<K, A>(entries: Seq<(K, A)>) -> bool {
    forall|i: int, j: int|
        #![trigger entries[i], entries[j]]
        0 <= i < j < entries.len() ==> entries[i].0 != entries[j].0
}

/// What `place` means: the key stands there, and nowhere before.
pub proof fn place_is_the_first<K, A>(entries: Seq<(K, A)>, key: K)
    ensures
        0 <= place(entries, key) <= entries.len(),
        forall|j: int| 0 <= j < place(entries, key) ==> (#[trigger] entries[j]).0 != key,
        has_key(entries, key) ==> entries[place(entries, key)].0 == key,
    decreases entries.len(),
{
    if entries.len() > 0 && entries[0].0 != key {
        let rest = entries.skip(1);
        place_is_the_first(rest, key);
        assert forall|j: int| 0 <= j < place(entries, key) implies (#[trigger] entries[j]).0
            != key by {
            if j > 0 {
                assert(entries[j] == rest[j - 1]);
            }
        }
        if has_key(entries, key) {
            assert(entries[place(entries, key)] == rest[place(rest, key)]);
        }
    }
}

/// A place that holds `key` or is the end, with no `key` in front of it, is the first one.
pub proof fn lemma_place_unique<K, A>(entries: Seq<(K, A)>, key: K, at: int)
    requires
        0 <= at <= entries.len(),
        forall|j: int| 0 <= j < at ==> (#[trigger] entries[j]).0 != key,
        at < entries.len() ==> entries[at].0 == key,
    ensures
        place(entries, key) == at,
{
    place_is_the_first(entries, key);
    if place(entries, key) < at {
        assert(entries[place(entries, key)].0 != key);
    }
}

/// A value that was put is found again, and no other key is touched by it.
pub proof fn put_then_lookup<K, A>(entries: Seq<(K, A)>, key: K, value: A, other: K)
    ensures
        lookup(put(entries, key, value), key) == Some(value),
        other != key ==> lookup(put(entries, key, value), other) == lookup(entries, other),
        distinct(entries) ==> distinct(put(entries, key, value)),
{
    let after = put(entries, key, value);
    place_is_the_first(entries, key);
    place_is_the_first(entries, other);
    lemma_place_unique(after, key, place(entries, key));
    if other != key {
        if has_key(entries, other) || has_key(entries, key) {
            lemma_place_unique(after, other, place(entries, other));
        } else {
            lemma_place_unique(after, other, after.len() as int);
        }
    }
}

/// What is left after taking keys out was there before, under another key.
pub proof fn lemma_filter_is_picked<K, A>(entries: Seq<(K, A)>, keys: Seq<K>)
    ensures
        forall|i: int|
            0 <= i < without(entries, keys).len() ==> !keys.contains(
                (#[trigger] without(entries, keys)[i]).0,
            ) && exists|k: int| 0 <= k < entries.len() && entries[k] == without(entries, keys)[i],
        distinct(entries) ==> distinct(without(entries, keys)),
    decreases entries.len(),
{
    reveal(Seq::filter);
    if entries.len() > 0 {
        let shorter = entries.drop_last();
        lemma_filter_is_picked(shorter, keys);
        let kept = without(shorter, keys);
        let result = without(entries, keys);
        assert forall|i: int| 0 <= i < result.len() implies !keys.contains((#[trigger] result[i]).0)
            && exists|k: int| 0 <= k < entries.len() && entries[k] == result[i] by {
            if i < kept.len() {
                assert(result[i] == kept[i]);
                let k = choose|k: int| 0 <= k < shorter.len() && shorter[k] == kept[i];
                assert(entries[k] == result[i]);
            } else {
                assert(entries[entries.len() - 1] == result[i]);
            }
        }
        if distinct(entries) {
            assert(distinct(shorter)) by {
                assert forall|i: int, j: int|
                    #![trigger shorter[i], shorter[j]]
                    0 <= i < j < shorter.len() implies shorter[i].0 != shorter[j].0 by {
                    assert(shorter[i] == entries[i] && shorter[j] == entries[j]);
                }
            }
            assert forall|i: int, j: int|
                #![trigger result[i], result[j]]
                0 <= i < j < result.len() implies result[i].0 != result[j].0 by {
                if j < kept.len() {
                    assert(result[i] == kept[i] && result[j] == kept[j]);
                } else {
                    let k = choose|k: int| 0 <= k < shorter.len() && shorter[k] == kept[i];
                    assert(result[i] == kept[i]);
                    assert(shorter[k] == entries[k]);
                }
            }
        }
    }
}

/// Taking keys out of two lists, one behind the other, is taking them out of each.
pub proof fn without_is_a_join<K, A>(front: Seq<(K, A)>, back: Seq<(K, A)>, keys: Seq<K>)
    ensures
        without(front + back, keys) == without(front, keys) + without(back, keys),
{
    Seq::filter_distributes_over_add(front, back, |entry: (K, A)| !keys.contains(entry.0));
}

/// Taking keys out twice is taking them out once.
pub proof fn lemma_without_again<K, A>(entries: Seq<(K, A)>, keys: Seq<K>)
    ensures
        without(without(entries, keys), keys) == without(entries, keys),
    decreases entries.len(),
{
    reveal(Seq::filter);
    if entries.len() > 0 {
        lemma_without_again(entries.drop_last(), keys);
        let kept = without(entries.drop_last(), keys);
        if !keys.contains(entries.last().0) {
            assert(without(entries, keys) == kept.push(entries.last()));
            assert(kept.push(entries.last()).drop_last() =~= kept);
        }
    }
}

/// A key that was taken out has no value any more, and no other key is touched by it.
pub proof fn without_then_lookup<K, A>(entries: Seq<(K, A)>, keys: Seq<K>, key: K)
    ensures
        lookup(without(entries, keys), key) == if keys.contains(key) {
            None
        } else {
            lookup(entries, key)
        },
        distinct(entries) ==> distinct(without(entries, keys)),
    decreases entries.len(),
{
    lemma_filter_is_picked(entries, keys);
    place_is_the_first(without(entries, keys), key);
    place_is_the_first(entries, key);
    if keys.contains(key) {
        if has_key(without(entries, keys), key) {
            assert(without(entries, keys)[place(without(entries, keys), key)].0 == key);
        }
    } else if entries.len() > 0 {
        let shorter = entries.drop_last();
        let last = entries.last();
        without_then_lookup(shorter, keys, key);
        place_is_the_first(shorter, key);
        let kept = without(shorter, keys);
        place_is_the_first(kept, key);
        reveal(Seq::filter);
        assert forall|j: int| 0 <= j < place(shorter, key) implies (#[trigger] entries[j]).0
            != key by {
            assert(entries[j] == shorter[j]);
        }
        if has_key(shorter, key) {
            assert(entries[place(shorter, key)] == shorter[place(shorter, key)]);
            lemma_place_unique(entries, key, place(shorter, key));
            let result = without(entries, keys);
            assert forall|j: int| 0 <= j < place(kept, key) implies (#[trigger] result[j]).0
                != key by {
                assert(result[j] == kept[j]);
            }
            assert(result[place(kept, key)] == kept[place(kept, key)]);
            lemma_place_unique(result, key, place(kept, key));
        } else {
            let result = without(entries, keys);
            assert(!has_key(kept, key));
            assert forall|j: int| 0 <= j < kept.len() implies (#[trigger] result[j]).0 != key by {
                assert(result[j] == kept[j]);
            }
            if last.0 == key {
                lemma_place_unique(entries, key, shorter.len() as int);
                lemma_place_unique(result, key, kept.len() as int);
            } else {
                lemma_place_unique(entries, key, entries.len() as int);
                lemma_place_unique(result, key, result.len() as int);
            }
        }
    }
}

/// A list of values by number.
pub struct Table<V> {
    pub entries: Vec<(u32, V)>,
}

impl<V: View> View for Table<V> {
    type V = Seq<(u32, V::V)>;

    open spec fn view(&self) -> Seq<(u32, V::V)> {
        Seq::new(self.entries@.len(), |i: int| (self.entries@[i].0, self.entries@[i].1@))
    }
}

impl<V: View> Table<V> {
    /// A table without entries.
    pub fn new() -> (table: Table<V>)
        ensures
            table@ == Seq::<(u32, V::V)>::empty(),
    {
        let table = Table { entries: Vec::new() };
        assert(table@ =~= Seq::<(u32, V::V)>::empty());
        table
    }

    /// Where `key` stands; the number of entries if it does not occur.
    pub fn find(&self, key: u32) -> (at: usize)
        ensures
            at == place(self@, key),
            at <= self.entries@.len(),
            self@.len() == self.entries@.len(),
            at < self.entries@.len() ==> self@[at as int].0 == key,
    {
        let mut at: usize = 0;
        while at < self.entries.len() && self.entries[at].0 != key
            invariant
                at <= self.entries@.len(),
                forall|j: int| 0 <= j < at ==> (#[trigger] self@[j]).0 != key,
            decreases self.entries@.len() - at,
        {
            assert(self@[at as int].0 != key);
            at = at + 1;
        }
        proof {
            lemma_place_unique(self@, key, at as int);
        }
        at
    }

    /// The value of `key`, if it has one.
    pub fn get(&self, key: u32) -> (value: Option<&V>)
        ensures
            value is Some <==> has_key(self@, key),
            value is Some ==> lookup(self@, key) == Some(value->0@),
    {
        let at = self.find(key);
        if at < self.entries.len() {
            Some(&self.entries[at].1)
        } else {
            None
        }
    }

    /// Whether `key` has a value.
    pub fn contains(&self, key: u32) -> (found: bool)
        ensures
            found == has_key(self@, key),
    {
        self.find(key) < self.entries.len()
    }

    /// Gives `key` a value.
    pub fn insert(&mut self, key: u32, value: V)
        ensures
            final(self)@ == put(old(self)@, key, value@),
    {
        let at = self.find(key);
        if at < self.entries.len() {
            self.entries.set(at, (key, value));
        } else {
            self.entries.push((key, value));
        }
        assert(self@ =~= put(old(self)@, key, value@));
    }

    /// Takes all entries whose number is in `keys` out.
    pub fn remove_all(&mut self, keys: &Vec<u32>)
        ensures
            final(self)@ == without(old(self)@, keys@),
    {
        let mut before: Vec<(u32, V)> = Vec::new();
        std::mem::swap(&mut before, &mut self.entries);
        let ghost all = old(self)@;
        let ghost given = before@;
        let total: usize = before.len();
        assert(before@.skip(0) =~= given);
        let mut rest: Table<V> = Table { entries: Vec::new() };
        proof {
            reveal(Seq::filter);
            assert(all.take(0).filter(|entry: (u32, V::V)| !keys@.contains(entry.0)) =~= rest@);
        }
        let mut i: usize = 0;
        for entry in it: before
            invariant
                it.seq() == given,
                i == it.index(),
                total == given.len(),
                i <= total,
                all.len() == total,
                all == Seq::new(given.len(), |k: int| (given[k].0, given[k].1@)),
                rest@ == without(all.take(i as int), keys@),
        {
            let keep = !contains_key(keys, entry.0);
            let ghost shown = (entry.0, entry.1@);
            let ghost kept = rest@;
            if keep {
                rest.entries.push(entry);
                assert(rest@ =~= kept.push(shown));
            }
            proof {
                reveal(Seq::filter);
                assert(all.take(i + 1).drop_last() =~= all.take(i as int));
                assert(all.take(i + 1).last() == shown);
            }
            i = i + 1;
        }
        assert(all.take(total as int) =~= all);
        self.entries = rest.entries;
    }

    /// Takes `key` out.
    pub fn remove(&mut self, key: u32)
        ensures
            final(self)@ == without(old(self)@, seq![key]),
    {
        let mut keys: Vec<u32> = Vec::new();
        keys.push(key);
        assert(keys@ =~= seq![key]);
        self.remove_all(&keys);
    }
}

/// A list of values by name.
pub struct NameTable<V> {
    pub entries: Vec<(String, V)>,
}

impl<V: View> View for NameTable<V> {
    type V = Seq<(Seq<char>, V::V)>;

    open spec fn view(&self) -> Seq<(Seq<char>, V::V)> {
        Seq::new(self.entries@.len(), |i: int| (self.entries@[i].0@, self.entries@[i].1@))
    }
}

impl<V: View> NameTable<V> {
    /// A table without entries.
    pub fn new() -> (table: NameTable<V>)
        ensures
            table@ == Seq::<(Seq<char>, V::V)>::empty(),
    {
        let table = NameTable { entries: Vec::new() };
        assert(table@ =~= Seq::<(Seq<char>, V::V)>::empty());
        table
    }

    /// Where `name` stands; the number of entries if it does not occur.
    pub fn find(&self, name: &str) -> (at: usize)
        ensures
            at == place(self@, name@),
            at <= self.entries@.len(),
            self@.len() == self.entries@.len(),
            at < self.entries@.len() ==> self@[at as int].0 == name@,
    {
        let mut at: usize = 0;
        while at < self.entries.len() && !same_text(self.entries[at].0.as_str(), name)
            invariant
                at <= self.entries@.len(),
                forall|j: int| 0 <= j < at ==> (#[trigger] self@[j]).0 != name@,
            decreases self.entries@.len() - at,
        {
            assert(self@[at as int].0 != name@);
            at = at + 1;
        }
        proof {
            lemma_place_unique(self@, name@, at as int);
        }
        at
    }

    /// The value of `name`, if it has one.
    pub fn get(&self, name: &str) -> (value: Option<&V>)
        ensures
            value is Some <==> has_key(self@, name@),
            value is Some ==> lookup(self@, name@) == Some(value->0@),
    {
        let at = self.find(name);
        if at < self.entries.len() {
            Some(&self.entries[at].1)
        } else {
            None
        }
    }

    /// Gives `name` a value.
    pub fn insert(&mut self, name: String, value: V)
        ensures
            final(self)@ == put(old(self)@, name@, value@),
    {
        let at = self.find(name.as_str());
        if at < self.entries.len() {
            self.entries.set(at, (name, value));
        } else {
            self.entries.push((name, value));
        }
        assert(self@ =~= put(old(self)@, name@, value@));
    }
}

/// Whether `key` is among `keys`.
pub fn contains_key(keys: &Vec<u32>, key: u32) -> (found: bool)
    ensures
        found == keys@.contains(key),
{
    for i in 0..keys.len()
        invariant
            forall|j: int| 0 <= j < i ==> keys@[j] != key,
    {
        if keys[i] == key {
            return true;
        }
    }
    false
}

} // verus!
