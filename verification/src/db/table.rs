//! A map from string keys to values, kept as a list of entries in which no
//! key occurs twice.

use vstd::prelude::*;
use vstd::set_lib::lemma_subset_equality;

verus! {

/// No two pairs of `pairs` carry the same key.
pub open spec fn keys_distinct<W>(pairs: Seq<(Seq<char>, W)>) -> bool {
    forall|i: int, j: int|
        0 <= i < j < pairs.len() ==> (#[trigger] pairs[i]).0 != (#[trigger] pairs[j]).0
}

/// Some pair of `pairs` carries the key `key`.
pub open spec fn has_key<W>(pairs: Seq<(Seq<char>, W)>, key: Seq<char>) -> bool {
    exists|i: int| 0 <= i < pairs.len() && (#[trigger] pairs[i]).0 == key
}

/// The position of a pair that carries `key`, where there is one.
pub open spec fn index_of<W>(pairs: Seq<(Seq<char>, W)>, key: Seq<char>) -> int {
    choose|i: int| 0 <= i < pairs.len() && (#[trigger] pairs[i]).0 == key
}

/// The map that a list of pairs with distinct keys stands for.
pub open spec fn map_of<W>(pairs: Seq<(Seq<char>, W)>) -> Map<Seq<char>, W> {
    Map::new(|k: Seq<char>| has_key(pairs, k), |k: Seq<char>| pairs[index_of(pairs, k)].1)
}

/// The keys of a list of pairs, in the order of the list.
pub open spec fn keys_of<W>(pairs: Seq<(Seq<char>, W)>) -> Seq<Seq<char>> {
    Seq::new(pairs.len(), |i: int| pairs[i].0)
}

/// In a list with distinct keys, the pair at `i` is the one found under its key.
pub proof fn lemma_pair_found<W>(pairs: Seq<(Seq<char>, W)>, i: int)
    requires
        keys_distinct(pairs),
        0 <= i < pairs.len(),
    ensures
        has_key(pairs, pairs[i].0),
        index_of(pairs, pairs[i].0) == i,
        map_of(pairs).contains_key(pairs[i].0),
        map_of(pairs)[pairs[i].0] == pairs[i].1,
{
    let k = pairs[i].0;
    assert(has_key(pairs, k));
    let j = index_of(pairs, k);
    assert(0 <= j < pairs.len() && pairs[j].0 == k);
    if j < i {
        assert(pairs[j].0 != pairs[i].0);
    } else if i < j {
        assert(pairs[i].0 != pairs[j].0);
    }
}

/// Appending a pair under a fresh key inserts it into the map.
pub proof fn lemma_push_fresh<W>(pairs: Seq<(Seq<char>, W)>, key: Seq<char>, value: W)
    requires
        keys_distinct(pairs),
        !has_key(pairs, key),
    ensures
        keys_distinct(pairs.push((key, value))),
        map_of(pairs.push((key, value))) == map_of(pairs).insert(key, value),
{
    let after = pairs.push((key, value));
    assert forall|i: int, j: int| 0 <= i < j < after.len()
        implies (#[trigger] after[i]).0 != (#[trigger] after[j]).0 by {
        if j == pairs.len() {
            assert(pairs[i].0 != key);
        } else {
            assert(pairs[i].0 != pairs[j].0);
        }
    }
    assert forall|k: Seq<char>| has_key(after, k) <==> (k == key || has_key(pairs, k)) by {
        if has_key(after, k) {
            let i = index_of(after, k);
            if i < pairs.len() {
                assert(pairs[i].0 == k);
            }
        }
        if k == key {
            assert(after[pairs.len() as int].0 == k);
        }
        if has_key(pairs, k) {
            let i = index_of(pairs, k);
            assert(after[i].0 == k);
        }
    }
    assert forall|k: Seq<char>| has_key(after, k)
        implies #[trigger] map_of(after)[k] == map_of(pairs).insert(key, value)[k] by {
        if k == key {
            lemma_pair_found(after, pairs.len() as int);
        } else {
            let i = index_of(pairs, k);
            lemma_pair_found(pairs, i);
            assert(after[i] == pairs[i]);
            lemma_pair_found(after, i);
        }
    }
    assert(map_of(after) =~= map_of(pairs).insert(key, value));
}

/// Replacing the value of the pair at `i` overwrites its key in the map.
pub proof fn lemma_update_value<W>(pairs: Seq<(Seq<char>, W)>, i: int, value: W)
    requires
        keys_distinct(pairs),
        0 <= i < pairs.len(),
    ensures
        keys_distinct(pairs.update(i, (pairs[i].0, value))),
        map_of(pairs.update(i, (pairs[i].0, value))) == map_of(pairs).insert(pairs[i].0, value),
{
    let key = pairs[i].0;
    let after = pairs.update(i, (key, value));
    assert forall|a: int, b: int| 0 <= a < b < after.len()
        implies (#[trigger] after[a]).0 != (#[trigger] after[b]).0 by {
        assert(pairs[a].0 != pairs[b].0);
    }
    assert forall|k: Seq<char>| has_key(after, k) <==> has_key(pairs, k) by {
        if has_key(after, k) {
            let a = index_of(after, k);
            assert(pairs[a].0 == k);
        }
        if has_key(pairs, k) {
            let a = index_of(pairs, k);
            assert(after[a].0 == k);
        }
    }
    lemma_pair_found(pairs, i);
    assert forall|k: Seq<char>| has_key(after, k)
        implies #[trigger] map_of(after)[k] == map_of(pairs).insert(key, value)[k] by {
        let a = index_of(pairs, k);
        lemma_pair_found(pairs, a);
        assert(after[a].0 == k);
        lemma_pair_found(after, a);
    }
    assert(map_of(after) =~= map_of(pairs).insert(key, value));
}

/// Taking out the pair at `i` removes its key from the map.
pub proof fn lemma_remove_pair<W>(pairs: Seq<(Seq<char>, W)>, i: int)
    requires
        keys_distinct(pairs),
        0 <= i < pairs.len(),
    ensures
        keys_distinct(pairs.remove(i)),
        map_of(pairs.remove(i)) == map_of(pairs).remove(pairs[i].0),
{
    let key = pairs[i].0;
    let after = pairs.remove(i);
    assert forall|a: int, b: int| 0 <= a < b < after.len()
        implies (#[trigger] after[a]).0 != (#[trigger] after[b]).0 by {
        let a0 = if a < i { a } else { a + 1 };
        let b0 = if b < i { b } else { b + 1 };
        assert(after[a] == pairs[a0]);
        assert(after[b] == pairs[b0]);
        assert(pairs[a0].0 != pairs[b0].0);
    }
    assert forall|k: Seq<char>| has_key(after, k) <==> (k != key && has_key(pairs, k)) by {
        if has_key(after, k) {
            let a = index_of(after, k);
            let a0 = if a < i { a } else { a + 1 };
            assert(after[a] == pairs[a0]);
            assert(pairs[a0].0 == k);
            if a0 < i {
                assert(pairs[a0].0 != pairs[i].0);
            } else {
                assert(pairs[i].0 != pairs[a0].0);
            }
        }
        if k != key && has_key(pairs, k) {
            let a0 = index_of(pairs, k);
            let a = if a0 < i { a0 } else { a0 - 1 };
            assert(after[a] == pairs[a0]);
        }
    }
    assert forall|k: Seq<char>| has_key(after, k)
        implies #[trigger] map_of(after)[k] == map_of(pairs)[k] by {
        let a = index_of(after, k);
        let a0 = if a < i { a } else { a + 1 };
        assert(after[a] == pairs[a0]);
        lemma_pair_found(after, a);
        lemma_pair_found(pairs, a0);
    }
    assert(map_of(after) =~= map_of(pairs).remove(key));
}

/// The keys of a list with distinct keys are the domain of its map, each once.
pub proof fn lemma_keys_of<W>(pairs: Seq<(Seq<char>, W)>)
    requires
        keys_distinct(pairs),
    ensures
        keys_of(pairs).no_duplicates(),
        keys_of(pairs).to_set() == map_of(pairs).dom(),
        map_of(pairs).dom().finite(),
        map_of(pairs).dom().len() == pairs.len(),
{
    let keys = keys_of(pairs);
    assert forall|i: int, j: int| 0 <= i < keys.len() && 0 <= j < keys.len() && i != j
        implies keys[i] != keys[j] by {
        if i < j {
            assert(pairs[i].0 != pairs[j].0);
        } else {
            assert(pairs[j].0 != pairs[i].0);
        }
    }
    assert forall|k: Seq<char>| keys.to_set().contains(k) <==> map_of(pairs).dom().contains(k) by {
        if keys.to_set().contains(k) {
            let i = choose|i: int| 0 <= i < keys.len() && keys[i] == k;
            assert(pairs[i].0 == k);
        }
        if has_key(pairs, k) {
            let i = index_of(pairs, k);
            assert(keys[i] == k);
        }
    }
    assert(keys.to_set() =~= map_of(pairs).dom());
    keys.unique_seq_to_set();
}

/// The map that results from writing `pairs` into an empty map one after
/// another, so that of two pairs with one key the later one stays.
pub open spec fn gathered<W>(pairs: Seq<(Seq<char>, W)>) -> Map<Seq<char>, W>
    decreases pairs.len(),
{
    if pairs.len() == 0 {
        Map::empty()
    } else {
        gathered(pairs.drop_last()).insert(pairs.last().0, pairs.last().1)
    }
}

/// Where the keys are distinct, gathering the pairs gives the map they stand
/// for.
pub proof fn lemma_gathered_distinct<W>(pairs: Seq<(Seq<char>, W)>)
    requires
        keys_distinct(pairs),
    ensures
        gathered(pairs) == map_of(pairs),
    decreases pairs.len(),
{
    if pairs.len() == 0 {
        assert(map_of(pairs) =~= Map::empty());
    } else {
        let init = pairs.drop_last();
        let last = pairs.last();
        assert forall|i: int, j: int| 0 <= i < j < init.len()
            implies (#[trigger] init[i]).0 != (#[trigger] init[j]).0 by {
            assert(pairs[i].0 != pairs[j].0);
        }
        if has_key(init, last.0) {
            let i = index_of(init, last.0);
            assert(pairs[i].0 != pairs[pairs.len() - 1].0);
        }
        lemma_gathered_distinct(init);
        lemma_push_fresh(init, last.0, last.1);
        assert(init.push((last.0, last.1)) =~= pairs);
    }
}

/// Finds the position of `key` in `entries`.
fn position<V: DeepView>(entries: &Vec<(String, V)>, key: &String) -> (found: Option<usize>)
    ensures
        match found {
            Some(i) => i < entries@.len() && entries.deep_view()[i as int].0 == key@,
            None => !has_key(entries.deep_view(), key@),
        },
{
    let mut i: usize = 0;
    while i < entries.len()
        invariant
            i <= entries@.len(),
            forall|j: int| 0 <= j < i ==> (#[trigger] entries.deep_view()[j]).0 != key@,
        decreases entries@.len() - i,
    {
        if entries[i].0 == *key {
            return Some(i);
        }
        i = i + 1;
    }
    None
}

/// A finite map keyed by strings.
///
/// Its view is the mathematical map from each key's characters to the deep
/// view of the value stored under it.
pub struct Table<V: DeepView> {
    entries: Vec<(String, V)>,
}

impl<V: DeepView> View for Table<V> {
    type V = Map<Seq<char>, V::V>;

    closed spec fn view(&self) -> Map<Seq<char>, V::V> {
        map_of(self.entries.deep_view())
    }
}

impl<V: DeepView> Table<V> {
    #[verifier::type_invariant]
    spec fn well_formed(self) -> bool {
        keys_distinct(self.entries.deep_view())
    }

    /// The keys of the table, in the order in which `entry_at` hands them out.
    pub closed spec fn keys(&self) -> Seq<Seq<char>> {
        keys_of(self.entries.deep_view())
    }

    /// Creates an empty table.
    pub fn new() -> (table: Self)
        ensures
            table@ == Map::<Seq<char>, V::V>::empty(),
    {
        let table = Table { entries: Vec::new() };
        assert(table@ =~= Map::<Seq<char>, V::V>::empty());
        table
    }

    /// The number of keys. Every key of the map occurs exactly once in `keys`.
    pub fn len(&self) -> (n: usize)
        ensures
            n == self.keys().len(),
            n == self@.dom().len(),
            self@.dom().finite(),
            self.keys().no_duplicates(),
            self.keys().to_set() == self@.dom(),
    {
        proof {
            use_type_invariant(self);
            lemma_keys_of(self.entries.deep_view());
        }
        self.entries.len()
    }

    /// The key and value at position `i` of `keys`, or `None` past its end.
    pub fn entry_at(&self, i: usize) -> (entry: Option<(&String, &V)>)
        ensures
            match entry {
                Some((k, v)) => i < self.keys().len() && k@ == self.keys()[i as int]
                    && self@.contains_key(k@) && v.deep_view() == self@[k@],
                None => i >= self.keys().len(),
            },
    {
        proof {
            use_type_invariant(self);
        }
        if i < self.entries.len() {
            proof {
                lemma_pair_found(self.entries.deep_view(), i as int);
            }
            let entry = &self.entries[i];
            Some((&entry.0, &entry.1))
        } else {
            None
        }
    }

    /// Looks up the value stored under `key`.
    pub fn get(&self, key: &str) -> (found: Option<&V>)
        ensures
            match found {
                Some(v) => self@.contains_key(key@) && v.deep_view() == self@[key@],
                None => !self@.contains_key(key@),
            },
    {
        proof {
            use_type_invariant(self);
        }
        let owned = key.to_owned();
        match position(&self.entries, &owned) {
            Some(i) => {
                proof {
                    lemma_pair_found(self.entries.deep_view(), i as int);
                }
                Some(&self.entries[i].1)
            },
            None => None,
        }
    }

    /// Whether a value is stored under `key`.
    pub fn contains_key(&self, key: &str) -> (present: bool)
        ensures
            present == self@.contains_key(key@),
    {
        self.get(key).is_some()
    }

    /// Stores `value` under `key`, replacing what was stored there.
    pub fn insert(&mut self, key: String, value: V)
        ensures
            final(self)@ == old(self)@.insert(key@, value.deep_view()),
    {
        proof {
            use_type_invariant(&*self);
        }
        let mut entries: Vec<(String, V)> = Vec::new();
        std::mem::swap(&mut entries, &mut self.entries);
        let ghost before = entries.deep_view();
        match position(&entries, &key) {
            Some(i) => {
                proof {
                    lemma_update_value(before, i as int, value.deep_view());
                }
                entries.set(i, (key, value));
                assert(entries.deep_view() =~= before.update(
                    i as int,
                    (before[i as int].0, value.deep_view()),
                ));
            },
            None => {
                proof {
                    lemma_push_fresh(before, key@, value.deep_view());
                }
                entries.push((key, value));
                assert(entries.deep_view() =~= before.push((key@, value.deep_view())));
            },
        }
        self.entries = entries;
    }

    /// Removes `key` and hands back the value that was stored under it.
    pub fn remove(&mut self, key: &str) -> (removed: Option<V>)
        ensures
            final(self)@ == old(self)@.remove(key@),
            match removed {
                Some(v) => old(self)@.contains_key(key@) && v.deep_view() == old(self)@[key@],
                None => !old(self)@.contains_key(key@),
            },
    {
        proof {
            use_type_invariant(&*self);
        }
        let owned = key.to_owned();
        let mut entries: Vec<(String, V)> = Vec::new();
        std::mem::swap(&mut entries, &mut self.entries);
        let ghost before = entries.deep_view();
        match position(&entries, &owned) {
            Some(i) => {
                proof {
                    lemma_remove_pair(before, i as int);
                    lemma_pair_found(before, i as int);
                }
                let entry = entries.remove(i);
                assert(entries.deep_view() =~= before.remove(i as int));
                self.entries = entries;
                Some(entry.1)
            },
            None => {
                self.entries = entries;
                assert(self@ =~= old(self)@.remove(key@));
                None
            },
        }
    }
}

impl Table<String> {
    /// Whether two tables hold the same keys with the same values.
    pub fn same_as(&self, other: &Table<String>) -> (same: bool)
        ensures
            same == (self@ == other@),
    {
        let count = self.len();
        if count != other.len() {
            return false;
        }
        let mut i: usize = 0;
        while i < count
            invariant
                i <= count,
                count == self.keys().len(),
                forall|j: int|
                    0 <= j < i ==> other@.contains_key(#[trigger] self.keys()[j])
                        && other@[self.keys()[j]] == self@[self.keys()[j]],
            decreases count - i,
        {
            match self.entry_at(i) {
                Some((key, value)) => {
                    match other.get(key.as_str()) {
                        Some(found) => {
                            if !(*found == *value) {
                                return false;
                            }
                        },
                        None => {
                            return false;
                        },
                    }
                },
                None => {},
            }
            i = i + 1;
        }
        proof {
            let keys = self.keys();
            assert forall|k: Seq<char>| self@.contains_key(k)
                implies other@.contains_key(k) && other@[k] == self@[k] by {
                assert(keys.to_set().contains(k));
                let j = choose|j: int| 0 <= j < keys.len() && keys[j] == k;
                assert(other@.contains_key(keys[j]));
            }
            assert(self@.dom().subset_of(other@.dom()));
            lemma_subset_equality(self@.dom(), other@.dom());
            assert(self@ =~= other@);
        }
        true
    }
}

} // verus!
