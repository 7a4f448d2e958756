//! The secondary index: for each key, every value written under it, in the
//! order of the writes.

use crate::db::table::Table;
use vstd::prelude::*;

verus! {

/// What an index holds: for each key, the values listed under it, oldest
/// first.
pub type IndexModel = Map<Seq<char>, Seq<Seq<char>>>;

/// The values listed under `key`, or the empty list where the key is absent.
pub open spec fn listed(index: IndexModel, key: Seq<char>) -> Seq<Seq<char>> {
    if index.contains_key(key) {
        index[key]
    } else {
        Seq::empty()
    }
}

/// `values` with every occurrence of `value` taken out, the rest in order.
pub open spec fn without(values: Seq<Seq<char>>, value: Seq<char>) -> Seq<Seq<char>> {
    values.filter(|item: Seq<char>| item != value)
}

/// The index after `value` was appended under `key`.
pub open spec fn appended(index: IndexModel, key: Seq<char>, value: Seq<char>) -> IndexModel {
    index.insert(key, listed(index, key).push(value))
}

/// The index after every occurrence of `value` was removed from the list of
/// `key`. An index without the key stays as it is.
pub open spec fn pruned(index: IndexModel, key: Seq<char>, value: Seq<char>) -> IndexModel {
    if index.contains_key(key) {
        index.insert(key, without(index[key], value))
    } else {
        index
    }
}

/// Taking `value` out of a list extended by `item` keeps `item` unless it is
/// `value`.
pub proof fn lemma_without_push(values: Seq<Seq<char>>, item: Seq<char>, value: Seq<char>)
    ensures
        without(values.push(item), value) == if item != value {
            without(values, value).push(item)
        } else {
            without(values, value)
        },
{
    reveal(Seq::filter);
    assert(values.push(item).drop_last() =~= values);
}

/// A list in which `value` does not occur is left as it is.
pub proof fn lemma_without_absent(values: Seq<Seq<char>>, value: Seq<char>)
    requires
        !values.contains(value),
    ensures
        without(values, value) == values,
    decreases values.len(),
{
    reveal(Seq::filter);
    if values.len() > 0 {
        let init = values.drop_last();
        assert forall|item: Seq<char>| init.contains(item) implies values.contains(item) by {
            let i = choose|i: int| 0 <= i < init.len() && init[i] == item;
            assert(values[i] == item);
        }
        assert(values[values.len() - 1] == values.last());
        lemma_without_absent(init, value);
        assert(init.push(values.last()) =~= values);
    } else {
        assert(without(values, value) =~= values);
    }
}

/// After an addition the value stands last in the key's list, behind all that
/// was listed before, and the other keys keep their lists.
pub proof fn lemma_add_appends(
    index: IndexModel,
    key: Seq<char>,
    value: Seq<char>,
    other: Seq<char>,
)
    requires
        other != key,
    ensures
        appended(index, key, value).contains_key(key),
        listed(appended(index, key, value), key) == listed(index, key).push(value),
        listed(appended(index, key, value), other) == listed(index, other),
{
}

/// Removing a value from a key that the index does not hold, or a value that
/// is not listed under the key, leaves the index as it is.
pub proof fn lemma_remove_absent(
    index: IndexModel,
    key: Seq<char>,
    value: Seq<char>,
)
    requires
        !index.contains_key(key) || !index[key].contains(value),
    ensures
        pruned(index, key, value) == index,
{
    if index.contains_key(key) {
        lemma_without_absent(index[key], value);
        assert(index.insert(key, index[key]) =~= index);
    }
}

/// After a removal the value is no longer listed under the key, and the other
/// keys keep their lists.
pub proof fn lemma_remove_present(
    index: IndexModel,
    key: Seq<char>,
    value: Seq<char>,
    other: Seq<char>,
)
    requires
        other != key,
    ensures
        !listed(pruned(index, key, value), key).contains(value),
        pruned(index, key, value).contains_key(key) == index.contains_key(key),
        listed(pruned(index, key, value), other) == listed(index, other),
{
    if index.contains_key(key) {
        let kept = without(index[key], value);
        if kept.contains(value) {
            let i = choose|i: int| 0 <= i < kept.len() && kept[i] == value;
            index[key].lemma_filter_pred(|item: Seq<char>| item != value, i);
        }
    }
}

/// Removes every string equal to `value` from `values`, keeping the order of
/// the rest.
fn discard(values: Vec<String>, value: &str) -> (kept: Vec<String>)
    ensures
        kept.deep_view() == without(values.deep_view(), value@),
{
    let unwanted = value.to_owned();
    let ghost all = values.deep_view();
    let mut kept: Vec<String> = Vec::new();
    assert(all.take(0) =~= Seq::empty());
    assert(kept.deep_view() =~= without(all.take(0), value@)) by {
        reveal(Seq::filter);
    }
    for item in iter: values
        invariant
            unwanted@ == value@,
            iter.seq().len() == all.len(),
            forall|i: int| 0 <= i < all.len() ==> (#[trigger] iter.seq()[i])@ == all[i],
            kept.deep_view() == without(all.take(iter.index() as int), value@),
    {
        proof {
            lemma_without_push(all.take(iter.index() as int), item@, value@);
            assert(all.take(iter.index() + 1) =~= all.take(iter.index() as int).push(item@));
        }
        if item != unwanted {
            let ghost before = kept.deep_view();
            kept.push(item);
            assert(kept.deep_view() =~= before.push(item@));
        }
    }
    assert(all.take(all.len() as int) =~= all);
    kept
}

/// An inverted index from key to the values written under it. It knows
/// nothing of expiration or transactions, and a value stays listed until it
/// is removed by name.
pub struct Index {
    pub index: Table<Vec<String>>,
}

impl View for Index {
    type V = IndexModel;

    open spec fn view(&self) -> IndexModel {
        self.index@
    }
}

impl Index {
    /// Creates an empty index.
    pub fn new() -> (index: Self)
        ensures
            index@ == IndexModel::empty(),
    {
        Index { index: Table::new() }
    }

    /// Appends `value` to the list of `key`, starting the list where the key
    /// is new. A value may be listed more than once.
    pub fn add(&mut self, key: String, value: String)
        ensures
            final(self)@ == appended(old(self)@, key@, value@),
    {
        let mut values = match self.index.remove(key.as_str()) {
            Some(values) => values,
            None => Vec::new(),
        };
        let ghost before = values.deep_view();
        assert(before =~= listed(old(self)@, key@));
        values.push(value);
        assert(values.deep_view() =~= before.push(value@));
        self.index.insert(key, values);
        assert(self@ =~= appended(old(self)@, key@, value@));
    }

    /// The values listed under `key`, oldest first, or `None` where nothing
    /// was ever added under it.
    pub fn get(&self, key: &str) -> (found: Option<&Vec<String>>)
        ensures
            match found {
                Some(values) => self@.contains_key(key@) && values.deep_view() == self@[key@],
                None => !self@.contains_key(key@),
            },
    {
        self.index.get(key)
    }

    /// Removes every occurrence of `value` from the list of `key`. Does
    /// nothing where the key is absent or the value is not listed.
    pub fn remove(&mut self, key: &str, value: &str)
        ensures
            final(self)@ == pruned(old(self)@, key@, value@),
    {
        match self.index.remove(key) {
            Some(values) => {
                let kept = discard(values, value);
                self.index.insert(key.to_owned(), kept);
                assert(self@ =~= pruned(old(self)@, key@, value@));
            },
            None => {
                assert(self@ =~= old(self)@);
            },
        }
    }
}

} // verus!
