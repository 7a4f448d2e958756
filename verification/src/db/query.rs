//! The facade: one store and one index, and the rules by which writes and
//! deletes reach both.

use crate::db::clock::Timestamp;
use crate::db::index::appended;
use crate::db::index::pruned;
use crate::db::index::Index;
use crate::db::index::IndexModel;
use crate::db::model::StorageModel;
use crate::db::snapshot::json_decode;
use crate::db::storage::Storage;
use crate::db::storage::StorageError;
use vstd::prelude::*;

verus! {

/// The index after a delete that found `previous` in the store: that value
/// leaves the list of `key`; where the store had nothing, the index stays.
pub open spec fn index_after_delete(
    index: IndexModel,
    key: Seq<char>,
    previous: Option<Seq<char>>,
) -> IndexModel {
    match previous {
        Some(value) => pruned(index, key, value),
        None => index,
    }
}

/// A store together with the index of the values written through the facade.
pub struct Query {
    pub storage: Storage,
    pub index: Index,
}

impl Query {
    /// Creates a facade over an empty store and an empty index.
    pub fn new() -> (query: Self)
        ensures
            query.storage@ == StorageModel::empty(),
            query.index@ == IndexModel::empty(),
    {
        Query { storage: Storage::new(), index: Index::new() }
    }

    /// Writes `value` under `key` in the store and appends it to the key's
    /// list in the index, also where the key already had a value.
    pub fn set(&mut self, key: String, value: String)
        ensures
            final(self).storage@ == old(self).storage@.set(key@, value@),
            final(self).index@ == appended(old(self).index@, key@, value@),
    {
        self.storage.set(key.clone(), value.clone());
        self.index.add(key, value);
    }

    /// Reads `key` from the store at the moment `now`, evicting it there
    /// where its deadline has passed. The index stays as it is.
    pub fn get_at(&mut self, key: &str, now: Timestamp) -> (found: Option<&String>)
        ensures
            final(self).storage@ == old(self).storage@.after_read(key@, now.as_nanos()),
            found.deep_view() == old(self).storage@.lookup(key@, now.as_nanos()),
            final(self).index@ == old(self).index@,
    {
        self.storage.get_at(key, now)
    }

    /// Reads `key` as `get_at` does, at the moment the clock shows.
    pub fn get(&mut self, key: &str) -> (found: Option<&String>)
        ensures
            exists|at: Timestamp|
                final(self).storage@ == #[trigger] old(self).storage@.after_read(
                    key@,
                    at.as_nanos(),
                ) && found.deep_view() == old(self).storage@.lookup(key@, at.as_nanos()),
            final(self).index@ == old(self).index@,
    {
        self.storage.get(key)
    }

    /// Removes `key` from the store. Where the store held a value for it,
    /// expired or not, that value leaves the key's list in the index; where
    /// it held none, the index stays as it is.
    pub fn delete(&mut self, key: &str)
        ensures
            final(self).storage@ == old(self).storage@.delete(key@),
            final(self).index@ == index_after_delete(
                old(self).index@,
                key@,
                old(self).storage@.stored(key@),
            ),
    {
        match self.storage.delete(key) {
            Some(value) => {
                self.index.remove(key, value.as_str());
            },
            None => {},
        }
    }

    /// The values listed under `key` in the index, whatever the store holds.
    pub fn search(&self, key: &str) -> (found: Option<&Vec<String>>)
        ensures
            match found {
                Some(values) => self.index@.contains_key(key@) && values.deep_view()
                    == self.index@[key@],
                None => !self.index@.contains_key(key@),
            },
    {
        self.index.get(key)
    }

    /// Encodes the store's primary map as a snapshot that decodes to that
    /// map again. The index is not part of it.
    pub fn save(&self) -> (outcome: Result<String, StorageError>)
        ensures
            match outcome {
                Ok(text) => json_decode(text@) == Some(self.storage@.store),
                Err(error) => error is SerializationError,
            },
    {
        self.storage.to_snapshot()
    }

    /// Replaces the store by the one decoded from `snapshot`. The index stays
    /// as it is. Where the text does not decode, nothing changes.
    pub fn load(&mut self, snapshot: &str) -> (outcome: Result<(), StorageError>)
        ensures
            final(self).index@ == old(self).index@,
            match outcome {
                Ok(_) => json_decode(snapshot@) == Some(final(self).storage@.store)
                    && final(self).storage@ == StorageModel::restored(final(self).storage@.store),
                Err(error) => json_decode(snapshot@) is None && error is SerializationError
                    && final(self).storage@ == old(self).storage@,
            },
    {
        match Storage::from_snapshot(snapshot) {
            Ok(storage) => {
                self.storage = storage;
                Ok(())
            },
            Err(error) => Err(error),
        }
    }
}

} // verus!
