//! The storage engine: the primary map, per-key expiration and at most one
//! buffered transaction.

use crate::db::clock::deadline;
use crate::db::clock::span_of;
use crate::db::clock::now;
use crate::db::clock::Timestamp;
use crate::db::clock::Ttl;
use crate::db::model::OperationModel;
use crate::db::model::StorageModel;
use crate::db::snapshot::decode_pairs;
use crate::db::snapshot::encode_pairs;
use crate::db::snapshot::json_decode;
use crate::db::table::gathered;
use crate::db::table::has_key;
use crate::db::table::keys_distinct;
use crate::db::table::lemma_gathered_distinct;
use crate::db::table::lemma_pair_found;
use crate::db::table::map_of;
use crate::db::table::Table;
use vstd::prelude::*;

verus! {

/// Why an operation of the store failed.
#[derive(Debug, Clone, Copy, PartialEq, Eq)]
pub enum StorageError {
    /// A snapshot could not be encoded, or a text could not be decoded as a
    /// map from strings to strings.
    SerializationError,
    /// `commit_transaction` was called with no open transaction.
    NoActiveTransaction,
}

/// A buffered mutation of a single key.
#[derive(Debug)]
pub enum Operation {
    /// Write the value (second) under the key (first).
    Put(String, String),
    /// Remove the key.
    Delete(String),
}

impl View for Operation {
    type V = OperationModel;

    open spec fn view(&self) -> OperationModel {
        match self {
            Operation::Put(key, value) => OperationModel::Put(key@, value@),
            Operation::Delete(key) => OperationModel::Delete(key@),
        }
    }
}

/// The operations buffered since the last `begin_transaction`, oldest first.
#[derive(Debug)]
pub struct Transaction {
    operations: Vec<Operation>,
}

impl View for Transaction {
    type V = Seq<OperationModel>;

    closed spec fn view(&self) -> Seq<OperationModel> {
        Seq::new(self.operations@.len(), |i: int| self.operations@[i]@)
    }
}

/// The deadlines of a table of expiration moments, as natural numbers.
pub open spec fn deadlines_of(moments: Map<Seq<char>, u128>) -> Map<Seq<char>, nat> {
    Map::new(|key: Seq<char>| moments.contains_key(key), |key: Seq<char>| moments[key] as nat)
}

/// The view of an optional transaction.
pub open spec fn pending_of(transaction: Option<Transaction>) -> Option<Seq<OperationModel>> {
    match transaction {
        Some(open) => Some(open@),
        None => None,
    }
}

/// The first `n + 1` names of a list, as a set, are the first `n` and the
/// one at `n`.
proof fn lemma_take_one_more(names: Seq<Seq<char>>, n: int)
    requires
        0 <= n < names.len(),
    ensures
        names.take(n + 1).to_set() == names.take(n).to_set().insert(names[n]),
{
    let longer = names.take(n + 1);
    let shorter = names.take(n);
    assert forall|name: Seq<char>|
        longer.contains(name) <==> (shorter.contains(name) || name == names[n]) by {
        if longer.contains(name) {
            let m = choose|m: int| 0 <= m < longer.len() && longer[m] == name;
            if m < n {
                assert(shorter[m] == name);
            }
        }
        if shorter.contains(name) {
            let m = choose|m: int| 0 <= m < shorter.len() && shorter[m] == name;
            assert(longer[m] == name);
        }
        if name == names[n] {
            assert(longer[n] == name);
        }
    }
    assert(longer.to_set() =~= shorter.to_set().insert(names[n]));
}

/// A key-value store with optional per-key expiration and buffered
/// transactions.
pub struct Storage {
    /// The primary map.
    pub store: Table<String>,
    /// The expiration map: deadlines in nanoseconds since the Unix epoch.
    pub ttl_map: Table<u128>,
    /// The open transaction, if any.
    pub current_transaction: Option<Transaction>,
}

impl View for Storage {
    type V = StorageModel;

    open spec fn view(&self) -> StorageModel {
        StorageModel {
            store: self.store@,
            deadlines: deadlines_of(self.ttl_map@),
            pending: pending_of(self.current_transaction),
        }
    }
}

impl Storage {
    /// Creates an empty store.
    pub fn new() -> (storage: Self)
        ensures
            storage@ == StorageModel::empty(),
    {
        let storage = Storage {
            store: Table::new(),
            ttl_map: Table::new(),
            current_transaction: None,
        };
        assert(storage@.deadlines =~= Map::empty());
        storage
    }

    /// Opens a fresh transaction. What an open transaction had buffered is
    /// discarded.
    pub fn begin_transaction(&mut self)
        ensures
            final(self)@ == old(self)@.begin(),
    {
        self.current_transaction = Some(Transaction { operations: Vec::new() });
        assert(pending_of(self.current_transaction).unwrap() =~= Seq::empty());
    }

    /// Appends `operation` to the open transaction; does nothing where none
    /// is open.
    pub fn add_operation(&mut self, operation: Operation)
        ensures
            final(self)@ == old(self)@.buffer(operation@),
    {
        match self.current_transaction.take() {
            Some(mut transaction) => {
                let ghost before = transaction@;
                transaction.operations.push(operation);
                assert(transaction@ =~= before.push(operation@));
                self.current_transaction = Some(transaction);
            },
            None => {},
        }
    }

    /// Discards the open transaction without carrying it out; does nothing
    /// where none is open.
    pub fn rollback_transaction(&mut self)
        ensures
            final(self)@ == old(self)@.rollback(),
    {
        self.current_transaction = None;
    }

    /// Writes `value` under `key`. A deadline that the key has stays.
    pub fn set(&mut self, key: String, value: String)
        ensures
            final(self)@ == old(self)@.set(key@, value@),
    {
        self.store.insert(key, value);
    }

    /// Removes `key` from the primary map and hands back the value it had,
    /// whether or not its deadline has passed.
    pub fn delete(&mut self, key: &str) -> (previous: Option<String>)
        ensures
            final(self)@ == old(self)@.delete(key@),
            previous.deep_view() == old(self)@.stored(key@),
    {
        self.store.remove(key)
    }

    /// Writes `value` under `key` at the moment `now`. With a time-to-live the
    /// key's deadline becomes `now` plus `ttl`; without one, the key's
    /// deadline is cleared.
    pub fn set_with_ttl_at(&mut self, key: String, value: String, ttl: Option<Ttl>, now: Timestamp)
        ensures
            final(self)@ == old(self)@.set_with_ttl(key@, value@, span_of(ttl), now.as_nanos()),
    {
        match ttl {
            Some(span) => {
                let due: u128 = deadline(now, span);
                self.store.insert(key.clone(), value);
                self.ttl_map.insert(key, due);
                assert(self@.deadlines =~= old(self)@.deadlines.insert(key@, due as nat));
            },
            None => {
                self.ttl_map.remove(key.as_str());
                self.store.insert(key, value);
                assert(self@.deadlines =~= old(self)@.deadlines.remove(key@));
            },
        }
    }

    /// Writes `value` under `key` as `set_with_ttl_at` does, at the moment the
    /// clock shows.
    pub fn set_with_ttl(&mut self, key: String, value: String, ttl: Option<Ttl>)
        ensures
            exists|at: Timestamp|
                final(self)@ == #[trigger] old(self)@.set_with_ttl(
                    key@,
                    value@,
                    span_of(ttl),
                    at.as_nanos(),
                ),
    {
        let at = now();
        self.set_with_ttl_at(key, value, ttl, at);
    }

    /// Reads `key` at the moment `now`. A key whose deadline has passed is
    /// evicted from both maps and reads as absent.
    pub fn get_at(&mut self, key: &str, now: Timestamp) -> (found: Option<&String>)
        ensures
            final(self)@ == old(self)@.after_read(key@, now.as_nanos()),
            found.deep_view() == old(self)@.lookup(key@, now.as_nanos()),
    {
        let moment: u128 = now.total_nanos();
        let expired = match self.ttl_map.get(key) {
            Some(due) => moment > *due,
            None => false,
        };
        if expired {
            self.store.remove(key);
            self.ttl_map.remove(key);
            assert(self@.deadlines =~= old(self)@.deadlines.remove(key@));
            return None;
        }
        self.store.get(key)
    }

    /// Reads `key` as `get_at` does, at the moment the clock shows.
    pub fn get(&mut self, key: &str) -> (found: Option<&String>)
        ensures
            exists|at: Timestamp|
                final(self)@ == #[trigger] old(self)@.after_read(key@, at.as_nanos())
                    && found.deep_view() == old(self)@.lookup(key@, at.as_nanos()),
    {
        let at = now();
        self.get_at(key, at)
    }

    /// Closes the open transaction and carries out its operations in the
    /// order in which they were buffered, each as `set` or `delete` does.
    /// Fails, and changes nothing, where no transaction is open.
    pub fn commit_transaction(&mut self) -> (outcome: Result<(), StorageError>)
        ensures
            match outcome {
                Ok(_) => old(self)@.pending is Some && final(self)@ == old(self)@.commit(),
                Err(error) => old(self)@.pending is None && error is NoActiveTransaction
                    && final(self)@ == old(self)@,
            },
    {
        match self.current_transaction.take() {
            Some(transaction) => {
                let ghost base = self@;
                let ghost ops = transaction@;
                let operations = transaction.operations;
                assert(ops.len() == operations@.len());
                for operation in iter: operations
                    invariant
                        iter.seq().len() == ops.len(),
                        forall|i: int| 0 <= i < ops.len() ==> (#[trigger] iter.seq()[i])@ == ops[i],
                        self@ == base.apply_all(ops.take(iter.index() as int)),
                {
                    let ghost done = ops.take(iter.index() as int);
                    let ghost next = ops.take(iter.index() + 1);
                    assert(next.drop_last() =~= done);
                    assert(next.last() == operation@);
                    match operation {
                        Operation::Put(key, value) => self.set(key, value),
                        Operation::Delete(key) => {
                            let _ = self.delete(key.as_str());
                        },
                    }
                }
                assert(ops.take(ops.len() as int) =~= ops);
                Ok(())
            },
            None => Err(StorageError::NoActiveTransaction),
        }
    }

    /// The keys whose deadline the moment `moment` is past.
    fn expired_at(&self, moment: u128) -> (expired: Vec<String>)
        ensures
            expired.deep_view().to_set() == self@.expired_keys(moment as nat),
    {
        let ghost due = self@.expired_keys(moment as nat);
        let mut expired: Vec<String> = Vec::new();
        let count = self.ttl_map.len();
        let mut i: usize = 0;
        while i < count
            invariant
                i <= count,
                count == self.ttl_map.keys().len(),
                due == self@.expired_keys(moment as nat),
                forall|j: int|
                    0 <= j < expired@.len() ==> due.contains(#[trigger] expired.deep_view()[j]),
                forall|j: int|
                    0 <= j < i && due.contains(#[trigger] self.ttl_map.keys()[j])
                        ==> expired.deep_view().contains(self.ttl_map.keys()[j]),
            decreases count - i,
        {
            match self.ttl_map.entry_at(i) {
                Some((key, deadline)) => {
                    if moment > *deadline {
                        let ghost listed = expired.deep_view();
                        expired.push(key.clone());
                        assert(expired.deep_view() =~= listed.push(key@));
                        assert forall|j: int|
                            0 <= j < i + 1 && due.contains(#[trigger] self.ttl_map.keys()[j])
                            implies expired.deep_view().contains(self.ttl_map.keys()[j]) by {
                            if j < i {
                                let m = choose|m: int|
                                    0 <= m < listed.len() && listed[m] == self.ttl_map.keys()[j];
                                assert(expired.deep_view()[m] == self.ttl_map.keys()[j]);
                            } else {
                                assert(expired.deep_view()[listed.len() as int] == key@);
                            }
                        }
                    }
                },
                None => {},
            }
            i = i + 1;
        }
        proof {
            assert forall|key: Seq<char>| due.contains(key)
                implies expired.deep_view().contains(key) by {
                assert(self.ttl_map.keys().to_set().contains(key));
                let j = choose|j: int|
                    0 <= j < self.ttl_map.keys().len() && self.ttl_map.keys()[j] == key;
                assert(due.contains(self.ttl_map.keys()[j]));
            }
            assert(expired.deep_view().to_set() =~= due);
        }
        expired
    }

    /// Evicts every key of `keys` from both maps.
    fn evict_all(&mut self, keys: &Vec<String>)
        ensures
            final(self)@.store == old(self)@.store.remove_keys(keys.deep_view().to_set()),
            final(self)@.deadlines == old(self)@.deadlines.remove_keys(keys.deep_view().to_set()),
            final(self)@.pending == old(self)@.pending,
    {
        let ghost names = keys.deep_view();
        let mut j: usize = 0;
        assert(self@.store =~= old(self)@.store.remove_keys(names.take(0).to_set()));
        assert(self@.deadlines =~= old(self)@.deadlines.remove_keys(names.take(0).to_set()));
        while j < keys.len()
            invariant
                j <= keys@.len(),
                names == keys.deep_view(),
                self@.store == old(self)@.store.remove_keys(names.take(j as int).to_set()),
                self@.deadlines == old(self)@.deadlines.remove_keys(names.take(j as int).to_set()),
                self@.pending == old(self)@.pending,
            decreases keys@.len() - j,
        {
            let ghost started = self@;
            let key = keys[j].as_str();
            self.store.remove(key);
            self.ttl_map.remove(key);
            proof {
                lemma_take_one_more(names, j as int);
                let gone = names.take(j as int).to_set();
                assert(self@.store =~= old(self)@.store.remove_keys(gone.insert(key@)));
                assert(self@.deadlines =~= started.deadlines.remove(key@));
                assert(self@.deadlines =~= old(self)@.deadlines.remove_keys(gone.insert(key@)));
            }
            j = j + 1;
        }
        assert(names.take(names.len() as int) =~= names);
    }

    /// Sweeps the store at the moment `now`: every key whose deadline has
    /// passed leaves both maps, read again or not.
    pub fn clean_expired_keys_at(&mut self, now: Timestamp)
        ensures
            final(self)@ == old(self)@.sweep(now.as_nanos()),
    {
        let expired = self.expired_at(now.total_nanos());
        self.evict_all(&expired);
    }

    /// Sweeps the store as `clean_expired_keys_at` does, at the moment the
    /// clock shows.
    pub fn clean_expired_keys(&mut self)
        ensures
            exists|at: Timestamp| final(self)@ == #[trigger] old(self)@.sweep(at.as_nanos()),
    {
        let at = now();
        self.clean_expired_keys_at(at);
    }

    /// The key-value pairs of the primary map, each key once, in no
    /// particular order. Deadlines and the open transaction are left out.
    pub fn entries(&self) -> (pairs: Vec<(String, String)>)
        ensures
            keys_distinct(pairs.deep_view()),
            gathered(pairs.deep_view()) == self@.store,
    {
        let mut pairs: Vec<(String, String)> = Vec::new();
        let count = self.store.len();
        let mut i: usize = 0;
        while i < count
            invariant
                i <= count,
                count == self.store.keys().len(),
                pairs@.len() == i,
                forall|j: int|
                    0 <= j < i ==> (#[trigger] pairs.deep_view()[j]).0 == self.store.keys()[j]
                        && self.store@.contains_key(self.store.keys()[j]) && pairs.deep_view()[j].1
                        == self.store@[self.store.keys()[j]],
            decreases count - i,
        {
            match self.store.entry_at(i) {
                Some((key, value)) => {
                    let ghost listed = pairs.deep_view();
                    pairs.push((key.clone(), value.clone()));
                    assert(pairs.deep_view() =~= listed.push((key@, value@)));
                },
                None => {},
            }
            i = i + 1;
        }
        proof {
            let listed = pairs.deep_view();
            let keys = self.store.keys();
            assert forall|a: int, b: int| 0 <= a < b < listed.len()
                implies (#[trigger] listed[a]).0 != (#[trigger] listed[b]).0 by {
                assert(keys[a] != keys[b]);
            }
            assert forall|key: Seq<char>| self.store@.contains_key(key)
                implies has_key(listed, key) by {
                assert(keys.to_set().contains(key));
                let j = choose|j: int| 0 <= j < keys.len() && keys[j] == key;
                assert(listed[j].0 == key);
            }
            assert forall|key: Seq<char>| map_of(listed).contains_key(key)
                implies self.store@.contains_key(key)
                && map_of(listed)[key] == self.store@[key] by {
                let j = choose|j: int| 0 <= j < listed.len() && (#[trigger] listed[j]).0 == key;
                lemma_pair_found(listed, j);
            }
            assert(map_of(listed) =~= self.store@);
            lemma_gathered_distinct(listed);
        }
        pairs
    }

    /// Encodes the primary map as one JSON object and hands the text out only
    /// where it decodes to that map again. Deadlines and the open transaction
    /// are not part of the text. Fails with `SerializationError` where the
    /// encoder reports an error or its text does not decode to the map.
    pub fn to_snapshot(&self) -> (outcome: Result<String, StorageError>)
        ensures
            match outcome {
                Ok(text) => json_decode(text@) == Some(self@.store),
                Err(error) => error is SerializationError,
            },
    {
        let pairs = self.entries();
        self.checked_snapshot(encode_pairs(&pairs))
    }

    /// Turns the encoder's answer into the store's: the text, where there is
    /// one and it decodes to the primary map; else `SerializationError`.
    pub fn checked_snapshot(&self, encoded: Result<String, serde_json::Error>) -> (outcome: Result<
        String,
        StorageError,
    >)
        ensures
            outcome == match encoded {
                Ok(text) => if json_decode(text@) == Some(self@.store) {
                    Ok::<String, StorageError>(text)
                } else {
                    Err::<String, StorageError>(StorageError::SerializationError)
                },
                Err(_) => Err::<String, StorageError>(StorageError::SerializationError),
            },
    {
        match encoded {
            Ok(text) => {
                if self.decodes_from(text.as_str()) {
                    Ok(text)
                } else {
                    Err(StorageError::SerializationError)
                }
            },
            Err(_) => Err(StorageError::SerializationError),
        }
    }

    /// Whether `text` decodes to exactly the primary map of this store.
    pub fn decodes_from(&self, text: &str) -> (same: bool)
        ensures
            same == (json_decode(text@) == Some(self@.store)),
    {
        match Storage::from_snapshot(text) {
            Ok(decoded) => self.store.same_as(&decoded.store),
            Err(_) => false,
        }
    }

    /// Decodes a snapshot into a store that holds the decoded primary map, no
    /// deadlines and no open transaction. Fails with `SerializationError`
    /// exactly where the text does not decode as a map from strings to
    /// strings.
    pub fn from_snapshot(text: &str) -> (outcome: Result<Storage, StorageError>)
        ensures
            match outcome {
                Ok(storage) => json_decode(text@) == Some(storage@.store) && storage@
                    == StorageModel::restored(storage@.store),
                Err(error) => json_decode(text@) is None && error is SerializationError,
            },
    {
        match decode_pairs(text) {
            Ok(pairs) => Ok(Storage::from_entries(pairs)),
            Err(_) => Err(StorageError::SerializationError),
        }
    }

    /// Builds a store whose primary map is `pairs` written one after another,
    /// with no deadlines and no open transaction.
    pub fn from_entries(pairs: Vec<(String, String)>) -> (storage: Self)
        ensures
            storage@ == StorageModel::restored(gathered(pairs.deep_view())),
    {
        let mut storage = Storage::new();
        let ghost listed = pairs.deep_view();
        for pair in iter: pairs
            invariant
                iter.seq().len() == listed.len(),
                forall|i: int|
                    0 <= i < listed.len() ==> (#[trigger] iter.seq()[i]).deep_view() == listed[i],
                storage@ == StorageModel::restored(gathered(listed.take(iter.index() as int))),
        {
            let ghost next = listed.take(iter.index() + 1);
            assert(next.drop_last() =~= listed.take(iter.index() as int));
            assert(next.last() == pair.deep_view());
            storage.set(pair.0, pair.1);
        }
        assert(listed.take(listed.len() as int) =~= listed);
        storage
    }
}

} // verus!
