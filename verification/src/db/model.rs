//! The mathematical model of the storage engine: what a store holds, and what
//! each operation makes of it.

use vstd::prelude::*;

verus! {

/// A buffered operation, over the characters of its key and value.
pub enum OperationModel {
    Put(Seq<char>, Seq<char>),
    Delete(Seq<char>),
}

/// What a store holds.
pub struct StorageModel {
    /// The primary map, from key to current value.
    pub store: Map<Seq<char>, Seq<char>>,
    /// The expiration map: for each key last written with a time-to-live, the
    /// moment it is due to expire, in nanoseconds since the epoch.
    pub deadlines: Map<Seq<char>, nat>,
    /// The operations buffered by the open transaction, oldest first, or
    /// `None` where no transaction is open.
    pub pending: Option<Seq<OperationModel>>,
}

impl StorageModel {
    /// A store with no keys, no deadlines and no open transaction.
    pub open spec fn empty() -> StorageModel {
        StorageModel { store: Map::empty(), deadlines: Map::empty(), pending: None }
    }

    /// A store restored from a primary map alone.
    pub open spec fn restored(store: Map<Seq<char>, Seq<char>>) -> StorageModel {
        StorageModel { store, deadlines: Map::empty(), pending: None }
    }

    /// Writes `value` under `key` and leaves the deadlines alone.
    pub open spec fn set(self, key: Seq<char>, value: Seq<char>) -> StorageModel {
        StorageModel { store: self.store.insert(key, value), ..self }
    }

    /// Writes `value` under `key` at the moment `now`. With a time-to-live
    /// the key's deadline becomes `now` plus `ttl`, in place of any earlier
    /// one; without, the key's deadline is cleared.
    pub open spec fn set_with_ttl(
        self,
        key: Seq<char>,
        value: Seq<char>,
        ttl: Option<nat>,
        now: nat,
    ) -> StorageModel {
        StorageModel {
            store: self.store.insert(key, value),
            deadlines: match ttl {
                Some(span) => self.deadlines.insert(key, now + span),
                None => self.deadlines.remove(key),
            },
            ..self
        }
    }

    /// Whether `key` has a deadline and `now` is past it.
    pub open spec fn expired(self, key: Seq<char>, now: nat) -> bool {
        self.deadlines.contains_key(key) && now > self.deadlines[key]
    }

    /// The keys whose deadline `now` is past.
    pub open spec fn expired_keys(self, now: nat) -> Set<Seq<char>> {
        Set::new(|key: Seq<char>| self.expired(key, now))
    }

    /// Drops `key` from the primary map and from the deadlines.
    pub open spec fn evict(self, key: Seq<char>) -> StorageModel {
        StorageModel {
            store: self.store.remove(key),
            deadlines: self.deadlines.remove(key),
            ..self
        }
    }

    /// What a read of `key` at `now` returns: nothing for an expired key,
    /// else the value in the primary map.
    pub open spec fn lookup(self, key: Seq<char>, now: nat) -> Option<Seq<char>> {
        if self.expired(key, now) || !self.store.contains_key(key) {
            None
        } else {
            Some(self.store[key])
        }
    }

    /// The store after a read of `key` at `now`: an expired key is evicted.
    pub open spec fn after_read(self, key: Seq<char>, now: nat) -> StorageModel {
        if self.expired(key, now) {
            self.evict(key)
        } else {
            self
        }
    }

    /// The store after a sweep at `now`: every expired key is gone from both
    /// maps.
    pub open spec fn sweep(self, now: nat) -> StorageModel {
        StorageModel {
            store: self.store.remove_keys(self.expired_keys(now)),
            deadlines: self.deadlines.remove_keys(self.expired_keys(now)),
            ..self
        }
    }

    /// Removes `key` from the primary map, whether expired or not. Its
    /// deadline stays.
    pub open spec fn delete(self, key: Seq<char>) -> StorageModel {
        StorageModel { store: self.store.remove(key), ..self }
    }

    /// What `delete` hands back: the value in the primary map, expired or not.
    pub open spec fn stored(self, key: Seq<char>) -> Option<Seq<char>> {
        if self.store.contains_key(key) {
            Some(self.store[key])
        } else {
            None
        }
    }

    /// Opens a fresh, empty transaction in place of any open one.
    pub open spec fn begin(self) -> StorageModel {
        StorageModel { pending: Some(Seq::empty()), ..self }
    }

    /// Appends `op` to the open transaction; does nothing where none is open.
    pub open spec fn buffer(self, op: OperationModel) -> StorageModel {
        match self.pending {
            Some(ops) => StorageModel { pending: Some(ops.push(op)), ..self },
            None => self,
        }
    }

    /// Appends `ops` to the open transaction one after another.
    pub open spec fn buffer_all(self, ops: Seq<OperationModel>) -> StorageModel
        decreases ops.len(),
    {
        if ops.len() == 0 {
            self
        } else {
            self.buffer_all(ops.drop_last()).buffer(ops.last())
        }
    }

    /// Discards the open transaction, if any.
    pub open spec fn rollback(self) -> StorageModel {
        StorageModel { pending: None, ..self }
    }

    /// Carries out one operation as a direct call would.
    pub open spec fn apply(self, op: OperationModel) -> StorageModel {
        match op {
            OperationModel::Put(key, value) => self.set(key, value),
            OperationModel::Delete(key) => self.delete(key),
        }
    }

    /// Carries out `ops` one after another, oldest first.
    pub open spec fn apply_all(self, ops: Seq<OperationModel>) -> StorageModel
        decreases ops.len(),
    {
        if ops.len() == 0 {
            self
        } else {
            self.apply_all(ops.drop_last()).apply(ops.last())
        }
    }

    /// Closes the open transaction and carries out what it buffered; does
    /// nothing where none is open.
    pub open spec fn commit(self) -> StorageModel {
        match self.pending {
            Some(ops) => self.rollback().apply_all(ops),
            None => self,
        }
    }
}

/// A value written with `set` is what a read returns, and the read leaves the
/// store as it is, as long as the key's deadline, if it has one, has not
/// passed.
pub proof fn lemma_read_after_set(s: StorageModel, key: Seq<char>, value: Seq<char>, now: nat)
    requires
        !s.expired(key, now),
    ensures
        s.set(key, value).lookup(key, now) == Some(value),
        s.set(key, value).after_read(key, now) == s.set(key, value),
{
}

/// A delete ends what `set` wrote: the key then reads as absent. A second
/// write replaces it: the key then reads as the newer value.
pub proof fn lemma_read_after_delete_or_overwrite(
    s: StorageModel,
    key: Seq<char>,
    value: Seq<char>,
    newer: Seq<char>,
    now: nat,
)
    ensures
        s.set(key, value).delete(key).lookup(key, now) is None,
        s.set(key, value).delete(key).stored(key) is None,
        s.set(key, value).stored(key) == Some(value),
        !s.expired(key, now) ==> s.set(key, value).set(key, newer).lookup(key, now) == Some(newer),
{
}

/// What a read of `key` returns is not changed by a write, a delete or a read
/// of another key, nor by opening, filling or discarding a transaction.
pub proof fn lemma_read_unchanged_by_others(
    s: StorageModel,
    key: Seq<char>,
    now: nat,
    other: Seq<char>,
    value: Seq<char>,
    ttl: Option<nat>,
    at: nat,
    op: OperationModel,
)
    requires
        other != key,
    ensures
        s.set(other, value).lookup(key, now) == s.lookup(key, now),
        s.set_with_ttl(other, value, ttl, at).lookup(key, now) == s.lookup(key, now),
        s.delete(other).lookup(key, now) == s.lookup(key, now),
        s.after_read(other, at).lookup(key, now) == s.lookup(key, now),
        s.begin().lookup(key, now) == s.lookup(key, now),
        s.buffer(op).lookup(key, now) == s.lookup(key, now),
        s.rollback().lookup(key, now) == s.lookup(key, now),
{
}

/// A read or a sweep at an earlier moment does not change what a later read
/// of `key` returns.
pub proof fn lemma_read_unchanged_by_earlier(
    s: StorageModel,
    key: Seq<char>,
    earlier: nat,
    now: nat,
)
    requires
        earlier <= now,
    ensures
        s.after_read(key, earlier).lookup(key, now) == s.lookup(key, now),
        s.sweep(earlier).lookup(key, now) == s.lookup(key, now),
{
}

/// A key written with a time-to-live reads as absent once more than that
/// time has passed since the write; the read evicts it from both maps, and so
/// does a sweep without any read.
pub proof fn lemma_expired_key_is_gone(
    s: StorageModel,
    key: Seq<char>,
    value: Seq<char>,
    ttl: nat,
    at: nat,
    later: nat,
)
    requires
        later > at + ttl,
    ensures
        s.set_with_ttl(key, value, Some(ttl), at).lookup(key, later) is None,
        !s.set_with_ttl(key, value, Some(ttl), at).after_read(key, later).store.contains_key(key),
        !s.set_with_ttl(key, value, Some(ttl), at).after_read(key, later).deadlines.contains_key(
            key,
        ),
        !s.set_with_ttl(key, value, Some(ttl), at).sweep(later).store.contains_key(key),
        !s.set_with_ttl(key, value, Some(ttl), at).sweep(later).deadlines.contains_key(key),
{
}

/// Until its time-to-live has passed, a key reads as the value written, and
/// neither the read nor a sweep removes it.
pub proof fn lemma_live_key_stays(
    s: StorageModel,
    key: Seq<char>,
    value: Seq<char>,
    ttl: nat,
    at: nat,
    later: nat,
)
    requires
        later <= at + ttl,
    ensures
        s.set_with_ttl(key, value, Some(ttl), at).lookup(key, later) == Some(value),
        s.set_with_ttl(key, value, Some(ttl), at).after_read(key, later) == s.set_with_ttl(
            key,
            value,
            Some(ttl),
            at,
        ),
        s.set_with_ttl(key, value, Some(ttl), at).sweep(later).lookup(key, later) == Some(value),
{
}

/// A write without a time-to-live clears the key's deadline: from then on no
/// read and no sweep, at whatever moment, takes the key away.
pub proof fn lemma_cleared_deadline_never_expires(
    s: StorageModel,
    key: Seq<char>,
    value: Seq<char>,
    at: nat,
    later: nat,
)
    ensures
        !s.set_with_ttl(key, value, None, at).deadlines.contains_key(key),
        s.set_with_ttl(key, value, None, at).lookup(key, later) == Some(value),
        s.set_with_ttl(key, value, None, at).after_read(key, later) == s.set_with_ttl(
            key,
            value,
            None,
            at,
        ),
        s.set_with_ttl(key, value, None, at).sweep(later).lookup(key, later) == Some(value),
{
}

/// A sweep leaves no expired key behind in either map, and keeps every other
/// key with its value and deadline.
pub proof fn lemma_sweep(s: StorageModel, key: Seq<char>, now: nat)
    ensures
        s.expired(key, now) ==> !s.sweep(now).store.contains_key(key) && !s.sweep(
            now,
        ).deadlines.contains_key(key),
        !s.expired(key, now) ==> s.sweep(now).stored(key) == s.stored(key) && (s.sweep(
            now,
        ).deadlines.contains_key(key) <==> s.deadlines.contains_key(key)),
        !s.expired(key, now) && s.deadlines.contains_key(key) ==> s.sweep(now).deadlines[key]
            == s.deadlines[key],
        s.sweep(now).expired_keys(now) == Set::<Seq<char>>::empty(),
        s.sweep(now).pending == s.pending,
{
    assert(s.sweep(now).expired_keys(now) =~= Set::<Seq<char>>::empty());
}

/// Buffering touches neither map. With a transaction open it appends to what
/// is pending; with none open it does nothing at all.
pub proof fn lemma_buffer_all(s: StorageModel, ops: Seq<OperationModel>)
    ensures
        s.buffer_all(ops).store == s.store,
        s.buffer_all(ops).deadlines == s.deadlines,
        s.buffer_all(ops).pending == match s.pending {
            Some(pending) => Some(pending + ops),
            None => None,
        },
    decreases ops.len(),
{
    if ops.len() > 0 {
        lemma_buffer_all(s, ops.drop_last());
        if let Some(pending) = s.pending {
            assert((pending + ops.drop_last()).push(ops.last()) =~= pending + ops);
        }
    } else {
        if let Some(pending) = s.pending {
            assert(pending + ops =~= pending);
        }
    }
}

/// Committing a transaction that buffered two writes leaves the store as the
/// two direct writes would, the first before the second, with no transaction
/// open.
pub proof fn lemma_commit_two_writes(
    s: StorageModel,
    k1: Seq<char>,
    v1: Seq<char>,
    k2: Seq<char>,
    v2: Seq<char>,
)
    ensures
        s.begin().buffer(OperationModel::Put(k1, v1)).buffer(OperationModel::Put(k2, v2)).commit()
            == s.rollback().set(k1, v1).set(k2, v2),
{
    let first = OperationModel::Put(k1, v1);
    let second = OperationModel::Put(k2, v2);
    let ops = Seq::<OperationModel>::empty().push(first).push(second);
    let base = s.rollback();
    assert(s.begin().buffer(first).buffer(second).pending == Some(ops));
    assert(ops.drop_last() =~= Seq::<OperationModel>::empty().push(first));
    assert(ops.drop_last().drop_last() =~= Seq::<OperationModel>::empty());
    assert(base.apply_all(ops.drop_last().drop_last()) == base);
    assert(base.apply_all(ops.drop_last()) == base.apply(first));
    assert(base.apply_all(ops) == base.apply(first).apply(second));
    assert(s.begin().buffer(first).buffer(second).rollback() == base);
}

/// After a transaction that buffered a write to `k1` and then a write to
/// `k2` was committed, each key reads as the value written to it, provided
/// that its deadline, if it has one, has not passed and that the second write
/// did not overwrite the first.
pub proof fn lemma_read_after_commit(
    s: StorageModel,
    k1: Seq<char>,
    v1: Seq<char>,
    k2: Seq<char>,
    v2: Seq<char>,
    now: nat,
)
    requires
        !s.expired(k1, now),
        !s.expired(k2, now),
        k1 != k2 || v1 == v2,
    ensures
        ({
            let first = OperationModel::Put(k1, v1);
            let second = OperationModel::Put(k2, v2);
            let committed = s.begin().buffer(first).buffer(second).commit();
            committed.lookup(k1, now) == Some(v1) && committed.lookup(k2, now) == Some(v2)
        }),
{
    lemma_commit_two_writes(s, k1, v1, k2, v2);
}

/// Opening a transaction again, with no commit or rollback in between,
/// discards whatever was buffered since the first `begin`.
pub proof fn lemma_begin_discards(s: StorageModel, ops: Seq<OperationModel>)
    ensures
        s.begin().buffer_all(ops).begin() == s.begin(),
        s.begin().buffer_all(ops).begin().commit() == s.rollback(),
{
    lemma_buffer_all(s.begin(), ops);
    assert(s.begin().rollback().apply_all(Seq::empty()) == s.rollback());
}

/// A rollback after any buffering leaves both maps as they were before the
/// transaction was opened, so every key reads as it did.
pub proof fn lemma_rollback_restores(
    s: StorageModel,
    ops: Seq<OperationModel>,
    key: Seq<char>,
    now: nat,
)
    ensures
        s.begin().buffer_all(ops).rollback() == s.rollback(),
        s.begin().buffer_all(ops).rollback().store == s.store,
        s.begin().buffer_all(ops).rollback().deadlines == s.deadlines,
        s.begin().buffer_all(ops).rollback().lookup(key, now) == s.lookup(key, now),
{
    lemma_buffer_all(s.begin(), ops);
}

/// A store restored from a primary map reads every key of the map as its
/// value, at whatever moment, and every other key as absent.
pub proof fn lemma_restored_reads(store: Map<Seq<char>, Seq<char>>, key: Seq<char>, now: nat)
    ensures
        StorageModel::restored(store).lookup(key, now) == if store.contains_key(key) {
            Some(store[key])
        } else {
            None
        },
        StorageModel::restored(store).after_read(key, now) == StorageModel::restored(store),
        StorageModel::restored(store).sweep(now).store == store,
{
    let restored = StorageModel::restored(store);
    assert(restored.expired_keys(now) =~= Set::<Seq<char>>::empty());
    assert(restored.sweep(now).store =~= store);
}

/// With no transaction open, a commit changes nothing.
pub proof fn lemma_commit_without_transaction(s: StorageModel)
    requires
        s.pending is None,
    ensures
        s.commit() == s,
{
}

/// A commit carries out exactly what was buffered since `begin`, in order,
/// and closes the transaction.
pub proof fn lemma_commit_applies_buffered(s: StorageModel, ops: Seq<OperationModel>)
    ensures
        s.begin().buffer_all(ops).commit() == s.rollback().apply_all(ops),
{
    lemma_buffer_all(s.begin(), ops);
    assert(Seq::<OperationModel>::empty() + ops =~= ops);
}

} // verus!
