//! Access to a partition of a transactional keyspace: point reads from the
//! latest committed snapshot, and atomic single-key writes and
//! read-modify-write operations serialized by the keyspace's writer lock:
//! each mutation takes the keyspace exclusively for its whole duration, and
//! under single-writer isolation it also waits for the lock — so it cannot
//! run while a write transaction is live.

use crate::store::{latest_at, PartitionView, VersionView};
use crate::tx::keyspace::{IsolationMode, TransactionalKeyspace};
use crate::value::{MAX_KEY_LEN, MAX_VALUE_LEN};
use vstd::prelude::*;

verus! {

/// The non-transactional handle of a partition: its slot in the keyspace and
/// its name (also the partition's directory under the keyspace folder).
pub struct PartitionHandle {
    pub id: usize,
    pub name: String,
}

/// Access to a partition of a transactional keyspace.
pub struct TransactionalPartitionHandle {
    pub inner: PartitionHandle,
}

/// Alias for [`TransactionalPartitionHandle`]
pub type TxPartitionHandle = TransactionalPartitionHandle;

/// The view of an owned optional byte string.
pub open spec fn opt_view(o: Option<Vec<u8>>) -> Option<Seq<u8>> {
    match o {
        Some(v) => Some(v@),
        None => None,
    }
}

/// The partitions after a read-modify-write of `key` in partition `pid`:
/// an insert when the update is `Some`, a removal when it is `None` and the
/// key was present, and unchanged when a missing key stays absent.
pub open spec fn rmw_result(
    parts: Seq<PartitionView>,
    pid: int,
    key: Seq<u8>,
    prev: Option<Seq<u8>>,
    upd: Option<Seq<u8>>,
    seqno: u64,
) -> Seq<PartitionView> {
    if upd is Some || prev is Some {
        parts.update(
            pid,
            PartitionView {
                name: parts[pid].name,
                alive: parts[pid].alive,
                versions: parts[pid].versions.push(VersionView { key, seqno, value: upd }),
            },
        )
    } else {
        parts
    }
}

/// Whether a read-modify-write advanced the instant.
pub open spec fn rmw_instant(instant: u64, prev: Option<Seq<u8>>, upd: Option<Seq<u8>>) -> u64 {
    if upd is Some || prev is Some {
        (instant + 1) as u64
    } else {
        instant
    }
}

impl TransactionalPartitionHandle {
    /// The partition's directory, relative to the keyspace folder.
    pub fn path(&self) -> (r: String)
        ensures
            r@ == self.inner.name@,
    {
        self.inner.name.as_str().to_owned()
    }

    /// Allows access to the inner partition handle, escaping the
    /// transactional context.
    pub fn inner(&self) -> (r: &PartitionHandle)
        ensures
            r == &self.inner,
    {
        &self.inner
    }

    /// Inserts a key-value pair into the partition, as its own atomic write.
    pub fn insert(&self, keyspace: &mut TransactionalKeyspace, key: Vec<u8>, value: Vec<u8>)
        requires
            old(keyspace).inner.wf(),
            self.inner.id < old(keyspace).inner.partitions.deep_view().len(),
            1 <= key@.len() <= MAX_KEY_LEN,
            value@.len() <= MAX_VALUE_LEN,
            old(keyspace).inner.instant < u64::MAX,
            old(keyspace).isolation == IsolationMode::SingleWriter ==> !old(
                keyspace,
            ).writer_active,
        ensures
            final(keyspace).writer_active == old(keyspace).writer_active,
            final(keyspace).inner.wf(),
            final(keyspace).inner.instant == old(keyspace).inner.instant + 1,
            final(keyspace).inner.partitions.deep_view() == rmw_result(
                old(keyspace).inner.partitions.deep_view(),
                self.inner.id as int,
                key@,
                None,
                Some(value@),
                (old(keyspace).inner.instant + 1) as u64,
            ),
            final(keyspace).inner.snapshot_tracker == old(keyspace).inner.snapshot_tracker,
            final(keyspace).inner.persisted_instant == old(keyspace).inner.persisted_instant,
            final(keyspace).inner.manual_journal_persist == old(
                keyspace,
            ).inner.manual_journal_persist,
            final(keyspace).isolation == old(keyspace).isolation,
    {
        let seqno = keyspace.inner.instant + 1;
        keyspace.inner.instant = seqno;
        keyspace.inner.append_version(self.inner.id, key, Some(value), seqno);
    }

    /// Removes an item from the partition, as its own atomic write. The
    /// removal is recorded as a tombstone version.
    pub fn remove(&self, keyspace: &mut TransactionalKeyspace, key: Vec<u8>)
        requires
            old(keyspace).inner.wf(),
            self.inner.id < old(keyspace).inner.partitions.deep_view().len(),
            1 <= key@.len() <= MAX_KEY_LEN,
            old(keyspace).inner.instant < u64::MAX,
            old(keyspace).isolation == IsolationMode::SingleWriter ==> !old(
                keyspace,
            ).writer_active,
        ensures
            final(keyspace).writer_active == old(keyspace).writer_active,
            final(keyspace).inner.wf(),
            final(keyspace).inner.instant == old(keyspace).inner.instant + 1,
            final(keyspace).inner.partitions.deep_view() == rmw_result(
                old(keyspace).inner.partitions.deep_view(),
                self.inner.id as int,
                key@,
                Some(Seq::empty()),
                None,
                (old(keyspace).inner.instant + 1) as u64,
            ),
            final(keyspace).inner.snapshot_tracker == old(keyspace).inner.snapshot_tracker,
            final(keyspace).inner.persisted_instant == old(keyspace).inner.persisted_instant,
            final(keyspace).inner.manual_journal_persist == old(
                keyspace,
            ).inner.manual_journal_persist,
            final(keyspace).isolation == old(keyspace).isolation,
    {
        let seqno = keyspace.inner.instant + 1;
        keyspace.inner.instant = seqno;
        keyspace.inner.append_version(self.inner.id, key, None, seqno);
    }

    /// Retrieves an item from the partition, reading from the latest
    /// committed snapshot.
    pub fn get(&self, keyspace: &TransactionalKeyspace, key: &Vec<u8>) -> (r: Option<Vec<u8>>)
        requires
            self.inner.id < keyspace.inner.partitions.deep_view().len(),
        ensures
            opt_view(r) == latest_at(
                keyspace.inner.partitions.deep_view()[self.inner.id as int].versions,
                key@,
                keyspace.inner.instant,
            ),
    {
        let r = keyspace.inner.get_at(self.inner.id, key, keyspace.inner.instant);
        proof {
            match r {
                Some(ref v) => {},
                None => {},
            }
        }
        r
    }

    /// Returns `true` if the partition contains the specified key, reading
    /// from the latest committed snapshot.
    pub fn contains_key(&self, keyspace: &TransactionalKeyspace, key: &Vec<u8>) -> (r: bool)
        requires
            self.inner.id < keyspace.inner.partitions.deep_view().len(),
        ensures
            r == latest_at(
                keyspace.inner.partitions.deep_view()[self.inner.id as int].versions,
                key@,
                keyspace.inner.instant,
            ) is Some,
    {
        let r = self.get(keyspace, key);
        match r {
            Some(_) => true,
            None => false,
        }
    }

    /// Atomically updates an item and returns the previous value.
    ///
    /// The closure sees the current value; returning `Some` stores the new
    /// value, returning `None` removes the item if it existed before.
    /// Removing a missing key is a no-op. The whole operation holds the
    /// keyspace exclusively, so no other write can interleave.
    pub fn fetch_update<F: Fn(Option<Vec<u8>>) -> Option<Vec<u8>>>(
        &self,
        keyspace: &mut TransactionalKeyspace,
        key: Vec<u8>,
        f: F,
    ) -> (prev: Option<Vec<u8>>)
        requires
            old(keyspace).inner.wf(),
            self.inner.id < old(keyspace).inner.partitions.deep_view().len(),
            1 <= key@.len() <= MAX_KEY_LEN,
            old(keyspace).inner.instant < u64::MAX,
            old(keyspace).isolation == IsolationMode::SingleWriter ==> !old(
                keyspace,
            ).writer_active,
            forall|p: Option<Vec<u8>>| #[trigger] call_requires(f, (p,)),
            forall|p: Option<Vec<u8>>, out: Option<Vec<u8>>|
                #[trigger] call_ensures(f, (p,), out) ==> (out matches Some(v) ==> v@.len()
                    <= MAX_VALUE_LEN),
        ensures
            final(keyspace).writer_active == old(keyspace).writer_active,
            final(keyspace).inner.wf(),
            opt_view(prev) == latest_at(
                old(keyspace).inner.partitions.deep_view()[self.inner.id as int].versions,
                key@,
                old(keyspace).inner.instant,
            ),
            exists|p2: Option<Vec<u8>>, upd: Option<Vec<u8>>|
                {
                    &&& opt_view(p2) == opt_view(prev)
                    &&& #[trigger] call_ensures(f, (p2,), upd)
                    &&& final(keyspace).inner.partitions.deep_view() == rmw_result(
                        old(keyspace).inner.partitions.deep_view(),
                        self.inner.id as int,
                        key@,
                        opt_view(prev),
                        opt_view(upd),
                        (old(keyspace).inner.instant + 1) as u64,
                    )
                    &&& final(keyspace).inner.instant == rmw_instant(
                        old(keyspace).inner.instant,
                        opt_view(prev),
                        opt_view(upd),
                    )
                },
            final(keyspace).inner.snapshot_tracker == old(keyspace).inner.snapshot_tracker,
            final(keyspace).inner.persisted_instant == old(keyspace).inner.persisted_instant,
            final(keyspace).inner.manual_journal_persist == old(
                keyspace,
            ).inner.manual_journal_persist,
            final(keyspace).isolation == old(keyspace).isolation,
    {
        let prev = self.get(keyspace, &key);
        let prev_for_f = clone_opt_bytes(&prev);
        let ghost gp = prev_for_f;
        let updated = f(prev_for_f);
        let ghost gupd = updated;
        match updated {
            Some(value) => {
                self.insert(keyspace, key, value);
            },
            None => {
                match &prev {
                    Some(_) => {
                        self.remove(keyspace, key);
                    },
                    None => {},
                }
            },
        }
        proof {
            assert(call_ensures(f, (gp,), gupd));
            assert(final(keyspace).inner.partitions.deep_view() =~~= rmw_result(
                old(keyspace).inner.partitions.deep_view(),
                self.inner.id as int,
                key@,
                opt_view(prev),
                opt_view(gupd),
                (old(keyspace).inner.instant + 1) as u64,
            ));
        }
        prev
    }

    /// Atomically updates an item and returns the new value. As
    /// `fetch_update`, but the closure's result is handed back.
    pub fn update_fetch<F: Fn(Option<Vec<u8>>) -> Option<Vec<u8>>>(
        &self,
        keyspace: &mut TransactionalKeyspace,
        key: Vec<u8>,
        f: F,
    ) -> (updated: Option<Vec<u8>>)
        requires
            old(keyspace).inner.wf(),
            self.inner.id < old(keyspace).inner.partitions.deep_view().len(),
            1 <= key@.len() <= MAX_KEY_LEN,
            old(keyspace).inner.instant < u64::MAX,
            old(keyspace).isolation == IsolationMode::SingleWriter ==> !old(
                keyspace,
            ).writer_active,
            forall|p: Option<Vec<u8>>| #[trigger] call_requires(f, (p,)),
            forall|p: Option<Vec<u8>>, out: Option<Vec<u8>>|
                #[trigger] call_ensures(f, (p,), out) ==> (out matches Some(v) ==> v@.len()
                    <= MAX_VALUE_LEN),
        ensures
            final(keyspace).writer_active == old(keyspace).writer_active,
            final(keyspace).inner.wf(),
            exists|p2: Option<Vec<u8>>, upd: Option<Vec<u8>>|
                {
                    &&& opt_view(p2) == latest_at(
                        old(keyspace).inner.partitions.deep_view()[self.inner.id as int].versions,
                        key@,
                        old(keyspace).inner.instant,
                    )
                    &&& #[trigger] call_ensures(f, (p2,), upd)
                    &&& opt_view(upd) == opt_view(updated)
                    &&& final(keyspace).inner.partitions.deep_view() == rmw_result(
                        old(keyspace).inner.partitions.deep_view(),
                        self.inner.id as int,
                        key@,
                        opt_view(p2),
                        opt_view(upd),
                        (old(keyspace).inner.instant + 1) as u64,
                    )
                    &&& final(keyspace).inner.instant == rmw_instant(
                        old(keyspace).inner.instant,
                        opt_view(p2),
                        opt_view(upd),
                    )
                },
            final(keyspace).inner.snapshot_tracker == old(keyspace).inner.snapshot_tracker,
            final(keyspace).inner.persisted_instant == old(keyspace).inner.persisted_instant,
            final(keyspace).inner.manual_journal_persist == old(
                keyspace,
            ).inner.manual_journal_persist,
            final(keyspace).isolation == old(keyspace).isolation,
    {
        let prev = self.get(keyspace, &key);
        let prev_for_f = clone_opt_bytes(&prev);
        let ghost gp = prev_for_f;
        let updated = f(prev_for_f);
        let ghost gupd = updated;
        let result = clone_opt_bytes(&updated);
        match updated {
            Some(value) => {
                self.insert(keyspace, key, value);
            },
            None => {
                match &prev {
                    Some(_) => {
                        self.remove(keyspace, key);
                    },
                    None => {},
                }
            },
        }
        proof {
            assert(call_ensures(f, (gp,), gupd));
            assert(final(keyspace).inner.partitions.deep_view() =~~= rmw_result(
                old(keyspace).inner.partitions.deep_view(),
                self.inner.id as int,
                key@,
                opt_view(gp),
                opt_view(gupd),
                (old(keyspace).inner.instant + 1) as u64,
            ));
        }
        result
    }

    /// Removes an item and returns its value if it existed, as one atomic
    /// operation.
    pub fn take(&self, keyspace: &mut TransactionalKeyspace, key: Vec<u8>) -> (prev: Option<
        Vec<u8>,
    >)
        requires
            old(keyspace).inner.wf(),
            self.inner.id < old(keyspace).inner.partitions.deep_view().len(),
            1 <= key@.len() <= MAX_KEY_LEN,
            old(keyspace).inner.instant < u64::MAX,
            old(keyspace).isolation == IsolationMode::SingleWriter ==> !old(
                keyspace,
            ).writer_active,
        ensures
            final(keyspace).writer_active == old(keyspace).writer_active,
            final(keyspace).inner.wf(),
            opt_view(prev) == latest_at(
                old(keyspace).inner.partitions.deep_view()[self.inner.id as int].versions,
                key@,
                old(keyspace).inner.instant,
            ),
            final(keyspace).inner.partitions.deep_view() == rmw_result(
                old(keyspace).inner.partitions.deep_view(),
                self.inner.id as int,
                key@,
                opt_view(prev),
                None,
                (old(keyspace).inner.instant + 1) as u64,
            ),
            final(keyspace).inner.instant == rmw_instant(
                old(keyspace).inner.instant,
                opt_view(prev),
                None,
            ),
            final(keyspace).inner.snapshot_tracker == old(keyspace).inner.snapshot_tracker,
            final(keyspace).inner.persisted_instant == old(keyspace).inner.persisted_instant,
            final(keyspace).inner.manual_journal_persist == old(
                keyspace,
            ).inner.manual_journal_persist,
            final(keyspace).isolation == old(keyspace).isolation,
    {
        let prev = self.fetch_update(
            keyspace,
            key,
            (|_p: Option<Vec<u8>>| -> (r: Option<Vec<u8>>)
                ensures
                    r is None,
                { None }),
        );
        prev
    }
}

/// Copies an optional byte string.
fn clone_opt_bytes(o: &Option<Vec<u8>>) -> (r: Option<Vec<u8>>)
    ensures
        opt_view(r) == (match o {
            Some(v) => Some(v@),
            None => None::<Seq<u8>>,
        }),
{
    match o {
        Some(v) => Some(crate::codec::clone_bytes(v)),
        None => None,
    }
}

} // verus!
