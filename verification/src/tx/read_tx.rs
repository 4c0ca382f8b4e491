//! Read-only transactions: a snapshot nonce, and point reads that observe
//! exactly the state at the transaction's instant — whatever commits later.

use crate::snapshot::SnapshotNonce;
use crate::store::latest_at;
use crate::tx::keyspace::TransactionalKeyspace;
use crate::tx::partition::TransactionalPartitionHandle;
use vstd::prelude::*;

verus! {

/// A read-only transaction, holding only a snapshot nonce.
pub struct ReadTransaction {
    pub nonce: SnapshotNonce,
}

impl ReadTransaction {
    /// Retrieves an item from the given partition, as of this transaction's
    /// snapshot instant.
    pub fn get(
        &self,
        keyspace: &TransactionalKeyspace,
        partition: &TransactionalPartitionHandle,
        key: &Vec<u8>,
    ) -> (r: Option<Vec<u8>>)
        requires
            partition.inner.id < keyspace.inner.partitions.deep_view().len(),
        ensures
            (match r {
                Some(v) => latest_at(
                    keyspace.inner.partitions.deep_view()[partition.inner.id as int].versions,
                    key@,
                    self.nonce.instant,
                ) == Some(v@),
                None => latest_at(
                    keyspace.inner.partitions.deep_view()[partition.inner.id as int].versions,
                    key@,
                    self.nonce.instant,
                ) is None,
            }),
    {
        keyspace.inner.get_at(partition.inner.id, key, self.nonce.instant)
    }

    /// Returns `true` if the partition contains the specified key, as of this
    /// transaction's snapshot instant.
    pub fn contains_key(
        &self,
        keyspace: &TransactionalKeyspace,
        partition: &TransactionalPartitionHandle,
        key: &Vec<u8>,
    ) -> (r: bool)
        requires
            partition.inner.id < keyspace.inner.partitions.deep_view().len(),
        ensures
            r == latest_at(
                keyspace.inner.partitions.deep_view()[partition.inner.id as int].versions,
                key@,
                self.nonce.instant,
            ) is Some,
    {
        match self.get(keyspace, partition, key) {
            Some(_) => true,
            None => false,
        }
    }

    /// Ends the transaction, releasing its snapshot nonce: the tracker no
    /// longer retains this instant on the transaction's behalf.
    pub fn close(self, keyspace: &mut TransactionalKeyspace)
        requires
            old(keyspace).inner.snapshot_tracker@.count(self.nonce.instant) > 0,
        ensures
            final(keyspace).writer_active == old(keyspace).writer_active,
            final(keyspace).inner.snapshot_tracker@ == old(
                keyspace,
            ).inner.snapshot_tracker@.remove(self.nonce.instant),
            final(keyspace).inner.partitions == old(keyspace).inner.partitions,
            final(keyspace).inner.instant == old(keyspace).inner.instant,
            final(keyspace).inner.persisted_instant == old(keyspace).inner.persisted_instant,
            final(keyspace).inner.manual_journal_persist == old(
                keyspace,
            ).inner.manual_journal_persist,
            final(keyspace).isolation == old(keyspace).isolation,
    {
        keyspace.inner.snapshot_tracker.release(self.nonce);
    }
}

} // verus!
