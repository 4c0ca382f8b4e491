//! The transactional keyspace: opens the model store, vends read and write
//! transactions with snapshot nonces, opens partitions, and forwards
//! introspection. The keyspace-wide writer lock of single-writer isolation
//! is modeled by the `writer_active` flag: `write_tx` acquires it before
//! reading the instant and a commit or rollback releases it, so while a
//! write transaction lives, no second one can be started and no single-key
//! write can interleave — no two write transactions ever observe the same
//! instant.

use crate::name::is_valid_name;
use crate::store::{Keyspace, Partition, PartitionView, Version, VersionView};
use crate::tx::oracle::Oracle;
use crate::tx::partition::{PartitionHandle, TransactionalPartitionHandle};
use crate::tx::read_tx::ReadTransaction;
use crate::tx::write_tx::WriteTransaction;
use vstd::prelude::*;
use vstd::string::StringSliceAdditionalSpecFns;

verus! {

/// How far a journal persist goes: into the program's buffers, to the OS
/// with file data flushed, or with data and metadata flushed.
#[derive(Clone, Copy, Debug, PartialEq, Eq, Structural)]
pub enum PersistMode {
    Buffer,
    SyncData,
    SyncAll,
}

/// The supported isolation modes: one global writer lock, or serializable
/// snapshot isolation with commit-time conflict validation.
#[derive(Clone, Copy, Debug, PartialEq, Eq, Structural)]
pub enum IsolationMode {
    SingleWriter,
    SerializableSnapshot,
}

/// Configuration of a transactional keyspace.
pub struct Config {
    /// The keyspace directory (used by the surrounding storage layer).
    pub path: String,
    /// When false, every write transaction defaults to `Buffer` durability.
    pub manual_journal_persist: bool,
    /// The isolation mode of write transactions.
    pub isolation: IsolationMode,
}

/// Options for creating a partition.
#[derive(Default)]
pub struct PartitionCreateOptions {}

/// Transaction keyspace.
pub struct TransactionalKeyspace {
    pub inner: Keyspace,
    pub isolation: IsolationMode,
    pub orc: Oracle,
    /// Whether the keyspace-wide writer lock is held by a live write
    /// transaction (single-writer isolation only). Starting a write
    /// transaction takes it; committing or rolling back releases it.
    pub writer_active: bool,
}

/// Alias for [`TransactionalKeyspace`]
pub type TxKeyspace = TransactionalKeyspace;

/// Whether some alive partition is named `name`.
pub open spec fn partition_with_name(parts: Seq<PartitionView>, name: Seq<char>) -> bool {
    exists|i: int| 0 <= i < parts.len() && (#[trigger] parts[i]).alive && parts[i].name == name
}

/// The names of the alive partitions, in creation order.
pub open spec fn alive_names(parts: Seq<PartitionView>) -> Seq<Seq<char>>
    decreases parts.len(),
{
    if parts.len() == 0 {
        Seq::empty()
    } else if parts.last().alive {
        alive_names(parts.drop_last()).push(parts.last().name)
    } else {
        alive_names(parts.drop_last())
    }
}

/// The journal bytes held by a run of versions.
pub open spec fn versions_bytes(vs: Seq<VersionView>) -> int
    decreases vs.len(),
{
    if vs.len() == 0 {
        0
    } else {
        versions_bytes(vs.drop_last()) + vs.last().key.len() + (match vs.last().value {
            Some(b) => b.len() as int,
            None => 0,
        })
    }
}

/// The write-buffer bytes of the partitions: alive partitions' version logs.
pub open spec fn buffer_bytes(parts: Seq<PartitionView>) -> int
    decreases parts.len(),
{
    if parts.len() == 0 {
        0
    } else if parts.last().alive {
        buffer_bytes(parts.drop_last()) + versions_bytes(parts.last().versions)
    } else {
        buffer_bytes(parts.drop_last())
    }
}

impl TxKeyspace {
    /// Opens a keyspace.
    ///
    /// The model store starts empty; recovering an existing keyspace
    /// directory is the surrounding storage layer's work.
    pub fn open(config: Config) -> (r: TxKeyspace)
        ensures
            r.inner.wf(),
            r.inner.partitions.deep_view() == Seq::<PartitionView>::empty(),
            r.inner.instant == 0,
            r.inner.persisted_instant == 0,
            r.inner.manual_journal_persist == config.manual_journal_persist,
            r.inner.snapshot_tracker@ == vstd::multiset::Multiset::<u64>::empty(),
            r.isolation == config.isolation,
            !r.writer_active,
    {
        TxKeyspace {
            inner: Keyspace::create(config.manual_journal_persist),
            isolation: config.isolation,
            orc: Oracle {  },
            writer_active: false,
        }
    }

    /// Starts a new writeable transaction.
    ///
    /// Under single-writer isolation the keyspace-wide writer lock is
    /// acquired before the instant is read and held until the transaction
    /// commits or rolls back: no second write transaction can start and no
    /// single-key write can run meanwhile, so no two write transactions ever
    /// observe the same instant. Under serializable-snapshot isolation the
    /// oracle's serialize point is only passed to drain in-flight commits
    /// before the instant is read, and writers proceed concurrently. Unless
    /// the keyspace asks for manual journal persistence, the transaction's
    /// durability defaults to `Buffer`.
    pub fn write_tx(&mut self) -> (tx: WriteTransaction)
        requires
            old(self).isolation == IsolationMode::SingleWriter ==> !old(self).writer_active,
        ensures
            final(self).writer_active == (old(self).isolation == IsolationMode::SingleWriter
                || old(self).writer_active),
            final(self).inner.partitions == old(self).inner.partitions,
            final(self).inner.instant == old(self).inner.instant,
            final(self).inner.persisted_instant == old(self).inner.persisted_instant,
            final(self).inner.manual_journal_persist == old(self).inner.manual_journal_persist,
            final(self).isolation == old(self).isolation,
            final(self).inner.snapshot_tracker@ == old(self).inner.snapshot_tracker@.insert(
                old(self).inner.instant,
            ),
            tx.nonce.instant == old(self).inner.instant,
            tx.writes.deep_view() == Seq::<crate::tx::write_tx::WriteOpView>::empty(),
            tx.reads.deep_view() == Seq::<crate::tx::write_tx::ReadKeyView>::empty(),
            tx.durability == (if old(self).inner.manual_journal_persist {
                None
            } else {
                Some(PersistMode::Buffer)
            }),
    {
        match self.isolation {
            IsolationMode::SingleWriter => {
                self.writer_active = true;
            },
            IsolationMode::SerializableSnapshot => {},
        }
        let instant = self.inner.instant();
        let nonce = self.inner.snapshot_tracker.register(instant);
        let mut tx = WriteTransaction { nonce, durability: None, writes: Vec::new(), reads: Vec::new() };
        if !self.inner.manual_journal_persist {
            tx = tx.durability(Some(PersistMode::Buffer));
        }
        proof {
            assert(tx.writes.deep_view() =~= Seq::<crate::tx::write_tx::WriteOpView>::empty());
            assert(tx.reads.deep_view() =~= Seq::<crate::tx::write_tx::ReadKeyView>::empty());
        }
        tx
    }

    /// Starts a new read-only transaction: a snapshot nonce at the current
    /// instant, taken without any lock.
    pub fn read_tx(&mut self) -> (tx: ReadTransaction)
        ensures
            final(self).writer_active == old(self).writer_active,
            final(self).inner.partitions == old(self).inner.partitions,
            final(self).inner.instant == old(self).inner.instant,
            final(self).inner.persisted_instant == old(self).inner.persisted_instant,
            final(self).inner.manual_journal_persist == old(self).inner.manual_journal_persist,
            final(self).isolation == old(self).isolation,
            final(self).inner.snapshot_tracker@ == old(self).inner.snapshot_tracker@.insert(
                old(self).inner.instant,
            ),
            tx.nonce.instant == old(self).inner.instant,
    {
        let instant = self.inner.instant();
        let nonce = self.inner.snapshot_tracker.register(instant);
        ReadTransaction { nonce }
    }

    /// Flushes the journal up to the current instant with the given
    /// durability. Persisting affects durability only, not consistency.
    pub fn persist(&mut self, mode: PersistMode)
        requires
            old(self).inner.wf(),
        ensures
            final(self).writer_active == old(self).writer_active,
            final(self).inner.wf(),
            final(self).inner.persisted_instant == old(self).inner.instant,
            final(self).inner.partitions == old(self).inner.partitions,
            final(self).inner.instant == old(self).inner.instant,
            final(self).inner.manual_journal_persist == old(self).inner.manual_journal_persist,
            final(self).inner.snapshot_tracker == old(self).inner.snapshot_tracker,
            final(self).isolation == old(self).isolation,
    {
        let _ = mode;
        self.inner.persisted_instant = self.inner.instant;
    }

    /// Creates or opens a keyspace partition.
    ///
    /// The name must be a legal partition name — that is the caller's
    /// precondition, not a runtime error.
    pub fn open_partition(
        &mut self,
        name: &str,
        create_options: PartitionCreateOptions,
    ) -> (r: TransactionalPartitionHandle)
        requires
            old(self).inner.wf(),
            is_valid_name(name.spec_bytes()),
        ensures
            final(self).writer_active == old(self).writer_active,
            final(self).inner.wf(),
            final(self).inner.instant == old(self).inner.instant,
            final(self).inner.persisted_instant == old(self).inner.persisted_instant,
            final(self).inner.manual_journal_persist == old(self).inner.manual_journal_persist,
            final(self).inner.snapshot_tracker == old(self).inner.snapshot_tracker,
            final(self).isolation == old(self).isolation,
            r.inner.id < final(self).inner.partitions.deep_view().len(),
            final(self).inner.partitions.deep_view()[r.inner.id as int].alive,
            final(self).inner.partitions.deep_view()[r.inner.id as int].name == name@,
            r.inner.name@ == name@,
            partition_with_name(old(self).inner.partitions.deep_view(), name@) ==> {
                &&& final(self).inner.partitions == old(self).inner.partitions
                &&& old(self).inner.partitions.deep_view()[r.inner.id as int].alive
                &&& old(self).inner.partitions.deep_view()[r.inner.id as int].name == name@
            },
            !partition_with_name(old(self).inner.partitions.deep_view(), name@) ==> {
                &&& r.inner.id == old(self).inner.partitions.deep_view().len()
                &&& final(self).inner.partitions.deep_view() == old(
                    self,
                ).inner.partitions.deep_view().push(
                    PartitionView { name: name@, alive: true, versions: Seq::empty() },
                )
            },
    {
        let _ = create_options;
        let ghost parts = self.inner.partitions.deep_view();
        let n = self.inner.partitions.len();
        let mut i: usize = 0;
        while i < n
            invariant
                0 <= i <= n == parts.len(),
                *self == *old(self),
                self.inner.wf(),
                parts == self.inner.partitions.deep_view(),
                forall|j: int| 0 <= j < i ==> !((#[trigger] parts[j]).alive && parts[j].name == name@),
            decreases n - i,
        {
            let part = &self.inner.partitions[i];
            proof {
                assert(parts[i as int] == self.inner.partitions@[i as int]@);
            }
            if part.alive {
                if crate::codec::str_eq(part.name.as_str(), name) {
                    proof {
                        assert(partition_with_name(parts, name@)) by {
                            assert(parts[i as int].alive && parts[i as int].name == name@);
                        }
                    }
                    return TransactionalPartitionHandle {
                        inner: PartitionHandle { id: i, name: part.name.as_str().to_owned() },
                    };
                }
            }
            i += 1;
        }
        let partition = Partition { name: name.to_owned(), alive: true, versions: Vec::new() };
        let ghost pv = partition@;
        self.inner.partitions.push(partition);
        proof {
            assert(pv =~~= (PartitionView { name: name@, alive: true, versions: Seq::empty() }));
            assert(self.inner.partitions.deep_view() =~~= parts.push(pv));
        }
        TransactionalPartitionHandle { inner: PartitionHandle { id: n, name: name.to_owned() } }
    }

    /// Returns the amount of partitions.
    pub fn partition_count(&self) -> (r: usize)
        ensures
            r == alive_names(self.inner.partitions.deep_view()).len(),
    {
        let ghost parts = self.inner.partitions.deep_view();
        let n = self.inner.partitions.len();
        let mut count: usize = 0;
        let mut i: usize = 0;
        while i < n
            invariant
                0 <= i <= n == parts.len(),
                parts == self.inner.partitions.deep_view(),
                count == alive_names(parts.take(i as int)).len(),
                count <= i,
            decreases n - i,
        {
            proof {
                assert(parts.take(i + 1).drop_last() =~= parts.take(i as int));
                assert(parts.take(i + 1).last() == parts[i as int]);
                assert(parts[i as int] == self.inner.partitions@[i as int]@);
            }
            if self.inner.partitions[i].alive {
                count += 1;
            }
            i += 1;
        }
        proof {
            assert(parts.take(n as int) =~= parts);
        }
        count
    }

    /// Gets a list of all partition names in the keyspace.
    pub fn list_partitions(&self) -> (r: Vec<String>)
        ensures
            r.deep_view() == alive_names(self.inner.partitions.deep_view()),
    {
        let ghost parts = self.inner.partitions.deep_view();
        let n = self.inner.partitions.len();
        let mut out: Vec<String> = Vec::new();
        let mut i: usize = 0;
        proof {
            assert(out.deep_view() =~= alive_names(parts.take(0)));
            assert(parts.take(0) =~= Seq::<PartitionView>::empty());
        }
        while i < n
            invariant
                0 <= i <= n == parts.len(),
                parts == self.inner.partitions.deep_view(),
                out.deep_view() == alive_names(parts.take(i as int)),
            decreases n - i,
        {
            let ghost prev = out.deep_view();
            proof {
                assert(parts.take(i + 1).drop_last() =~= parts.take(i as int));
                assert(parts.take(i + 1).last() == parts[i as int]);
                assert(parts[i as int] == self.inner.partitions@[i as int]@);
            }
            let part = &self.inner.partitions[i];
            if part.alive {
                out.push(part.name.as_str().to_owned());
                proof {
                    assert(out.deep_view() =~= prev.push(parts[i as int].name));
                }
            }
            i += 1;
        }
        proof {
            assert(parts.take(n as int) =~= parts);
        }
        out
    }

    /// Returns `true` if the partition with the given name exists.
    pub fn partition_exists(&self, name: &str) -> (r: bool)
        ensures
            r == partition_with_name(self.inner.partitions.deep_view(), name@),
    {
        let ghost parts = self.inner.partitions.deep_view();
        let n = self.inner.partitions.len();
        let mut i: usize = 0;
        while i < n
            invariant
                0 <= i <= n == parts.len(),
                parts == self.inner.partitions.deep_view(),
                forall|j: int| 0 <= j < i ==> !((#[trigger] parts[j]).alive && parts[j].name == name@),
            decreases n - i,
        {
            let part = &self.inner.partitions[i];
            proof {
                assert(parts[i as int] == self.inner.partitions@[i as int]@);
            }
            if part.alive {
                if crate::codec::str_eq(part.name.as_str(), name) {
                    return true;
                }
            }
            i += 1;
        }
        false
    }

    /// Destroys the partition, removing it from the keyspace.
    pub fn delete_partition(&mut self, handle: TransactionalPartitionHandle)
        requires
            old(self).inner.wf(),
            handle.inner.id < old(self).inner.partitions.deep_view().len(),
        ensures
            final(self).writer_active == old(self).writer_active,
            final(self).inner.wf(),
            final(self).inner.partitions.deep_view() == old(self).inner.partitions.deep_view().update(
                handle.inner.id as int,
                PartitionView {
                    name: old(self).inner.partitions.deep_view()[handle.inner.id as int].name,
                    alive: false,
                    versions: old(
                        self,
                    ).inner.partitions.deep_view()[handle.inner.id as int].versions,
                },
            ),
            final(self).inner.instant == old(self).inner.instant,
            final(self).inner.persisted_instant == old(self).inner.persisted_instant,
            final(self).inner.manual_journal_persist == old(self).inner.manual_journal_persist,
            final(self).inner.snapshot_tracker == old(self).inner.snapshot_tracker,
            final(self).isolation == old(self).isolation,
    {
        let pid = handle.inner.id;
        let part = &mut self.inner.partitions[pid];
        part.alive = false;
        proof {
            assert(self.inner.partitions.deep_view() =~~= old(
                self,
            ).inner.partitions.deep_view().update(
                pid as int,
                PartitionView {
                    name: old(self).inner.partitions.deep_view()[pid as int].name,
                    alive: false,
                    versions: old(self).inner.partitions.deep_view()[pid as int].versions,
                },
            ));
        }
    }

    /// Returns the current write buffer size: the bytes held by the alive
    /// partitions' version logs.
    pub fn write_buffer_size(&self) -> (r: u64)
        requires
            buffer_bytes(self.inner.partitions.deep_view()) <= u64::MAX,
        ensures
            r == buffer_bytes(self.inner.partitions.deep_view()),
    {
        let ghost parts = self.inner.partitions.deep_view();
        let n = self.inner.partitions.len();
        let mut total: u64 = 0;
        let mut i: usize = 0;
        proof {
            assert(parts.take(0) =~= Seq::<PartitionView>::empty());
            lemma_buffer_bytes_bounds(parts, 0);
        }
        while i < n
            invariant
                0 <= i <= n == parts.len(),
                parts == self.inner.partitions.deep_view(),
                buffer_bytes(parts) <= u64::MAX,
                total == buffer_bytes(parts.take(i as int)),
            decreases n - i,
        {
            proof {
                assert(parts.take(i + 1).drop_last() =~= parts.take(i as int));
                assert(parts.take(i + 1).last() == parts[i as int]);
                assert(parts[i as int] == self.inner.partitions@[i as int]@);
                lemma_buffer_bytes_monotone(parts, i + 1);
                lemma_buffer_bytes_nonneg(parts.take(i as int));
            }
            let part = &self.inner.partitions[i];
            if part.alive {
                let vb = sum_version_bytes(&part.versions);
                proof {
                    lemma_versions_bytes_nonneg(parts[i as int].versions);
                }
                total = total + vb;
            }
            i += 1;
        }
        proof {
            assert(parts.take(n as int) =~= parts);
        }
        total
    }

    /// Returns the amount of journals on disk: the model keyspace keeps one
    /// active journal and never rotates it.
    pub fn journal_count(&self) -> (r: usize)
        ensures
            r == 1,
    {
        1
    }

    /// Returns the disk space usage of the entire keyspace: in the model,
    /// the journal bytes of the alive partitions.
    pub fn disk_space(&self) -> (r: u64)
        requires
            buffer_bytes(self.inner.partitions.deep_view()) <= u64::MAX,
        ensures
            r == buffer_bytes(self.inner.partitions.deep_view()),
    {
        self.write_buffer_size()
    }
}

/// Journal bytes are never negative.
proof fn lemma_versions_bytes_nonneg(vs: Seq<VersionView>)
    ensures
        versions_bytes(vs) >= 0,
    decreases vs.len(),
{
    if vs.len() > 0 {
        lemma_versions_bytes_nonneg(vs.drop_last());
    }
}

/// Buffer bytes are never negative.
proof fn lemma_buffer_bytes_nonneg(parts: Seq<PartitionView>)
    ensures
        buffer_bytes(parts) >= 0,
    decreases parts.len(),
{
    if parts.len() > 0 {
        lemma_buffer_bytes_nonneg(parts.drop_last());
        lemma_versions_bytes_nonneg(parts.last().versions);
    }
}

/// A prefix of the partitions holds at most the whole buffer.
proof fn lemma_buffer_bytes_monotone(parts: Seq<PartitionView>, i: int)
    requires
        0 <= i <= parts.len(),
    ensures
        buffer_bytes(parts.take(i)) <= buffer_bytes(parts),
    decreases parts.len() - i,
{
    if i == parts.len() {
        assert(parts.take(i) =~= parts);
    } else {
        lemma_buffer_bytes_monotone(parts, i + 1);
        assert(parts.take(i + 1).drop_last() =~= parts.take(i));
        assert(parts.take(i + 1).last() == parts[i]);
        lemma_versions_bytes_nonneg(parts[i].versions);
    }
}

/// Helper for `lemma_buffer_bytes_monotone` callers at the loop entry.
proof fn lemma_buffer_bytes_bounds(parts: Seq<PartitionView>, i: int)
    requires
        0 <= i <= parts.len(),
    ensures
        buffer_bytes(parts.take(i)) <= buffer_bytes(parts),
        buffer_bytes(parts.take(i)) >= 0,
{
    lemma_buffer_bytes_monotone(parts, i);
    lemma_buffer_bytes_nonneg(parts.take(i));
}

/// Sums the journal bytes of one version log.
fn sum_version_bytes(versions: &Vec<Version>) -> (r: u64)
    requires
        versions_bytes(versions.deep_view()) <= u64::MAX,
    ensures
        r == versions_bytes(versions.deep_view()),
{
    let ghost vs = versions.deep_view();
    let n = versions.len();
    let mut total: u64 = 0;
    let mut i: usize = 0;
    proof {
        assert(vs.take(0) =~= Seq::<VersionView>::empty());
    }
    while i < n
        invariant
            0 <= i <= n == vs.len(),
            vs == versions.deep_view(),
            versions_bytes(vs) <= u64::MAX,
            total == versions_bytes(vs.take(i as int)),
        decreases n - i,
    {
        proof {
            assert(vs.take(i + 1).drop_last() =~= vs.take(i as int));
            assert(vs.take(i + 1).last() == vs[i as int]);
            assert(vs[i as int] == versions@[i as int]@);
            lemma_versions_bytes_prefix(vs, i + 1);
            lemma_versions_bytes_nonneg(vs.take(i as int));
        }
        let v = &versions[i];
        let klen = v.key.len();
        let vlen = match &v.value {
            Some(b) => b.len(),
            None => 0,
        };
        total = total + (klen as u64) + (vlen as u64);
        i += 1;
    }
    proof {
        assert(vs.take(n as int) =~= vs);
    }
    total
}

/// A prefix of a version log holds at most the whole log's bytes.
proof fn lemma_versions_bytes_prefix(vs: Seq<VersionView>, i: int)
    requires
        0 <= i <= vs.len(),
    ensures
        versions_bytes(vs.take(i)) <= versions_bytes(vs),
    decreases vs.len() - i,
{
    if i == vs.len() {
        assert(vs.take(i) =~= vs);
    } else {
        lemma_versions_bytes_prefix(vs, i + 1);
        assert(vs.take(i + 1).drop_last() =~= vs.take(i));
        assert(vs.take(i + 1).last() == vs[i]);
    }
}

} // verus!
