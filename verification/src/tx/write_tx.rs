//! Write transactions: a snapshot nonce, a buffered write set and, for
//! serializable-snapshot isolation, the read set validated at commit.

use crate::error::Error;
use crate::snapshot::SnapshotNonce;
use crate::store::{latest_at, PartitionView, VersionView};
use crate::tx::keyspace::{IsolationMode, PersistMode, TransactionalKeyspace};
use crate::tx::oracle::has_conflict;
use crate::tx::partition::TransactionalPartitionHandle;
use crate::value::{MAX_KEY_LEN, MAX_VALUE_LEN};
use vstd::prelude::*;

verus! {

/// One buffered write: an insert (`Some` bytes) or a removal (`None`).
pub struct WriteOp {
    pub partition: usize,
    pub key: Vec<u8>,
    pub value: Option<Vec<u8>>,
}

/// The mathematical model of a buffered write.
#[verifier::ext_equal]
pub ghost struct WriteOpView {
    pub partition: int,
    pub key: Seq<u8>,
    pub value: Option<Seq<u8>>,
}

impl View for WriteOp {
    type V = WriteOpView;

    open spec fn view(&self) -> WriteOpView {
        WriteOpView {
            partition: self.partition as int,
            key: self.key@,
            value: match self.value {
                Some(ref v) => Some(v@),
                None => None,
            },
        }
    }
}

impl DeepView for WriteOp {
    type V = WriteOpView;

    open spec fn deep_view(&self) -> WriteOpView {
        self.view()
    }
}

/// One recorded read, for commit-time conflict validation.
pub struct ReadKey {
    pub partition: usize,
    pub key: Vec<u8>,
}

/// The mathematical model of a recorded read.
#[verifier::ext_equal]
pub ghost struct ReadKeyView {
    pub partition: int,
    pub key: Seq<u8>,
}

impl View for ReadKey {
    type V = ReadKeyView;

    open spec fn view(&self) -> ReadKeyView {
        ReadKeyView { partition: self.partition as int, key: self.key@ }
    }
}

impl DeepView for ReadKey {
    type V = ReadKeyView;

    open spec fn deep_view(&self) -> ReadKeyView {
        self.view()
    }
}

/// One write applied to the partitions at commit seqno `s`.
pub open spec fn apply_one(parts: Seq<PartitionView>, w: WriteOpView, s: u64) -> Seq<
    PartitionView,
> {
    if 0 <= w.partition < parts.len() {
        parts.update(
            w.partition,
            PartitionView {
                name: parts[w.partition].name,
                alive: parts[w.partition].alive,
                versions: parts[w.partition].versions.push(
                    VersionView { key: w.key, seqno: s, value: w.value },
                ),
            },
        )
    } else {
        parts
    }
}

/// A batch of writes applied in order, all at commit seqno `s`.
pub open spec fn apply_writes(parts: Seq<PartitionView>, ws: Seq<WriteOpView>, s: u64) -> Seq<
    PartitionView,
>
    decreases ws.len(),
{
    if ws.len() == 0 {
        parts
    } else {
        apply_writes(apply_one(parts, ws[0], s), ws.drop_first(), s)
    }
}

/// Applying one more write applies it to the batch's result.
pub proof fn lemma_apply_writes_push(parts: Seq<PartitionView>, ws: Seq<WriteOpView>, w: WriteOpView, s: u64)
    ensures
        apply_writes(parts, ws.push(w), s) == apply_one(apply_writes(parts, ws, s), w, s),
    decreases ws.len(),
{
    if ws.len() == 0 {
        assert(ws.push(w)[0] == w);
        assert(ws.push(w).drop_first() =~= Seq::<WriteOpView>::empty());
        assert(apply_writes(parts, ws.push(w), s) == apply_writes(
            apply_one(parts, w, s),
            ws.push(w).drop_first(),
            s,
        ));
        assert(apply_writes(apply_one(parts, w, s), Seq::<WriteOpView>::empty(), s) == apply_one(
            parts,
            w,
            s,
        ));
        assert(apply_writes(parts, ws, s) == parts);
    } else {
        assert(ws.push(w)[0] == ws[0]);
        assert(ws.push(w).drop_first() =~= ws.drop_first().push(w));
        lemma_apply_writes_push(apply_one(parts, ws[0], s), ws.drop_first(), w, s);
    }
}

/// What one commit does to the keyspace: the instant advances by one, and the
/// batch is applied at the new instant.
pub open spec fn spec_commit(parts: Seq<PartitionView>, instant: u64, ws: Seq<WriteOpView>) -> (
    Seq<PartitionView>,
    u64,
) {
    (apply_writes(parts, ws, (instant + 1) as u64), (instant + 1) as u64)
}

/// A serial run of commit batches.
pub open spec fn run_commits(
    parts: Seq<PartitionView>,
    instant: u64,
    batches: Seq<Seq<WriteOpView>>,
) -> (Seq<PartitionView>, u64)
    decreases batches.len(),
{
    if batches.len() == 0 {
        (parts, instant)
    } else {
        let step = spec_commit(parts, instant, batches[0]);
        run_commits(step.0, step.1, batches.drop_first())
    }
}

/// Serial commits produce strictly monotone, consecutive commit instants:
/// after the first `k` of `n` committed batches the instant is exactly
/// `instant + k`, and the committed state is the serial application of the
/// batches in commit order.
pub proof fn lemma_write_serialization(
    parts: Seq<PartitionView>,
    instant: u64,
    batches: Seq<Seq<WriteOpView>>,
)
    requires
        instant + batches.len() <= u64::MAX,
    ensures
        run_commits(parts, instant, batches).1 == instant + batches.len(),
        forall|k: int|
            0 <= k <= batches.len() ==> (#[trigger] run_commits(parts, instant, batches.take(k))).1
                == instant + k,
    decreases batches.len(),
{
    if batches.len() == 0 {
        assert(batches.take(0) =~= batches);
    } else {
        let step = spec_commit(parts, instant, batches[0]);
        lemma_write_serialization(step.0, step.1, batches.drop_first());
        assert forall|k: int| 0 <= k <= batches.len() implies (#[trigger] run_commits(
            parts,
            instant,
            batches.take(k),
        )).1 == instant + k by {
            if k > 0 {
                assert(batches.take(k)[0] == batches[0]);
                assert(batches.take(k).drop_first() =~= batches.drop_first().take(k - 1));
                assert(run_commits(step.0, step.1, batches.drop_first().take(k - 1)).1 == step.1 + (
                k - 1));
            } else {
                assert(batches.take(0).len() == 0);
            }
        }
        assert(batches.drop_first().len() == batches.len() - 1);
    }
}

/// The value a transaction's own write set gives for a key, if any: the last
/// buffered write wins.
pub open spec fn write_set_lookup(ws: Seq<WriteOpView>, pid: int, key: Seq<u8>) -> Option<
    Option<Seq<u8>>,
>
    decreases ws.len(),
{
    if ws.len() == 0 {
        None
    } else if ws.last().partition == pid && ws.last().key == key {
        Some(ws.last().value)
    } else {
        write_set_lookup(ws.drop_last(), pid, key)
    }
}

/// What a write transaction reads: its own buffered writes first, then the
/// snapshot at its instant.
pub open spec fn tx_read(
    ws: Seq<WriteOpView>,
    parts: Seq<PartitionView>,
    pid: int,
    key: Seq<u8>,
    t: u64,
) -> Option<Seq<u8>> {
    match write_set_lookup(ws, pid, key) {
        Some(v) => v,
        None => latest_at(parts[pid].versions, key, t),
    }
}

/// A writeable transaction: a snapshot nonce, buffered writes, the recorded
/// reads, and the journal durability its commit asks for.
pub struct WriteTransaction {
    pub nonce: SnapshotNonce,
    pub durability: Option<PersistMode>,
    pub writes: Vec<WriteOp>,
    pub reads: Vec<ReadKey>,
}

impl WriteTransaction {
    /// Sets the durability of this transaction's commit.
    pub fn durability(self, durability: Option<PersistMode>) -> (r: WriteTransaction)
        ensures
            r.nonce == self.nonce,
            r.writes == self.writes,
            r.reads == self.reads,
            r.durability == durability,
    {
        WriteTransaction { durability, ..self }
    }

    /// Buffers an insert of `key` in the given partition.
    pub fn insert(&mut self, partition: &TransactionalPartitionHandle, key: Vec<u8>, value: Vec<u8>)
        requires
            1 <= key@.len() <= MAX_KEY_LEN,
            value@.len() <= MAX_VALUE_LEN,
        ensures
            final(self).writes.deep_view() == old(self).writes.deep_view().push(
                WriteOpView { partition: partition.inner.id as int, key: key@, value: Some(value@) },
            ),
            final(self).reads == old(self).reads,
            final(self).nonce == old(self).nonce,
            final(self).durability == old(self).durability,
    {
        let w = WriteOp { partition: partition.inner.id, key, value: Some(value) };
        let ghost wv = w@;
        self.writes.push(w);
        proof {
            assert(self.writes.deep_view() =~= old(self).writes.deep_view().push(wv));
            assert(wv =~= (WriteOpView {
                partition: partition.inner.id as int,
                key: wv.key,
                value: wv.value,
            }));
        }
    }

    /// Buffers a removal of `key` in the given partition.
    pub fn remove(&mut self, partition: &TransactionalPartitionHandle, key: Vec<u8>)
        requires
            1 <= key@.len() <= MAX_KEY_LEN,
        ensures
            final(self).writes.deep_view() == old(self).writes.deep_view().push(
                WriteOpView { partition: partition.inner.id as int, key: key@, value: None },
            ),
            final(self).reads == old(self).reads,
            final(self).nonce == old(self).nonce,
            final(self).durability == old(self).durability,
    {
        let w = WriteOp { partition: partition.inner.id, key, value: None };
        let ghost wv = w@;
        self.writes.push(w);
        proof {
            assert(self.writes.deep_view() =~= old(self).writes.deep_view().push(wv));
        }
    }

    /// Reads `key` as this transaction sees it: its own buffered writes
    /// first, then the snapshot at its instant. The read is recorded for
    /// commit-time conflict validation.
    pub fn get(
        &mut self,
        keyspace: &TransactionalKeyspace,
        partition: &TransactionalPartitionHandle,
        key: &Vec<u8>,
    ) -> (r: Option<Vec<u8>>)
        requires
            partition.inner.id < keyspace.inner.partitions.deep_view().len(),
        ensures
            (match r {
                Some(v) => tx_read(
                    old(self).writes.deep_view(),
                    keyspace.inner.partitions.deep_view(),
                    partition.inner.id as int,
                    key@,
                    old(self).nonce.instant,
                ) == Some(v@),
                None => tx_read(
                    old(self).writes.deep_view(),
                    keyspace.inner.partitions.deep_view(),
                    partition.inner.id as int,
                    key@,
                    old(self).nonce.instant,
                ) is None,
            }),
            final(self).reads.deep_view() == old(self).reads.deep_view().push(
                ReadKeyView { partition: partition.inner.id as int, key: key@ },
            ),
            final(self).writes == old(self).writes,
            final(self).nonce == old(self).nonce,
            final(self).durability == old(self).durability,
    {
        let rk = ReadKey { partition: partition.inner.id, key: crate::codec::clone_bytes(key) };
        let ghost rkv = rk@;
        self.reads.push(rk);
        proof {
            assert(self.reads.deep_view() =~= old(self).reads.deep_view().push(rkv));
        }
        let ghost ws = self.writes.deep_view();
        let n = self.writes.len();
        let mut i: usize = n;
        proof {
            assert(ws.take(n as int) =~= ws);
        }
        while i > 0
            invariant
                0 <= i <= n == ws.len(),
                ws == self.writes.deep_view(),
                self.writes == old(self).writes,
                self.nonce == old(self).nonce,
                self.durability == old(self).durability,
                self.reads.deep_view() == old(self).reads.deep_view().push(
                    ReadKeyView { partition: partition.inner.id as int, key: key@ },
                ),
                partition.inner.id < keyspace.inner.partitions.deep_view().len(),
                write_set_lookup(ws.take(i as int), partition.inner.id as int, key@)
                    == write_set_lookup(ws, partition.inner.id as int, key@),
            decreases i,
        {
            i = i - 1;
            proof {
                assert(ws.take(i + 1).last() == ws[i as int]);
                assert(ws.take(i + 1).drop_last() =~= ws.take(i as int));
                assert(ws[i as int] == self.writes@[i as int]@);
            }
            let w = &self.writes[i];
            if w.partition == partition.inner.id {
                if crate::codec::bytes_eq(&w.key, key) {
                    proof {
                        assert(write_set_lookup(ws.take(i + 1), partition.inner.id as int, key@)
                            == Some(ws[i as int].value));
                    }
                    match &w.value {
                        Some(bytes) => {
                            proof {
                                assert(ws[i as int].value == Some(bytes@));
                            }
                            return Some(crate::codec::clone_bytes(bytes));
                        },
                        None => {
                            proof {
                                assert(ws[i as int].value is None);
                            }
                            return None;
                        },
                    }
                }
            }
        }
        proof {
            assert(ws.take(0) =~= Seq::<WriteOpView>::empty());
        }
        keyspace.inner.get_at(partition.inner.id, key, self.nonce.instant)
    }

    /// Commits the transaction.
    ///
    /// The keyspace-wide writer lock this transaction held (single-writer
    /// isolation) is released. Under single-writer isolation the commit
    /// always succeeds. Under
    /// serializable-snapshot isolation it fails with `Error::Conflict` —
    /// discarding the buffered writes — exactly when a key this transaction
    /// read was overwritten by a commit after its snapshot instant. On
    /// success the whole batch is applied atomically at the next instant.
    /// Either way the snapshot nonce is released.
    pub fn commit(self, keyspace: &mut TransactionalKeyspace) -> (r: Result<(), Error>)
        requires
            old(keyspace).inner.wf(),
            old(keyspace).inner.instant < u64::MAX,
            old(keyspace).inner.snapshot_tracker@.count(self.nonce.instant) > 0,
            forall|i: int|
                0 <= i < self.writes.deep_view().len() ==> 0 <= (
                #[trigger] self.writes.deep_view()[i]).partition < old(
                    keyspace,
                ).inner.partitions.deep_view().len(),
            forall|i: int|
                0 <= i < self.reads.deep_view().len() ==> 0 <= (
                #[trigger] self.reads.deep_view()[i]).partition < old(
                    keyspace,
                ).inner.partitions.deep_view().len(),
        ensures
            final(keyspace).inner.wf(),
            !final(keyspace).writer_active,
            final(keyspace).inner.snapshot_tracker@ == old(
                keyspace,
            ).inner.snapshot_tracker@.remove(self.nonce.instant),
            final(keyspace).isolation == old(keyspace).isolation,
            final(keyspace).inner.manual_journal_persist == old(
                keyspace,
            ).inner.manual_journal_persist,
            final(keyspace).inner.persisted_instant == old(keyspace).inner.persisted_instant,
            r is Ok <==> !(old(keyspace).isolation == IsolationMode::SerializableSnapshot
                && has_conflict(
                old(keyspace).inner.partitions.deep_view(),
                self.reads.deep_view(),
                self.nonce.instant,
            )),
            r is Ok ==> {
                &&& final(keyspace).inner.instant == old(keyspace).inner.instant + 1
                &&& final(keyspace).inner.partitions.deep_view() == apply_writes(
                    old(keyspace).inner.partitions.deep_view(),
                    self.writes.deep_view(),
                    (old(keyspace).inner.instant + 1) as u64,
                )
            },
            r is Err ==> {
                &&& final(keyspace).inner.instant == old(keyspace).inner.instant
                &&& final(keyspace).inner.partitions.deep_view() == old(
                    keyspace,
                ).inner.partitions.deep_view()
            },
    {
        let WriteTransaction { nonce, durability: _, mut writes, reads } = self;
        let ghost orig = writes.deep_view();
        keyspace.writer_active = false;
        let is_ssi = match keyspace.isolation {
            IsolationMode::SerializableSnapshot => true,
            IsolationMode::SingleWriter => false,
        };
        if is_ssi {
            let conflict = keyspace.orc.validate_reads(&keyspace.inner, &reads, nonce.instant);
            if conflict {
                keyspace.inner.snapshot_tracker.release(nonce);
                return Err(Error::Conflict);
            }
        }
        let seqno = keyspace.inner.instant + 1;
        keyspace.inner.instant = seqno;
        let ghost parts0 = keyspace.inner.partitions.deep_view();
        let mut i: usize = 0;
        let n = writes.len();
        proof {
            assert(orig.take(0) =~= Seq::<WriteOpView>::empty());
        }
        while i < n
            invariant
                0 <= i <= n == orig.len(),
                writes.deep_view() == orig,
                keyspace.inner.partitions.deep_view() == apply_writes(
                    parts0,
                    orig.take(i as int),
                    seqno,
                ),
                keyspace.inner.partitions.deep_view().len() == parts0.len(),
                forall|j: int| 0 <= j < orig.len() ==> 0 <= (#[trigger] orig[j]).partition
                    < parts0.len(),
                keyspace.inner.instant == seqno,
                keyspace.inner.snapshot_tracker == old(keyspace).inner.snapshot_tracker,
                keyspace.inner.manual_journal_persist == old(
                    keyspace,
                ).inner.manual_journal_persist,
                keyspace.inner.persisted_instant == old(keyspace).inner.persisted_instant,
                keyspace.isolation == old(keyspace).isolation,
                !keyspace.writer_active,
            decreases n - i,
        {
            let ghost parts_before = keyspace.inner.partitions.deep_view();
            let w = &writes[i];
            let wkey = crate::codec::clone_bytes(&w.key);
            let wvalue = match &w.value {
                Some(bytes) => Some(crate::codec::clone_bytes(bytes)),
                None => None,
            };
            proof {
                assert(orig[i as int] == writes@[i as int]@);
            }
            keyspace.inner.append_version(w.partition, wkey, wvalue, seqno);
            proof {
                assert(keyspace.inner.partitions.deep_view() =~~= apply_one(
                    parts_before,
                    orig[i as int],
                    seqno,
                ));
                lemma_apply_writes_push(parts0, orig.take(i as int), orig[i as int], seqno);
                assert(orig.take(i + 1) =~= orig.take(i as int).push(orig[i as int]));
            }
            i += 1;
        }
        proof {
            assert(orig.take(n as int) =~= orig);
        }
        keyspace.inner.snapshot_tracker.release(nonce);
        proof {
            lemma_apply_writes_wf(parts0, orig, seqno, old(keyspace).inner.instant);
        }
        Ok(())
    }

    /// Abandons the transaction: the buffered writes are discarded, the
    /// snapshot nonce is released, and so is the writer lock the transaction
    /// held under single-writer isolation.
    pub fn rollback(self, keyspace: &mut TransactionalKeyspace)
        requires
            old(keyspace).inner.snapshot_tracker@.count(self.nonce.instant) > 0,
        ensures
            !final(keyspace).writer_active,
            final(keyspace).inner.snapshot_tracker@ == old(
                keyspace,
            ).inner.snapshot_tracker@.remove(self.nonce.instant),
            final(keyspace).inner.partitions == old(keyspace).inner.partitions,
            final(keyspace).inner.instant == old(keyspace).inner.instant,
            final(keyspace).inner.manual_journal_persist == old(
                keyspace,
            ).inner.manual_journal_persist,
            final(keyspace).inner.persisted_instant == old(keyspace).inner.persisted_instant,
            final(keyspace).isolation == old(keyspace).isolation,
    {
        keyspace.writer_active = false;
        keyspace.inner.snapshot_tracker.release(self.nonce);
    }
}

/// Applying a batch at seqno `s` keeps every version's seqno at or below `s`
/// and keeps alive partition names unique.
proof fn lemma_apply_writes_wf(
    parts: Seq<PartitionView>,
    ws: Seq<WriteOpView>,
    s: u64,
    instant: u64,
)
    requires
        s == instant + 1,
        forall|p: int, i: int|
            0 <= p < parts.len() && 0 <= i < parts[p].versions.len() ==> 1 <= ((
            #[trigger] parts[p].versions[i])).seqno <= s,
        forall|p: int, q: int|
            0 <= p < q < parts.len() && (#[trigger] parts[p]).alive && (#[trigger] parts[q]).alive
                ==> parts[p].name != parts[q].name,
    ensures
        ({
            let parts2 = apply_writes(parts, ws, s);
            &&& parts2.len() == parts.len()
            &&& forall|p: int, i: int|
                0 <= p < parts2.len() && 0 <= i < parts2[p].versions.len() ==> 1 <= ((
                #[trigger] parts2[p].versions[i])).seqno <= s
            &&& forall|p: int, q: int|
                0 <= p < q < parts2.len() && (#[trigger] parts2[p]).alive && (
                #[trigger] parts2[q]).alive ==> parts2[p].name != parts2[q].name
        }),
    decreases ws.len(),
{
    if ws.len() > 0 {
        let parts1 = apply_one(parts, ws[0], s);
        assert forall|p: int, i: int|
            0 <= p < parts1.len() && 0 <= i < parts1[p].versions.len() implies 1 <= ((
        #[trigger] parts1[p].versions[i])).seqno <= s by {
            if p == ws[0].partition && i == parts1[p].versions.len() - 1 && 0 <= ws[0].partition
                < parts.len() {
            } else {
                assert(parts1[p].versions[i] == parts[p].versions[i]);
            }
        }
        lemma_apply_writes_wf(parts1, ws.drop_first(), s, instant);
    }
}

} // verus!
