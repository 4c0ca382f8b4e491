//! The in-memory model of the underlying LSM keyspace: named partitions, an
//! append-only multi-version store per partition, a global instant (seqno)
//! counter, and the snapshot tracker. Reading at an instant sees the latest
//! version at or below it.

use crate::snapshot::SnapshotTracker;
use vstd::prelude::*;

verus! {

/// One version of one key: an insert with its bytes, or a tombstone.
pub struct Version {
    pub key: Vec<u8>,
    pub seqno: u64,
    pub value: Option<Vec<u8>>,
}

/// The mathematical model of a version.
#[verifier::ext_equal]
pub ghost struct VersionView {
    pub key: Seq<u8>,
    pub seqno: u64,
    pub value: Option<Seq<u8>>,
}

impl View for Version {
    type V = VersionView;

    open spec fn view(&self) -> VersionView {
        VersionView {
            key: self.key@,
            seqno: self.seqno,
            value: match self.value {
                Some(ref v) => Some(v@),
                None => None,
            },
        }
    }
}

impl DeepView for Version {
    type V = VersionView;

    open spec fn deep_view(&self) -> VersionView {
        self.view()
    }
}

/// A named partition: its version log, and whether it still exists.
pub struct Partition {
    pub name: String,
    pub alive: bool,
    pub versions: Vec<Version>,
}

/// The mathematical model of a partition.
#[verifier::ext_equal]
pub ghost struct PartitionView {
    pub name: Seq<char>,
    pub alive: bool,
    pub versions: Seq<VersionView>,
}

impl View for Partition {
    type V = PartitionView;

    open spec fn view(&self) -> PartitionView {
        PartitionView { name: self.name@, alive: self.alive, versions: self.versions.deep_view() }
    }
}

impl DeepView for Partition {
    type V = PartitionView;

    open spec fn deep_view(&self) -> PartitionView {
        self.view()
    }
}

/// The latest value of `key` at or below instant `t`: `Some` bytes for an
/// insert, `None` for a tombstone or for a key never written.
pub open spec fn latest_at(versions: Seq<VersionView>, key: Seq<u8>, t: u64) -> Option<Seq<u8>>
    decreases versions.len(),
{
    if versions.len() == 0 {
        None
    } else if versions.last().key == key && versions.last().seqno <= t {
        versions.last().value
    } else {
        latest_at(versions.drop_last(), key, t)
    }
}

/// Versions committed after the read instant `t` never change what a reader
/// at `t` sees: snapshot reads are stable under later commits.
pub proof fn lemma_snapshot_stability(
    versions: Seq<VersionView>,
    added: Seq<VersionView>,
    key: Seq<u8>,
    t: u64,
)
    requires
        forall|i: int| 0 <= i < added.len() ==> (#[trigger] added[i]).seqno > t,
    ensures
        latest_at(versions + added, key, t) == latest_at(versions, key, t),
    decreases added.len(),
{
    if added.len() == 0 {
        assert(versions + added =~= versions);
    } else {
        let all = versions + added;
        assert(all.last() == added.last());
        assert(all.last().seqno > t);
        assert(all.drop_last() =~= versions + added.drop_last());
        assert(forall|i: int|
            0 <= i < added.drop_last().len() ==> (#[trigger] added.drop_last()[i]).seqno > t);
        lemma_snapshot_stability(versions, added.drop_last(), key, t);
    }
}

/// The model keyspace shared by every partition: version logs, the global
/// instant, and the snapshot tracker.
pub struct Keyspace {
    pub partitions: Vec<Partition>,
    pub instant: u64,
    pub snapshot_tracker: SnapshotTracker,
    pub manual_journal_persist: bool,
    pub persisted_instant: u64,
}

impl Keyspace {
    /// Every version's seqno lies in `[1, instant]`, and alive partition
    /// names are unique.
    pub open spec fn wf(self) -> bool {
        let parts = self.partitions.deep_view();
        &&& forall|p: int, i: int|
            0 <= p < parts.len() && 0 <= i < parts[p].versions.len() ==> 1 <= ((
            #[trigger] parts[p].versions[i])).seqno <= self.instant
        &&& forall|p: int, q: int|
            0 <= p < q < parts.len() && (#[trigger] parts[p]).alive && (#[trigger] parts[q]).alive
                ==> parts[p].name != parts[q].name
        &&& self.persisted_instant <= self.instant
    }

    /// An empty keyspace at instant zero.
    pub fn create(manual_journal_persist: bool) -> (r: Keyspace)
        ensures
            r.wf(),
            r.partitions.deep_view() == Seq::<PartitionView>::empty(),
            r.instant == 0,
            r.manual_journal_persist == manual_journal_persist,
            r.persisted_instant == 0,
            r.snapshot_tracker@ == vstd::multiset::Multiset::<u64>::empty(),
    {
        let r = Keyspace {
            partitions: Vec::new(),
            instant: 0,
            snapshot_tracker: SnapshotTracker::new(),
            manual_journal_persist,
            persisted_instant: 0,
        };
        proof {
            assert(r.partitions.deep_view() =~= Seq::<PartitionView>::empty());
        }
        r
    }

    /// The current instant: the seqno of the most recent commit.
    pub fn instant(&self) -> (r: u64)
        ensures
            r == self.instant,
    {
        self.instant
    }

    /// Reads `key` in partition `pid` as of instant `t`.
    pub fn get_at(&self, pid: usize, key: &Vec<u8>, t: u64) -> (r: Option<Vec<u8>>)
        requires
            pid < self.partitions.deep_view().len(),
        ensures
            (match r {
                Some(v) => latest_at(self.partitions.deep_view()[pid as int].versions, key@, t)
                    == Some(v@),
                None => latest_at(self.partitions.deep_view()[pid as int].versions, key@, t)
                    is None,
            }),
    {
        let part = &self.partitions[pid];
        let ghost vs = self.partitions.deep_view()[pid as int].versions;
        let n = part.versions.len();
        let mut i: usize = n;
        proof {
            assert(vs =~= part.versions.deep_view());
            assert(vs.take(n as int) =~= vs);
        }
        while i > 0
            invariant
                0 <= i <= n == vs.len(),
                vs == self.partitions.deep_view()[pid as int].versions,
                pid < self.partitions.deep_view().len(),
                vs == part.versions.deep_view(),
                part == &self.partitions[pid as int],
                latest_at(vs.take(i as int), key@, t) == latest_at(vs, key@, t),
            decreases i,
        {
            i = i - 1;
            let v = &part.versions[i];
            proof {
                assert(vs.take(i + 1).last() == vs[i as int]);
                assert(vs.take(i + 1).drop_last() =~= vs.take(i as int));
                assert(vs[i as int] == part.versions@[i as int]@);
            }
            if v.seqno <= t {
                if crate::codec::bytes_eq(&v.key, key) {
                    match &v.value {
                        Some(bytes) => {
                            return Some(crate::codec::clone_bytes(bytes));
                        },
                        None => {
                            return None;
                        },
                    }
                }
            }
        }
        proof {
            assert(vs.take(0) =~= Seq::<VersionView>::empty());
        }
        None
    }

    /// Appends one version with the given seqno to partition `pid`.
    pub(crate) fn append_version(
        &mut self,
        pid: usize,
        key: Vec<u8>,
        value: Option<Vec<u8>>,
        seqno: u64,
    )
        requires
            pid < old(self).partitions.deep_view().len(),
        ensures
            final(self).partitions.deep_view() == old(self).partitions.deep_view().update(
                pid as int,
                PartitionView {
                    name: old(self).partitions.deep_view()[pid as int].name,
                    alive: old(self).partitions.deep_view()[pid as int].alive,
                    versions: old(self).partitions.deep_view()[pid as int].versions.push(
                        VersionView {
                            key: key@,
                            seqno,
                            value: match value {
                                Some(ref v) => Some(v@),
                                None => None,
                            },
                        },
                    ),
                },
            ),
            final(self).instant == old(self).instant,
            final(self).snapshot_tracker == old(self).snapshot_tracker,
            final(self).manual_journal_persist == old(self).manual_journal_persist,
            final(self).persisted_instant == old(self).persisted_instant,
    {
        let ghost vv = VersionView {
            key: key@,
            seqno,
            value: match value {
                Some(ref v) => Some(v@),
                None => None,
            },
        };
        let version = Version { key, seqno, value };
        proof {
            assert(version@ =~= vv);
        }
        let part = &mut self.partitions[pid];
        part.versions.push(version);
        proof {
            assert(self.partitions.deep_view() =~~= old(self).partitions.deep_view().update(
                pid as int,
                PartitionView {
                    name: old(self).partitions.deep_view()[pid as int].name,
                    alive: old(self).partitions.deep_view()[pid as int].alive,
                    versions: old(self).partitions.deep_view()[pid as int].versions.push(vv),
                },
            ));
        }
    }
}

} // verus!
