//! The commit oracle of serializable-snapshot isolation: the global write
//! serialization point. At commit it validates a transaction's read set
//! against everything committed after the transaction's snapshot instant.

use crate::store::{Keyspace, VersionView};
use crate::tx::write_tx::{ReadKey, ReadKeyView};
use vstd::prelude::*;

verus! {

/// Whether some version of `key` was committed after instant `t`.
pub open spec fn key_written_after(versions: Seq<VersionView>, key: Seq<u8>, t: u64) -> bool {
    exists|j: int|
        0 <= j < versions.len() && (#[trigger] versions[j]).key == key && versions[j].seqno > t
}

/// Whether any recorded read conflicts with a commit after instant `t`.
pub open spec fn has_conflict(
    parts: Seq<crate::store::PartitionView>,
    reads: Seq<ReadKeyView>,
    t: u64,
) -> bool {
    exists|i: int|
        0 <= i < reads.len() && key_written_after(
            parts[(#[trigger] reads[i]).partition].versions,
            reads[i].key,
            t,
        )
}

/// The serializable-snapshot commit coordinator. Commit decisions are
/// serialized through the keyspace (one commit at a time holds it
/// exclusively); the oracle validates read sets against the committed state.
pub struct Oracle {}

impl Oracle {
    /// Checks a transaction's read set against the committed state: true
    /// exactly when some key it read was overwritten after its snapshot
    /// instant `t`.
    pub fn validate_reads(&self, keyspace: &Keyspace, reads: &Vec<ReadKey>, t: u64) -> (r: bool)
        requires
            forall|i: int|
                0 <= i < reads.deep_view().len() ==> 0 <= (
                #[trigger] reads.deep_view()[i]).partition < keyspace.partitions.deep_view().len(),
        ensures
            r == has_conflict(keyspace.partitions.deep_view(), reads.deep_view(), t),
    {
        let ghost rs = reads.deep_view();
        let ghost parts = keyspace.partitions.deep_view();
        let n = reads.len();
        let mut i: usize = 0;
        while i < n
            invariant
                0 <= i <= n == rs.len(),
                rs == reads.deep_view(),
                parts == keyspace.partitions.deep_view(),
                forall|j: int|
                    0 <= j < rs.len() ==> 0 <= (#[trigger] rs[j]).partition < parts.len(),
                forall|j: int|
                    0 <= j < i ==> !key_written_after(
                        parts[(#[trigger] rs[j]).partition].versions,
                        rs[j].key,
                        t,
                    ),
            decreases n - i,
        {
            let rk = &reads[i];
            let ghost vs = parts[rs[i as int].partition].versions;
            let part = &keyspace.partitions[rk.partition];
            let m = part.versions.len();
            let mut j: usize = 0;
            proof {
                assert(rs[i as int] == reads@[i as int]@);
                assert(vs =~= part.versions.deep_view());
            }
            while j < m
                invariant
                    0 <= j <= m == vs.len(),
                    vs == part.versions.deep_view(),
                    part == &keyspace.partitions[rs[i as int].partition as int],
                    rs[i as int].partition < parts.len(),
                    parts == keyspace.partitions.deep_view(),
                    rs == reads.deep_view(),
                    rk == &reads[i as int],
                    rk@ == rs[i as int],
                    i < rs.len(),
                    vs == parts[rs[i as int].partition].versions,
                    forall|l: int|
                        0 <= l < j ==> !((#[trigger] vs[l]).key == rs[i as int].key && vs[l].seqno
                            > t),
                decreases m - j,
            {
                let v = &part.versions[j];
                proof {
                    assert(vs[j as int] == part.versions@[j as int]@);
                }
                if v.seqno > t {
                    if crate::codec::bytes_eq(&v.key, &rk.key) {
                        proof {
                            assert(key_written_after(
                                parts[rs[i as int].partition].versions,
                                rs[i as int].key,
                                t,
                            ));
                        }
                        return true;
                    }
                }
                j += 1;
            }
            i += 1;
        }
        false
    }
}

} // verus!
