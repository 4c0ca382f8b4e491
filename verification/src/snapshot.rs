//! Snapshot nonces and the snapshot tracker: a multiset of retained read
//! instants. While an instant is registered, compactions must keep every
//! record needed to materialize a snapshot at that instant.

use vstd::multiset::Multiset;
use vstd::prelude::*;

verus! {

/// Tracks the multiset of live snapshot instants.
pub struct SnapshotTracker {
    pub open_instants: Vec<u64>,
}

impl View for SnapshotTracker {
    type V = Multiset<u64>;

    open spec fn view(&self) -> Multiset<u64> {
        self.open_instants@.to_multiset()
    }
}

impl SnapshotTracker {
    /// A tracker with no live snapshots.
    pub fn new() -> (r: SnapshotTracker)
        ensures
            r@ == Multiset::<u64>::empty(),
    {
        let r = SnapshotTracker { open_instants: Vec::new() };
        proof {
            r.open_instants@.to_multiset_ensures();
            assert(r.open_instants@.to_multiset() =~= Multiset::<u64>::empty());
        }
        r
    }

    /// Retains `instant`: one more snapshot reads at it.
    pub fn register(&mut self, instant: u64) -> (nonce: SnapshotNonce)
        ensures
            final(self)@ == old(self)@.insert(instant),
            nonce.instant == instant,
    {
        proof {
            self.open_instants@.to_multiset_ensures();
        }
        self.open_instants.push(instant);
        SnapshotNonce { instant }
    }

    /// Releases one hold on `instant` (a snapshot nonce was dropped).
    pub fn release(&mut self, nonce: SnapshotNonce)
        requires
            old(self)@.count(nonce.instant) > 0,
        ensures
            final(self)@ == old(self)@.remove(nonce.instant),
    {
        let n = self.open_instants.len();
        let mut i: usize = 0;
        proof {
            self.open_instants@.to_multiset_ensures();
            assert(self.open_instants@.contains(nonce.instant));
        }
        while i < n
            invariant
                0 <= i <= n == self.open_instants@.len(),
                self.open_instants@ == old(self).open_instants@,
                exists|j: int| i <= j < n && self.open_instants@[j] == nonce.instant,
            decreases n - i,
        {
            if self.open_instants[i] == nonce.instant {
                proof {
                    self.open_instants@.to_multiset_ensures();
                }
                self.open_instants.remove(i);
                return;
            }
            i += 1;
        }
        proof {
            assert(false);
        }
    }

    /// The oldest live snapshot instant, if any: no record visible at or
    /// above it may be dropped by a compaction.
    pub fn min_live(&self) -> (r: Option<u64>)
        ensures
            (match r {
                Some(m) => self@.count(m) > 0 && forall|x: u64| self@.count(x) > 0 ==> m <= x,
                None => self@ == Multiset::<u64>::empty(),
            }),
    {
        proof {
            self.open_instants@.to_multiset_ensures();
        }
        if self.open_instants.len() == 0 {
            proof {
                assert(self@ =~= Multiset::<u64>::empty());
            }
            return None;
        }
        let n = self.open_instants.len();
        let mut best: u64 = self.open_instants[0];
        let mut i: usize = 1;
        while i < n
            invariant
                1 <= i <= n == self.open_instants@.len(),
                exists|j: int| 0 <= j < i && self.open_instants@[j] == best,
                forall|j: int| 0 <= j < i ==> best <= #[trigger] self.open_instants@[j],
            decreases n - i,
        {
            if self.open_instants[i] < best {
                best = self.open_instants[i];
            }
            i += 1;
        }
        proof {
            self.open_instants@.to_multiset_ensures();
            assert forall|x: u64| self@.count(x) > 0 implies best <= x by {
                assert(self.open_instants@.contains(x));
            }
        }
        Some(best)
    }
}

/// A transaction's proof that its snapshot instant stays readable: the
/// instant together with the tracker registration that retains it. Releasing
/// the nonce ends the hold.
pub struct SnapshotNonce {
    pub instant: u64,
}

} // verus!
