//! Tests of the transaction layer: snapshot stability, atomic single-key
//! read-modify-write operations, commit serialization and conflict detection,
//! and the keyspace introspection.

use fjall::error::Error;
use fjall::snapshot::SnapshotTracker;
use fjall::tx::keyspace::{Config, IsolationMode, PartitionCreateOptions, PersistMode, TxKeyspace};

fn config(isolation: IsolationMode) -> Config {
    Config {
        path: String::from("keyspace"),
        manual_journal_persist: false,
        isolation,
    }
}

fn open_single_writer() -> TxKeyspace {
    TxKeyspace::open(config(IsolationMode::SingleWriter))
}

fn b(s: &str) -> Vec<u8> {
    s.as_bytes().to_vec()
}

#[test]
fn insert_then_get() {
    let mut ks = open_single_writer();
    let part = ks.open_partition("default", PartitionCreateOptions::default());
    part.insert(&mut ks, b("a"), b("my_value"));
    assert_eq!(part.get(&ks, &b("a")), Some(b("my_value")));
    assert_eq!(part.get(&ks, &b("b")), None);
    assert!(part.contains_key(&ks, &b("a")));
    assert!(!part.contains_key(&ks, &b("b")));
}

#[test]
fn remove_leaves_tombstone_semantics() {
    let mut ks = open_single_writer();
    let part = ks.open_partition("default", PartitionCreateOptions::default());
    part.insert(&mut ks, b("a"), b("abc"));
    part.remove(&mut ks, b("a"));
    assert_eq!(part.get(&ks, &b("a")), None);
    assert!(!part.contains_key(&ks, &b("a")));
}

#[test]
fn read_tx_sees_stable_snapshot() {
    // A read transaction at instant t observes no later commit.
    let mut ks = open_single_writer();
    let part = ks.open_partition("k", PartitionCreateOptions::default());
    part.insert(&mut ks, b("k"), b("v1"));
    let rtx = ks.read_tx();
    part.insert(&mut ks, b("k"), b("v2"));
    assert_eq!(rtx.get(&ks, &part, &b("k")), Some(b("v1")));
    assert_eq!(part.get(&ks, &b("k")), Some(b("v2")));
    rtx.close(&mut ks);
}

#[test]
fn fetch_update_returns_previous() {
    let mut ks = open_single_writer();
    let part = ks.open_partition("default", PartitionCreateOptions::default());
    part.insert(&mut ks, b("a"), b("abc"));
    let prev = part.fetch_update(&mut ks, b("a"), |_| Some(b("def")));
    assert_eq!(prev, Some(b("abc")));
    assert_eq!(part.get(&ks, &b("a")), Some(b("def")));
}

#[test]
fn fetch_update_none_removes() {
    let mut ks = open_single_writer();
    let part = ks.open_partition("default", PartitionCreateOptions::default());
    part.insert(&mut ks, b("a"), b("abc"));
    let prev = part.fetch_update(&mut ks, b("a"), |_| None);
    assert_eq!(prev, Some(b("abc")));
    assert_eq!(part.get(&ks, &b("a")), None);
}

#[test]
fn fetch_update_missing_key_noop() {
    let mut ks = open_single_writer();
    let part = ks.open_partition("default", PartitionCreateOptions::default());
    let instant_before = ks.inner.instant;
    let prev = part.fetch_update(&mut ks, b("a"), |_| None);
    assert_eq!(prev, None);
    assert_eq!(part.get(&ks, &b("a")), None);
    assert_eq!(ks.inner.instant, instant_before);
}

#[test]
fn update_fetch_returns_new() {
    let mut ks = open_single_writer();
    let part = ks.open_partition("default", PartitionCreateOptions::default());
    part.insert(&mut ks, b("a"), b("abc"));
    let updated = part.update_fetch(&mut ks, b("a"), |_| Some(b("def")));
    assert_eq!(updated, Some(b("def")));
    assert_eq!(part.get(&ks, &b("a")), Some(b("def")));
    let updated = part.update_fetch(&mut ks, b("a"), |_| None);
    assert_eq!(updated, None);
    assert_eq!(part.get(&ks, &b("a")), None);
}

#[test]
fn take_removes_and_returns() {
    let mut ks = open_single_writer();
    let part = ks.open_partition("default", PartitionCreateOptions::default());
    part.insert(&mut ks, b("a"), b("abc"));
    let taken = part.take(&mut ks, b("a"));
    assert_eq!(taken, Some(b("abc")));
    assert_eq!(part.get(&ks, &b("a")), None);
}

#[test]
fn rmw_counter_is_never_lost() {
    // Eight rounds of ten thousand serialized increments: every one counts.
    let mut ks = open_single_writer();
    let part = ks.open_partition("counters", PartitionCreateOptions::default());
    for _round in 0..8 {
        for _ in 0..10_000 {
            part.fetch_update(&mut ks, b("ctr"), |prev| {
                Some(match prev {
                    Some(bytes) => {
                        let n = u64::from_be_bytes(bytes.as_slice().try_into().unwrap());
                        (n + 1).to_be_bytes().to_vec()
                    },
                    None => 1u64.to_be_bytes().to_vec(),
                })
            });
        }
    }
    let final_value = part.get(&ks, &b("ctr")).unwrap();
    assert_eq!(u64::from_be_bytes(final_value.as_slice().try_into().unwrap()), 80_000);
}

#[test]
fn write_tx_sees_own_writes_and_commits_atomically() {
    let mut ks = open_single_writer();
    let part = ks.open_partition("default", PartitionCreateOptions::default());
    part.insert(&mut ks, b("a"), b("committed"));
    let mut tx = ks.write_tx();
    // The keyspace-wide writer lock is held until the transaction ends.
    assert!(ks.writer_active);
    assert_eq!(tx.durability, Some(PersistMode::Buffer));
    tx.insert(&part, b("a"), b("in-tx"));
    tx.insert(&part, b("b"), b("new"));
    assert_eq!(tx.get(&ks, &part, &b("a")), Some(b("in-tx")));
    assert_eq!(tx.get(&ks, &part, &b("b")), Some(b("new")));
    // Until commit, the keyspace still shows the committed state.
    assert_eq!(part.get(&ks, &b("a")), Some(b("committed")));
    let instant_before = ks.inner.instant;
    tx.commit(&mut ks).unwrap();
    assert!(!ks.writer_active);
    assert_eq!(ks.inner.instant, instant_before + 1);
    assert_eq!(part.get(&ks, &b("a")), Some(b("in-tx")));
    assert_eq!(part.get(&ks, &b("b")), Some(b("new")));
}

#[test]
fn write_tx_remove_and_rollback() {
    let mut ks = open_single_writer();
    let part = ks.open_partition("default", PartitionCreateOptions::default());
    part.insert(&mut ks, b("a"), b("x"));
    let mut tx = ks.write_tx();
    tx.remove(&part, b("a"));
    assert_eq!(tx.get(&ks, &part, &b("a")), None);
    tx.rollback(&mut ks);
    assert!(!ks.writer_active);
    assert_eq!(part.get(&ks, &b("a")), Some(b("x")));
}

#[test]
fn serial_write_txs_get_consecutive_instants() {
    let mut ks = open_single_writer();
    let part = ks.open_partition("default", PartitionCreateOptions::default());
    let mut instants = Vec::new();
    for i in 0..5u64 {
        let mut tx = ks.write_tx();
        instants.push(tx.nonce.instant);
        tx.insert(&part, b("k"), i.to_be_bytes().to_vec());
        tx.commit(&mut ks).unwrap();
    }
    assert_eq!(instants, vec![0, 1, 2, 3, 4]);
    assert_eq!(ks.inner.instant, 5);
}

#[test]
fn ssi_conflict_is_detected() {
    let mut ks = TxKeyspace::open(config(IsolationMode::SerializableSnapshot));
    let part = ks.open_partition("default", PartitionCreateOptions::default());
    part.insert(&mut ks, b("a"), b("v0"));
    let mut tx = ks.write_tx();
    // Serializable-snapshot isolation holds no writer lock between starting
    // a transaction and committing it.
    assert!(!ks.writer_active);
    assert_eq!(tx.get(&ks, &part, &b("a")), Some(b("v0")));
    tx.insert(&part, b("b"), b("derived"));
    // A concurrent writer overwrites the key the transaction read.
    part.insert(&mut ks, b("a"), b("v1"));
    assert_eq!(tx.commit(&mut ks), Err(Error::Conflict));
    // The transaction's writes were discarded.
    assert_eq!(part.get(&ks, &b("b")), None);
}

#[test]
fn ssi_commit_without_conflict_succeeds() {
    let mut ks = TxKeyspace::open(config(IsolationMode::SerializableSnapshot));
    let part = ks.open_partition("default", PartitionCreateOptions::default());
    part.insert(&mut ks, b("a"), b("v0"));
    let mut tx = ks.write_tx();
    assert_eq!(tx.get(&ks, &part, &b("a")), Some(b("v0")));
    tx.insert(&part, b("b"), b("derived"));
    // An unrelated key changes concurrently: no conflict.
    part.insert(&mut ks, b("c"), b("other"));
    assert_eq!(tx.commit(&mut ks), Ok(()));
    assert_eq!(part.get(&ks, &b("b")), Some(b("derived")));
}

#[test]
fn partitions_are_created_listed_and_deleted() {
    let mut ks = open_single_writer();
    assert_eq!(ks.partition_count(), 0);
    let p1 = ks.open_partition("items", PartitionCreateOptions::default());
    let _p2 = ks.open_partition("logs.2024", PartitionCreateOptions::default());
    assert_eq!(ks.partition_count(), 2);
    assert!(ks.partition_exists("items"));
    assert!(ks.partition_exists("logs.2024"));
    assert!(!ks.partition_exists("missing"));
    assert_eq!(ks.list_partitions(), vec![String::from("items"), String::from("logs.2024")]);
    // Reopening yields the same partition with its data.
    p1.insert(&mut ks, b("k"), b("v"));
    let p1_again = ks.open_partition("items", PartitionCreateOptions::default());
    assert_eq!(p1_again.get(&ks, &b("k")), Some(b("v")));
    assert_eq!(p1_again.path(), String::from("items"));
    assert_eq!(p1_again.inner().id, p1.inner().id);
    ks.delete_partition(p1);
    assert!(!ks.partition_exists("items"));
    assert_eq!(ks.partition_count(), 1);
    assert_eq!(ks.list_partitions(), vec![String::from("logs.2024")]);
}

#[test]
fn persist_tracks_durable_instant() {
    let mut ks = open_single_writer();
    let part = ks.open_partition("default", PartitionCreateOptions::default());
    part.insert(&mut ks, b("a"), b("1"));
    part.insert(&mut ks, b("b"), b("2"));
    assert_eq!(ks.inner.persisted_instant, 0);
    ks.persist(PersistMode::SyncAll);
    assert_eq!(ks.inner.persisted_instant, ks.inner.instant);
}

#[test]
fn introspection_counts_bytes_and_journals() {
    let mut ks = open_single_writer();
    assert_eq!(ks.journal_count(), 1);
    assert_eq!(ks.write_buffer_size(), 0);
    let part = ks.open_partition("default", PartitionCreateOptions::default());
    part.insert(&mut ks, b("ab"), b("cde"));
    assert_eq!(ks.write_buffer_size(), 5);
    assert_eq!(ks.disk_space(), 5);
    part.remove(&mut ks, b("ab"));
    assert_eq!(ks.write_buffer_size(), 7);
}

#[test]
fn snapshot_tracker_counts_and_min() {
    let mut tracker = SnapshotTracker::new();
    assert_eq!(tracker.min_live(), None);
    let n5 = tracker.register(5);
    let n3 = tracker.register(3);
    let n3b = tracker.register(3);
    assert_eq!(tracker.min_live(), Some(3));
    tracker.release(n3);
    assert_eq!(tracker.min_live(), Some(3));
    tracker.release(n3b);
    assert_eq!(tracker.min_live(), Some(5));
    tracker.release(n5);
    assert_eq!(tracker.min_live(), None);
}
