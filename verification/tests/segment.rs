//! Tests of the segment format: the name validator, the record and block
//! codecs with their integrity checks, and the segment writer round trip
//! through the sparse index.

use fjall::block::{deserialize_block, serialize_block};
use fjall::crc::crc32;
use fjall::name::is_valid_partition_name;
use fjall::segment::reader::{lookup, read_block_at, read_segment};
use fjall::segment::writer::{Options, Writer};
use fjall::value::Value;

fn opts(evict_tombstones: bool, block_size: u32, index_block_size: u32) -> Options {
    Options {
        path: String::from("segment"),
        evict_tombstones,
        block_size,
        index_block_size,
    }
}

fn v(key: &[u8], value: &[u8], seqno: u64) -> Value {
    Value::new(key.to_vec(), value.to_vec(), false, seqno)
}

fn tomb(key: &[u8], seqno: u64) -> Value {
    Value::new(key.to_vec(), Vec::new(), true, seqno)
}

#[test]
fn valid_names_accepted() {
    assert!(is_valid_partition_name("a"));
    assert!(is_valid_partition_name("default"));
    assert!(is_valid_partition_name("Az09_-.#"));
    let long: String = std::iter::repeat('x').take(255).collect();
    assert!(is_valid_partition_name(&long));
}

#[test]
fn invalid_names_rejected() {
    assert!(!is_valid_partition_name(""));
    let too_long: String = std::iter::repeat('x').take(256).collect();
    assert!(!is_valid_partition_name(&too_long));
    assert!(!is_valid_partition_name("a/b"));
    assert!(!is_valid_partition_name("a:b"));
    assert!(!is_valid_partition_name("a b"));
    assert!(!is_valid_partition_name("a\0b"));
    assert!(!is_valid_partition_name("ä"));
    assert!(!is_valid_partition_name("日本"));
}

#[test]
fn crc32_known_value() {
    let input = b"123456789".to_vec();
    assert_eq!(crc32(&input), 0xCBF4_3926);
}

#[test]
fn block_roundtrip() {
    let items = vec![v(b"a", b"x", 2), v(b"a", b"", 1), v(b"b", b"yy", 7)];
    let bytes = serialize_block(&items);
    let back = deserialize_block(&bytes).expect("own serialization must deserialize");
    assert_eq!(back, items);
}

#[test]
fn block_rejects_any_bit_flip() {
    let items = vec![v(b"a", b"x", 2), tomb(b"b", 3), v(b"c", b"zzz", 1)];
    let bytes = serialize_block(&items);
    for byte in 0..bytes.len() {
        for bit in 0..8 {
            let mut corrupt = bytes.clone();
            corrupt[byte] ^= 1u8 << bit;
            assert!(
                deserialize_block(&corrupt).is_none(),
                "flipping bit {} of byte {} was not rejected",
                bit,
                byte
            );
        }
    }
}

#[test]
fn block_rejects_truncation() {
    let items = vec![v(b"a", b"x", 1)];
    let bytes = serialize_block(&items);
    let mut short = bytes.clone();
    short.pop();
    assert!(deserialize_block(&short).is_none());
}

#[test]
fn segment_roundtrip_keeps_all_records() {
    let mut writer = Writer::new(opts(false, 64, 64));
    let items = vec![
        v(b"apple", b"1", 9),
        v(b"apple", b"0", 3),
        tomb(b"banana", 5),
        v(b"cherry", b"verylongvaluethatspansachunk", 4),
        v(b"date", b"", 2),
        v(b"fig", b"f", 8),
    ];
    for item in &items {
        writer.write(item.clone());
    }
    writer.finalize().unwrap();
    let back = read_segment(&writer.block_writer.file, &writer.index_writer.entries)
        .expect("segment must read back");
    assert_eq!(back, items);
}

#[test]
fn segment_evicts_tombstones() {
    // Records arrive in segment order: keys ascending, newest version first.
    let mut writer = Writer::new(opts(true, 4096, 4096));
    writer.write(tomb(b"a", 2));
    writer.write(v(b"a", b"x", 1));
    writer.write(v(b"b", b"y", 1));
    writer.finalize().unwrap();
    let back = read_segment(&writer.block_writer.file, &writer.index_writer.entries)
        .expect("segment must read back");
    assert_eq!(back, vec![v(b"a", b"x", 1), v(b"b", b"y", 1)]);
    assert_eq!(writer.tombstone_count, 0);
    assert_eq!(writer.written_item_count, 2);
}

#[test]
fn segment_metadata_exact() {
    let mut writer = Writer::new(opts(false, 64, 64));
    writer.write(tomb(b"alpha", 12));
    writer.write(v(b"alpha", b"old", 7));
    writer.write(v(b"beta", b"b", 3));
    writer.write(v(b"gamma", b"g", 9));
    writer.finalize().unwrap();
    assert_eq!(writer.first_key.as_deref(), Some(b"alpha".as_slice()));
    assert_eq!(writer.last_key.as_deref(), Some(b"gamma".as_slice()));
    assert_eq!(writer.lowest_seqno, 3);
    assert_eq!(writer.highest_seqno, 12);
    assert_eq!(writer.tombstone_count, 1);
    assert_eq!(writer.written_item_count, 4);
}

#[test]
fn empty_segment_has_no_keys() {
    let mut writer = Writer::new(opts(false, 4096, 4096));
    writer.finalize().unwrap();
    assert!(writer.first_key.is_none());
    assert!(writer.last_key.is_none());
    assert_eq!(writer.lowest_seqno, u64::MAX);
    assert_eq!(writer.highest_seqno, 0);
    assert_eq!(writer.block_writer.file.len(), 0);
    assert_eq!(writer.index_writer.entries.len(), 0);
    let back = read_segment(&writer.block_writer.file, &writer.index_writer.entries).unwrap();
    assert!(back.is_empty());
}

#[test]
fn sparse_index_locates_every_key() {
    // Many small blocks: 8-byte big-endian counter keys with 21-byte values.
    let n: u64 = 5000;
    let mut writer = Writer::new(opts(false, 4096, 4096));
    for i in 0..n {
        let key = i.to_be_bytes().to_vec();
        let value = vec![b'v'; 21];
        writer.write(Value::new(key, value, false, 1000 + i));
    }
    writer.finalize().unwrap();
    assert!(writer.block_count > 1, "test should span several blocks");
    assert!(
        writer.index_writer.tops.len() >= 1,
        "the sparse index should have a top-level block"
    );
    for i in 0..n {
        let key = i.to_be_bytes().to_vec();
        let idx = lookup(&writer.index_writer.entries, &key).expect("key must map to a block");
        let entry = &writer.index_writer.entries[idx];
        let block = read_block_at(&writer.block_writer.file, entry.offset, entry.len)
            .expect("block must decode");
        assert!(
            block.iter().any(|item| item.key == key),
            "block of entry {} should contain key {}",
            idx,
            i
        );
    }
    // A key below the first key is not in the segment.
    assert!(lookup(&writer.index_writer.entries, &Vec::new()).is_none());
    // The whole segment reads back in order.
    let back = read_segment(&writer.block_writer.file, &writer.index_writer.entries).unwrap();
    assert_eq!(back.len(), n as usize);
    for (i, item) in back.iter().enumerate() {
        assert_eq!(item.key, (i as u64).to_be_bytes().to_vec());
    }
}

#[test]
fn index_file_reads_back_as_entries() {
    // The sparse-index file is itself a stream of blocks: reading it through
    // the top-level entries yields one record per data block.
    let n: u64 = 2000;
    let mut writer = Writer::new(opts(false, 1024, 256));
    for i in 0..n {
        writer.write(Value::new(i.to_be_bytes().to_vec(), vec![b'v'; 16], false, i + 1));
    }
    writer.finalize().unwrap();
    let index_records =
        read_segment(&writer.index_writer.stream.file, &writer.index_writer.tops)
            .expect("index file must read back");
    assert_eq!(index_records.len(), writer.index_writer.entries.len());
    for (rec, entry) in index_records.iter().zip(writer.index_writer.entries.iter()) {
        assert_eq!(rec.key, entry.key);
        let mut payload = entry.offset.to_be_bytes().to_vec();
        payload.extend_from_slice(&entry.len.to_be_bytes());
        assert_eq!(rec.value, payload);
    }
}
