//! The sparse block index writer. Index entries are buffered into index
//! blocks serialized exactly like value blocks (each entry becomes a record
//! whose key is a data block's first key and whose value encodes that block's
//! file offset and frame length), and a single top-level block lists the
//! first key of each index block.

use crate::codec::{put_u32_be, put_u64_be, spec_u32_be, spec_u64_be};
use crate::compression::lz4_compress;
use crate::segment::stream::{
    frame_of, lemma_flatten_count, stream_layout, stream_matches, BlockStream, IndexEntry,
    IndexEntryView, MAX_TARGET_SIZE,
};
use crate::block::{enc_block, serialize_block, valid_block};
use crate::error::Error;
use crate::value::{Value, ValueView};
use vstd::prelude::*;

verus! {

/// The record that stands for one sparse-index entry inside an index block.
pub open spec fn index_record(e: IndexEntryView) -> ValueView {
    ValueView {
        key: e.key,
        value: spec_u64_be(e.offset) + spec_u32_be(e.len),
        seqno: 0,
        is_tombstone: false,
    }
}

/// The records of a sequence of sparse-index entries.
pub open spec fn index_records(es: Seq<IndexEntryView>) -> Seq<ValueView> {
    es.map_values(|e: IndexEntryView| index_record(e))
}

/// A streaming writer for the sparse index file.
pub struct IndexWriter {
    /// The index file under construction: a stream of index blocks.
    pub stream: BlockStream,
    /// The sparse index itself: one entry per registered data block.
    pub entries: Vec<IndexEntry>,
    /// One entry per flushed index block; the source of the top-level block.
    pub tops: Vec<IndexEntry>,
    /// The frame of the top-level block; written by finalize.
    pub top_frame: Vec<u8>,
}

impl IndexWriter {
    /// Well-formedness: the index file is the block stream of the registered
    /// entries' records, and `tops` mirrors the stream's flushed blocks.
    pub open spec fn wf(self) -> bool {
        &&& self.stream.wf()
        &&& self.stream.pushed() == index_records(self.entries.deep_view())
        &&& self.entries.deep_view().len() <= 0xFFFF_FFFF
        &&& self.tops.deep_view() == self.stream.entries@
    }

    /// Opens an index writer with the given index block size.
    pub fn new(index_block_size: u32) -> (r: IndexWriter)
        requires
            1 <= index_block_size <= MAX_TARGET_SIZE,
        ensures
            r.wf(),
            r.stream.target_size == index_block_size,
            r.entries.deep_view() == Seq::<IndexEntryView>::empty(),
            r.top_frame@.len() == 0,
    {
        let r = IndexWriter {
            stream: BlockStream::new(index_block_size),
            entries: Vec::new(),
            tops: Vec::new(),
            top_frame: Vec::new(),
        };
        proof {
            assert(r.entries.deep_view() =~= Seq::<IndexEntryView>::empty());
            assert(r.tops.deep_view() =~= Seq::<IndexEntryView>::empty());
            assert(index_records(r.entries.deep_view()) =~= Seq::<ValueView>::empty());
        }
        r
    }

    /// Registers one data block: its first key, the file offset its frame
    /// starts at, and the frame's length.
    pub fn register_block(&mut self, key: Vec<u8>, offset: u64, len: u32)
        requires
            old(self).wf(),
            1 <= key@.len() <= 65536,
            old(self).entries.deep_view().len() < 0xFFFF_FFFF,
        ensures
            final(self).wf(),
            final(self).stream.target_size == old(self).stream.target_size,
            final(self).entries.deep_view() == old(self).entries.deep_view().push(
                IndexEntryView { key: key@, offset, len },
            ),
            final(self).top_frame@ == old(self).top_frame@,
    {
        let ghost ev = IndexEntryView { key: key@, offset, len };
        let mut payload: Vec<u8> = Vec::new();
        put_u64_be(&mut payload, offset);
        put_u32_be(&mut payload, len);
        let record = Value { key, value: payload, seqno: 0, is_tombstone: false };
        proof {
            assert(record@ =~= index_record(ev));
        }
        self.entries.push(IndexEntry { key: crate::codec::clone_bytes(&record.key), offset, len });
        let flushed = self.stream.push(record);
        if let Some(te) = flushed {
            self.tops.push(te);
        }
        proof {
            assert(self.entries.deep_view() =~= old(self).entries.deep_view().push(ev));
            assert(index_records(self.entries.deep_view()) =~= index_records(
                old(self).entries.deep_view(),
            ).push(index_record(ev)));
            assert(self.tops.deep_view() =~= self.stream.entries@);
        }
    }

    /// Flushes the final partial index block, then serializes the top-level
    /// block that lists the first key of each index block.
    ///
    /// Fails with `Error::IndexTooLarge` exactly when the serialized
    /// top-level block would not fit the format's 32-bit frame bound; the
    /// segment is then incomplete and must not be surfaced.
    pub fn finalize(&mut self) -> (r: Result<(), Error>)
        requires
            old(self).wf(),
        ensures
            final(self).wf(),
            final(self).stream.target_size == old(self).stream.target_size,
            final(self).entries.deep_view() == old(self).entries.deep_view(),
            final(self).stream.chunk.deep_view() == Seq::<ValueView>::empty(),
            // The index file holds exactly the registered entries' records,
            // laid out in the blocks that the top-level entries describe.
            stream_matches(
                final(self).stream.file@,
                final(self).tops.deep_view(),
                index_records(final(self).entries.deep_view()),
            ),
            // Success exactly when the top-level block fits its frame.
            r is Ok <==> (final(self).tops.deep_view().len() == 0 || enc_block(
                index_records(final(self).tops.deep_view()),
            ).len() <= 0xFFFF_FFFF),
            // On success the top-level block lists every index block (an
            // empty segment has no index blocks and no top-level block).
            r is Ok && final(self).tops.deep_view().len() > 0 ==> final(self).top_frame@
                == frame_of(index_records(final(self).tops.deep_view())),
            final(self).tops.deep_view().len() == 0 ==> final(self).top_frame@.len() == 0,
            r is Err ==> final(self).top_frame@.len() == 0,
    {
        let flushed = self.stream.finish();
        if let Some(te) = flushed {
            self.tops.push(te);
        }
        proof {
            assert(self.tops.deep_view() =~= self.stream.entries@);
            assert(stream_layout(self.stream.file@, self.stream.entries@, self.stream.blocks@));
        }
        if self.tops.len() == 0 {
            self.top_frame = Vec::new();
            Ok(())
        } else {
            let mut top_items: Vec<Value> = Vec::new();
            let n = self.tops.len();
            let mut i: usize = 0;
            while i < n
                invariant
                    0 <= i <= n == self.tops.deep_view().len(),
                    top_items.deep_view() == index_records(self.tops.deep_view().take(i as int)),
                    self.tops.deep_view() == self.stream.entries@,
                    stream_layout(self.stream.file@, self.stream.entries@, self.stream.blocks@),
                decreases n - i,
            {
                let e = &self.tops[i];
                let mut payload: Vec<u8> = Vec::new();
                put_u64_be(&mut payload, e.offset);
                put_u32_be(&mut payload, e.len);
                let key = crate::codec::clone_bytes(&e.key);
                proof {
                    // The top key is an index block's first key, so it is a
                    // well-formed record key.
                    let blocks = self.stream.blocks@;
                    assert(self.stream.entries@[i as int].key == blocks[i as int][0].key);
                    assert(valid_block(blocks[i as int]));
                    assert(blocks[i as int][0].valid());
                }
                let ghost prev_items = top_items.deep_view();
                let record = Value { key, value: payload, seqno: 0, is_tombstone: false };
                proof {
                    assert(record@ =~= index_record(self.tops.deep_view()[i as int]));
                }
                top_items.push(record);
                proof {
                    assert(top_items.deep_view() =~= prev_items.push(record@));
                    assert(top_items.deep_view() =~= index_records(
                        self.tops.deep_view().take(i + 1),
                    ));
                }
                i += 1;
            }
            proof {
                assert(self.tops.deep_view().take(n as int) =~= self.tops.deep_view());
                // There are no more index blocks than index records, and no
                // more index records than registered entries.
                lemma_flatten_count(self.stream.blocks@);
                assert(self.stream.blocks@.flatten().len() <= self.stream.pushed().len());
                assert(index_records(self.entries.deep_view()).len() == self.entries.deep_view().len());
                assert(valid_block(top_items.deep_view()));
            }
            let serialized = serialize_block(&top_items);
            if serialized.len() <= 0xFFFF_FFFF {
                let frame = lz4_compress(&serialized);
                self.top_frame = frame;
                Ok(())
            } else {
                self.top_frame = Vec::new();
                Err(Error::IndexTooLarge)
            }
        }
    }
}

} // verus!
