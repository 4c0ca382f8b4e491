//! A streaming writer of LZ4-framed value blocks. Records accumulate in a
//! chunk; when the chunk's serialized size reaches the target block size it
//! is serialized, compressed and appended to the in-memory file, and the
//! block's first key, file offset and frame length are recorded.
//!
//! Both the data file and the sparse-index file of a segment are streams of
//! this shape.

use crate::block::{
    enc_block, enc_values, lemma_enc_values_len, lemma_enc_values_push, serialize_block,
    valid_block, valid_records,
};
use crate::codec::clone_bytes;
use crate::compression::{lz4_compress, lz4_of};
use crate::value::{Value, ValueView};
use vstd::prelude::*;

verus! {

/// Largest accepted target block size.
pub const MAX_TARGET_SIZE: u32 = 0x0800_0000;

/// Largest canonical encoding of one record.
pub const MAX_RECORD_SIZE: usize = 0xC001_0011;

/// One sparse-index entry: the first key of a block, the block frame's file
/// offset, and the frame's length.
#[derive(Debug, Clone, PartialEq, Eq)]
pub struct IndexEntry {
    pub key: Vec<u8>,
    pub offset: u64,
    pub len: u32,
}

/// The mathematical model of a sparse-index entry.
#[verifier::ext_equal]
pub ghost struct IndexEntryView {
    pub key: Seq<u8>,
    pub offset: u64,
    pub len: u32,
}

impl View for IndexEntry {
    type V = IndexEntryView;

    open spec fn view(&self) -> IndexEntryView {
        IndexEntryView { key: self.key@, offset: self.offset, len: self.len }
    }
}

impl DeepView for IndexEntry {
    type V = IndexEntryView;

    open spec fn deep_view(&self) -> IndexEntryView {
        self.view()
    }
}

/// The on-disk frame of one block: LZ4 with a length prefix.
pub open spec fn frame_of(b: Seq<ValueView>) -> Seq<u8> {
    lz4_of(enc_block(b))
}

/// The file contents produced by a sequence of flushed blocks.
pub open spec fn file_of(blocks: Seq<Seq<ValueView>>) -> Seq<u8>
    decreases blocks.len(),
{
    if blocks.len() == 0 {
        Seq::empty()
    } else {
        file_of(blocks.drop_last()) + frame_of(blocks.last())
    }
}

/// How a file, its index entries and its block partition fit together:
/// frames appear in file order, and entry `i` names block `i`'s first key,
/// frame offset and frame length.
pub open spec fn stream_layout(
    file: Seq<u8>,
    entries: Seq<IndexEntryView>,
    blocks: Seq<Seq<ValueView>>,
) -> bool {
    &&& entries.len() == blocks.len()
    &&& forall|i: int|
        0 <= i < blocks.len() ==> valid_block(#[trigger] blocks[i]) && enc_block(
            blocks[i],
        ).len() <= 0xFFFF_FFFF
    &&& file == file_of(blocks)
    &&& forall|i: int|
        0 <= i < entries.len() ==> {
            &&& (#[trigger] entries[i]).key == blocks[i][0].key
            &&& entries[i].offset == file_of(blocks.take(i)).len()
            &&& entries[i].len == frame_of(blocks[i]).len()
        }
}

/// Whether `file` and `entries` describe a stream of blocks whose records,
/// in file order, are exactly `items`.
pub open spec fn stream_matches(
    file: Seq<u8>,
    entries: Seq<IndexEntryView>,
    items: Seq<ValueView>,
) -> bool {
    exists|blocks: Seq<Seq<ValueView>>|
        #[trigger] stream_layout(file, entries, blocks) && blocks.flatten() == items
}

/// Appending one block appends its frame to the file.
pub proof fn lemma_file_of_push(blocks: Seq<Seq<ValueView>>, b: Seq<ValueView>)
    ensures
        file_of(blocks.push(b)) == file_of(blocks) + frame_of(b),
{
    assert(blocks.push(b).drop_last() =~= blocks);
    assert(blocks.push(b).last() == b);
}


/// A stream of non-empty blocks never holds more blocks than records.
pub proof fn lemma_flatten_count(blocks: Seq<Seq<ValueView>>)
    requires
        forall|i: int| 0 <= i < blocks.len() ==> (#[trigger] blocks[i]).len() >= 1,
    ensures
        blocks.flatten().len() >= blocks.len(),
    decreases blocks.len(),
{
    if blocks.len() > 0 {
        let rest = blocks.drop_first();
        assert(forall|i: int| 0 <= i < rest.len() ==> (#[trigger] rest[i]).len() >= 1) by {
            assert(forall|i: int| 0 <= i < rest.len() ==> rest[i] == blocks[i + 1]);
        }
        lemma_flatten_count(rest);
        assert(blocks.flatten() == blocks.first() + rest.flatten());
    }
}

/// A streaming block writer over an in-memory file.
pub struct BlockStream {
    /// The file contents written so far: a concatenation of block frames.
    pub file: Vec<u8>,
    /// Records waiting for the next flush.
    pub chunk: Vec<Value>,
    /// The serialized size of the waiting records.
    pub chunk_size: usize,
    /// The soft block size: the chunk is flushed once its serialized size
    /// reaches this target.
    pub target_size: u32,
    /// The flushed blocks.
    pub blocks: Ghost<Seq<Seq<ValueView>>>,
    /// The index entries of the flushed blocks.
    pub entries: Ghost<Seq<IndexEntryView>>,
}

impl BlockStream {
    /// Every record accepted so far, in order.
    pub open spec fn pushed(self) -> Seq<ValueView> {
        self.blocks@.flatten() + self.chunk.deep_view()
    }

    /// Well-formedness: the file is the frame stream of the flushed blocks,
    /// the entries describe them, and the chunk accounting is exact.
    pub open spec fn wf(self) -> bool {
        &&& 1 <= self.target_size <= MAX_TARGET_SIZE
        &&& stream_layout(self.file@, self.entries@, self.blocks@)
        &&& valid_records(self.chunk.deep_view())
        &&& self.chunk_size == enc_values(self.chunk.deep_view()).len()
        &&& self.chunk_size < self.target_size
    }

    /// Opens an empty stream with the given target block size.
    pub fn new(target_size: u32) -> (r: BlockStream)
        requires
            1 <= target_size <= MAX_TARGET_SIZE,
        ensures
            r.wf(),
            r.target_size == target_size,
            r.pushed() == Seq::<ValueView>::empty(),
            r.file@ == Seq::<u8>::empty(),
            r.entries@ == Seq::<IndexEntryView>::empty(),
            r.blocks@ == Seq::<Seq<ValueView>>::empty(),
    {
        let r = BlockStream {
            file: Vec::new(),
            chunk: Vec::new(),
            chunk_size: 0,
            target_size,
            blocks: Ghost(Seq::empty()),
            entries: Ghost(Seq::empty()),
        };
        proof {
            assert(r.chunk.deep_view() =~= Seq::<ValueView>::empty());
            assert(r.pushed() =~= Seq::<ValueView>::empty());
            assert(r.file@ =~= file_of(r.blocks@));
        }
        r
    }

    /// Serializes, compresses and appends the chunk as one block, recording
    /// and returning its index entry.
    fn flush_chunk(&mut self) -> (e: IndexEntry)
        requires
            1 <= old(self).target_size <= MAX_TARGET_SIZE,
            stream_layout(old(self).file@, old(self).entries@, old(self).blocks@),
            valid_records(old(self).chunk.deep_view()),
            old(self).chunk_size == enc_values(old(self).chunk.deep_view()).len(),
            old(self).chunk_size <= MAX_TARGET_SIZE as int + MAX_RECORD_SIZE as int,
            old(self).chunk.deep_view().len() >= 1,
        ensures
            final(self).wf(),
            final(self).target_size == old(self).target_size,
            final(self).blocks@ == old(self).blocks@.push(old(self).chunk.deep_view()),
            final(self).entries@ == old(self).entries@.push(e@),
            final(self).chunk.deep_view() == Seq::<ValueView>::empty(),
            final(self).chunk_size == 0,
            final(self).pushed() == old(self).pushed(),
            final(self).file@ == old(self).file@ + frame_of(old(self).chunk.deep_view()),
            e@.key == old(self).chunk.deep_view()[0].key,
            e@.offset == old(self).file@.len(),
            e@.len == frame_of(old(self).chunk.deep_view()).len(),
    {
        let ghost b = self.chunk.deep_view();
        let ghost old_blocks = self.blocks@;
        proof {
            // The chunk forms a valid block whose serialization fits a frame.
            lemma_enc_values_len(b);
            assert(b.len() <= enc_values(b).len() / 18 + 1);
        }
        let serialized = serialize_block(&self.chunk);
        let frame = lz4_compress(&serialized);
        let offset = self.file.len();
        let flen = frame.len();
        crate::codec::push_bytes(&mut self.file, &frame);
        let first = clone_bytes(&self.chunk[0].key);
        let e = IndexEntry { key: first, offset: offset as u64, len: flen as u32 };
        self.chunk = Vec::new();
        self.chunk_size = 0;
        proof {
            self.blocks@ = old_blocks.push(b);
            self.entries@ = self.entries@.push(e@);
        }
        proof {
            lemma_file_of_push(old_blocks, b);
            assert(self.chunk.deep_view() =~= Seq::<ValueView>::empty());
            assert(enc_values(self.chunk.deep_view()) =~= Seq::<u8>::empty());
            let blocks2 = self.blocks@;
            let entries2 = self.entries@;
            assert(stream_layout(self.file@, entries2, blocks2)) by {
                assert forall|i: int| 0 <= i < entries2.len() implies {
                    &&& (#[trigger] entries2[i]).key == blocks2[i][0].key
                    &&& entries2[i].offset == file_of(blocks2.take(i)).len()
                    &&& entries2[i].len == frame_of(blocks2[i]).len()
                } by {
                    assert(blocks2.take(i) =~= if i < old_blocks.len() {
                        old_blocks.take(i)
                    } else {
                        old_blocks
                    });
                    if i < old_blocks.len() {
                        assert(old(self).entries@[i] == entries2[i]);
                        assert(old_blocks[i] == blocks2[i]);
                    }
                }
            }
            assert(blocks2.flatten() == old_blocks.flatten() + b) by {
                old_blocks.lemma_flatten_push(b);
            }
            assert(self.pushed() =~= old(self).pushed());
        }
        e
    }

    /// Accepts one record. When the accumulated serialized size reaches the
    /// target block size, the chunk (including this record) is flushed and
    /// the new block's index entry is returned.
    pub fn push(&mut self, item: Value) -> (r: Option<IndexEntry>)
        requires
            old(self).wf(),
            item@.valid(),
        ensures
            final(self).wf(),
            final(self).target_size == old(self).target_size,
            final(self).pushed() == old(self).pushed().push(item@),
            // The flush boundary is exact: a block is emitted when and only
            // when the accumulated serialized size, including this record,
            // reaches the target block size.
            r is Some <==> enc_values(old(self).chunk.deep_view().push(item@)).len() >= old(
                self,
            ).target_size,
            (match r {
                Some(e) => {
                    &&& final(self).blocks@ == old(self).blocks@.push(
                        old(self).chunk.deep_view().push(item@),
                    )
                    &&& final(self).entries@ == old(self).entries@.push(e@)
                    &&& final(self).chunk.deep_view() == Seq::<ValueView>::empty()
                    &&& e@.key == old(self).chunk.deep_view().push(item@)[0].key
                    &&& e@.offset == old(self).file@.len()
                },
                None => {
                    &&& final(self).blocks@ == old(self).blocks@
                    &&& final(self).entries@ == old(self).entries@
                    &&& final(self).chunk.deep_view() == old(self).chunk.deep_view().push(item@)
                },
            }),
    {
        let ghost old_chunk = self.chunk.deep_view();
        let sz = item.size();
        let ghost iv = item@;
        self.chunk_size = self.chunk_size + sz;
        self.chunk.push(item);
        proof {
            assert(self.chunk.deep_view() =~= old_chunk.push(iv));
            lemma_enc_values_push(old_chunk, iv);
            crate::value::lemma_enc_value_index(iv);
            assert(valid_records(self.chunk.deep_view())) by {
                assert(forall|i: int|
                    0 <= i < old_chunk.len() ==> self.chunk.deep_view()[i] == old_chunk[i]);
            }
        }
        let r = if self.chunk_size >= self.target_size as usize {
            let e = self.flush_chunk();
            Some(e)
        } else {
            None
        };
        proof {
            broadcast use vstd::seq_lib::group_seq_properties;

            assert(self.pushed() =~= old(self).pushed().push(iv));
        }
        r
    }

    /// Flushes a final, partially filled chunk, if any, returning its index
    /// entry.
    pub fn finish(&mut self) -> (r: Option<IndexEntry>)
        requires
            old(self).wf(),
        ensures
            final(self).wf(),
            final(self).target_size == old(self).target_size,
            final(self).pushed() == old(self).pushed(),
            final(self).chunk.deep_view() == Seq::<ValueView>::empty(),
            final(self).blocks@.flatten() == old(self).pushed(),
            (match r {
                Some(e) => {
                    &&& final(self).blocks@ == old(self).blocks@.push(old(self).chunk.deep_view())
                    &&& final(self).entries@ == old(self).entries@.push(e@)
                    &&& old(self).chunk.deep_view().len() > 0
                    &&& e@.key == old(self).chunk.deep_view()[0].key
                },
                None => {
                    &&& final(self).blocks@ == old(self).blocks@
                    &&& final(self).entries@ == old(self).entries@
                    &&& old(self).chunk.deep_view().len() == 0
                },
            }),
    {
        let r = if self.chunk.len() > 0 {
            let e = self.flush_chunk();
            Some(e)
        } else {
            None
        };
        proof {
            broadcast use vstd::seq_lib::group_seq_properties;

            if r is None {
                assert(self.chunk.deep_view() =~= Seq::<ValueView>::empty());
            }
            assert(self.blocks@.flatten() + self.chunk.deep_view() =~= self.blocks@.flatten());
            assert(self.pushed() =~= old(self).pushed());
        }
        r
    }
}

} // verus!
