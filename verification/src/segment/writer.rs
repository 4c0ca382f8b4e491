//! The segment writer: streams a sorted run of records into an immutable
//! segment — a block file plus a sparse block index — while maintaining the
//! segment metadata (key range, seqno range, item and tombstone counts).

use crate::block::{enc_block, enc_values, lemma_enc_values_len, lemma_enc_values_push};
use crate::error::Error;
use crate::codec::clone_bytes;
use crate::order::{lemma_sorted_run_push, sorted_run, value_order_le};
use crate::segment::index::{index_records, IndexWriter};
use crate::segment::stream::{stream_matches, BlockStream, IndexEntry, MAX_TARGET_SIZE};
use crate::value::{Value, ValueView};
use vstd::prelude::*;

verus! {

/// Cap on a segment's total uncompressed record bytes, so that byte counters
/// never overflow their 64-bit fields.
pub const MAX_SEGMENT_BYTES: u64 = 0x2000_0000_0000_0000;

/// Cap on a segment's block count, so that every block can be registered in
/// the sparse index.
pub const MAX_BLOCK_COUNT: u64 = 0xFFFF_FFFE;

/// Configuration of one segment writer.
pub struct Options {
    /// The segment directory (used by the surrounding storage layer when the
    /// finished files are persisted).
    pub path: String,
    /// Whether tombstones are dropped instead of written.
    pub evict_tombstones: bool,
    /// Soft target size of one data block.
    pub block_size: u32,
    /// Soft target size of one sparse-index block.
    pub index_block_size: u32,
}

/// The records that reach the segment: all of them, or, when tombstones are
/// evicted, the non-tombstone subsequence.
pub open spec fn kept(written: Seq<ValueView>, evict_tombstones: bool) -> Seq<ValueView> {
    if evict_tombstones {
        written.filter(|v: ValueView| !v.is_tombstone)
    } else {
        written
    }
}

/// The tombstones among a run of records.
pub open spec fn tombstones(vs: Seq<ValueView>) -> Seq<ValueView> {
    vs.filter(|v: ValueView| v.is_tombstone)
}

/// Filtering never lengthens a run.
pub proof fn lemma_filter_le_len(vs: Seq<ValueView>, pred: spec_fn(ValueView) -> bool)
    ensures
        vs.filter(pred).len() <= vs.len(),
    decreases vs.len(),
{
    reveal(Seq::filter);
    if vs.len() > 0 {
        lemma_filter_le_len(vs.drop_last(), pred);
    }
}

/// A run of well-formed records stays well-formed under filtering.
pub proof fn lemma_filter_valid(vs: Seq<ValueView>, pred: spec_fn(ValueView) -> bool)
    requires
        forall|i: int| 0 <= i < vs.len() ==> (#[trigger] vs[i]).valid(),
    ensures
        forall|i: int|
            0 <= i < vs.filter(pred).len() ==> (#[trigger] vs.filter(pred)[i]).valid(),
    decreases vs.len(),
{
    reveal(Seq::filter);
    if vs.len() > 0 {
        let dl = vs.drop_last();
        assert(forall|i: int| 0 <= i < dl.len() ==> (#[trigger] dl[i]).valid()) by {
            assert(forall|i: int| 0 <= i < dl.len() ==> dl[i] == vs[i]);
        }
        lemma_filter_valid(dl, pred);
        assert(vs.last().valid());
        assert forall|i: int| 0 <= i < vs.filter(pred).len() implies (
        #[trigger] vs.filter(pred)[i]).valid() by {
            if i < dl.filter(pred).len() {
                assert(vs.filter(pred)[i] == dl.filter(pred)[i]);
            }
        }
    }
}

/// How one more record changes a filtered run.
pub proof fn lemma_filter_push(vs: Seq<ValueView>, w: ValueView, pred: spec_fn(ValueView) -> bool)
    ensures
        vs.push(w).filter(pred) == if pred(w) {
            vs.filter(pred).push(w)
        } else {
            vs.filter(pred)
        },
    decreases vs.len(),
{
    reveal(Seq::filter);
    assert(vs.push(w).drop_last() =~= vs);
    assert(vs.push(w).last() == w);
    if pred(w) {
        assert(vs.push(w).filter(pred) =~= vs.filter(pred).push(w));
    }
}

/// Streams a sorted sequence of records into one immutable segment: a block
/// file, a sparse index, and the segment metadata.
pub struct Writer {
    pub opts: Options,
    /// The data block stream (the segment's block file).
    pub block_writer: BlockStream,
    /// The sparse index under construction.
    pub index_writer: IndexWriter,
    /// Blocks written to the block file so far.
    pub block_count: u64,
    /// Records written to the segment so far (evicted tombstones excluded).
    pub written_item_count: u64,
    /// Length of the block file so far.
    pub file_pos: u64,
    /// Total serialized size of the records written so far, before
    /// compression.
    pub uncompressed_size: u64,
    /// The first record's key, once one was written.
    pub first_key: Option<Vec<u8>>,
    /// The most recent record's key.
    pub last_key: Option<Vec<u8>>,
    /// Tombstones written (always zero when tombstones are evicted).
    pub tombstone_count: u64,
    /// Smallest seqno written so far; `u64::MAX` before the first record.
    pub lowest_seqno: u64,
    /// Largest seqno written so far; `0` before the first record.
    pub highest_seqno: u64,
    /// Every record handed to `write`, in order, evicted tombstones included.
    pub written: Ghost<Seq<ValueView>>,
}

impl Writer {
    /// The records this segment keeps.
    pub open spec fn accepted(self) -> Seq<ValueView> {
        kept(self.written@, self.opts.evict_tombstones)
    }

    /// Well-formedness of the writer: the block file, the sparse index and
    /// every metadata field agree with the records written so far.
    pub open spec fn wf(self) -> bool {
        let acc = self.accepted();
        &&& self.block_writer.wf()
        &&& self.index_writer.wf()
        &&& self.block_writer.target_size == self.opts.block_size
        &&& self.index_writer.stream.target_size == self.opts.index_block_size
        &&& self.index_writer.entries.deep_view() == self.block_writer.entries@
        &&& self.block_writer.pushed() == acc
        &&& sorted_run(self.written@)
        &&& (forall|i: int| 0 <= i < self.written@.len() ==> (#[trigger] self.written@[i]).valid())
        &&& enc_values(acc).len() <= MAX_SEGMENT_BYTES
        &&& self.file_pos == self.block_writer.file@.len()
        &&& self.uncompressed_size == enc_values(acc).len()
        &&& self.written_item_count == acc.len()
        &&& self.block_count == self.block_writer.blocks@.len()
        &&& self.block_count <= self.written_item_count
        &&& self.tombstone_count == tombstones(acc).len()
        &&& (acc.len() == 0 ==> self.first_key is None && self.last_key is None
            && self.lowest_seqno == u64::MAX && self.highest_seqno == 0)
        &&& (acc.len() > 0 ==> {
            &&& self.first_key matches Some(k) && k@ == acc[0].key
            &&& self.last_key matches Some(k) && k@ == acc.last().key
            &&& (forall|i: int|
                0 <= i < acc.len() ==> self.lowest_seqno <= (#[trigger] acc[i]).seqno
                    <= self.highest_seqno)
            &&& (exists|i: int| 0 <= i < acc.len() && (#[trigger] acc[i]).seqno == self.lowest_seqno)
            &&& (exists|i: int|
                0 <= i < acc.len() && (#[trigger] acc[i]).seqno == self.highest_seqno)
        })
    }

    /// Opens a writer for a new, empty segment.
    pub fn new(opts: Options) -> (r: Writer)
        requires
            1 <= opts.block_size <= MAX_TARGET_SIZE,
            1 <= opts.index_block_size <= MAX_TARGET_SIZE,
        ensures
            r.wf(),
            r.written@ == Seq::<ValueView>::empty(),
            r.opts == opts,
    {
        let block_writer = BlockStream::new(opts.block_size);
        let index_writer = IndexWriter::new(opts.index_block_size);
        let r = Writer {
            opts,
            block_writer,
            index_writer,
            block_count: 0,
            written_item_count: 0,
            file_pos: 0,
            uncompressed_size: 0,
            first_key: None,
            last_key: None,
            tombstone_count: 0,
            lowest_seqno: u64::MAX,
            highest_seqno: 0,
            written: Ghost(Seq::empty()),
        };
        proof {
            reveal(Seq::filter);
            assert(r.accepted() =~= Seq::<ValueView>::empty());
            assert(tombstones(r.accepted()) =~= Seq::<ValueView>::empty());
        }
        r
    }

    /// Writes one record.
    ///
    /// The caller hands records in segment order: keys ascending, newest
    /// version of a key first. A tombstone is dropped silently when the
    /// writer was opened with `evict_tombstones`; every other record is
    /// appended to the current block, the block is flushed and registered in
    /// the sparse index once it reaches the target block size, and the
    /// segment metadata is updated.
    #[verifier::rlimit(100)]
    #[verifier::spinoff_prover]
    pub fn write(&mut self, item: Value)
        requires
            old(self).wf(),
            item@.valid(),
            old(self).written@.len() > 0 ==> value_order_le(old(self).written@.last(), item@),
            enc_values(kept(old(self).written@.push(item@), old(self).opts.evict_tombstones)).len()
                <= MAX_SEGMENT_BYTES,
            old(self).block_count < MAX_BLOCK_COUNT,
        ensures
            final(self).wf(),
            final(self).written@ == old(self).written@.push(item@),
            final(self).opts == old(self).opts,
            // The flush boundary is exact: an evicted tombstone leaves the
            // block stream untouched; any other record joins the current
            // chunk, which is flushed as one block — including this record —
            // when and only when its serialized size reaches `block_size`.
            ({
                let evicted = item@.is_tombstone && old(self).opts.evict_tombstones;
                let grown = old(self).block_writer.chunk.deep_view().push(item@);
                let flushes = enc_values(grown).len() >= old(self).opts.block_size;
                &&& (evicted ==> final(self).block_writer == old(self).block_writer)
                &&& (!evicted && flushes ==> final(self).block_writer.blocks@ == old(
                    self,
                ).block_writer.blocks@.push(grown) && final(self).block_writer.chunk.deep_view()
                    == Seq::<ValueView>::empty())
                &&& (!evicted && !flushes ==> final(self).block_writer.blocks@ == old(
                    self,
                ).block_writer.blocks@ && final(self).block_writer.chunk.deep_view() == grown)
            }),
    {
        let ghost oldw = self.written@;
        let ghost iv = item@;
        let ghost pred = |v: ValueView| !v.is_tombstone;
        proof {
            lemma_filter_push(oldw, iv, pred);
            lemma_filter_push(oldw.filter(pred), iv, |v: ValueView| v.is_tombstone);
            lemma_sorted_run_push(oldw, iv);
            if old(self).opts.evict_tombstones {
                lemma_filter_valid(oldw, pred);
            }
            let acc = old(self).accepted();
            let acc2 = kept(oldw.push(iv), old(self).opts.evict_tombstones);
            assert(forall|i: int| 0 <= i < acc.len() ==> (#[trigger] acc[i]).valid());
            assert(forall|i: int| 0 <= i < acc2.len() ==> (#[trigger] acc2[i]).valid()) by {
                assert(forall|i: int| 0 <= i < acc.len() ==> acc2[i] == acc[i]);
            }
            lemma_enc_values_len(acc2);
            lemma_filter_le_len(acc, |v: ValueView| v.is_tombstone);
        }
        if item.is_tombstone {
            if self.opts.evict_tombstones {
                proof {
                    self.written@ = oldw.push(iv);
                    assert(self.accepted() =~= old(self).accepted());
                }
                return;
            }
            proof {
                lemma_filter_le_len(self.accepted(), |v: ValueView| v.is_tombstone);
                lemma_filter_push(oldw, iv, |v: ValueView| v.is_tombstone);
            }
            self.tombstone_count = self.tombstone_count + 1;
        } else {
            proof {
                lemma_filter_push(oldw, iv, |v: ValueView| v.is_tombstone);
            }
        }
        let ghost acc2 = old(self).accepted().push(iv);
        proof {
            lemma_enc_values_push(old(self).accepted(), iv);
        }
        let item_key = clone_bytes(&item.key);
        let seqno = item.seqno;
        let sz = item.size();
        self.uncompressed_size = self.uncompressed_size + (sz as u64);
        self.written_item_count = self.written_item_count + 1;
        let flushed = self.block_writer.push(item);
        match flushed {
            Some(e) => {
                self.block_count = self.block_count + 1;
                proof {
                    // The block's first key is a well-formed record key.
                    let b = old(self).block_writer.chunk.deep_view().push(iv);
                    assert(b[0].valid()) by {
                        if old(self).block_writer.chunk.deep_view().len() > 0 {
                            assert(b[0] == old(self).block_writer.chunk.deep_view()[0]);
                        }
                    }
                }
                let IndexEntry { key: ekey, offset: eoff, len: elen } = e;
                self.index_writer.register_block(ekey, eoff, elen);
            },
            None => {},
        }
        self.file_pos = self.block_writer.file.len() as u64;
        if self.first_key.is_none() {
            self.first_key = Some(clone_bytes(&item_key));
        }
        self.last_key = Some(item_key);
        if self.lowest_seqno > seqno {
            self.lowest_seqno = seqno;
        }
        if self.highest_seqno < seqno {
            self.highest_seqno = seqno;
        }
        proof {
            self.written@ = oldw.push(iv);
            let acc = self.accepted();
            assert(acc =~= acc2);
            assert(self.block_writer.pushed() =~= acc);
            let oldacc = old(self).accepted();
            assert(acc[0] == if oldacc.len() > 0 {
                oldacc[0]
            } else {
                iv
            });
            assert(acc.last() == iv);
            assert forall|i: int| 0 <= i < acc.len() implies self.lowest_seqno <= (
            #[trigger] acc[i]).seqno <= self.highest_seqno by {
                if i < oldacc.len() {
                    assert(acc[i] == oldacc[i]);
                }
            }
            assert(exists|i: int|
                0 <= i < acc.len() && (#[trigger] acc[i]).seqno == self.lowest_seqno) by {
                if self.lowest_seqno == iv.seqno {
                    assert(acc[acc.len() - 1].seqno == self.lowest_seqno);
                } else {
                    let j = choose|j: int|
                        0 <= j < oldacc.len() && (#[trigger] oldacc[j]).seqno == old(
                            self,
                        ).lowest_seqno;
                    assert(acc[j].seqno == self.lowest_seqno);
                }
            }
            assert(exists|i: int|
                0 <= i < acc.len() && (#[trigger] acc[i]).seqno == self.highest_seqno) by {
                if self.highest_seqno == iv.seqno {
                    assert(acc[acc.len() - 1].seqno == self.highest_seqno);
                } else {
                    let j = choose|j: int|
                        0 <= j < oldacc.len() && (#[trigger] oldacc[j]).seqno == old(
                            self,
                        ).highest_seqno;
                    assert(acc[j].seqno == self.highest_seqno);
                }
            }
        }
    }

    /// Finalizes the segment: flushes the last partial block, finalizes the
    /// sparse index (its final block and its top-level block), and leaves the
    /// finished block file, sparse index and metadata behind.
    ///
    /// After finalize, the block file together with the sparse index holds
    /// exactly the records that were written (the non-tombstone subsequence,
    /// when tombstones are evicted), in order; and the metadata gives the
    /// exact first key, last key, seqno range and tombstone count of those
    /// records. An empty segment (nothing written, or everything evicted)
    /// leaves an empty block file and no keys.
    ///
    /// Fails with `Error::IndexTooLarge` exactly when the sparse index's
    /// top-level block would not fit the format's 32-bit frame bound; the
    /// block file and flat sparse index are complete even then, but the
    /// segment has no top-level index block and must not be surfaced.
    #[verifier::rlimit(100)]
    #[verifier::spinoff_prover]
    pub fn finalize(&mut self) -> (r: Result<(), Error>)
        requires
            old(self).wf(),
            old(self).block_count < MAX_BLOCK_COUNT,
        ensures
            final(self).wf(),
            final(self).written@ == old(self).written@,
            final(self).opts == old(self).opts,
            // Success exactly when the top-level index block fits its frame.
            r is Ok <==> (final(self).index_writer.tops.deep_view().len() == 0 || enc_block(
                index_records(final(self).index_writer.tops.deep_view()),
            ).len() <= 0xFFFF_FFFF),
            r is Ok && final(self).index_writer.tops.deep_view().len() > 0
                ==> final(self).index_writer.top_frame@ == crate::segment::stream::frame_of(
                index_records(final(self).index_writer.tops.deep_view()),
            ),
            // The segment round-trips: block file and sparse index hold
            // exactly the kept records, in order.
            stream_matches(
                final(self).block_writer.file@,
                final(self).index_writer.entries.deep_view(),
                kept(old(self).written@, old(self).opts.evict_tombstones),
            ),
            // The sparse-index file holds exactly the index entries, laid out
            // in the index blocks that its top-level block lists.
            stream_matches(
                final(self).index_writer.stream.file@,
                final(self).index_writer.tops.deep_view(),
                index_records(final(self).index_writer.entries.deep_view()),
            ),
            // Exact metadata of the finished segment.
            ({
                let acc = kept(old(self).written@, old(self).opts.evict_tombstones);
                &&& final(self).written_item_count == acc.len()
                &&& final(self).tombstone_count == tombstones(acc).len()
                &&& (acc.len() == 0 ==> final(self).first_key is None && final(self).last_key
                    is None && final(self).lowest_seqno == u64::MAX && final(self).highest_seqno
                    == 0 && final(self).block_writer.file@.len() == 0)
                &&& (acc.len() > 0 ==> {
                    &&& final(self).first_key matches Some(k) && k@ == acc[0].key
                    &&& final(self).last_key matches Some(k) && k@ == acc.last().key
                    &&& (forall|i: int|
                        0 <= i < acc.len() ==> final(self).lowest_seqno <= (
                        #[trigger] acc[i]).seqno <= final(self).highest_seqno)
                    &&& (exists|i: int|
                        0 <= i < acc.len()
                            && (#[trigger] acc[i]).seqno == final(self).lowest_seqno)
                    &&& (exists|i: int|
                        0 <= i < acc.len()
                            && (#[trigger] acc[i]).seqno == final(self).highest_seqno)
                })
            }),
    {
        let flushed = self.block_writer.finish();
        match flushed {
            Some(e) => {
                self.block_count = self.block_count + 1;
                proof {
                    let b = old(self).block_writer.chunk.deep_view();
                    assert(b[0].valid());
                    crate::segment::stream::lemma_flatten_count(self.block_writer.blocks@);
                }
                let IndexEntry { key: ekey, offset: eoff, len: elen } = e;
                self.index_writer.register_block(ekey, eoff, elen);
            },
            None => {},
        }
        self.file_pos = self.block_writer.file.len() as u64;
        let r = self.index_writer.finalize();
        proof {
            crate::segment::stream::lemma_flatten_count(self.block_writer.blocks@);
            let acc = self.accepted();
            assert(self.block_writer.blocks@.flatten() =~= acc);
            assert(stream_matches(
                self.block_writer.file@,
                self.index_writer.entries.deep_view(),
                acc,
            )) by {
                assert(crate::segment::stream::stream_layout(
                    self.block_writer.file@,
                    self.index_writer.entries.deep_view(),
                    self.block_writer.blocks@,
                ));
            }
            if acc.len() == 0 {
                assert(self.block_writer.blocks@.len() == 0);
                assert(self.block_writer.file@ =~= crate::segment::stream::file_of(
                    self.block_writer.blocks@,
                ));
            }
        }
        r
    }
}

} // verus!
