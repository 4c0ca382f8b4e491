//! Reading a segment back: slicing block frames out of the block file by
//! their sparse-index entries, decompressing and deserializing them, and
//! locating the block that may hold a key.

use crate::block::{deserialize_block, enc_block, is_block_enc, valid_block};
use crate::codec::slice_bytes;
use crate::compression::{lz4_decompress, lz4_of};
use crate::order::{key_le, key_lt, lemma_lex_lt_asym, lemma_lex_trichotomy, lex_lt};
use crate::segment::stream::{
    file_of, frame_of, lemma_file_of_push, stream_layout, stream_matches, IndexEntry,
    IndexEntryView,
};
use crate::value::{Value, ValueView};
use vstd::prelude::*;

verus! {

/// Whether the frame of block `b` lies at `[offset, offset + len)` of `file`.
pub open spec fn frame_at(file: Seq<u8>, offset: u64, len: u32, b: Seq<ValueView>) -> bool {
    &&& valid_block(b)
    &&& enc_block(b).len() <= 0xFFFF_FFFF
    &&& offset + len <= file.len()
    &&& file.subrange(offset as int, offset + len) == frame_of(b)
}

/// The file of the first `i` blocks is a prefix of the whole file.
proof fn lemma_file_of_prefix(blocks: Seq<Seq<ValueView>>, i: int)
    requires
        0 <= i <= blocks.len(),
    ensures
        file_of(blocks.take(i)).len() <= file_of(blocks).len(),
        file_of(blocks).subrange(0, file_of(blocks.take(i)).len() as int) == file_of(
            blocks.take(i),
        ),
    decreases blocks.len() - i,
{
    if i == blocks.len() {
        assert(blocks.take(i) =~= blocks);
        assert(file_of(blocks).subrange(0, file_of(blocks).len() as int) =~= file_of(blocks));
    } else {
        lemma_file_of_prefix(blocks, i + 1);
        assert(blocks.take(i + 1) =~= blocks.take(i).push(blocks[i]));
        lemma_file_of_push(blocks.take(i), blocks[i]);
        let pi = file_of(blocks.take(i));
        let pi1 = file_of(blocks.take(i + 1));
        assert(file_of(blocks).subrange(0, pi.len() as int) =~= pi) by {
            assert forall|j: int| 0 <= j < pi.len() implies file_of(blocks)[j] == pi[j] by {
                assert(file_of(blocks).subrange(0, pi1.len() as int)[j] == file_of(blocks)[j]);
                assert(pi1[j] == pi[j]);
            }
        }
    }
}

/// Block `i`'s frame lies at its index entry's offset.
proof fn lemma_frame_at(blocks: Seq<Seq<ValueView>>, i: int)
    requires
        0 <= i < blocks.len(),
    ensures
        file_of(blocks.take(i)).len() + frame_of(blocks[i]).len() <= file_of(blocks).len(),
        file_of(blocks).subrange(
            file_of(blocks.take(i)).len() as int,
            file_of(blocks.take(i)).len() as int + frame_of(blocks[i]).len() as int,
        ) == frame_of(blocks[i]),
{
    lemma_file_of_prefix(blocks, i + 1);
    lemma_file_of_prefix(blocks, i);
    assert(blocks.take(i + 1) =~= blocks.take(i).push(blocks[i]));
    lemma_file_of_push(blocks.take(i), blocks[i]);
    let pi = file_of(blocks.take(i));
    let fr = frame_of(blocks[i]);
    let pi1 = file_of(blocks.take(i + 1));
    assert(file_of(blocks).subrange(pi.len() as int, pi.len() as int + fr.len() as int) =~= fr) by {
        assert forall|j: int| 0 <= j < fr.len() implies file_of(blocks)[pi.len() + j] == fr[j] by {
            assert(file_of(blocks).subrange(0, pi1.len() as int)[pi.len() + j] == file_of(
                blocks,
            )[pi.len() + j]);
            assert(pi1[pi.len() + j] == (pi + fr)[pi.len() + j]);
        }
    }
}

/// Reads one block out of the block file, given its frame's offset and
/// length. Whenever the range holds the frame of a well-formed block, exactly
/// that block's records are returned.
pub fn read_block_at(file: &Vec<u8>, offset: u64, len: u32) -> (r: Option<Vec<Value>>)
    ensures
        forall|b: Seq<ValueView>|
            frame_at(file@, offset, len, b) ==> r is Some && r->Some_0.deep_view() == b,
{
    let flen = file.len();
    if offset > flen as u64 {
        return None;
    }
    if (len as u64) > flen as u64 - offset {
        return None;
    }
    let o = offset as usize;
    let l = len as usize;
    let frame = slice_bytes(file, o, l);
    let data = match lz4_decompress(&frame) {
        Ok(d) => d,
        Err(_) => {
            proof {
                assert forall|b: Seq<ValueView>| !frame_at(file@, offset, len, b) by {
                    if frame_at(file@, offset, len, b) {
                        assert(frame@ == lz4_of(enc_block(b)));
                    }
                }
            }
            return None;
        },
    };
    let r = deserialize_block(&data);
    proof {
        assert forall|b: Seq<ValueView>| frame_at(file@, offset, len, b) implies r is Some
            && r->Some_0.deep_view() == b by {
            assert(frame@ == lz4_of(enc_block(b)));
            assert(data@ == enc_block(b));
            assert(is_block_enc(data@, b));
        }
    }
    r
}

/// Reads a whole segment in file order through its sparse index. Whenever the
/// file and the entries describe a stream of blocks, exactly those blocks'
/// records are returned, in order.
pub fn read_segment(file: &Vec<u8>, entries: &Vec<IndexEntry>) -> (r: Option<Vec<Value>>)
    ensures
        forall|items: Seq<ValueView>|
            stream_matches(file@, entries.deep_view(), items) ==> r is Some
                && r->Some_0.deep_view() == items,
{
    let ghost evs = entries.deep_view();
    let mut out: Vec<Value> = Vec::new();
    let n = entries.len();
    let mut i: usize = 0;
    proof {
        assert(out.deep_view() =~= Seq::<ValueView>::empty());
        assert forall|blocks: Seq<Seq<ValueView>>|
            stream_layout(file@, evs, blocks) implies out.deep_view() == blocks.take(
            0,
        ).flatten() by {
            assert(blocks.take(0) =~= Seq::<Seq<ValueView>>::empty());
        }
    }
    while i < n
        invariant
            0 <= i <= n == evs.len(),
            evs == entries.deep_view(),
            forall|blocks: Seq<Seq<ValueView>>|
                #[trigger] stream_layout(file@, evs, blocks) ==> out.deep_view() == blocks.take(
                    i as int,
                ).flatten(),
        decreases n - i,
    {
        let e = &entries[i];
        proof {
            assert forall|blocks: Seq<Seq<ValueView>>|
                stream_layout(file@, evs, blocks) implies frame_at(
                file@,
                e.offset,
                e.len,
                blocks[i as int],
            ) by {
                assert(valid_block(blocks[i as int]) && enc_block(blocks[i as int]).len()
                    <= 0xFFFF_FFFF);
                assert(evs[i as int].offset == file_of(
                    blocks.take(i as int),
                ).len() && evs[i as int].len == frame_of(blocks[i as int]).len());
                assert(e.offset == evs[i as int].offset && e.len == evs[i as int].len);
                lemma_frame_at(blocks, i as int);
            }
        }
        let block = read_block_at(file, e.offset, e.len);
        match block {
            Some(mut items) => {
                let ghost old_out = out.deep_view();
                let ghost got = items.deep_view();
                out.append(&mut items);
                proof {
                    assert(out.deep_view() =~= old_out + got);
                    assert forall|blocks: Seq<Seq<ValueView>>|
                        stream_layout(file@, evs, blocks) implies out.deep_view() == blocks.take(
                        i + 1,
                    ).flatten() by {
                        assert(got == blocks[i as int]);
                        assert(blocks.take(i + 1) =~= blocks.take(i as int).push(blocks[i as int]));
                        blocks.take(i as int).lemma_flatten_push(blocks[i as int]);
                    }
                }
                i += 1;
            },
            None => {
                proof {
                    assert forall|items: Seq<ValueView>|
                        !stream_matches(file@, evs, items) by {
                        if stream_matches(file@, evs, items) {
                            let blocks = choose|blocks: Seq<Seq<ValueView>>|
                                #[trigger] stream_layout(file@, evs, blocks) && blocks.flatten()
                                    == items;
                        }
                    }
                }
                return None;
            },
        }
    }
    proof {
        assert forall|items: Seq<ValueView>|
            stream_matches(file@, evs, items) implies out.deep_view() == items by {
            let blocks = choose|blocks: Seq<Seq<ValueView>>|
                #[trigger] stream_layout(file@, evs, blocks) && blocks.flatten() == items;
            assert(blocks.take(n as int) =~= blocks);
        }
    }
    Some(out)
}

/// Locates the block that may hold `key`: the last sparse-index entry whose
/// first key is at most `key`. Returns `None` exactly when every entry's
/// first key lies beyond `key` — in particular for any key below the
/// segment's first key.
pub fn lookup(entries: &Vec<IndexEntry>, key: &Vec<u8>) -> (r: Option<usize>)
    ensures
        (match r {
            Some(i) => {
                &&& i < entries.deep_view().len()
                &&& key_le(entries.deep_view()[i as int].key, key@)
                &&& forall|j: int|
                    i < j < entries.deep_view().len() ==> lex_lt(
                        key@,
                        (#[trigger] entries.deep_view()[j]).key,
                    )
            },
            None => forall|j: int|
                0 <= j < entries.deep_view().len() ==> lex_lt(
                    key@,
                    (#[trigger] entries.deep_view()[j]).key,
                ),
        }),
{
    let mut i: usize = entries.len();
    while i > 0
        invariant
            0 <= i <= entries.deep_view().len(),
            forall|j: int|
                i <= j < entries.deep_view().len() ==> lex_lt(
                    key@,
                    (#[trigger] entries.deep_view()[j]).key,
                ),
        decreases i,
    {
        i = i - 1;
        let e = &entries[i];
        let above = key_lt(key, &e.key);
        if !above {
            proof {
                lemma_lex_trichotomy(entries.deep_view()[i as int].key, key@);
            }
            return Some(i);
        }
    }
    None
}

/// Record `j` of the block partition is a contiguous window of the flattened
/// run.
proof fn lemma_flatten_window(blocks: Seq<Seq<ValueView>>, j: int)
    requires
        0 <= j < blocks.len(),
    ensures
        blocks.take(j).flatten().len() + blocks[j].len() == blocks.take(j + 1).flatten().len(),
        blocks.take(j + 1).flatten().len() <= blocks.flatten().len(),
        forall|idx: int|
            0 <= idx < blocks[j].len() ==> blocks.flatten()[blocks.take(j).flatten().len() + idx]
                == (#[trigger] blocks[j][idx]),
{
    assert(blocks.take(j + 1) =~= blocks.take(j).push(blocks[j]));
    blocks.take(j).lemma_flatten_push(blocks[j]);
    lemma_flatten_take_prefix(blocks, j + 1);
    assert forall|idx: int| 0 <= idx < blocks[j].len() implies blocks.flatten()[blocks.take(
        j,
    ).flatten().len() + idx] == (#[trigger] blocks[j][idx]) by {
        let start = blocks.take(j).flatten().len() as int;
        assert(blocks.take(j + 1).flatten()[start + idx] == (blocks.take(j).flatten()
            + blocks[j])[start + idx]);
    }
}

/// The flattening of a prefix of the blocks is a prefix of the whole
/// flattened run.
proof fn lemma_flatten_take_prefix(blocks: Seq<Seq<ValueView>>, j: int)
    requires
        0 <= j <= blocks.len(),
    ensures
        blocks.take(j).flatten().len() <= blocks.flatten().len(),
        forall|t: int|
            0 <= t < blocks.take(j).flatten().len() ==> #[trigger] blocks.flatten()[t]
                == blocks.take(j).flatten()[t],
    decreases blocks.len() - j,
{
    if j == blocks.len() {
        assert(blocks.take(j) =~= blocks);
    } else {
        lemma_flatten_take_prefix(blocks, j + 1);
        assert(blocks.take(j + 1) =~= blocks.take(j).push(blocks[j]));
        blocks.take(j).lemma_flatten_push(blocks[j]);
        assert forall|t: int| 0 <= t < blocks.take(j).flatten().len() implies #[trigger] blocks.flatten()[t]
            == blocks.take(j).flatten()[t] by {
            assert(blocks.take(j + 1).flatten()[t] == (blocks.take(j).flatten() + blocks[j])[t]);
        }
    }
}

/// Every key of a sorted run is found by the sparse-index lookup: the block
/// of the entry it returns holds a record with that key. `bi` stands for the
/// index `lookup` returned, with `lookup`'s postcondition as premises.
pub proof fn lemma_lookup_finds_key(
    blocks: Seq<Seq<ValueView>>,
    entries: Seq<IndexEntryView>,
    items: Seq<ValueView>,
    k: Seq<u8>,
    t: int,
    bi: int,
)
    requires
        entries.len() == blocks.len(),
        forall|j: int| 0 <= j < blocks.len() ==> (#[trigger] blocks[j]).len() >= 1,
        forall|j: int| 0 <= j < entries.len() ==> (#[trigger] entries[j]).key == blocks[j][0].key,
        blocks.flatten() == items,
        crate::order::sorted_run(items),
        0 <= t < items.len(),
        items[t].key == k,
        0 <= bi < entries.len(),
        key_le(entries[bi].key, k),
        forall|j: int| bi < j < entries.len() ==> lex_lt(k, (#[trigger] entries[j]).key),
    ensures
        exists|idx: int| 0 <= idx < blocks[bi].len() && (#[trigger] blocks[bi][idx]).key == k,
{
    // Locate the block that holds position `t`.
    let j = choose|j: int|
        0 <= j < blocks.len() && (#[trigger] blocks.take(j).flatten()).len() <= t < blocks.take(
            j + 1,
        ).flatten().len();
    lemma_flatten_position(blocks, t);
    lemma_flatten_window(blocks, j);
    let start = blocks.take(j).flatten().len() as int;
    assert(blocks[j][t - start] == items[t]);
    if j == bi {
        assert(blocks[bi][t - start].key == k);
    } else if j < bi {
        // Block `bi` starts at or before `k` yet after position `t`: its
        // first key equals `k`.
        lemma_flatten_window(blocks, bi);
        let sbi = blocks.take(bi).flatten().len() as int;
        lemma_flatten_take_monotone(blocks, j + 1, bi);
        assert(t < sbi < items.len() || sbi == items.len());
        assert(sbi < items.len());
        assert(blocks[bi][0] == items[sbi]);
        assert(entries[bi].key == items[sbi].key);
        assert(crate::order::value_order_le(items[t], items[sbi]));
        if lex_lt(k, items[sbi].key) {
            lemma_lex_lt_asym(k, items[sbi].key);
            assert(!key_le(entries[bi].key, k));
            assert(false);
        }
        assert(items[sbi].key == k || lex_lt(items[sbi].key, k));
        if lex_lt(items[sbi].key, k) {
            // Sorted: a key after position t is at least k.
            assert(lex_lt(items[sbi].key, items[t].key));
            lemma_lex_lt_asym(items[sbi].key, items[t].key);
            assert(false);
        }
        assert(blocks[bi][0].key == k);
    } else {
        // j > bi: block j starts at or after k, so entry j's key is not
        // beyond k — contradicting lookup's postcondition.
        assert(bi < j < entries.len());
        assert(lex_lt(k, entries[j].key));
        assert(entries[j].key == blocks[j][0].key);
        assert(blocks[j][0] == items[start]);
        assert(start <= t);
        assert(crate::order::value_order_le(items[start], items[t]) || start == t);
        if start == t {
            lemma_lex_lt_asym(k, k);
            assert(false);
        } else {
            assert(lex_lt(items[start].key, items[t].key) || items[start].key == items[t].key);
            lemma_lex_lt_asym(k, entries[j].key);
            if lex_lt(items[start].key, k) {
                crate::order::lemma_lex_lt_trans(k, items[start].key, k);
            }
            assert(false);
        }
    }
}

/// Every position of the flattened run falls inside some block's window.
proof fn lemma_flatten_position(blocks: Seq<Seq<ValueView>>, t: int)
    requires
        0 <= t < blocks.flatten().len(),
    ensures
        exists|j: int|
            0 <= j < blocks.len() && (#[trigger] blocks.take(j).flatten()).len() <= t
                < blocks.take(j + 1).flatten().len(),
    decreases blocks.len(),
{
    assert(blocks.len() > 0);
    let last = blocks.len() - 1;
    assert(blocks.take(last + 1) =~= blocks);
    if t >= blocks.take(last).flatten().len() {
        assert(blocks.take(last).flatten().len() <= t < blocks.take(last + 1).flatten().len());
    } else {
        lemma_flatten_position(blocks.take(last), t);
        let j = choose|j: int|
            0 <= j < blocks.take(last).len() && (#[trigger] blocks.take(last).take(
                j,
            ).flatten()).len() <= t < blocks.take(last).take(j + 1).flatten().len();
        assert(blocks.take(last).take(j) =~= blocks.take(j));
        assert(blocks.take(last).take(j + 1) =~= blocks.take(j + 1));
        assert(blocks.take(j).flatten().len() <= t < blocks.take(j + 1).flatten().len());
    }
}

/// Earlier block prefixes hold no more records than later ones.
proof fn lemma_flatten_take_monotone(blocks: Seq<Seq<ValueView>>, a: int, b: int)
    requires
        0 <= a <= b <= blocks.len(),
    ensures
        blocks.take(a).flatten().len() <= blocks.take(b).flatten().len(),
    decreases b - a,
{
    if a < b {
        lemma_flatten_take_monotone(blocks, a + 1, b);
        assert(blocks.take(a + 1) =~= blocks.take(a).push(blocks[a]));
        blocks.take(a).lemma_flatten_push(blocks[a]);
    }
}

/// A key beyond the segment's last key is in no block: together with
/// `lookup`, keys outside the segment's key range are reported as absent.
pub proof fn lemma_key_beyond_last_absent(
    blocks: Seq<Seq<ValueView>>,
    items: Seq<ValueView>,
    k: Seq<u8>,
)
    requires
        blocks.flatten() == items,
        crate::order::sorted_run(items),
        items.len() > 0,
        lex_lt(items.last().key, k),
    ensures
        forall|j: int, idx: int|
            0 <= j < blocks.len() && 0 <= idx < blocks[j].len() ==> (
            #[trigger] blocks[j][idx]).key != k,
{
    assert forall|j: int, idx: int|
        0 <= j < blocks.len() && 0 <= idx < blocks[j].len() implies (
    #[trigger] blocks[j][idx]).key != k by {
        lemma_flatten_window(blocks, j);
        lemma_flatten_take_monotone(blocks, j + 1, blocks.len() as int);
        assert(blocks.take(blocks.len() as int) =~= blocks);
        let start = blocks.take(j).flatten().len() as int;
        assert(blocks[j][idx] == items[start + idx]);
        if blocks[j][idx].key == k {
            // A record with key k precedes the last record, yet the last
            // record's key is below k: contradicts sortedness.
            if start + idx < items.len() - 1 {
                assert(crate::order::value_order_le(items[start + idx], items.last()));
                lemma_lex_lt_asym(items.last().key, k);
                assert(false);
            } else {
                lemma_lex_lt_asym(items.last().key, k);
                assert(false);
            }
        }
    }
}


/// A key below the segment's first key lies before every block's first key,
/// so `lookup` reports it as not in the segment.
pub proof fn lemma_key_below_first_absent(
    blocks: Seq<Seq<ValueView>>,
    entries: Seq<IndexEntryView>,
    items: Seq<ValueView>,
    k: Seq<u8>,
)
    requires
        entries.len() == blocks.len(),
        forall|j: int| 0 <= j < blocks.len() ==> (#[trigger] blocks[j]).len() >= 1,
        forall|j: int| 0 <= j < entries.len() ==> (#[trigger] entries[j]).key == blocks[j][0].key,
        blocks.flatten() == items,
        crate::order::sorted_run(items),
        items.len() > 0,
        lex_lt(k, items[0].key),
    ensures
        forall|j: int| 0 <= j < entries.len() ==> lex_lt(k, (#[trigger] entries[j]).key),
{
    assert forall|j: int| 0 <= j < entries.len() implies lex_lt(
        k,
        (#[trigger] entries[j]).key,
    ) by {
        lemma_flatten_window(blocks, j);
        lemma_flatten_take_monotone(blocks, 0, j);
        assert(blocks.take(0).flatten().len() == 0) by {
            assert(blocks.take(0) =~= Seq::<Seq<ValueView>>::empty());
        }
        let start = blocks.take(j).flatten().len() as int;
        assert(blocks[j][0] == items[start]);
        if start > 0 {
            assert(crate::order::value_order_le(items[0], items[start]));
            if lex_lt(items[0].key, items[start].key) {
                crate::order::lemma_lex_lt_trans(k, items[0].key, items[start].key);
            }
        }
    }
}


} // verus!
