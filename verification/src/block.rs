//! A value block: a non-empty batch of records serialized as a CRC-32
//! checksum, a record count and the concatenated canonical record encodings.
//! Deserialization is canonical and rejects any single-bit corruption.

use crate::codec::{
    get_u32_be, lemma_u32_be_injective, lemma_u32_be_roundtrip, lemma_u32_from_be_roundtrip,
    push_bytes, put_u32_be, slice_bytes, spec_u32_be,
};
use crate::crc::{crc32, lemma_crc32_detects_single_byte_change, spec_crc32};
use crate::value::{
    enc_value, encode_value, is_enc_at, lemma_enc_value_index, lemma_enc_value_prefix,
    parse_value, Value, ValueView,
};
use vstd::prelude::*;

verus! {

/// All records in the batch are well-formed.
pub open spec fn valid_records(vs: Seq<ValueView>) -> bool {
    forall|i: int| 0 <= i < vs.len() ==> (#[trigger] vs[i]).valid()
}

/// A batch that may form one block: non-empty, well-formed records, and a
/// count that fits the 32-bit prefix.
pub open spec fn valid_block(vs: Seq<ValueView>) -> bool {
    &&& 1 <= vs.len() <= 0xFFFF_FFFF
    &&& valid_records(vs)
}

/// The concatenated canonical encodings of a batch of records.
pub open spec fn enc_values(vs: Seq<ValueView>) -> Seq<u8>
    decreases vs.len(),
{
    if vs.len() == 0 {
        Seq::empty()
    } else {
        enc_value(vs[0]) + enc_values(vs.drop_first())
    }
}

/// The serialized block: CRC-32 over the record bytes, the record count, then
/// the record bytes themselves.
pub open spec fn enc_block(vs: Seq<ValueView>) -> Seq<u8> {
    spec_u32_be(spec_crc32(enc_values(vs))) + spec_u32_be(vs.len() as u32) + enc_values(vs)
}

/// Whether `bytes` is exactly the serialization of the well-formed batch `vs`.
pub open spec fn is_block_enc(bytes: Seq<u8>, vs: Seq<ValueView>) -> bool {
    &&& valid_block(vs)
    &&& bytes == enc_block(vs)
}

/// Appending one record to a batch appends its encoding.
pub proof fn lemma_enc_values_push(vs: Seq<ValueView>, w: ValueView)
    ensures
        enc_values(vs.push(w)) == enc_values(vs) + enc_value(w),
    decreases vs.len(),
{
    if vs.len() == 0 {
        assert(vs.push(w).drop_first() =~= Seq::<ValueView>::empty());
        assert(vs.push(w)[0] == w);
        assert(enc_values(vs.push(w)) == enc_value(w) + enc_values(Seq::<ValueView>::empty()));
        assert(enc_values(Seq::<ValueView>::empty()) == Seq::<u8>::empty());
        assert(enc_values(vs) == Seq::<u8>::empty());
        assert(enc_value(w) + Seq::<u8>::empty() =~= Seq::<u8>::empty() + enc_value(w));
    } else {
        assert(vs.push(w).drop_first() =~= vs.drop_first().push(w));
        lemma_enc_values_push(vs.drop_first(), w);
        assert(enc_values(vs.push(w)) =~= enc_values(vs) + enc_value(w));
    }
}

/// A batch's encoding splits at any prefix boundary.
pub proof fn lemma_enc_values_split(vs: Seq<ValueView>, i: int)
    requires
        0 <= i <= vs.len(),
    ensures
        enc_values(vs) == enc_values(vs.take(i)) + enc_values(vs.skip(i)),
    decreases i,
{
    if i == 0 {
        assert(vs.take(0) =~= Seq::<ValueView>::empty());
        assert(vs.skip(0) =~= vs);
        assert(enc_values(vs) =~= enc_values(vs.take(0)) + enc_values(vs.skip(0)));
    } else {
        lemma_enc_values_split(vs, i - 1);
        assert(vs.take(i) =~= vs.take(i - 1).push(vs[i - 1]));
        lemma_enc_values_push(vs.take(i - 1), vs[i - 1]);
        assert(vs.skip(i - 1)[0] == vs[i - 1]);
        assert(vs.skip(i - 1).drop_first() =~= vs.skip(i));
        assert(enc_values(vs.skip(i - 1)) == enc_value(vs[i - 1]) + enc_values(vs.skip(i)));
        assert(enc_values(vs) =~= enc_values(vs.take(i)) + enc_values(vs.skip(i)));
    }
}

/// Every record contributes at least 18 bytes to a batch's encoding.
pub proof fn lemma_enc_values_len(vs: Seq<ValueView>)
    requires
        valid_records(vs),
    ensures
        enc_values(vs).len() >= 18 * vs.len(),
    decreases vs.len(),
{
    if vs.len() > 0 {
        lemma_enc_value_index(vs[0]);
        assert(vs.drop_first().len() == vs.len() - 1);
        assert(valid_records(vs.drop_first())) by {
            assert(forall|i: int|
                0 <= i < vs.drop_first().len() ==> vs.drop_first()[i] == vs[i + 1]);
        }
        lemma_enc_values_len(vs.drop_first());
    }
}

/// Two well-formed batches with the same encoding are the same batch.
pub proof fn lemma_enc_values_injective(v1: Seq<ValueView>, v2: Seq<ValueView>)
    requires
        valid_records(v1),
        valid_records(v2),
        enc_values(v1) == enc_values(v2),
    ensures
        v1 == v2,
    decreases v1.len(),
{
    if v1.len() == 0 {
        if v2.len() > 0 {
            lemma_enc_value_index(v2[0]);
        }
        assert(v1 =~= v2);
    } else {
        if v2.len() == 0 {
            lemma_enc_value_index(v1[0]);
            assert(false);
        }
        lemma_enc_value_prefix(
            v1[0],
            v2[0],
            enc_values(v1.drop_first()),
            enc_values(v2.drop_first()),
        );
        assert(valid_records(v1.drop_first())) by {
            assert(forall|i: int|
                0 <= i < v1.drop_first().len() ==> v1.drop_first()[i] == v1[i + 1]);
        }
        assert(valid_records(v2.drop_first())) by {
            assert(forall|i: int|
                0 <= i < v2.drop_first().len() ==> v2.drop_first()[i] == v2[i + 1]);
        }
        lemma_enc_values_injective(v1.drop_first(), v2.drop_first());
        assert(v1.len() == v2.len());
        assert forall|i: int| 0 <= i < v1.len() implies v1[i] == v2[i] by {
            if i > 0 {
                assert(v1.drop_first()[i - 1] == v2.drop_first()[i - 1]);
            }
        }
        assert(v1 =~= v2);
    }
}

/// Where the fields of a serialized block lie.
pub proof fn lemma_enc_block_index(vs: Seq<ValueView>)
    ensures
        enc_block(vs).len() == 8 + enc_values(vs).len(),
        forall|j: int|
            0 <= j < 4 ==> enc_block(vs)[j] == #[trigger] spec_u32_be(
                spec_crc32(enc_values(vs)),
            )[j],
        forall|j: int|
            0 <= j < 4 ==> enc_block(vs)[4 + j] == #[trigger] spec_u32_be(vs.len() as u32)[j],
        forall|j: int| 0 <= j < enc_values(vs).len() ==> enc_block(vs)[8 + j] == #[trigger] enc_values(
            vs,
        )[j],
{
}

/// Serializes a non-empty batch of records into one block: CRC-32 of the
/// record bytes, record count, record bytes.
pub fn serialize_block(items: &Vec<Value>) -> (r: Vec<u8>)
    requires
        valid_block(items.deep_view()),
    ensures
        r@ == enc_block(items.deep_view()),
{
    let ghost vs = items.deep_view();
    let mut records: Vec<u8> = Vec::new();
    let n = items.len();
    assert(vs.take(0) =~= Seq::<ValueView>::empty());
    let mut i: usize = 0;
    while i < n
        invariant
            0 <= i <= n == vs.len(),
            vs == items.deep_view(),
            valid_block(vs),
            records@ == enc_values(vs.take(i as int)),
        decreases n - i,
    {
        proof {
            assert(vs[i as int] == items@[i as int].deep_view());
            assert(vs[i as int].valid());
            lemma_enc_values_push(vs.take(i as int), vs[i as int]);
            assert(vs.take(i + 1) =~= vs.take(i as int).push(vs[i as int]));
        }
        encode_value(&mut records, &items[i]);
        i += 1;
    }
    assert(vs.take(n as int) =~= vs);
    let crc = crc32(&records);
    let count32 = items.len() as u32;
    let mut out: Vec<u8> = Vec::new();
    put_u32_be(&mut out, crc);
    put_u32_be(&mut out, count32);
    push_bytes(&mut out, &records);
    proof {
        assert(out@ =~= enc_block(vs));
    }
    out
}

/// Deserializes one block. Returns its records, or `None` when the bytes are
/// not the exact serialization of a well-formed batch — in particular when
/// the CRC-32 check fails.
///
/// The second postcondition makes deserialization canonical: the exact
/// serialization of a well-formed batch is always accepted and yields that
/// batch.
#[verifier::rlimit(100)]
pub fn deserialize_block(bytes: &Vec<u8>) -> (r: Option<Vec<Value>>)
    ensures
        (match r {
            Some(items) => is_block_enc(bytes@, items.deep_view()),
            None => true,
        }),
        forall|vs: Seq<ValueView>|
            is_block_enc(bytes@, vs) ==> r is Some && r->Some_0.deep_view() == vs,
{
    let total = bytes.len();
    proof {
        assert forall|vs: Seq<ValueView>| is_block_enc(bytes@, vs) implies bytes@.len() >= 26
            && vs.len() == (vs.len() as u32) as int by {
            lemma_enc_block_index(vs);
            lemma_enc_values_len(vs);
        }
    }
    if total < 26 {
        return None;
    }
    let stored_crc = get_u32_be(bytes, 0);
    let count32 = get_u32_be(bytes, 4);
    proof {
        lemma_u32_from_be_roundtrip(bytes@[0], bytes@[1], bytes@[2], bytes@[3]);
        lemma_u32_from_be_roundtrip(bytes@[4], bytes@[5], bytes@[6], bytes@[7]);
        assert forall|vs: Seq<ValueView>| is_block_enc(bytes@, vs) implies vs.len()
            == count32 as int && bytes@.subrange(8, bytes@.len() as int) == enc_values(vs)
            && stored_crc == spec_crc32(enc_values(vs)) by {
            lemma_enc_block_index(vs);
            assert(spec_u32_be(vs.len() as u32) =~= seq![
                bytes@[4],
                bytes@[5],
                bytes@[6],
                bytes@[7],
            ]);
            lemma_u32_be_injective(vs.len() as u32, count32);
            assert(spec_u32_be(spec_crc32(enc_values(vs))) =~= seq![
                bytes@[0],
                bytes@[1],
                bytes@[2],
                bytes@[3],
            ]);
            lemma_u32_be_injective(spec_crc32(enc_values(vs)), stored_crc);
            assert(bytes@.subrange(8, bytes@.len() as int) =~= enc_values(vs));
        }
    }
    let region = slice_bytes(bytes, 8, total - 8);
    let actual_crc = crc32(&region);
    if stored_crc != actual_crc {
        return None;
    }
    if count32 == 0 {
        return None;
    }
    let count = count32 as usize;
    let mut items: Vec<Value> = Vec::new();
    let mut pos: usize = 8;
    let mut i: usize = 0;
    assert(items.deep_view() =~= Seq::<ValueView>::empty());
    assert(enc_values(items.deep_view()) =~= Seq::<u8>::empty());
    assert(bytes@.subrange(8, 8) =~= Seq::<u8>::empty());
    while i < count
        invariant
            0 <= i <= count,
            count == count32 as int,
            8 <= pos <= total == bytes@.len(),
            items.deep_view().len() == i,
            valid_records(items.deep_view()),
            bytes@.subrange(8, pos as int) == enc_values(items.deep_view()),
            forall|vs: Seq<ValueView>|
                #[trigger] is_block_enc(bytes@, vs) ==> vs.len() == count32 as int
                    && items.deep_view() == vs.take(i as int) && pos == 8 + enc_values(
                    vs.take(i as int),
                ).len(),
        decreases count - i,
    {
        let ghost prev_items = items.deep_view();
        let parsed = parse_value(bytes, pos);
        proof {
            assert forall|vs: Seq<ValueView>| is_block_enc(bytes@, vs) implies is_enc_at(
                bytes@,
                pos as int,
                vs[i as int],
            ) by {
                lemma_step_window(bytes@, vs, i as int, pos as int);
            }
        }
        match parsed {
            Some(pair) => {
                let (v, end) = pair;
                proof {
                    lemma_enc_values_push(prev_items, v@);
                    assert(bytes@.subrange(8, end as int) =~= enc_values(prev_items) + enc_value(
                        v@,
                    )) by {
                        assert(bytes@.subrange(pos as int, end as int) == enc_value(v@));
                        assert forall|j: int|
                            0 <= j < end - 8 implies bytes@.subrange(8, end as int)[j] == (
                        enc_values(prev_items) + enc_value(v@))[j] by {
                            if j < pos - 8 {
                                assert(bytes@.subrange(8, pos as int)[j] == bytes@[8 + j]);
                            } else {
                                assert(bytes@.subrange(pos as int, end as int)[j - (pos - 8)]
                                    == bytes@[8 + j]);
                            }
                        }
                    }
                }
                items.push(v);
                proof {
                    assert(items.deep_view() =~= prev_items.push(v@));
                    assert forall|vs: Seq<ValueView>| #[trigger] is_block_enc(bytes@, vs) implies
                        items.deep_view() == vs.take(i + 1) && end == 8 + enc_values(
                        vs.take(i + 1),
                    ).len() by {
                        lemma_step_window(bytes@, vs, i as int, pos as int);
                        assert(vs.take(i + 1) =~= vs.take(i as int).push(vs[i as int]));
                        lemma_enc_values_push(vs.take(i as int), vs[i as int]);
                        assert(items.deep_view() =~= vs.take(i + 1));
                    }
                }
                pos = end;
                i += 1;
            },
            None => {
                proof {
                    assert forall|vs: Seq<ValueView>| !is_block_enc(bytes@, vs) by {
                        if is_block_enc(bytes@, vs) {
                            lemma_step_window(bytes@, vs, i as int, pos as int);
                        }
                    }
                }
                return None;
            },
        }
    }
    if pos != total {
        proof {
            assert forall|vs: Seq<ValueView>| !is_block_enc(bytes@, vs) by {
                if is_block_enc(bytes@, vs) {
                    lemma_enc_block_index(vs);
                    assert(vs.take(count as int) =~= vs);
                }
            }
        }
        return None;
    }
    proof {
        // Soundness: the bytes are exactly the serialization of the batch.
        let vs = items.deep_view();
        assert(vs.len() >= 1);
        lemma_u32_be_roundtrip(count32);
        lemma_u32_be_roundtrip(stored_crc);
        assert(region@ == enc_values(vs));
        assert(bytes@ =~= enc_block(vs));
        assert forall|vs2: Seq<ValueView>| is_block_enc(bytes@, vs2) implies items.deep_view()
            == vs2 by {
            assert(vs2.take(count as int) =~= vs2);
        }
    }
    Some(items)
}

/// Inside a block encoding, record `i` is encoded right after the first `i`
/// records.
proof fn lemma_step_window(bytes: Seq<u8>, vs: Seq<ValueView>, i: int, pos: int)
    requires
        is_block_enc(bytes, vs),
        0 <= i < vs.len(),
        pos == 8 + enc_values(vs.take(i)).len(),
    ensures
        is_enc_at(bytes, pos, vs[i]),
        vs[i].valid(),
{
    lemma_enc_block_index(vs);
    lemma_enc_values_split(vs, i);
    assert(vs.skip(i)[0] == vs[i]);
    assert(vs.skip(i).drop_first() =~= vs.skip(i + 1));
    assert(enc_values(vs.skip(i)) == enc_value(vs[i]) + enc_values(vs.skip(i + 1)));
    let n = enc_value(vs[i]).len() as int;
    let a = enc_values(vs.take(i));
    assert(bytes.subrange(pos, pos + n) =~= enc_value(vs[i])) by {
        assert forall|j: int| 0 <= j < n implies bytes.subrange(pos, pos + n)[j] == enc_value(
            vs[i],
        )[j] by {
            assert(enc_values(vs)[a.len() + j] == (a + enc_values(vs.skip(i)))[a.len() + j]);
            assert(enc_values(vs.skip(i))[j] == (enc_value(vs[i]) + enc_values(vs.skip(i + 1)))[j]);
            assert(bytes[8 + a.len() + j] == enc_values(vs)[a.len() + j]);
        }
    }
}


/// Corrupting any single byte (in particular, flipping any single bit) of a
/// serialized block leaves bytes that no well-formed batch serializes to, so
/// deserialization rejects them.
pub proof fn lemma_single_byte_corruption_rejected(vs: Seq<ValueView>, b2: Seq<u8>, d: int)
    requires
        valid_block(vs),
        b2.len() == enc_block(vs).len(),
        0 <= d < b2.len(),
        b2[d] != enc_block(vs)[d],
        forall|i: int| 0 <= i < b2.len() && i != d ==> b2[i] == enc_block(vs)[i],
    ensures
        forall|vs2: Seq<ValueView>| !is_block_enc(b2, vs2),
{
    let b1 = enc_block(vs);
    let r1 = enc_values(vs);
    lemma_enc_block_index(vs);
    assert forall|vs2: Seq<ValueView>| !is_block_enc(b2, vs2) by {
        if is_block_enc(b2, vs2) {
            let r2 = enc_values(vs2);
            lemma_enc_block_index(vs2);
            assert(r1.len() == r2.len());
            if d >= 8 {
                // The stored checksums agree, yet the record bytes differ in
                // exactly one position: impossible.
                assert(spec_u32_be(spec_crc32(r1)) =~= spec_u32_be(spec_crc32(r2))) by {
                    assert forall|j: int| 0 <= j < 4 implies spec_u32_be(spec_crc32(r1))[j]
                        == spec_u32_be(spec_crc32(r2))[j] by {
                        assert(b1[j] == b2[j]);
                    }
                }
                lemma_u32_be_injective(spec_crc32(r1), spec_crc32(r2));
                assert(r1[d - 8] != r2[d - 8]) by {
                    assert(b1[d] == r1[d - 8]);
                    assert(b2[d] == r2[d - 8]);
                }
                assert forall|j: int| 0 <= j < r1.len() && j != d - 8 implies r1[j] == r2[j] by {
                    assert(b1[8 + j] == r1[j]);
                    assert(b2[8 + j] == r2[j]);
                }
                lemma_crc32_detects_single_byte_change(r1, r2, d - 8);
            } else {
                // The record bytes agree, so the batches agree, so the eight
                // header bytes agree as well: impossible.
                assert(r1 =~= r2) by {
                    assert forall|j: int| 0 <= j < r1.len() implies r1[j] == r2[j] by {
                        assert(b1[8 + j] == r1[j]);
                        assert(b2[8 + j] == r2[j]);
                    }
                }
                lemma_enc_values_injective(vs, vs2);
                assert(b1[d] == b2[d]);
            }
        }
    }
}


} // verus!
