//! A single versioned key-value record and its canonical on-disk encoding:
//! length-prefixed key, big-endian sequence number, tombstone flag and
//! length-prefixed value.

use crate::codec::{
    get_u32_be, get_u64_be, lemma_u32_be_injective, lemma_u32_be_roundtrip,
    lemma_u32_from_be_roundtrip, lemma_u64_be_injective, lemma_u64_be_roundtrip,
    lemma_u64_from_be_roundtrip, put_u32_be,
    put_u64_be, push_bytes, slice_bytes, spec_u32_be, spec_u64_be,
};
use vstd::prelude::*;

verus! {

/// Longest legal key, in bytes.
pub const MAX_KEY_LEN: usize = 65536;

/// Longest legal value, in bytes. Bounded so that one compressed block always
/// fits the 32-bit frame length of the sparse index.
pub const MAX_VALUE_LEN: usize = 0xC000_0000;

/// A versioned record: one key, one version of its value, a monotonically
/// assigned sequence number, and a tombstone flag marking deletion.
#[derive(Debug, Clone, PartialEq, Eq)]
pub struct Value {
    pub key: Vec<u8>,
    pub value: Vec<u8>,
    pub seqno: u64,
    pub is_tombstone: bool,
}

/// The mathematical model of a record.
#[verifier::ext_equal]
pub ghost struct ValueView {
    pub key: Seq<u8>,
    pub value: Seq<u8>,
    pub seqno: u64,
    pub is_tombstone: bool,
}

impl View for Value {
    type V = ValueView;

    open spec fn view(&self) -> ValueView {
        ValueView {
            key: self.key@,
            value: self.value@,
            seqno: self.seqno,
            is_tombstone: self.is_tombstone,
        }
    }
}

impl DeepView for Value {
    type V = ValueView;

    open spec fn deep_view(&self) -> ValueView {
        self.view()
    }
}

impl ValueView {
    /// A well-formed record: the key is non-empty and fits its length prefix,
    /// the value fits one block frame, and a tombstone carries no value bytes.
    pub open spec fn valid(self) -> bool {
        &&& 1 <= self.key.len() <= MAX_KEY_LEN
        &&& self.value.len() <= MAX_VALUE_LEN
        &&& self.is_tombstone ==> self.value.len() == 0
    }

    /// The size of the record's canonical encoding, in bytes.
    pub open spec fn spec_size(self) -> int {
        17 + self.key.len() as int + self.value.len() as int
    }
}

/// The on-disk tombstone flag byte.
pub open spec fn flag_of(is_tombstone: bool) -> u8 {
    if is_tombstone {
        1u8
    } else {
        0u8
    }
}

/// The canonical encoding of one record: big-endian key length, key bytes,
/// big-endian sequence number, tombstone flag, big-endian value length,
/// value bytes.
pub open spec fn enc_value(w: ValueView) -> Seq<u8> {
    spec_u32_be(w.key.len() as u32) + w.key + spec_u64_be(w.seqno) + seq![flag_of(w.is_tombstone)]
        + spec_u32_be(w.value.len() as u32) + w.value
}

/// Where each field of a record lies inside its canonical encoding.
pub proof fn lemma_enc_value_index(w: ValueView)
    ensures
        enc_value(w).len() == w.spec_size(),
        forall|j: int| 0 <= j < 4 ==> enc_value(w)[j] == #[trigger] spec_u32_be(w.key.len() as u32)[j],
        forall|j: int| 0 <= j < w.key.len() ==> enc_value(w)[4 + j] == #[trigger] w.key[j],
        forall|j: int|
            0 <= j < 8 ==> enc_value(w)[4 + w.key.len() + j] == #[trigger] spec_u64_be(w.seqno)[j],
        enc_value(w)[12 + w.key.len() as int] == flag_of(w.is_tombstone),
        forall|j: int|
            0 <= j < 4 ==> enc_value(w)[13 + w.key.len() + j] == #[trigger] spec_u32_be(
                w.value.len() as u32,
            )[j],
        forall|j: int|
            0 <= j < w.value.len() ==> enc_value(w)[17 + w.key.len() + j] == #[trigger] w.value[j],
{
}

impl Value {
    /// Builds a record from its parts.
    pub fn new(key: Vec<u8>, value: Vec<u8>, is_tombstone: bool, seqno: u64) -> (r: Value)
        ensures
            r@ == (ValueView { key: key@, value: value@, seqno, is_tombstone }),
    {
        let r = Value { key, value, seqno, is_tombstone };
        assert(r@ =~= (ValueView { key: r.key@, value: r.value@, seqno, is_tombstone }));
        r
    }

    /// The size of this record's canonical encoding, in bytes.
    pub fn size(&self) -> (r: usize)
        requires
            self@.valid(),
        ensures
            r == self@.spec_size(),
    {
        17 + self.key.len() + self.value.len()
    }
}

/// Appends the canonical encoding of `v` to `dst`.
pub fn encode_value(dst: &mut Vec<u8>, v: &Value)
    requires
        v@.valid(),
    ensures
        final(dst)@ == old(dst)@ + enc_value(v@),
{
    put_u32_be(dst, v.key.len() as u32);
    push_bytes(dst, &v.key);
    put_u64_be(dst, v.seqno);
    if v.is_tombstone {
        dst.push(1u8);
    } else {
        dst.push(0u8);
    }
    put_u32_be(dst, v.value.len() as u32);
    push_bytes(dst, &v.value);
    assert(dst@ =~= old(dst)@ + enc_value(v@));
}

/// Whether the canonical encoding of `w` lies at `pos` in `bytes`.
pub open spec fn is_enc_at(bytes: Seq<u8>, pos: int, w: ValueView) -> bool {
    &&& w.valid()
    &&& 0 <= pos
    &&& pos + enc_value(w).len() <= bytes.len()
    &&& bytes.subrange(pos, pos + enc_value(w).len()) == enc_value(w)
}

/// Where each field of a record encoded at `pos` lies in the surrounding
/// byte string.
proof fn lemma_enc_fields(bytes: Seq<u8>, pos: int, w: ValueView)
    requires
        is_enc_at(bytes, pos, w),
    ensures
        1 <= w.key.len() <= 65536,
        w.value.len() <= 0xC000_0000,
        w.is_tombstone ==> w.value.len() == 0,
        enc_value(w).len() == 17 + w.key.len() + w.value.len(),
        pos + 17 + w.key.len() + w.value.len() <= bytes.len(),
        spec_u32_be(w.key.len() as u32) == seq![
            bytes[pos],
            bytes[pos + 1],
            bytes[pos + 2],
            bytes[pos + 3],
        ],
        w.key == bytes.subrange(pos + 4, pos + 4 + w.key.len()),
        spec_u64_be(w.seqno) == seq![
            bytes[pos + 4 + w.key.len()],
            bytes[pos + 5 + w.key.len()],
            bytes[pos + 6 + w.key.len()],
            bytes[pos + 7 + w.key.len()],
            bytes[pos + 8 + w.key.len()],
            bytes[pos + 9 + w.key.len()],
            bytes[pos + 10 + w.key.len()],
            bytes[pos + 11 + w.key.len()],
        ],
        bytes[pos + 12 + w.key.len()] == flag_of(w.is_tombstone),
        spec_u32_be(w.value.len() as u32) == seq![
            bytes[pos + 13 + w.key.len()],
            bytes[pos + 14 + w.key.len()],
            bytes[pos + 15 + w.key.len()],
            bytes[pos + 16 + w.key.len()],
        ],
        w.value == bytes.subrange(
            pos + 17 + w.key.len(),
            pos + 17 + w.key.len() + w.value.len(),
        ),
{
    lemma_enc_value_index(w);
    let e = enc_value(w);
    let k = w.key.len() as int;
    let m = w.value.len() as int;
    assert forall|j: int| 0 <= j < e.len() implies bytes[pos + j] == e[j] by {
        assert(bytes.subrange(pos, pos + e.len())[j] == bytes[pos + j]);
    }
    assert(spec_u32_be(w.key.len() as u32) =~= seq![
        bytes[pos],
        bytes[pos + 1],
        bytes[pos + 2],
        bytes[pos + 3],
    ]);
    assert(w.key =~= bytes.subrange(pos + 4, pos + 4 + k));
    assert(spec_u64_be(w.seqno) =~= seq![
        bytes[pos + 4 + k],
        bytes[pos + 5 + k],
        bytes[pos + 6 + k],
        bytes[pos + 7 + k],
        bytes[pos + 8 + k],
        bytes[pos + 9 + k],
        bytes[pos + 10 + k],
        bytes[pos + 11 + k],
    ]);
    assert(spec_u32_be(w.value.len() as u32) =~= seq![
        bytes[pos + 13 + k],
        bytes[pos + 14 + k],
        bytes[pos + 15 + k],
        bytes[pos + 16 + k],
    ]);
    assert(w.value =~= bytes.subrange(pos + 17 + k, pos + 17 + k + m));
}

/// Parses one canonical record at `pos`. Returns the record and the position
/// one past it, or `None` if no well-formed record lies at `pos`.
///
/// The second postcondition makes the parse canonical: whenever some
/// well-formed record is encoded at `pos`, exactly that record is returned.
#[verifier::rlimit(100)]
#[verifier::spinoff_prover]
pub fn parse_value(bytes: &Vec<u8>, pos: usize) -> (r: Option<(Value, usize)>)
    requires
        pos <= bytes@.len(),
    ensures
        (match r {
            Some(p) => {
                &&& pos < p.1 <= bytes@.len()
                &&& p.0@.valid()
                &&& p.1 == pos + p.0@.spec_size()
                &&& bytes@.subrange(pos as int, p.1 as int) == enc_value(p.0@)
            },
            None => true,
        }),
        forall|w: ValueView|
            is_enc_at(bytes@, pos as int, w) ==> {
                &&& r is Some
                &&& r->Some_0.0@ == w
                &&& r->Some_0.1 == pos + enc_value(w).len()
            },
{
    let total = bytes.len();
    let ghost gpos = pos as int;

    if total - pos < 4 {
        proof {
            assert forall|w: ValueView| !is_enc_at(bytes@, gpos, w) by {
                if is_enc_at(bytes@, gpos, w) {
                    lemma_enc_fields(bytes@, gpos, w);
                }
            }
        }
        return None;
    }
    let klen32 = get_u32_be(bytes, pos);
    proof {
        lemma_u32_from_be_roundtrip(
            bytes@[gpos],
            bytes@[gpos + 1],
            bytes@[gpos + 2],
            bytes@[gpos + 3],
        );
        // Any record encoded at `pos` carries its key length in these bytes.
        assert forall|w: ValueView| is_enc_at(bytes@, gpos, w) implies w.key.len()
            == klen32 as int by {
            lemma_enc_fields(bytes@, gpos, w);
            lemma_u32_be_injective(w.key.len() as u32, klen32);
        }
    }
    if klen32 == 0 || klen32 > 65536 {
        return None;
    }
    let klen = klen32 as usize;
    if total - pos - 4 < klen {
        proof {
            assert forall|w: ValueView| !is_enc_at(bytes@, gpos, w) by {
                if is_enc_at(bytes@, gpos, w) {
                    lemma_enc_fields(bytes@, gpos, w);
                }
            }
        }
        return None;
    }
    let key = slice_bytes(bytes, pos + 4, klen);
    if total - pos - 4 - klen < 13 {
        proof {
            assert forall|w: ValueView| !is_enc_at(bytes@, gpos, w) by {
                if is_enc_at(bytes@, gpos, w) {
                    lemma_enc_fields(bytes@, gpos, w);
                }
            }
        }
        return None;
    }
    let seqno = get_u64_be(bytes, pos + 4 + klen);
    proof {
        lemma_u64_from_be_roundtrip(
            bytes@[gpos + 4 + klen],
            bytes@[gpos + 5 + klen],
            bytes@[gpos + 6 + klen],
            bytes@[gpos + 7 + klen],
            bytes@[gpos + 8 + klen],
            bytes@[gpos + 9 + klen],
            bytes@[gpos + 10 + klen],
            bytes@[gpos + 11 + klen],
        );
        assert forall|w: ValueView| is_enc_at(bytes@, gpos, w) implies w.seqno == seqno by {
            lemma_enc_fields(bytes@, gpos, w);
            lemma_u64_be_injective(w.seqno, seqno);
        }
    }
    let flag = bytes[pos + 12 + klen];
    proof {
        assert forall|w: ValueView| is_enc_at(bytes@, gpos, w) implies flag_of(w.is_tombstone)
            == flag by {
            lemma_enc_fields(bytes@, gpos, w);
        }
    }
    if flag > 1 {
        return None;
    }
    let vlen32 = get_u32_be(bytes, pos + 13 + klen);
    proof {
        lemma_u32_from_be_roundtrip(
            bytes@[gpos + 13 + klen],
            bytes@[gpos + 14 + klen],
            bytes@[gpos + 15 + klen],
            bytes@[gpos + 16 + klen],
        );
        assert forall|w: ValueView| is_enc_at(bytes@, gpos, w) implies w.value.len()
            == vlen32 as int by {
            lemma_enc_fields(bytes@, gpos, w);
            lemma_u32_be_injective(w.value.len() as u32, vlen32);
        }
    }
    if vlen32 > 0xC000_0000 {
        return None;
    }
    let vlen = vlen32 as usize;
    if total - pos - 17 - klen < vlen {
        proof {
            assert forall|w: ValueView| !is_enc_at(bytes@, gpos, w) by {
                if is_enc_at(bytes@, gpos, w) {
                    lemma_enc_fields(bytes@, gpos, w);
                }
            }
        }
        return None;
    }
    if flag == 1 && vlen != 0 {
        proof {
            assert forall|w: ValueView| !is_enc_at(bytes@, gpos, w) by {
                if is_enc_at(bytes@, gpos, w) {
                    lemma_enc_fields(bytes@, gpos, w);
                }
            }
        }
        return None;
    }
    let value = slice_bytes(bytes, pos + 17 + klen, vlen);
    let end = pos + 17 + klen + vlen;
    let v = Value { key, value, seqno, is_tombstone: flag == 1 };
    proof {
        lemma_enc_value_index(v@);
        lemma_u32_be_roundtrip(klen32);
        lemma_u32_be_roundtrip(vlen32);
        lemma_u64_be_roundtrip(seqno);
        assert(bytes@.subrange(gpos, end as int) =~= enc_value(v@));
        assert forall|w: ValueView| is_enc_at(bytes@, gpos, w) implies v@ == w && end == gpos
            + enc_value(w).len() by {
            lemma_enc_fields(bytes@, gpos, w);
            assert(w.key =~= v@.key);
            assert(w.value =~= v@.value);
            assert(w.is_tombstone == v@.is_tombstone);
            assert(w =~= v@);
        };
    }
    Some((v, end))
}

/// Two well-formed records encoded at the same position are the same record.
pub proof fn lemma_enc_matches(bytes: Seq<u8>, pos: int, w: ValueView, v: ValueView)
    requires
        is_enc_at(bytes, pos, w),
        is_enc_at(bytes, pos, v),
    ensures
        v == w,
        enc_value(v).len() == enc_value(w).len(),
{
    lemma_enc_fields(bytes, pos, w);
    lemma_enc_fields(bytes, pos, v);
    lemma_u32_be_injective(w.key.len() as u32, v.key.len() as u32);
    assert(w.key.len() == v.key.len());
    lemma_u64_be_injective(w.seqno, v.seqno);
    lemma_u32_be_injective(w.value.len() as u32, v.value.len() as u32);
    assert(flag_of(w.is_tombstone) == flag_of(v.is_tombstone));
    assert(w =~= v);
}

/// A well-formed record encoding is prefix-free: if two encodings start the
/// same byte string, the records and the remainders agree.
#[verifier::rlimit(100)]
#[verifier::spinoff_prover]
pub proof fn lemma_enc_value_prefix(a: ValueView, b: ValueView, ra: Seq<u8>, rb: Seq<u8>)
    requires
        a.valid(),
        b.valid(),
        enc_value(a) + ra == enc_value(b) + rb,
    ensures
        a == b,
        ra == rb,
{
    let e = enc_value(a) + ra;
    assert(is_enc_at(e, 0, a)) by {
        assert(e.subrange(0, enc_value(a).len() as int) =~= enc_value(a));
    }
    assert(is_enc_at(e, 0, b)) by {
        assert(e.subrange(0, enc_value(b).len() as int) =~= enc_value(b));
    }
    lemma_enc_matches(e, 0, a, b);
    let n = enc_value(a).len() as int;
    assert(ra =~= rb) by {
        assert forall|j: int| 0 <= j < ra.len() implies ra[j] == rb[j] by {
            assert((enc_value(a) + ra)[n + j] == ra[j]);
            assert((enc_value(b) + rb)[n + j] == rb[j]);
        }
    }
}

} // verus!
