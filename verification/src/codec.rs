//! Big-endian integer framing used by the on-disk record and block formats,
//! together with small byte-buffer helpers.

use vstd::prelude::*;
use vstd::string::StringSliceAdditionalSpecFns;

verus! {

/// The four big-endian bytes of a 32-bit integer.
pub open spec fn spec_u32_be(n: u32) -> Seq<u8> {
    seq![
        ((n >> 24) & 0xff) as u8,
        ((n >> 16) & 0xff) as u8,
        ((n >> 8) & 0xff) as u8,
        (n & 0xff) as u8,
    ]
}

/// The 32-bit integer read from four big-endian bytes.
pub open spec fn spec_u32_from_be(b0: u8, b1: u8, b2: u8, b3: u8) -> u32 {
    (((b0 as u32) << 24) | ((b1 as u32) << 16) | ((b2 as u32) << 8) | (b3 as u32)) as u32
}

/// The eight big-endian bytes of a 64-bit integer.
pub open spec fn spec_u64_be(n: u64) -> Seq<u8> {
    seq![
        ((n >> 56) & 0xff) as u8,
        ((n >> 48) & 0xff) as u8,
        ((n >> 40) & 0xff) as u8,
        ((n >> 32) & 0xff) as u8,
        ((n >> 24) & 0xff) as u8,
        ((n >> 16) & 0xff) as u8,
        ((n >> 8) & 0xff) as u8,
        (n & 0xff) as u8,
    ]
}

/// The 64-bit integer read from eight big-endian bytes.
pub open spec fn spec_u64_from_be(
    b0: u8,
    b1: u8,
    b2: u8,
    b3: u8,
    b4: u8,
    b5: u8,
    b6: u8,
    b7: u8,
) -> u64 {
    (((b0 as u64) << 56) | ((b1 as u64) << 48) | ((b2 as u64) << 40) | ((b3 as u64) << 32) | ((
    b4 as u64) << 24) | ((b5 as u64) << 16) | ((b6 as u64) << 8) | (b7 as u64)) as u64
}

/// Reading back the four big-endian bytes of `n` yields `n` again.
pub proof fn lemma_u32_be_roundtrip(n: u32)
    ensures
        spec_u32_from_be(
            spec_u32_be(n)[0],
            spec_u32_be(n)[1],
            spec_u32_be(n)[2],
            spec_u32_be(n)[3],
        ) == n,
{
    assert(forall|m: u32|
        spec_u32_from_be(
            ((m >> 24) & 0xff) as u8,
            ((m >> 16) & 0xff) as u8,
            ((m >> 8) & 0xff) as u8,
            (m & 0xff) as u8,
        ) == m) by (bit_vector);
}

/// Big-endian encoding of 32-bit integers is injective.
pub proof fn lemma_u32_be_injective(a: u32, b: u32)
    requires
        spec_u32_be(a) == spec_u32_be(b),
    ensures
        a == b,
{
    lemma_u32_be_roundtrip(a);
    lemma_u32_be_roundtrip(b);
    assert(spec_u32_be(a)[0] == spec_u32_be(b)[0]);
    assert(spec_u32_be(a)[1] == spec_u32_be(b)[1]);
    assert(spec_u32_be(a)[2] == spec_u32_be(b)[2]);
    assert(spec_u32_be(a)[3] == spec_u32_be(b)[3]);
}

/// Encoding the integer read from four bytes yields those bytes again.
pub proof fn lemma_u32_from_be_roundtrip(b0: u8, b1: u8, b2: u8, b3: u8)
    ensures
        spec_u32_be(spec_u32_from_be(b0, b1, b2, b3)) == seq![b0, b1, b2, b3],
{
    let n = spec_u32_from_be(b0, b1, b2, b3);
    assert(((spec_u32_from_be(b0, b1, b2, b3) >> 24) & 0xff) as u8 == b0) by (bit_vector);
    assert(((spec_u32_from_be(b0, b1, b2, b3) >> 16) & 0xff) as u8 == b1) by (bit_vector);
    assert(((spec_u32_from_be(b0, b1, b2, b3) >> 8) & 0xff) as u8 == b2) by (bit_vector);
    assert((spec_u32_from_be(b0, b1, b2, b3) & 0xff) as u8 == b3) by (bit_vector);
    assert(spec_u32_be(n) =~= seq![b0, b1, b2, b3]);
}

/// Encoding the integer read from eight bytes yields those bytes again.
pub proof fn lemma_u64_from_be_roundtrip(b0: u8, b1: u8, b2: u8, b3: u8, b4: u8, b5: u8, b6: u8, b7: u8)
    ensures
        spec_u64_be(spec_u64_from_be(b0, b1, b2, b3, b4, b5, b6, b7)) == seq![b0, b1, b2, b3, b4, b5, b6, b7],
{
    let n = spec_u64_from_be(b0, b1, b2, b3, b4, b5, b6, b7);
    assert(((spec_u64_from_be(b0, b1, b2, b3, b4, b5, b6, b7) >> 56) & 0xff) as u8 == b0) by (bit_vector);
    assert(((spec_u64_from_be(b0, b1, b2, b3, b4, b5, b6, b7) >> 48) & 0xff) as u8 == b1) by (bit_vector);
    assert(((spec_u64_from_be(b0, b1, b2, b3, b4, b5, b6, b7) >> 40) & 0xff) as u8 == b2) by (bit_vector);
    assert(((spec_u64_from_be(b0, b1, b2, b3, b4, b5, b6, b7) >> 32) & 0xff) as u8 == b3) by (bit_vector);
    assert(((spec_u64_from_be(b0, b1, b2, b3, b4, b5, b6, b7) >> 24) & 0xff) as u8 == b4) by (bit_vector);
    assert(((spec_u64_from_be(b0, b1, b2, b3, b4, b5, b6, b7) >> 16) & 0xff) as u8 == b5) by (bit_vector);
    assert(((spec_u64_from_be(b0, b1, b2, b3, b4, b5, b6, b7) >> 8) & 0xff) as u8 == b6) by (bit_vector);
    assert((spec_u64_from_be(b0, b1, b2, b3, b4, b5, b6, b7) & 0xff) as u8 == b7) by (bit_vector);
    assert(spec_u64_be(n) =~= seq![b0, b1, b2, b3, b4, b5, b6, b7]);
}

/// Big-endian encoding of 64-bit integers is injective.
pub proof fn lemma_u64_be_injective(a: u64, b: u64)
    requires
        spec_u64_be(a) == spec_u64_be(b),
    ensures
        a == b,
{
    lemma_u64_be_roundtrip(a);
    lemma_u64_be_roundtrip(b);
    assert(spec_u64_be(a)[0] == spec_u64_be(b)[0]);
    assert(spec_u64_be(a)[1] == spec_u64_be(b)[1]);
    assert(spec_u64_be(a)[2] == spec_u64_be(b)[2]);
    assert(spec_u64_be(a)[3] == spec_u64_be(b)[3]);
    assert(spec_u64_be(a)[4] == spec_u64_be(b)[4]);
    assert(spec_u64_be(a)[5] == spec_u64_be(b)[5]);
    assert(spec_u64_be(a)[6] == spec_u64_be(b)[6]);
    assert(spec_u64_be(a)[7] == spec_u64_be(b)[7]);
}

/// Reading back the eight big-endian bytes of `n` yields `n` again.
pub proof fn lemma_u64_be_roundtrip(n: u64)
    ensures
        spec_u64_from_be(
            spec_u64_be(n)[0],
            spec_u64_be(n)[1],
            spec_u64_be(n)[2],
            spec_u64_be(n)[3],
            spec_u64_be(n)[4],
            spec_u64_be(n)[5],
            spec_u64_be(n)[6],
            spec_u64_be(n)[7],
        ) == n,
{
    assert(forall|m: u64|
        spec_u64_from_be(
            ((m >> 56) & 0xff) as u8,
            ((m >> 48) & 0xff) as u8,
            ((m >> 40) & 0xff) as u8,
            ((m >> 32) & 0xff) as u8,
            ((m >> 24) & 0xff) as u8,
            ((m >> 16) & 0xff) as u8,
            ((m >> 8) & 0xff) as u8,
            (m & 0xff) as u8,
        ) == m) by (bit_vector);
}

/// Appends the four big-endian bytes of `n` to `dst`.
pub fn put_u32_be(dst: &mut Vec<u8>, n: u32)
    ensures
        final(dst)@ == old(dst)@ + spec_u32_be(n),
{
    dst.push(((n >> 24) & 0xff) as u8);
    dst.push(((n >> 16) & 0xff) as u8);
    dst.push(((n >> 8) & 0xff) as u8);
    dst.push((n & 0xff) as u8);
    assert(dst@ =~= old(dst)@ + spec_u32_be(n));
}

/// Appends the eight big-endian bytes of `n` to `dst`.
pub fn put_u64_be(dst: &mut Vec<u8>, n: u64)
    ensures
        final(dst)@ == old(dst)@ + spec_u64_be(n),
{
    dst.push(((n >> 56) & 0xff) as u8);
    dst.push(((n >> 48) & 0xff) as u8);
    dst.push(((n >> 40) & 0xff) as u8);
    dst.push(((n >> 32) & 0xff) as u8);
    dst.push(((n >> 24) & 0xff) as u8);
    dst.push(((n >> 16) & 0xff) as u8);
    dst.push(((n >> 8) & 0xff) as u8);
    dst.push((n & 0xff) as u8);
    assert(dst@ =~= old(dst)@ + spec_u64_be(n));
}

/// Reads a 32-bit big-endian integer at `pos`.
pub fn get_u32_be(bytes: &Vec<u8>, pos: usize) -> (n: u32)
    requires
        pos + 4 <= bytes@.len(),
    ensures
        n == spec_u32_from_be(
            bytes@[pos as int],
            bytes@[pos + 1],
            bytes@[pos + 2],
            bytes@[pos + 3],
        ),
{
    let n_total = bytes.len();
    assert(pos + 4 <= n_total);
    let b0 = bytes[pos];
    let b1 = bytes[pos + 1];
    let b2 = bytes[pos + 2];
    let b3 = bytes[pos + 3];
    ((b0 as u32) << 24) | ((b1 as u32) << 16) | ((b2 as u32) << 8) | (b3 as u32)
}

/// Reads a 64-bit big-endian integer at `pos`.
pub fn get_u64_be(bytes: &Vec<u8>, pos: usize) -> (n: u64)
    requires
        pos + 8 <= bytes@.len(),
    ensures
        n == spec_u64_from_be(
            bytes@[pos as int],
            bytes@[pos + 1],
            bytes@[pos + 2],
            bytes@[pos + 3],
            bytes@[pos + 4],
            bytes@[pos + 5],
            bytes@[pos + 6],
            bytes@[pos + 7],
        ),
{
    let n_total = bytes.len();
    assert(pos + 8 <= n_total);
    let b0 = bytes[pos];
    let b1 = bytes[pos + 1];
    let b2 = bytes[pos + 2];
    let b3 = bytes[pos + 3];
    let b4 = bytes[pos + 4];
    let b5 = bytes[pos + 5];
    let b6 = bytes[pos + 6];
    let b7 = bytes[pos + 7];
    ((b0 as u64) << 56) | ((b1 as u64) << 48) | ((b2 as u64) << 40) | ((b3 as u64) << 32) | ((
    b4 as u64) << 24) | ((b5 as u64) << 16) | ((b6 as u64) << 8) | (b7 as u64)
}

/// Appends all bytes of `src` to `dst`.
pub fn push_bytes(dst: &mut Vec<u8>, src: &Vec<u8>)
    ensures
        final(dst)@ == old(dst)@ + src@,
{
    let mut i: usize = 0;
    while i < src.len()
        invariant
            0 <= i <= src@.len(),
            dst@ == old(dst)@ + src@.take(i as int),
        decreases src@.len() - i,
    {
        dst.push(src[i]);
        assert(dst@ =~= old(dst)@ + src@.take(i + 1));
        i += 1;
    }
    assert(dst@ =~= old(dst)@ + src@);
}

/// Copies all bytes of `src` into a new vector.
pub fn clone_bytes(src: &Vec<u8>) -> (r: Vec<u8>)
    ensures
        r@ == src@,
{
    let mut r: Vec<u8> = Vec::new();
    push_bytes(&mut r, src);
    assert(r@ =~= src@);
    r
}

/// Copies the byte range `[pos, pos + len)` of `src` into a new vector.
pub fn slice_bytes(src: &Vec<u8>, pos: usize, len: usize) -> (r: Vec<u8>)
    requires
        pos + len <= src@.len(),
    ensures
        r@ == src@.subrange(pos as int, pos + len),
{
    let n_total = src.len();
    let mut r: Vec<u8> = Vec::new();
    let mut i: usize = 0;
    while i < len
        invariant
            0 <= i <= len,
            pos + len <= n_total == src@.len(),
            r@ == src@.subrange(pos as int, pos + i),
        decreases len - i,
    {
        r.push(src[pos + i]);
        assert(r@ =~= src@.subrange(pos as int, pos + i + 1));
        i += 1;
    }
    r
}

/// Compares two byte vectors for equality.
pub fn bytes_eq(a: &Vec<u8>, b: &Vec<u8>) -> (r: bool)
    ensures
        r == (a@ == b@),
{
    if a.len() != b.len() {
        assert(a@.len() != b@.len());
        return false;
    }
    let mut i: usize = 0;
    while i < a.len()
        invariant
            0 <= i <= a@.len(),
            a@.len() == b@.len(),
            forall|j: int| 0 <= j < i ==> a@[j] == b@[j],
        decreases a@.len() - i,
    {
        if a[i] != b[i] {
            return false;
        }
        i += 1;
    }
    assert(a@ =~= b@);
    true
}


/// Compares two strings for equality.
pub fn str_eq(a: &str, b: &str) -> (r: bool)
    ensures
        r == (a@ == b@),
{
    let ab = a.as_bytes();
    let bb = b.as_bytes();
    if ab.len() != bb.len() {
        proof {
            assert(a.spec_bytes().len() != b.spec_bytes().len());
        }
        return false;
    }
    let mut i: usize = 0;
    while i < ab.len()
        invariant
            0 <= i <= ab@.len(),
            ab@.len() == bb@.len(),
            ab@ == a.spec_bytes(),
            bb@ == b.spec_bytes(),
            forall|j: int| 0 <= j < i ==> ab@[j] == bb@[j],
        decreases ab@.len() - i,
    {
        if ab[i] != bb[i] {
            proof {
                assert(a.spec_bytes()[i as int] != b.spec_bytes()[i as int]);
            }
            return false;
        }
        i += 1;
    }
    proof {
        assert(a.spec_bytes() =~= b.spec_bytes());
        vstd::utf8::encode_utf8_decode_utf8(a@);
        vstd::utf8::encode_utf8_decode_utf8(b@);
    }
    true
}

} // verus!
