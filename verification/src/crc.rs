//! CRC-32 checksum over record bytes, with the corruption-detection lemma
//! behind block integrity checking: two byte strings of equal length that
//! differ in exactly one position never share a checksum.

use vstd::prelude::*;

verus! {

/// One shift-and-conditionally-xor round of the bitwise CRC-32 update.
pub open spec fn crc_round(s: u32) -> u32 {
    if s & 1 == 1 {
        (s >> 1) ^ 0xEDB8_8320u32
    } else {
        s >> 1
    }
}

/// `k` rounds of the bitwise CRC-32 update.
pub open spec fn crc_rounds(s: u32, k: nat) -> u32
    decreases k,
{
    if k == 0 {
        s
    } else {
        crc_round(crc_rounds(s, (k - 1) as nat))
    }
}

/// Folds one input byte into the CRC state.
pub open spec fn crc_step(s: u32, b: u8) -> u32 {
    crc_rounds(s ^ (b as u32), 8)
}

/// Folds a byte string into the CRC state, front to back.
pub open spec fn crc_fold(bytes: Seq<u8>, acc: u32) -> u32
    decreases bytes.len(),
{
    if bytes.len() == 0 {
        acc
    } else {
        crc_fold(bytes.drop_first(), crc_step(acc, bytes[0]))
    }
}

/// The CRC-32 checksum of a byte string.
pub open spec fn spec_crc32(bytes: Seq<u8>) -> u32 {
    crc_fold(bytes, 0xFFFF_FFFFu32) ^ 0xFFFF_FFFFu32
}

/// One round never maps two distinct states to the same state.
proof fn lemma_round_injective(a: u32, b: u32)
    requires
        crc_round(a) == crc_round(b),
    ensures
        a == b,
{
    assert(a & 1 == 0 || a & 1 == 1) by (bit_vector);
    assert(b & 1 == 0 || b & 1 == 1) by (bit_vector);
    if a & 1 == 1 && b & 1 == 1 {
        assert(((a >> 1) ^ 0xEDB8_8320u32) == ((b >> 1) ^ 0xEDB8_8320u32) && a & 1 == b & 1
            ==> a == b) by (bit_vector);
    } else if a & 1 == 0 && b & 1 == 0 {
        assert((a >> 1) == (b >> 1) && a & 1 == 0 && b & 1 == 0 ==> a == b) by (bit_vector);
    } else if a & 1 == 1 && b & 1 == 0 {
        assert(((a >> 1) ^ 0xEDB8_8320u32) != (b >> 1)) by (bit_vector);
    } else {
        assert(((b >> 1) ^ 0xEDB8_8320u32) != (a >> 1)) by (bit_vector);
    }
}

/// `k` rounds never map two distinct states to the same state.
proof fn lemma_rounds_injective(a: u32, b: u32, k: nat)
    requires
        crc_rounds(a, k) == crc_rounds(b, k),
    ensures
        a == b,
    decreases k,
{
    if k > 0 {
        lemma_round_injective(crc_rounds(a, (k - 1) as nat), crc_rounds(b, (k - 1) as nat));
        lemma_rounds_injective(a, b, (k - 1) as nat);
    }
}

/// Folding the same byte into two distinct states keeps them distinct.
proof fn lemma_step_state_injective(a: u32, b: u32, byte: u8)
    requires
        a != b,
    ensures
        crc_step(a, byte) != crc_step(b, byte),
{
    if crc_step(a, byte) == crc_step(b, byte) {
        lemma_rounds_injective(a ^ (byte as u32), b ^ (byte as u32), 8);
        assert(a ^ (byte as u32) == b ^ (byte as u32) ==> a == b) by (bit_vector);
    }
}

/// Folding two distinct bytes into one state yields distinct states.
proof fn lemma_step_byte_injective(s: u32, b1: u8, b2: u8)
    requires
        b1 != b2,
    ensures
        crc_step(s, b1) != crc_step(s, b2),
{
    if crc_step(s, b1) == crc_step(s, b2) {
        lemma_rounds_injective(s ^ (b1 as u32), s ^ (b2 as u32), 8);
        assert(s ^ (b1 as u32) == s ^ (b2 as u32) ==> b1 == b2) by (bit_vector);
    }
}

/// Folding the same byte string into two distinct states keeps them distinct.
proof fn lemma_fold_state_injective(bytes: Seq<u8>, a: u32, b: u32)
    requires
        a != b,
    ensures
        crc_fold(bytes, a) != crc_fold(bytes, b),
    decreases bytes.len(),
{
    if bytes.len() > 0 {
        lemma_step_state_injective(a, b, bytes[0]);
        lemma_fold_state_injective(bytes.drop_first(), crc_step(a, bytes[0]), crc_step(b, bytes[0]));
    }
}

/// Two equal-length byte strings that differ in exactly one position have
/// different CRC folds.
proof fn lemma_fold_differs(s1: Seq<u8>, s2: Seq<u8>, d: int, acc: u32)
    requires
        s1.len() == s2.len(),
        0 <= d < s1.len(),
        s1[d] != s2[d],
        forall|i: int| 0 <= i < s1.len() && i != d ==> s1[i] == s2[i],
    ensures
        crc_fold(s1, acc) != crc_fold(s2, acc),
    decreases d,
{
    if d == 0 {
        lemma_step_byte_injective(acc, s1[0], s2[0]);
        assert(s1.drop_first() =~= s2.drop_first());
        lemma_fold_state_injective(s1.drop_first(), crc_step(acc, s1[0]), crc_step(acc, s2[0]));
    } else {
        assert(s1[0] == s2[0]);
        lemma_fold_differs(s1.drop_first(), s2.drop_first(), d - 1, crc_step(acc, s1[0]));
    }
}

/// CRC-32 detects every single-byte corruption: two equal-length byte strings
/// that differ in exactly one position never share a checksum. In particular
/// flipping any bit of a checked byte string changes its checksum.
pub proof fn lemma_crc32_detects_single_byte_change(s1: Seq<u8>, s2: Seq<u8>, d: int)
    requires
        s1.len() == s2.len(),
        0 <= d < s1.len(),
        s1[d] != s2[d],
        forall|i: int| 0 <= i < s1.len() && i != d ==> s1[i] == s2[i],
    ensures
        spec_crc32(s1) != spec_crc32(s2),
{
    lemma_fold_differs(s1, s2, d, 0xFFFF_FFFFu32);
    let f1 = crc_fold(s1, 0xFFFF_FFFFu32);
    let f2 = crc_fold(s2, 0xFFFF_FFFFu32);
    assert(f1 != f2 ==> f1 ^ 0xFFFF_FFFFu32 != f2 ^ 0xFFFF_FFFFu32) by (bit_vector);
}

/// One executable round of the bitwise CRC-32 update.
fn crc_round_exec(s: u32) -> (r: u32)
    ensures
        r == crc_round(s),
{
    if s & 1 == 1 {
        (s >> 1) ^ 0xEDB8_8320u32
    } else {
        s >> 1
    }
}

/// Computes the CRC-32 checksum of `bytes`.
pub fn crc32(bytes: &Vec<u8>) -> (r: u32)
    ensures
        r == spec_crc32(bytes@),
{
    let n = bytes.len();
    let mut acc: u32 = 0xFFFF_FFFF;
    let mut i: usize = 0;
    assert(bytes@.skip(0) =~= bytes@);
    while i < n
        invariant
            0 <= i <= n == bytes@.len(),
            crc_fold(bytes@.skip(i as int), acc) == crc_fold(bytes@, 0xFFFF_FFFFu32),
        decreases n - i,
    {
        let mut s: u32 = acc ^ (bytes[i] as u32);
        let mut k: usize = 0;
        while k < 8
            invariant
                0 <= k <= 8,
                s == crc_rounds(acc ^ (bytes@[i as int] as u32), k as nat),
            decreases 8 - k,
        {
            s = crc_round_exec(s);
            k += 1;
        }
        assert(s == crc_step(acc, bytes@[i as int]));
        assert(bytes@.skip(i as int).drop_first() =~= bytes@.skip(i + 1));
        assert(bytes@.skip(i as int)[0] == bytes@[i as int]);
        acc = s;
        i += 1;
    }
    assert(bytes@.skip(n as int) =~= Seq::<u8>::empty());
    acc ^ 0xFFFF_FFFF
}

} // verus!
