//! Byte and limb conversions between the big-endian 32-byte exchange form
//! and the little-endian eight-limb form used by the walk engine.
use crate::math::{le_value, lemma_le_value_bound, pow256};
use vstd::prelude::*;

verus! {

/// Byte `k` of `x`, counting from the least significant (`k` in `0..4`).
pub open spec fn byte_of(x: u32, k: int) -> u8 {
    ((x >> ((8 * k) as u32)) & 0xFFu32) as u8
}

/// The word whose big-endian bytes are `b0 b1 b2 b3`.
pub open spec fn be_word(b0: u8, b1: u8, b2: u8, b3: u8) -> u32 {
    ((b0 as u32) << 24u32) | ((b1 as u32) << 16u32) | ((b2 as u32) << 8u32) | (b3 as u32)
}

/// Eight little-endian limbs written as 32 big-endian bytes.
pub open spec fn limbs_to_be_spec(l: Seq<u32>) -> Seq<u8> {
    Seq::new(32, |i: int| byte_of(l[7 - i / 4], 3 - i % 4))
}

/// 32 big-endian bytes read as eight little-endian limbs.
pub open spec fn be_to_limbs_spec(b: Seq<u8>) -> Seq<u32> {
    Seq::new(
        8,
        |i: int|
            be_word(b[4 * (7 - i)], b[4 * (7 - i) + 1], b[4 * (7 - i) + 2], b[4 * (7 - i) + 3]),
    )
}

/// Eight limbs written as 32 little-endian bytes.
pub open spec fn limbs_to_le_spec(l: Seq<u32>) -> Seq<u8> {
    Seq::new(32, |i: int| byte_of(l[i / 4], i % 4))
}

proof fn lemma_word_bytes(b0: u8, b1: u8, b2: u8, b3: u8)
    ensures
        byte_of(be_word(b0, b1, b2, b3), 3) == b0,
        byte_of(be_word(b0, b1, b2, b3), 2) == b1,
        byte_of(be_word(b0, b1, b2, b3), 1) == b2,
        byte_of(be_word(b0, b1, b2, b3), 0) == b3,
{
    let w = be_word(b0, b1, b2, b3);
    assert(((w >> 24u32) & 0xFFu32) as u8 == b0 && ((w >> 16u32) & 0xFFu32) as u8 == b1 && ((w
        >> 8u32) & 0xFFu32) as u8 == b2 && ((w >> 0u32) & 0xFFu32) as u8 == b3) by (bit_vector)
        requires
            w == ((b0 as u32) << 24u32) | ((b1 as u32) << 16u32) | ((b2 as u32) << 8u32) | (
            b3 as u32),
    ;
}

proof fn lemma_bytes_word(x: u32)
    ensures
        be_word(byte_of(x, 3), byte_of(x, 2), byte_of(x, 1), byte_of(x, 0)) == x,
{
    assert(((((x >> 24u32) & 0xFFu32) as u8 as u32) << 24u32) | ((((x >> 16u32) & 0xFFu32) as u8
        as u32) << 16u32) | ((((x >> 8u32) & 0xFFu32) as u8 as u32) << 8u32) | (((x >> 0u32)
        & 0xFFu32) as u8 as u32) == x) by (bit_vector);
}

/// Reading 32 big-endian bytes as limbs and writing them back gives the
/// same bytes.
pub proof fn lemma_be_bytes_round_trip(b: Seq<u8>)
    requires
        b.len() == 32,
    ensures
        limbs_to_be_spec(be_to_limbs_spec(b)) == b,
{
    let l = be_to_limbs_spec(b);
    assert forall|i: int| 0 <= i < 32 implies #[trigger] limbs_to_be_spec(l)[i] == b[i] by {
        let q = 7 - i / 4;
        let s = 4 * (7 - q);
        lemma_word_bytes(b[s], b[s + 1], b[s + 2], b[s + 3]);
    }
    assert(limbs_to_be_spec(l) =~= b);
}

/// Writing eight limbs as big-endian bytes and reading them back gives the
/// same limbs.
pub proof fn lemma_limbs_round_trip(l: Seq<u32>)
    requires
        l.len() == 8,
    ensures
        be_to_limbs_spec(limbs_to_be_spec(l)) == l,
{
    let b = limbs_to_be_spec(l);
    assert forall|i: int| 0 <= i < 8 implies #[trigger] be_to_limbs_spec(b)[i] == l[i] by {
        lemma_bytes_word(l[i]);
    }
    assert(be_to_limbs_spec(b) =~= l);
}

/// Convert little-endian limbs (limb 0 least significant) to 32 big-endian
/// bytes (byte 0 most significant).
pub fn limbs_to_be_bytes(limbs: &[u32; 8]) -> (bytes: [u8; 32])
    ensures
        bytes@ == limbs_to_be_spec(limbs@),
{
    let mut bytes = [0u8; 32];
    let mut i: usize = 0;
    while i < 8
        invariant
            i <= 8,
            forall|j: int| 0 <= j < 4 * i ==> #[trigger] bytes@[j] == limbs_to_be_spec(limbs@)[j],
        decreases 8 - i,
    {
        let x = limbs[7 - i];
        bytes[4 * i] = ((x >> 24u32) & 0xFF) as u8;
        bytes[4 * i + 1] = ((x >> 16u32) & 0xFF) as u8;
        bytes[4 * i + 2] = ((x >> 8u32) & 0xFF) as u8;
        bytes[4 * i + 3] = (x & 0xFF) as u8;
        proof {
            assert(x >> 0u32 == x) by (bit_vector);
        }
        i = i + 1;
    }
    assert(bytes@ =~= limbs_to_be_spec(limbs@));
    bytes
}

/// Convert 32 big-endian bytes (byte 0 most significant) to little-endian
/// limbs (limb 0 least significant).
pub fn be_bytes_to_limbs(bytes: &[u8; 32]) -> (limbs: [u32; 8])
    ensures
        limbs@ == be_to_limbs_spec(bytes@),
{
    let mut limbs = [0u32; 8];
    let mut i: usize = 0;
    while i < 8
        invariant
            i <= 8,
            forall|j: int| 0 <= j < i ==> #[trigger] limbs@[j] == be_to_limbs_spec(bytes@)[j],
        decreases 8 - i,
    {
        let k = (7 - i) * 4;
        limbs[i] = ((bytes[k] as u32) << 24u32) | ((bytes[k + 1] as u32) << 16u32) | ((bytes[k
            + 2] as u32) << 8u32) | (bytes[k + 3] as u32);
        i = i + 1;
    }
    assert(limbs@ =~= be_to_limbs_spec(bytes@));
    limbs
}

/// Convert limbs to 32 little-endian bytes: limb 0 first, each limb least
/// significant byte first.
pub fn limbs_to_le_bytes(arr: &[u32; 8]) -> (bytes: [u8; 32])
    ensures
        bytes@ == limbs_to_le_spec(arr@),
{
    let mut bytes = [0u8; 32];
    let mut i: usize = 0;
    while i < 8
        invariant
            i <= 8,
            forall|j: int| 0 <= j < 4 * i ==> #[trigger] bytes@[j] == limbs_to_le_spec(arr@)[j],
        decreases 8 - i,
    {
        let x = arr[i];
        bytes[4 * i] = (x & 0xFF) as u8;
        bytes[4 * i + 1] = ((x >> 8u32) & 0xFF) as u8;
        bytes[4 * i + 2] = ((x >> 16u32) & 0xFF) as u8;
        bytes[4 * i + 3] = ((x >> 24u32) & 0xFF) as u8;
        proof {
            assert(x >> 0u32 == x) by (bit_vector);
        }
        i = i + 1;
    }
    assert(bytes@ =~= limbs_to_le_spec(arr@));
    bytes
}

/// Convert a 32-byte big-endian scalar to little-endian limbs.
pub fn scalar_be_to_limbs(bytes: &[u8; 32]) -> (limbs: [u32; 8])
    ensures
        limbs@ == be_to_limbs_spec(bytes@),
{
    be_bytes_to_limbs(bytes)
}

/// The lower 128 bits of a 256-bit value held as 32 little-endian bytes.
pub fn u256_to_u128(val: &[u8; 32]) -> (r: u128)
    ensures
        r == le_value(val@.take(16)),
{
    let mut r: u128 = 0;
    let mut p: u128 = 1;
    let mut i: usize = 0;
    proof {
        reveal_with_fuel(pow256, 17);
        assert(pow256(16) == 0x1_0000_0000_0000_0000_0000_0000_0000_0000);
    }
    while i < 16
        invariant
            i <= 16,
            i < 16 ==> p == pow256(i as nat),
            r == le_value(val@.take(i as int)),
            pow256(16) == 0x1_0000_0000_0000_0000_0000_0000_0000_0000,
        decreases 16 - i,
    {
        proof {
            lemma_le_value_bound(val@.take(i as int));
            lemma_pow16_bound(i as nat);
            assert(r + val[i as int] as int * p <= 256 * p - 1) by (nonlinear_arith)
                requires
                    r < p,
                    val[i as int] <= 255,
            ;
            assert(val@.take(i + 1).drop_last() =~= val@.take(i as int));
        }
        r = r + val[i] as u128 * p;
        if i + 1 < 16 {
            proof {
                lemma_pow16_bound((i + 1) as nat);
                assert(pow256((i + 1) as nat) == 256 * pow256(i as nat));
            }
            p = p * 256;
        }
        i = i + 1;
    }
    r
}

proof fn lemma_pow16_bound(i: nat)
    requires
        i < 16,
    ensures
        256 * pow256(i) <= pow256(16),
    decreases 16 - i,
{
    if i < 15 {
        lemma_pow16_bound(i + 1);
        assert(pow256(i) <= pow256(i + 1)) by {
            assert(pow256(i + 1) == 256 * pow256(i));
        }
    }
}

} // verus!
