//! 256-bit arithmetic utilities for the kangaroo walk.
use vstd::arithmetic::div_mod::lemma_fundamental_div_mod_converse;
use vstd::prelude::*;

verus! {

/// `256^n`.
pub open spec fn pow256(n: nat) -> nat
    decreases n,
{
    if n == 0 {
        1
    } else {
        256 * pow256((n - 1) as nat)
    }
}

/// The number that a little-endian byte string denotes.
pub open spec fn le_value(s: Seq<u8>) -> nat
    decreases s.len(),
{
    if s.len() == 0 {
        0
    } else {
        le_value(s.drop_last()) + s.last() as nat * pow256((s.len() - 1) as nat)
    }
}

/// The number that a big-endian byte string denotes.
pub open spec fn be_value(s: Seq<u8>) -> nat
    decreases s.len(),
{
    if s.len() == 0 {
        0
    } else {
        s[0] as nat * pow256((s.len() - 1) as nat) + be_value(s.drop_first())
    }
}

pub proof fn lemma_pow256_positive(n: nat)
    ensures
        pow256(n) > 0,
    decreases n,
{
    if n > 0 {
        lemma_pow256_positive((n - 1) as nat);
    }
}

/// A little-endian string of `n` bytes denotes a number below `256^n`.
pub proof fn lemma_le_value_bound(s: Seq<u8>)
    ensures
        le_value(s) < pow256(s.len()),
    decreases s.len(),
{
    if s.len() > 0 {
        let n = (s.len() - 1) as nat;
        lemma_le_value_bound(s.drop_last());
        let p = pow256(n);
        let v = le_value(s.drop_last());
        let d = s.last() as nat;
        assert(v + d * p < 256 * p) by (nonlinear_arith)
            requires
                v < p,
                d <= 255,
        ;
    }
}

/// A big-endian string of `n` bytes denotes a number below `256^n`.
pub proof fn lemma_be_value_bound(s: Seq<u8>)
    ensures
        be_value(s) < pow256(s.len()),
    decreases s.len(),
{
    if s.len() > 0 {
        let n = (s.len() - 1) as nat;
        lemma_be_value_bound(s.drop_first());
        let p = pow256(n);
        let v = be_value(s.drop_first());
        let d = s[0] as nat;
        assert(d * p + v < 256 * p) by (nonlinear_arith)
            requires
                v < p,
                d <= 255,
        ;
    }
}

/// Two big-endian strings of one length that denote one number are equal.
pub proof fn lemma_be_value_injective(s: Seq<u8>, t: Seq<u8>)
    requires
        s.len() == t.len(),
        be_value(s) == be_value(t),
    ensures
        s == t,
    decreases s.len(),
{
    if s.len() > 0 {
        let n = (s.len() - 1) as nat;
        let p = pow256(n);
        lemma_pow256_positive(n);
        lemma_be_value_bound(s.drop_first());
        lemma_be_value_bound(t.drop_first());
        let x = be_value(s) as int;
        lemma_fundamental_div_mod_converse(x, p as int, s[0] as int, be_value(s.drop_first()) as int);
        lemma_fundamental_div_mod_converse(x, p as int, t[0] as int, be_value(t.drop_first()) as int);
        lemma_be_value_injective(s.drop_first(), t.drop_first());
        assert(s =~= t) by {
            assert forall|i: int| 0 <= i < s.len() implies s[i] == t[i] by {
                if i > 0 {
                    assert(s[i] == s.drop_first()[i - 1]);
                    assert(t[i] == t.drop_first()[i - 1]);
                }
            }
        }
    }
}

proof fn lemma_digit_step(sum: int, p: int)
    requires
        sum >= 0,
        p >= 0,
    ensures
        (sum % 256) * p + (sum / 256) * (256 * p) == sum * p,
{
    assert(sum == (sum % 256) + 256 * (sum / 256));
    assert((sum % 256) * p + (sum / 256) * (256 * p) == ((sum % 256) + 256 * (sum / 256)) * p)
        by (nonlinear_arith);
}

/// Add two 256-bit values held as 32 little-endian bytes: `result = a + b`
/// modulo `2^256`. Only the first 32 bytes of each slice take part.
pub fn add_256(a: &[u8], b: &[u8], result: &mut [u8])
    requires
        a@.len() >= 32,
        b@.len() >= 32,
        old(result)@.len() >= 32,
    ensures
        final(result)@.len() == old(result)@.len(),
        final(result)@.skip(32) == old(result)@.skip(32),
        le_value(final(result)@.take(32)) == (le_value(a@.take(32)) + le_value(b@.take(32)))
            % pow256(32),
{
    let mut carry: u16 = 0;
    let mut i: usize = 0;
    while i < 32
        invariant
            a@.len() >= 32,
            b@.len() >= 32,
            result@.len() == old(result)@.len(),
            result@.len() >= 32,
            result@.skip(32) == old(result)@.skip(32),
            i <= 32,
            carry <= 1,
            le_value(result@.take(i as int)) + carry * pow256(i as nat) == le_value(a@.take(i as int))
                + le_value(b@.take(i as int)),
        decreases 32 - i,
    {
        let sum: u16 = a[i] as u16 + b[i] as u16 + carry;
        let ghost prev = result@;
        result[i] = (sum % 256) as u8;
        proof {
            let ii = i as int;
            assert(result@.take(ii + 1).drop_last() =~= prev.take(ii));
            assert(a@.take(ii + 1).drop_last() =~= a@.take(ii));
            assert(b@.take(ii + 1).drop_last() =~= b@.take(ii));
            assert(result@.skip(32) =~= prev.skip(32));
            lemma_digit_step(sum as int, pow256(i as nat) as int);
            assert(sum as int * pow256(i as nat) == a[ii] as int * pow256(i as nat) + b[ii] as int
                * pow256(i as nat) + carry as int * pow256(i as nat)) by (nonlinear_arith)
                requires
                    sum as int == a[ii] as int + b[ii] as int + carry as int,
            ;
        }
        carry = sum / 256;
        i = i + 1;
    }
    proof {
        lemma_le_value_bound(result@.take(32));
        lemma_fundamental_div_mod_converse(
            (le_value(a@.take(32)) + le_value(b@.take(32))) as int,
            pow256(32) as int,
            carry as int,
            le_value(result@.take(32)) as int,
        );
    }
}

/// Subtract two 256-bit values held as 32 little-endian bytes:
/// `result = a - b` modulo `2^256`. Only the first 32 bytes of each slice take part.
pub fn subtract_256(a: &[u8], b: &[u8], result: &mut [u8])
    requires
        a@.len() >= 32,
        b@.len() >= 32,
        old(result)@.len() >= 32,
    ensures
        final(result)@.len() == old(result)@.len(),
        final(result)@.skip(32) == old(result)@.skip(32),
        le_value(final(result)@.take(32)) as int == (le_value(a@.take(32)) as int - le_value(
            b@.take(32),
        ) as int) % (pow256(32) as int),
{
    let mut borrow: i16 = 0;
    let mut i: usize = 0;
    while i < 32
        invariant
            a@.len() >= 32,
            b@.len() >= 32,
            result@.len() == old(result)@.len(),
            result@.len() >= 32,
            result@.skip(32) == old(result)@.skip(32),
            i <= 32,
            0 <= borrow <= 1,
            le_value(result@.take(i as int)) as int - borrow * pow256(i as nat) == le_value(
                a@.take(i as int),
            ) as int - le_value(b@.take(i as int)) as int,
        decreases 32 - i,
    {
        let diff: i16 = a[i] as i16 - b[i] as i16 - borrow;
        let ghost prev = result@;
        let ghost old_borrow = borrow as int;
        if diff < 0 {
            result[i] = (diff + 256) as u8;
            borrow = 1;
        } else {
            result[i] = diff as u8;
            borrow = 0;
        }
        proof {
            let ii = i as int;
            let p = pow256(i as nat) as int;
            assert(result@.take(ii + 1).drop_last() =~= prev.take(ii));
            assert(a@.take(ii + 1).drop_last() =~= a@.take(ii));
            assert(b@.take(ii + 1).drop_last() =~= b@.take(ii));
            assert(result@.skip(32) =~= prev.skip(32));
            assert(result@[ii] as int == diff as int + 256 * borrow as int);
            assert((diff as int + 256 * borrow as int) * p - borrow as int * (256 * p) == a[ii] as int
                * p - b[ii] as int * p - old_borrow * p) by (nonlinear_arith)
                requires
                    diff as int == a[ii] as int - b[ii] as int - old_borrow,
            ;
        }
        i = i + 1;
    }
    proof {
        lemma_le_value_bound(result@.take(32));
        assert(-(borrow as int) * (pow256(32) as int) == -(borrow as int * pow256(32)))
            by (nonlinear_arith);
        lemma_fundamental_div_mod_converse(
            le_value(a@.take(32)) as int - le_value(b@.take(32)) as int,
            pow256(32) as int,
            -(borrow as int),
            le_value(result@.take(32)) as int,
        );
    }
}

/// Negate a 256-bit value held as 32 big-endian bytes, in two's complement:
/// the result is `-value` modulo `2^256`.
pub fn negate_256_be(bytes: &[u8; 32]) -> (result: [u8; 32])
    ensures
        be_value(result@) == (pow256(32) - be_value(bytes@)) % (pow256(32) as int),
{
    let mut result = [0u8; 32];
    let mut carry: u16 = 1;
    let mut i: usize = 0;
    while i < 32
        invariant
            i <= 32,
            carry <= 1,
            be_value(result@.subrange(32 - i, 32)) + carry * pow256(i as nat) == pow256(i as nat)
                - be_value(bytes@.subrange(32 - i, 32)),
        decreases 32 - i,
    {
        let idx: usize = 31 - i;
        let byte = bytes[idx];
        let inverted: u8 = !byte;
        assert(inverted == 255 - byte) by (bit_vector)
            requires
                inverted == !byte,
        ;
        let sum: u16 = inverted as u16 + carry;
        let ghost prev = result@;
        let ghost old_carry = carry as int;
        result[idx] = (sum % 256) as u8;
        carry = sum / 256;
        proof {
            let k = idx as int;
            let p = pow256(i as nat) as int;
            assert(result@.subrange(k, 32).drop_first() =~= prev.subrange(k + 1, 32));
            assert(bytes@.subrange(k, 32).drop_first() =~= bytes@.subrange(k + 1, 32));
            assert(result@.subrange(k, 32)[0] == result@[k]);
            assert(bytes@.subrange(k, 32)[0] == bytes@[k]);
            assert(be_value(result@.subrange(k, 32)) == result@[k] as nat * pow256(i as nat)
                + be_value(prev.subrange(k + 1, 32)));
            assert(be_value(bytes@.subrange(k, 32)) == bytes@[k] as nat * pow256(i as nat)
                + be_value(bytes@.subrange(k + 1, 32)));
            assert(pow256((i + 1) as nat) == 256 * pow256(i as nat));
            assert(32 - i == k + 1);
            assert(be_value(prev.subrange(k + 1, 32)) + old_carry * p == p - be_value(
                bytes@.subrange(k + 1, 32),
            ));
            assert(result@[k] as int == sum as int % 256);
            assert(byte == bytes@[k]);
            lemma_digit_step(sum as int, p);
            assert(sum as int * p == (255 - byte as int) * p + old_carry * p) by (nonlinear_arith)
                requires
                    sum as int == 255 - byte as int + old_carry,
            ;
            let r0 = result@[k] as int;
            let q = sum as int / 256;
            let nb = be_value(prev.subrange(k + 1, 32)) as int;
            let bb = be_value(bytes@.subrange(k + 1, 32)) as int;
            assert(r0 * p + q * (256 * p) == sum as int * p);
            assert(r0 * p + nb + q * (256 * p) == 256 * p - (byte as int * p + bb)) by (nonlinear_arith)
                requires
                    r0 * p + q * (256 * p) == sum as int * p,
                    sum as int * p == (255 - byte as int) * p + old_carry * p,
                    nb + old_carry * p == p - bb,
            ;
        }
        i = i + 1;
    }
    proof {
        let m = pow256(32) as int;
        assert(result@.subrange(0, 32) =~= result@);
        assert(bytes@.subrange(0, 32) =~= bytes@);
        lemma_be_value_bound(result@);
        lemma_be_value_bound(bytes@);
        if be_value(bytes@) == 0 {
            lemma_fundamental_div_mod_converse(m, m, 1, 0);
        } else {
            lemma_fundamental_div_mod_converse(m - be_value(bytes@), m, 0, m - be_value(bytes@));
        }
    }
    result
}

/// Negating twice gives back the value: a 32-byte string `once` with the
/// value that `negate_256_be` gives for `b`, negated again into `twice`,
/// makes `twice == b`.
pub proof fn lemma_negate_involution(b: Seq<u8>, once: Seq<u8>, twice: Seq<u8>)
    requires
        b.len() == 32,
        once.len() == 32,
        twice.len() == 32,
        be_value(once) == (pow256(32) - be_value(b)) % (pow256(32) as int),
        be_value(twice) == (pow256(32) - be_value(once)) % (pow256(32) as int),
    ensures
        twice == b,
{
    let m = pow256(32) as int;
    lemma_be_value_bound(b);
    if be_value(b) == 0 {
        lemma_fundamental_div_mod_converse(m, m, 1, 0);
    } else {
        lemma_fundamental_div_mod_converse(m - be_value(b), m, 0, m - be_value(b));
        lemma_fundamental_div_mod_converse(be_value(b) as int, m, 0, be_value(b) as int);
    }
    lemma_be_value_injective(twice, b);
}

/// The value of limb `l` of a mask whose `dp_bits` lowest bits are set.
pub open spec fn dp_mask_limb(dp_bits: u32, l: int) -> u32 {
    if dp_bits as int >= 32 * (l + 1) {
        0xFFFF_FFFFu32
    } else if dp_bits as int <= 32 * l {
        0u32
    } else {
        ((1u32 << ((dp_bits as int - 32 * l) as u32)) - 1) as u32
    }
}

/// Bit `j` of an eight-limb little-endian value.
pub open spec fn limbs_bit(m: Seq<u32>, j: int) -> bool {
    (m[j / 32] >> ((j % 32) as u32)) & 1u32 == 1u32
}

/// The mask that `create_dp_mask` builds, as a sequence of eight limbs.
pub open spec fn dp_mask_spec(dp_bits: u32) -> Seq<u32> {
    Seq::new(8, |l: int| dp_mask_limb(dp_bits, l))
}

proof fn lemma_low_bits(r: u32, b: u32)
    requires
        r < 32,
        b < 32,
    ensures
        ((((1u32 << r) - 1) as u32 >> b) & 1u32 == 1u32) <==> b < r,
        (0xFFFF_FFFFu32 >> b) & 1u32 == 1u32,
        (0u32 >> b) & 1u32 == 0u32,
{
    assert(((((1u32 << r) - 1) as u32 >> b) & 1u32 == 1u32) <==> b < r) by (bit_vector)
        requires
            r < 32,
            b < 32,
    ;
    assert((0xFFFF_FFFFu32 >> b) & 1u32 == 1u32) by (bit_vector)
        requires
            b < 32,
    ;
    assert((0u32 >> b) & 1u32 == 0u32) by (bit_vector);
}

/// A DP mask built for `dp_bits <= 256` has exactly its `dp_bits` lowest bits
/// set: bit `j` is set if and only if `j < dp_bits`.
pub proof fn lemma_dp_mask_shape(dp_bits: u32)
    requires
        dp_bits <= 256,
    ensures
        forall|j: int| 0 <= j < 256 ==> (#[trigger] limbs_bit(dp_mask_spec(dp_bits), j) <==> j < dp_bits),
{
    assert forall|j: int| 0 <= j < 256 implies (#[trigger] limbs_bit(dp_mask_spec(dp_bits), j) <==> j
        < dp_bits) by {
        let l = j / 32;
        let b = (j % 32) as u32;
        if dp_bits as int >= 32 * (l + 1) {
            lemma_low_bits(0, b);
        } else if dp_bits as int <= 32 * l {
            lemma_low_bits(0, b);
        } else {
            lemma_low_bits((dp_bits as int - 32 * l) as u32, b);
        }
    }
}

/// How many of the bits `0..n` of an eight-limb value are set.
pub open spec fn count_bits_below(m: Seq<u32>, n: nat) -> nat
    decreases n,
{
    if n == 0 {
        0
    } else {
        count_bits_below(m, (n - 1) as nat) + if limbs_bit(m, n - 1) {
            1nat
        } else {
            0nat
        }
    }
}

/// A DP mask built for `dp_bits <= 256` has exactly `dp_bits` of its 256
/// bits set.
pub proof fn lemma_dp_mask_popcount(dp_bits: u32)
    requires
        dp_bits <= 256,
    ensures
        count_bits_below(dp_mask_spec(dp_bits), 256) == dp_bits,
{
    lemma_dp_mask_shape(dp_bits);
    lemma_count_prefix(dp_bits, 256);
}

proof fn lemma_count_prefix(dp_bits: u32, n: nat)
    requires
        dp_bits <= 256,
        n <= 256,
        forall|j: int| 0 <= j < 256 ==> (#[trigger] limbs_bit(dp_mask_spec(dp_bits), j) <==> j < dp_bits),
    ensures
        count_bits_below(dp_mask_spec(dp_bits), n) == if n < dp_bits {
            n
        } else {
            dp_bits as nat
        },
    decreases n,
{
    if n > 0 {
        lemma_count_prefix(dp_bits, (n - 1) as nat);
        assert(limbs_bit(dp_mask_spec(dp_bits), n - 1) <==> n - 1 < dp_bits);
    }
}

/// Create a DP mask with the `dp_bits` low bits set, as little-endian limbs.
pub fn create_dp_mask(dp_bits: u32) -> (mask: [u32; 8])
    ensures
        mask@ == dp_mask_spec(dp_bits),
{
    let mut mask = [0u32; 8];
    let full_limbs = (dp_bits / 32) as usize;
    let remaining_bits = dp_bits % 32;
    let n = if full_limbs < 8 { full_limbs } else { 8 };
    let mut i: usize = 0;
    while i < n
        invariant
            n <= 8,
            n == if full_limbs < 8 { full_limbs } else { 8usize },
            full_limbs == dp_bits / 32,
            i <= n,
            forall|l: int| 0 <= l < i ==> #[trigger] mask[l] == 0xFFFF_FFFFu32,
            forall|l: int| i <= l < 8 ==> #[trigger] mask[l] == 0u32,
        decreases n - i,
    {
        mask[i] = 0xFFFF_FFFF;
        i = i + 1;
    }
    if remaining_bits > 0 && full_limbs < 8 {
        assert(1u32 << remaining_bits >= 1u32) by (bit_vector)
            requires
                remaining_bits < 32u32,
        ;
        mask[full_limbs] = (1u32 << remaining_bits) - 1;
    }
    assert(mask@ =~= dp_mask_spec(dp_bits));
    mask
}

} // verus!
