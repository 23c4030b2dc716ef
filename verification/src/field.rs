//! The arithmetic that every contract of this crate is stated over: numbers
//! below the prime order of the scalar field, and the numbers that byte
//! strings and 64-bit limbs spell.

use vstd::arithmetic::div_mod::{lemma_mul_mod_noop_general, lemma_small_mod};
use vstd::arithmetic::mul::{lemma_mul_is_associative, lemma_mul_is_commutative};
use vstd::prelude::*;

verus! {

/// The order of the scalar field: the 255-bit prime that is also the order of
/// the two curve groups and of the pairing's target group.
pub open spec fn field_order() -> nat {
    0x73eda753299d7d483339d80809a1d80553bda402fffe5bfeffffffff00000001nat
}

/// Sum of two field elements.
pub open spec fn field_add(a: nat, b: nat) -> nat {
    (a + b) % field_order()
}

/// Difference of two field elements, each below the order.
pub open spec fn field_sub(a: nat, b: nat) -> nat {
    ((a + field_order() - b) % (field_order() as int)) as nat
}

/// Product of two field elements.
pub open spec fn field_mul(a: nat, b: nat) -> nat {
    (a * b) % field_order()
}

/// The additive inverse of a field element below the order.
pub open spec fn field_neg(a: nat) -> nat {
    field_sub(0, a)
}

/// `base` multiplied with itself `exponent` times, in the field. The exponent
/// is a plain number, not a field element: it is never reduced.
pub open spec fn field_pow(base: nat, exponent: nat) -> nat
    decreases exponent,
{
    if exponent == 0 {
        1
    } else {
        field_mul(base, field_pow(base, (exponent - 1) as nat))
    }
}

/// `inverse` is the multiplicative inverse of `a` in the field.
pub open spec fn is_field_inverse(a: nat, inverse: nat) -> bool {
    inverse < field_order() && field_mul(a, inverse) == 1
}

/// The index of the sum of the group elements of the given indices, added
/// one after the other to the identity, the first one first.
pub open spec fn sum_of_indices(indices: Seq<nat>) -> nat
    decreases indices.len(),
{
    if indices.len() == 0 {
        0
    } else {
        field_add(sum_of_indices(indices.drop_last()), indices.last())
    }
}

/// 256 to the power `n`: the weight of the byte at place `n`.
pub open spec fn byte_weight(n: nat) -> nat
    decreases n,
{
    if n == 0 {
        1
    } else {
        256 * byte_weight((n - 1) as nat)
    }
}

/// The number that a byte sequence spells in little-endian order.
pub open spec fn le_value(bytes: Seq<u8>) -> nat
    decreases bytes.len(),
{
    if bytes.len() == 0 {
        0
    } else {
        bytes[0] as nat + 256 * le_value(bytes.drop_first())
    }
}

/// The number that a byte sequence spells in big-endian order.
pub open spec fn be_value(bytes: Seq<u8>) -> nat
    decreases bytes.len(),
{
    if bytes.len() == 0 {
        0
    } else {
        256 * be_value(bytes.drop_last()) + bytes.last() as nat
    }
}

/// The number that a sequence of 64-bit limbs spells, least significant limb
/// first.
pub open spec fn limbs_value(limbs: Seq<u64>) -> nat
    decreases limbs.len(),
{
    if limbs.len() == 0 {
        0
    } else {
        limbs[0] as nat + 0x1_0000_0000_0000_0000 * limbs_value(limbs.drop_first())
    }
}

/// A sequence of `n` zero bytes.
pub open spec fn zero_bytes(n: nat) -> Seq<u8> {
    Seq::new(n, |i: int| 0u8)
}

/// A power in the field is below the order.
pub proof fn lemma_field_pow_in_range(base: nat, exponent: nat)
    ensures
        field_pow(base, exponent) < field_order(),
    decreases exponent,
{
    if exponent != 0 {
        let rest = field_pow(base, (exponent - 1) as nat);
        assert(field_mul(base, rest) < field_order()) by (nonlinear_arith)
            requires
                field_mul(base, rest) == (base * rest) % field_order(),
                field_order() > 0,
        ;
    }
}

/// A field element has at most one inverse.
pub proof fn lemma_field_inverse_unique(a: nat, x: nat, y: nat)
    requires
        is_field_inverse(a, x),
        is_field_inverse(a, y),
    ensures
        x == y,
{
    let m = field_order() as int;
    let (ai, xi, yi) = (a as int, x as int, y as int);
    // x = x * (a * y) = (x * a) * y = y, each step modulo the order
    lemma_mul_mod_noop_general(xi, ai * yi, m);
    lemma_mul_mod_noop_general(xi * ai, yi, m);
    lemma_mul_is_associative(xi, ai, yi);
    lemma_mul_is_commutative(xi, ai);
    lemma_small_mod(x, field_order());
    lemma_small_mod(y, field_order());
    assert((ai * yi) % m == 1);
    assert((xi * ai) % m == 1);
    assert(1int % m == 1);
    assert((xi * 1) % m == xi % m);
    assert((1 * yi) % m == yi % m);
    assert(((xi % m) * ((ai * yi) % m)) % m == (xi * (ai * yi)) % m);
    assert((((xi * ai) % m) * (yi % m)) % m == ((xi * ai) * yi) % m);
}

/// Little-endian, what follows a prefix counts with the weight of the
/// prefix's length.
pub proof fn lemma_le_value_append(low: Seq<u8>, high: Seq<u8>)
    ensures
        le_value(low + high) == le_value(low) + byte_weight(low.len()) * le_value(high),
    decreases low.len(),
{
    if low.len() == 0 {
        assert(low + high =~= high);
        assert(byte_weight(0) == 1);
        assert(le_value(low) == 0);
        assert(1 * le_value(high) == le_value(high)) by (nonlinear_arith);
    } else {
        let rest = low.drop_first();
        lemma_le_value_append(rest, high);
        assert((low + high).drop_first() =~= rest + high);
        assert((low + high)[0] == low[0]);
        let (w, h) = (byte_weight(rest.len()), le_value(high));
        assert(byte_weight(low.len()) == 256 * w);
        assert(256 * (le_value(rest) + w * h) == 256 * le_value(rest) + (256 * w) * h)
            by (nonlinear_arith);
    }
}

/// Zero bytes spell zero.
pub proof fn lemma_le_value_zero_bytes(n: nat)
    ensures
        le_value(zero_bytes(n)) == 0,
    decreases n,
{
    if n != 0 {
        lemma_le_value_zero_bytes((n - 1) as nat);
        assert(zero_bytes(n).drop_first() =~= zero_bytes((n - 1) as nat));
    }
}

/// Read backwards, a big-endian number is the little-endian one.
pub proof fn lemma_le_value_of_reverse(bytes: Seq<u8>)
    ensures
        le_value(bytes.reverse()) == be_value(bytes),
    decreases bytes.len(),
{
    if bytes.len() != 0 {
        let init = bytes.drop_last();
        lemma_le_value_of_reverse(init);
        assert(bytes.reverse().drop_first() =~= init.reverse());
        assert(bytes.reverse()[0] == bytes.last());
    }
}

/// Two byte sequences of one length that spell the same number are equal.
pub proof fn lemma_le_value_injective(a: Seq<u8>, b: Seq<u8>)
    requires
        a.len() == b.len(),
        le_value(a) == le_value(b),
    ensures
        a == b,
    decreases a.len(),
{
    if a.len() != 0 {
        let (ra, rb) = (le_value(a.drop_first()), le_value(b.drop_first()));
        assert(a[0] == b[0] && ra == rb) by (nonlinear_arith)
            requires
                a[0] as nat + 256 * ra == b[0] as nat + 256 * rb,
                a[0] < 256,
                b[0] < 256,
        ;
        lemma_le_value_injective(a.drop_first(), b.drop_first());
        assert(a =~= seq![a[0]] + a.drop_first());
        assert(b =~= seq![b[0]] + b.drop_first());
    }
    assert(a =~= b);
}

/// Four limbs spell the sum of the limbs at their weights.
pub proof fn lemma_limbs_value_of_four(limbs: Seq<u64>)
    requires
        limbs.len() == 4,
    ensures
        limbs_value(limbs) == limbs[0] as nat + 0x1_0000_0000_0000_0000 * (limbs[1] as nat
            + 0x1_0000_0000_0000_0000 * (limbs[2] as nat + 0x1_0000_0000_0000_0000
            * limbs[3] as nat)),
{
    let l1 = limbs.drop_first();
    let l2 = l1.drop_first();
    let l3 = l2.drop_first();
    assert(limbs_value(l3.drop_first()) == 0);
    assert(limbs_value(l3) == l3[0] as nat + 0x1_0000_0000_0000_0000 * limbs_value(
        l3.drop_first(),
    ));
    assert(limbs_value(l2) == l2[0] as nat + 0x1_0000_0000_0000_0000 * limbs_value(l3));
    assert(limbs_value(l1) == l1[0] as nat + 0x1_0000_0000_0000_0000 * limbs_value(l2));
}

/// Two sequences of four limbs that spell the same number are equal.
pub proof fn lemma_limbs_value_injective(a: Seq<u64>, b: Seq<u64>)
    requires
        a.len() == 4,
        b.len() == 4,
        limbs_value(a) == limbs_value(b),
    ensures
        a == b,
{
    lemma_limbs_value_of_four(a);
    lemma_limbs_value_of_four(b);
    let (a0, a1, a2, a3) = (a[0] as int, a[1] as int, a[2] as int, a[3] as int);
    let (b0, b1, b2, b3) = (b[0] as int, b[1] as int, b[2] as int, b[3] as int);
    let (ra2, rb2) = (a2 + 0x1_0000_0000_0000_0000 * a3, b2 + 0x1_0000_0000_0000_0000 * b3);
    let (ra1, rb1) = (a1 + 0x1_0000_0000_0000_0000 * ra2, b1 + 0x1_0000_0000_0000_0000 * rb2);
    assert(a0 == b0 && ra1 == rb1) by (nonlinear_arith)
        requires
            a0 + 0x1_0000_0000_0000_0000 * ra1 == b0 + 0x1_0000_0000_0000_0000 * rb1,
            0 <= a0 < 0x1_0000_0000_0000_0000,
            0 <= b0 < 0x1_0000_0000_0000_0000,
    ;
    assert(a1 == b1 && ra2 == rb2) by (nonlinear_arith)
        requires
            a1 + 0x1_0000_0000_0000_0000 * ra2 == b1 + 0x1_0000_0000_0000_0000 * rb2,
            0 <= a1 < 0x1_0000_0000_0000_0000,
            0 <= b1 < 0x1_0000_0000_0000_0000,
    ;
    assert(a2 == b2 && a3 == b3) by (nonlinear_arith)
        requires
            a2 + 0x1_0000_0000_0000_0000 * a3 == b2 + 0x1_0000_0000_0000_0000 * b3,
            0 <= a2 < 0x1_0000_0000_0000_0000,
            0 <= b2 < 0x1_0000_0000_0000_0000,
    ;
    assert(a =~= b);
}

} // verus!
