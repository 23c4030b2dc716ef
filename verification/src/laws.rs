//! What holds of the engine's operations taken together. Each law is stated
//! over the numbers that the operations' contracts speak of: the value of a
//! scalar, and the index of a group element.

use crate::field::{
    field_add, field_mul, field_neg, field_order, field_sub, is_field_inverse, le_value,
    lemma_field_inverse_unique, lemma_le_value_injective, lemma_limbs_value_injective,
    limbs_value, sum_of_indices,
};
use crate::g1::{g1_compressed_point, g1_uncompressed_point};
use crate::g2::{g2_compressed_point, g2_uncompressed_point};
use crate::pairing::gt_power;
use crate::scalar::is_field_quotient;
use vstd::arithmetic::div_mod::{
    lemma_add_mod_noop_right, lemma_mod_self_0, lemma_mul_mod_noop_general, lemma_small_mod,
};
use vstd::prelude::*;

verus! {

/// A scalar has one canonical encoding: two strings of 32 bytes that spell the
/// same number are the same string. So `Scalar::to_bytes` is pinned by the
/// number of the scalar.
pub proof fn lemma_scalar_encoding_is_unique(first: Seq<u8>, second: Seq<u8>)
    requires
        first.len() == 32,
        second.len() == 32,
        le_value(first) == le_value(second),
    ensures
        first == second,
{
    lemma_le_value_injective(first, second);
}

/// A big integer has one form in four limbs. So `bytes_to_big_int` is pinned
/// by the number that its input spells.
pub proof fn lemma_big_int_limbs_are_unique(first: Seq<u64>, second: Seq<u64>)
    requires
        first.len() == 4,
        second.len() == 4,
        limbs_value(first) == limbs_value(second),
    ensures
        first == second,
{
    lemma_limbs_value_injective(first, second);
}

/// The sum that `Scalar::add` yields is the sum of the two numbers, reduced
/// modulo the field order.
pub proof fn lemma_scalar_add_is_sum_modulo_order(a: nat, b: nat)
    requires
        a < field_order(),
        b < field_order(),
    ensures
        field_add(a, b) == (a + b) % field_order(),
        field_add(a, b) == if a + b < field_order() {
            a + b
        } else {
            (a + b - field_order()) as nat
        },
{
    let m = field_order();
    if a + b < m {
        lemma_small_mod(a + b, m);
    } else {
        lemma_small_mod((a + b - m) as nat, m);
        vstd::arithmetic::div_mod::lemma_mod_add_multiples_vanish((a + b - m) as int, m as int);
    }
}

/// A scalar other than zero, multiplied with what `Scalar::invert` yields for
/// it, gives one; and no other scalar does so.
pub proof fn lemma_scalar_times_inverse_is_one(a: nat, inverse: nat, other: nat)
    requires
        a < field_order(),
        is_field_inverse(a, inverse),
    ensures
        a != 0,
        field_mul(a, inverse) == 1,
        field_mul(inverse, a) == 1,
        is_field_inverse(a, other) ==> other == inverse,
{
    if a == 0 {
        assert(a * inverse == 0) by (nonlinear_arith)
            requires
                a == 0,
        ;
        lemma_small_mod(0, field_order());
    }
    assert(a * inverse == inverse * a) by (nonlinear_arith);
    if is_field_inverse(a, other) {
        lemma_field_inverse_unique(a, inverse, other);
    }
}

/// What `Scalar::divide` yields, multiplied with the divisor, gives the
/// dividend again; and no other scalar does so.
pub proof fn lemma_scalar_quotient_times_divisor(a: nat, b: nat, quotient: nat, other: nat)
    requires
        a < field_order(),
        b < field_order(),
        is_field_quotient(a, b, quotient),
    ensures
        b != 0,
        field_mul(quotient, b) == a,
        is_field_quotient(a, b, other) ==> other == quotient,
{
    let m = field_order() as int;
    let inverse = choose|inverse: nat|
        is_field_inverse(b, inverse) && quotient == field_mul(a, inverse);
    lemma_scalar_times_inverse_is_one(b, inverse, inverse);
    let (ai, bi, vi) = (a as int, b as int, inverse as int);
    // (a * inverse) * b = a * (inverse * b) = a * 1, each step modulo the order
    lemma_mul_mod_noop_general(ai * vi, bi, m);
    lemma_mul_mod_noop_general(ai, vi * bi, m);
    assert((ai * vi) * bi == ai * (vi * bi)) by (nonlinear_arith);
    assert(ai * 1 == ai) by (nonlinear_arith);
    lemma_small_mod(a, field_order());
    lemma_small_mod(b, field_order());
    assert((vi * bi) % m == 1);
    assert((((ai * vi) % m) * (bi % m)) % m == ((ai * vi) * bi) % m);
    assert(((ai % m) * ((vi * bi) % m)) % m == (ai * (vi * bi)) % m);
    if is_field_quotient(a, b, other) {
        let second = choose|second: nat|
            is_field_inverse(b, second) && other == field_mul(a, second);
        lemma_field_inverse_unique(b, inverse, second);
    }
}

/// Round trip of G1: the bytes that `to_uncompressed` and `to_compressed`
/// yield for an element are accepted by `from_uncompressed` and
/// `from_compressed`, and decode to that element.
pub proof fn lemma_g1_round_trip(
    element: nat,
    uncompressed: Seq<u8>,
    compressed: Seq<u8>,
    decoded_uncompressed: Option<nat>,
    decoded_compressed: Option<nat>,
)
    requires
        // what `to_uncompressed` and `to_compressed` promise of their results
        g1_uncompressed_point(uncompressed) == Some(element),
        g1_compressed_point(compressed) == Some(element),
        // what `from_uncompressed` and `from_compressed` promise of theirs
        decoded_uncompressed is Some <==> g1_uncompressed_point(uncompressed) is Some,
        decoded_uncompressed is Some ==> decoded_uncompressed == g1_uncompressed_point(
            uncompressed,
        ),
        decoded_compressed is Some <==> g1_compressed_point(compressed) is Some,
        decoded_compressed is Some ==> decoded_compressed == g1_compressed_point(compressed),
    ensures
        decoded_uncompressed == Some(element),
        decoded_compressed == Some(element),
{
}

/// Round trip of G2: the bytes that `to_uncompressed` and `to_compressed`
/// yield for an element are accepted by `from_uncompressed` and
/// `from_compressed`, and decode to that element.
pub proof fn lemma_g2_round_trip(
    element: nat,
    uncompressed: Seq<u8>,
    compressed: Seq<u8>,
    decoded_uncompressed: Option<nat>,
    decoded_compressed: Option<nat>,
)
    requires
        g2_uncompressed_point(uncompressed) == Some(element),
        g2_compressed_point(compressed) == Some(element),
        decoded_uncompressed is Some <==> g2_uncompressed_point(uncompressed) is Some,
        decoded_uncompressed is Some ==> decoded_uncompressed == g2_uncompressed_point(
            uncompressed,
        ),
        decoded_compressed is Some <==> g2_compressed_point(compressed) is Some,
        decoded_compressed is Some ==> decoded_compressed == g2_compressed_point(compressed),
    ensures
        decoded_uncompressed == Some(element),
        decoded_compressed == Some(element),
{
}

/// The identity is neutral: an element added to the identity, on either
/// side, is the element. The identity has index zero.
pub proof fn lemma_add_identity(p: nat)
    requires
        p < field_order(),
    ensures
        field_add(p, 0) == p,
        field_add(0, p) == p,
{
    lemma_small_mod(p, field_order());
}

/// An element added to the difference of the identity and itself is the
/// identity.
pub proof fn lemma_add_negation(p: nat)
    requires
        p < field_order(),
    ensures
        field_add(p, field_sub(0, p)) == 0,
        field_sub(0, p) == field_neg(p),
        field_sub(p, p) == 0,
{
    let m = field_order();
    lemma_mod_self_0(m as int);
    if p != 0 {
        lemma_small_mod((m - p) as nat, m);
    }
}

/// An element multiplied by the scalar zero is the identity, and multiplied
/// by the scalar one it is the element.
pub proof fn lemma_scalar_multiply_zero_and_one(p: nat)
    requires
        p < field_order(),
    ensures
        field_mul(p, 0) == 0,
        field_mul(p, 1) == p,
{
    assert(p * 0 == 0) by (nonlinear_arith);
    assert(p * 1 == p) by (nonlinear_arith);
    lemma_small_mod(0, field_order());
    lemma_small_mod(p, field_order());
}

/// The sum of a batch is what adding its elements to the identity one after
/// the other yields: of no elements the identity, of one element that
/// element, and of a batch with one more element the sum of the batch with
/// that element added.
pub proof fn lemma_batch_is_fold_of_add(batch: Seq<nat>, next: nat)
    requires
        next < field_order(),
    ensures
        sum_of_indices(Seq::<nat>::empty()) == 0,
        sum_of_indices(seq![next]) == next,
        sum_of_indices(batch.push(next)) == field_add(sum_of_indices(batch), next),
{
    let single = seq![next];
    assert(single.len() == 1);
    assert(single.drop_last() =~= Seq::<nat>::empty());
    assert(sum_of_indices(single.drop_last()) == 0);
    assert(single.last() == next);
    assert(sum_of_indices(seq![next]) == field_add(0, next));
    lemma_add_identity(next);
    assert(batch.push(next).drop_last() =~= batch);
    assert(batch.push(next).last() == next);
}

/// The plain sum of a sequence of numbers.
pub open spec fn plain_sum(values: Seq<nat>) -> nat
    decreases values.len(),
{
    if values.len() == 0 {
        0
    } else {
        plain_sum(values.drop_last()) + values.last()
    }
}

/// The index of the sum of a batch is the sum of the indices, reduced modulo
/// the order once.
pub proof fn lemma_batch_is_sum_modulo_order(batch: Seq<nat>)
    ensures
        sum_of_indices(batch) == plain_sum(batch) % field_order(),
    decreases batch.len(),
{
    let m = field_order();
    if batch.len() == 0 {
        lemma_small_mod(0, m);
    } else {
        let rest = plain_sum(batch.drop_last());
        lemma_batch_is_sum_modulo_order(batch.drop_last());
        lemma_add_mod_noop_right(batch.last() as int, rest as int, m as int);
        assert(sum_of_indices(batch) == (rest % m + batch.last()) % m);
    }
}

/// The pairing is bilinear. With `P` and `Q` of indices `p` and `q`: the
/// pairing of `a * P` with `b * Q` is the pairing of `P` with `Q` taken
/// `a * b` times; and a scalar may move from one side of the pairing to the
/// other, or out of it.
pub proof fn lemma_pairing_bilinear(p: nat, q: nat, a: nat, b: nat)
    requires
        p < field_order(),
        q < field_order(),
        a < field_order(),
        b < field_order(),
    ensures
        field_mul(field_mul(p, a), field_mul(q, b)) == gt_power(
            field_mul(p, q),
            field_mul(a, b),
        ),
        field_mul(field_mul(p, a), q) == field_mul(p, field_mul(q, a)),
        field_mul(field_mul(p, a), q) == gt_power(field_mul(p, q), a),
{
    let m = field_order() as int;
    let (pi, qi, ai, bi) = (p as int, q as int, a as int, b as int);
    lemma_mul_mod_noop_general(pi * ai, qi * bi, m);
    lemma_mul_mod_noop_general(pi * qi, ai * bi, m);
    assert((pi * ai) * (qi * bi) == (pi * qi) * (ai * bi)) by (nonlinear_arith);
    lemma_mul_mod_noop_general(pi * ai, qi, m);
    lemma_mul_mod_noop_general(pi, qi * ai, m);
    lemma_mul_mod_noop_general(pi * qi, ai, m);
    assert((pi * ai) * qi == pi * (qi * ai)) by (nonlinear_arith);
    assert((pi * ai) * qi == (pi * qi) * ai) by (nonlinear_arith);
    lemma_small_mod(p, field_order());
    lemma_small_mod(q, field_order());
    lemma_small_mod(a, field_order());
}

} // verus!
