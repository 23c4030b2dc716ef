//! The scalar field: the integers modulo the prime order of the groups.
//!
//! A [`Scalar`] holds the canonical encoding of a field element, 32 bytes in
//! little-endian order, and stands in contracts for the number that they
//! spell. The arithmetic itself is done by the `bls12_381` crate; what this
//! module believes of it is stated on the private functions at its end.

use crate::bigint::bytes_to_big_int;
use crate::error::{to_fixed, EngineError, GenericError};
use crate::field::{
    be_value, field_add, field_mul, field_order, field_pow, field_sub, is_field_inverse,
    le_value, lemma_field_pow_in_range, lemma_le_value_zero_bytes, limbs_value, zero_bytes,
};
use vstd::prelude::*;

verus! {

/// The length of a scalar's canonical encoding.
pub const SCALAR_SIZE: usize = 32;

/// The field element that `Scalar::random` of `bls12_381` draws from a
/// ChaCha20 generator seeded with `seed`.
pub uninterp spec fn seeded_scalar(seed: Seq<u8>) -> nat;

/// An element of the scalar field.
#[derive(Clone, Copy, Debug, PartialEq, Eq)]
pub struct Scalar {
    bytes: [u8; 32],
}

impl View for Scalar {
    type V = nat;

    /// The number that the scalar stands for.
    closed spec fn view(&self) -> nat {
        le_value(self.bytes@)
    }
}

impl Scalar {
    #[verifier::type_invariant]
    spec fn canonical(self) -> bool {
        le_value(self.bytes@) < field_order()
    }

    /// The canonical encoding: 32 bytes that spell the number little-endian.
    pub closed spec fn encoding(self) -> Seq<u8> {
        self.bytes@
    }

    /// Decodes a canonical encoding. Bytes that spell a number at or above
    /// the field order are refused.
    pub fn from_canonical_bytes(bytes: &[u8; 32]) -> (r: Result<Scalar, EngineError>)
        ensures
            r is Ok <==> le_value(bytes@) < field_order(),
            r matches Ok(s) ==> s@ == le_value(bytes@) && s.encoding() == bytes@,
            r matches Err(e) ==> e == EngineError::InvalidEncoding,
    {
        if is_canonical(bytes) {
            Ok(Scalar { bytes: *bytes })
        } else {
            Err(EngineError::InvalidEncoding)
        }
    }

    /// Decodes a byte string of any length: one that is not of 32 bytes is
    /// reported with its length, one of 32 bytes that is not canonical as an
    /// input of the expected length 32.
    pub fn from_encoding(bytes: &[u8]) -> (r: Result<Scalar, GenericError>)
        ensures
            r is Ok <==> bytes@.len() == 32 && le_value(bytes@) < field_order(),
            r matches Ok(s) ==> s@ == le_value(bytes@) && s.encoding() == bytes@,
            r matches Err(e) ==> e == (if bytes@.len() != 32 {
                GenericError::TryInto(bytes.len())
            } else {
                GenericError::InputLength(SCALAR_SIZE)
            }),
    {
        match to_fixed::<32>(bytes) {
            Err(e) => Err(e),
            Ok(array) => match Scalar::from_canonical_bytes(&array) {
                Ok(s) => Ok(s),
                Err(_) => Err(GenericError::InputLength(SCALAR_SIZE)),
            },
        }
    }

    /// Whether a byte string is the canonical encoding of a scalar.
    pub fn check_validity(bytes: &[u8]) -> (valid: bool)
        ensures
            valid == (bytes@.len() == 32 && le_value(bytes@) < field_order()),
    {
        Scalar::from_encoding(bytes).is_ok()
    }

    /// The canonical encoding of the scalar.
    pub fn to_bytes(&self) -> (bytes: [u8; 32])
        ensures
            bytes@ == self.encoding(),
            le_value(bytes@) == self@,
            self@ < field_order(),
    {
        proof {
            use_type_invariant(self);
        }
        self.bytes
    }

    /// The scalar of a 64-bit number.
    pub fn from_integer(value: u64) -> (s: Scalar)
        ensures
            s@ == value,
    {
        Scalar { bytes: scalar_of_u64(value) }
    }

    /// The additive identity.
    pub fn zero() -> (s: Scalar)
        ensures
            s@ == 0,
    {
        let bytes: [u8; 32] = [0u8; 32];
        proof {
            assert(bytes@ =~= zero_bytes(32));
            lemma_le_value_zero_bytes(32);
        }
        Scalar { bytes }
    }

    /// The multiplicative identity.
    pub fn one() -> (s: Scalar)
        ensures
            s@ == 1,
    {
        let mut bytes: [u8; 32] = [0u8; 32];
        bytes[0] = 1u8;
        proof {
            assert(bytes@.drop_first() =~= zero_bytes(31));
            lemma_le_value_zero_bytes(31);
        }
        Scalar { bytes }
    }

    /// The sum of two scalars.
    pub fn add(&self, other: &Scalar) -> (s: Scalar)
        ensures
            s@ == field_add(self@, other@),
    {
        proof {
            use_type_invariant(self);
            use_type_invariant(other);
        }
        Scalar { bytes: scalar_sum(&self.bytes, &other.bytes) }
    }

    /// The difference of two scalars.
    pub fn subtract(&self, other: &Scalar) -> (s: Scalar)
        ensures
            s@ == field_sub(self@, other@),
    {
        proof {
            use_type_invariant(self);
            use_type_invariant(other);
        }
        Scalar { bytes: scalar_difference(&self.bytes, &other.bytes) }
    }

    /// The product of two scalars.
    pub fn multiply(&self, other: &Scalar) -> (s: Scalar)
        ensures
            s@ == field_mul(self@, other@),
    {
        proof {
            use_type_invariant(self);
            use_type_invariant(other);
        }
        Scalar { bytes: scalar_product(&self.bytes, &other.bytes) }
    }

    /// The multiplicative inverse, which every scalar but zero has.
    pub fn invert(&self) -> (r: Result<Scalar, EngineError>)
        ensures
            r is Err <==> self@ == 0,
            r matches Ok(inverse) ==> is_field_inverse(self@, inverse@),
            r matches Err(e) ==> e == EngineError::DivisionByZero,
    {
        proof {
            use_type_invariant(self);
        }
        match scalar_inverse(&self.bytes) {
            Some(bytes) => Ok(Scalar { bytes }),
            None => Err(EngineError::DivisionByZero),
        }
    }

    /// The quotient of two scalars: the first times the inverse of the
    /// second, which must not be zero.
    pub fn divide(&self, other: &Scalar) -> (r: Result<Scalar, EngineError>)
        ensures
            r is Err <==> other@ == 0,
            r matches Ok(quotient) ==> is_field_quotient(self@, other@, quotient@),
            r matches Err(e) ==> e == EngineError::DivisionByZero,
    {
        match other.invert() {
            Ok(inverse) => Ok(self.multiply(&inverse)),
            Err(e) => Err(e),
        }
    }

    /// The scalar raised to an exponent of four 64-bit limbs, least
    /// significant first. The exponent is a plain number of up to 256 bits
    /// and is not reduced modulo the field order.
    pub fn power(&self, exponent: &[u64; 4]) -> (s: Scalar)
        ensures
            s@ == field_pow(self@, limbs_value(exponent@)),
    {
        proof {
            use_type_invariant(self);
            lemma_field_pow_in_range(self@, limbs_value(exponent@));
        }
        Scalar { bytes: scalar_power(&self.bytes, exponent) }
    }

    /// The scalar raised to an exponent that is given as a big-endian byte
    /// string of at most 32 bytes.
    pub fn power_of_bytes(&self, exponent: &[u8]) -> (r: Result<Scalar, EngineError>)
        ensures
            r is Err <==> exponent@.len() > 32,
            r matches Ok(s) ==> s@ == field_pow(self@, be_value(exponent@)),
            r matches Err(e) ==> e == EngineError::InputTooLarge,
    {
        match bytes_to_big_int(exponent) {
            Ok(limbs) => Ok(self.power(&limbs)),
            Err(e) => Err(e),
        }
    }

    /// Whether two scalars are the same field element.
    pub fn equals(&self, other: &Scalar) -> (same: bool)
        ensures
            same == (self@ == other@),
    {
        proof {
            use_type_invariant(self);
            use_type_invariant(other);
        }
        scalar_same(&self.bytes, &other.bytes)
    }

    /// The scalar that a seed stands for: the same for the same seed, in every
    /// call.
    pub fn from_seed(seed: &[u8; 32]) -> (s: Scalar)
        ensures
            s@ == seeded_scalar(seed@),
    {
        Scalar { bytes: scalar_from_seed(seed) }
    }
}

/// `quotient` is `a` times the inverse of `b`.
pub open spec fn is_field_quotient(a: nat, b: nat, quotient: nat) -> bool {
    exists|inverse: nat| is_field_inverse(b, inverse) && quotient == field_mul(a, inverse)
}

/// Whether two byte strings are encodings of the same scalar; false where
/// either is no encoding at all.
pub fn encoded_scalars_equal(first: &[u8], second: &[u8]) -> (same: bool)
    ensures
        same == (first@.len() == 32 && second@.len() == 32 && le_value(first@) < field_order()
            && le_value(first@) == le_value(second@)),
{
    match Scalar::from_encoding(first) {
        Err(_) => false,
        Ok(a) => match Scalar::from_encoding(second) {
            Err(_) => false,
            Ok(b) => a.equals(&b),
        },
    }
}

/// `bls12_381::Scalar::from_bytes`: it accepts 32 little-endian bytes exactly
/// when the number that they spell is below the field order.
#[verifier::external_body]
fn is_canonical(bytes: &[u8; 32]) -> (ok: bool)
    ensures
        ok == (le_value(bytes@) < field_order()),
{
    bool::from(bls12_381::Scalar::from_bytes(bytes).is_some())
}

/// `bls12_381::Scalar::from` of a `u64`, encoded by `to_bytes`: the bytes
/// spell the number.
#[verifier::external_body]
fn scalar_of_u64(value: u64) -> (bytes: [u8; 32])
    ensures
        le_value(bytes@) == value,
        le_value(bytes@) < field_order(),
{
    bls12_381::Scalar::from(value).to_bytes()
}

/// `+` of `bls12_381::Scalar`: addition modulo the field order.
#[verifier::external_body]
fn scalar_sum(a: &[u8; 32], b: &[u8; 32]) -> (bytes: [u8; 32])
    requires
        le_value(a@) < field_order(),
        le_value(b@) < field_order(),
    ensures
        le_value(bytes@) == field_add(le_value(a@), le_value(b@)),
        le_value(bytes@) < field_order(),
{
    let x = bls12_381::Scalar::from_bytes(a).unwrap();
    let y = bls12_381::Scalar::from_bytes(b).unwrap();
    (x + y).to_bytes()
}

/// `-` of `bls12_381::Scalar`: subtraction modulo the field order.
#[verifier::external_body]
fn scalar_difference(a: &[u8; 32], b: &[u8; 32]) -> (bytes: [u8; 32])
    requires
        le_value(a@) < field_order(),
        le_value(b@) < field_order(),
    ensures
        le_value(bytes@) == field_sub(le_value(a@), le_value(b@)),
        le_value(bytes@) < field_order(),
{
    let x = bls12_381::Scalar::from_bytes(a).unwrap();
    let y = bls12_381::Scalar::from_bytes(b).unwrap();
    (x - y).to_bytes()
}

/// `*` of `bls12_381::Scalar`: multiplication modulo the field order.
#[verifier::external_body]
fn scalar_product(a: &[u8; 32], b: &[u8; 32]) -> (bytes: [u8; 32])
    requires
        le_value(a@) < field_order(),
        le_value(b@) < field_order(),
    ensures
        le_value(bytes@) == field_mul(le_value(a@), le_value(b@)),
        le_value(bytes@) < field_order(),
{
    let x = bls12_381::Scalar::from_bytes(a).unwrap();
    let y = bls12_381::Scalar::from_bytes(b).unwrap();
    (x * y).to_bytes()
}

/// `bls12_381::Scalar::invert`: it fails on zero alone, and what it yields
/// otherwise gives one when multiplied with the argument.
#[verifier::external_body]
fn scalar_inverse(a: &[u8; 32]) -> (r: Option<[u8; 32]>)
    requires
        le_value(a@) < field_order(),
    ensures
        r is None <==> le_value(a@) == 0,
        r matches Some(bytes) ==> is_field_inverse(le_value(a@), le_value(bytes@)),
{
    let x = bls12_381::Scalar::from_bytes(a).unwrap();
    let inverse: Option<bls12_381::Scalar> = x.invert().into();
    match inverse {
        Some(y) => Some(y.to_bytes()),
        None => None,
    }
}

/// `bls12_381::Scalar::pow`: the base multiplied with itself as often as the
/// exponent says, a number of four little-endian limbs taken as it is.
#[verifier::external_body]
fn scalar_power(base: &[u8; 32], exponent: &[u64; 4]) -> (bytes: [u8; 32])
    requires
        le_value(base@) < field_order(),
    ensures
        le_value(bytes@) == field_pow(le_value(base@), limbs_value(exponent@)),
        le_value(bytes@) < field_order(),
{
    bls12_381::Scalar::from_bytes(base).unwrap().pow(exponent).to_bytes()
}

/// `==` of `bls12_381::Scalar`: whether two scalars are the same field
/// element.
#[verifier::external_body]
fn scalar_same(a: &[u8; 32], b: &[u8; 32]) -> (same: bool)
    requires
        le_value(a@) < field_order(),
        le_value(b@) < field_order(),
    ensures
        same == (le_value(a@) == le_value(b@)),
{
    bls12_381::Scalar::from_bytes(a).unwrap() == bls12_381::Scalar::from_bytes(b).unwrap()
}

/// `Scalar::random` of `bls12_381` on `ChaChaRng::from_seed`: a field element
/// that depends on the seed alone.
#[verifier::external_body]
fn scalar_from_seed(seed: &[u8; 32]) -> (bytes: [u8; 32])
    ensures
        le_value(bytes@) == seeded_scalar(seed@),
        le_value(bytes@) < field_order(),
{
    let rng = <rand_chacha::ChaChaRng as rand_core::SeedableRng>::from_seed(*seed);
    <bls12_381::Scalar as ff::Field>::random(rng).to_bytes()
}

} // verus!
