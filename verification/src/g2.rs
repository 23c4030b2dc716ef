//! The second curve group, G2, whose points have coordinates in the
//! quadratic extension of the base field.
//!
//! G2 is a group of prime order with a fixed generator `G`, so each of its
//! elements is `k * G` for exactly one number `k` below the order: the
//! element's index. A [`G2Element`] holds the uncompressed encoding of a point
//! and stands in contracts for its index, in which the group law is addition
//! modulo the order. The curve arithmetic is done by the `bls12_381` crate;
//! what this module believes of it is stated on the private functions at its
//! end.

use crate::error::{to_fixed, EngineError, GenericError};
use crate::field::{
    field_add, field_mul, field_order, field_sub, le_value, sum_of_indices,
};
use crate::scalar::Scalar;
use vstd::prelude::*;

verus! {

/// The length of a compressed G2 encoding.
pub const G2_COMPRESSED_SIZE: usize = 96;

/// The length of an uncompressed G2 encoding.
pub const G2_UNCOMPRESSED_SIZE: usize = 192;

/// What `G2Affine::from_uncompressed` of `bls12_381` makes of 192 bytes: the
/// index of the point that it decodes, or nothing where it refuses them.
pub uninterp spec fn g2_uncompressed_point(bytes: Seq<u8>) -> Option<nat>;

/// What `G2Affine::from_compressed` of `bls12_381` makes of 96 bytes: the
/// index of the point that it decodes, or nothing where it refuses them.
pub uninterp spec fn g2_compressed_point(bytes: Seq<u8>) -> Option<nat>;

/// The index of the point that `G2Projective::random` of `bls12_381` draws
/// from a ChaCha20 generator seeded with `seed`.
pub uninterp spec fn g2_seeded_point(seed: Seq<u8>) -> nat;

/// An element of G2.
#[derive(Clone, Copy, Debug, PartialEq, Eq)]
pub struct G2Element {
    bytes: [u8; 192],
}

impl View for G2Element {
    type V = nat;

    /// The index of the element.
    closed spec fn view(&self) -> nat {
        g2_uncompressed_point(self.bytes@).unwrap()
    }
}

impl G2Element {
    #[verifier::type_invariant]
    spec fn in_group(self) -> bool {
        g2_uncompressed_point(self.bytes@) matches Some(index) && index < field_order()
    }

    /// The uncompressed encoding of the element.
    pub closed spec fn encoding(self) -> Seq<u8> {
        self.bytes@
    }

    /// The indices of a sequence of elements.
    pub open spec fn indices(elements: Seq<G2Element>) -> Seq<nat> {
        elements.map_values(|e: G2Element| e@)
    }

    /// The identity of the group: the point at infinity.
    pub fn identity() -> (e: G2Element)
        ensures
            e@ == 0,
    {
        G2Element { bytes: g2_identity_bytes() }
    }

    /// Decodes an uncompressed encoding, which must spell a point on the
    /// curve and in the subgroup.
    pub fn from_uncompressed(bytes: &[u8; 192]) -> (r: Result<G2Element, EngineError>)
        ensures
            r is Ok <==> g2_uncompressed_point(bytes@) is Some,
            r matches Ok(e) ==> Some(e@) == g2_uncompressed_point(bytes@) && e.encoding()
                == bytes@,
            r matches Err(e) ==> e == EngineError::InvalidEncoding,
    {
        if g2_is_uncompressed(bytes) {
            Ok(G2Element { bytes: *bytes })
        } else {
            Err(EngineError::InvalidEncoding)
        }
    }

    /// Decodes a compressed encoding, which must spell a point on the curve
    /// and in the subgroup.
    pub fn from_compressed(bytes: &[u8; 96]) -> (r: Result<G2Element, EngineError>)
        ensures
            r is Ok <==> g2_compressed_point(bytes@) is Some,
            r matches Ok(e) ==> Some(e@) == g2_compressed_point(bytes@),
            r matches Err(e) ==> e == EngineError::InvalidEncoding,
    {
        match g2_decompress(bytes) {
            Some(uncompressed) => Ok(G2Element { bytes: uncompressed }),
            None => Err(EngineError::InvalidEncoding),
        }
    }

    /// What a byte string of any length decodes to, in the form that
    /// `compressed` names: the index of its point, or nothing.
    pub open spec fn decoded(bytes: Seq<u8>, compressed: bool) -> Option<nat> {
        if compressed {
            if bytes.len() == 96 {
                g2_compressed_point(bytes)
            } else {
                None
            }
        } else {
            if bytes.len() == 192 {
                g2_uncompressed_point(bytes)
            } else {
                None
            }
        }
    }

    /// The length of an encoding in the form that `compressed` names.
    pub open spec fn encoded_size(compressed: bool) -> usize {
        if compressed {
            G2_COMPRESSED_SIZE
        } else {
            G2_UNCOMPRESSED_SIZE
        }
    }

    /// Decodes a byte string of any length in the form that `compressed`
    /// names. One of another length than the form has is reported with its
    /// length; one of that length which spells no element, as an input of
    /// the expected length.
    pub fn from_encoding(bytes: &[u8], compressed: bool) -> (r: Result<G2Element, GenericError>)
        ensures
            r is Ok <==> Self::decoded(bytes@, compressed) is Some,
            r matches Ok(e) ==> Some(e@) == Self::decoded(bytes@, compressed),
            r matches Err(e) ==> e == (if bytes@.len() != Self::encoded_size(compressed) {
                GenericError::TryInto(bytes.len())
            } else {
                GenericError::InputLength(Self::encoded_size(compressed))
            }),
    {
        if compressed {
            match to_fixed::<96>(bytes) {
                Err(e) => Err(e),
                Ok(array) => match G2Element::from_compressed(&array) {
                    Ok(e) => Ok(e),
                    Err(_) => Err(GenericError::InputLength(G2_COMPRESSED_SIZE)),
                },
            }
        } else {
            match to_fixed::<192>(bytes) {
                Err(e) => Err(e),
                Ok(array) => match G2Element::from_uncompressed(&array) {
                    Ok(e) => Ok(e),
                    Err(_) => Err(GenericError::InputLength(G2_UNCOMPRESSED_SIZE)),
                },
            }
        }
    }

    /// Whether a byte string is an encoding of an element, in the form that
    /// `compressed` names. Every failure to decode gives `false`.
    pub fn check_validity(bytes: &[u8], compressed: bool) -> (valid: bool)
        ensures
            valid == Self::decoded(bytes@, compressed).is_some(),
    {
        G2Element::from_encoding(bytes, compressed).is_ok()
    }

    /// The uncompressed encoding, which `from_uncompressed` decodes to the
    /// element again.
    pub fn to_uncompressed(&self) -> (bytes: [u8; 192])
        ensures
            bytes@ == self.encoding(),
            g2_uncompressed_point(bytes@) == Some(self@),
            self@ < field_order(),
    {
        proof {
            use_type_invariant(self);
        }
        self.bytes
    }

    /// The compressed encoding, which `from_compressed` decodes to the
    /// element again.
    pub fn to_compressed(&self) -> (bytes: [u8; 96])
        ensures
            g2_compressed_point(bytes@) == Some(self@),
    {
        proof {
            use_type_invariant(self);
        }
        g2_compress(&self.bytes)
    }

    /// Whether two elements are the same point, however each was made.
    pub fn equals(&self, other: &G2Element) -> (same: bool)
        ensures
            same == (self@ == other@),
    {
        proof {
            use_type_invariant(self);
            use_type_invariant(other);
        }
        g2_same(&self.bytes, &other.bytes)
    }

    /// The sum of two elements.
    pub fn add(&self, other: &G2Element) -> (e: G2Element)
        ensures
            e@ == field_add(self@, other@),
    {
        proof {
            use_type_invariant(self);
            use_type_invariant(other);
        }
        G2Element { bytes: g2_sum(&self.bytes, &other.bytes) }
    }

    /// The difference of two elements.
    pub fn subtract(&self, other: &G2Element) -> (e: G2Element)
        ensures
            e@ == field_sub(self@, other@),
    {
        proof {
            use_type_invariant(self);
            use_type_invariant(other);
        }
        G2Element { bytes: g2_difference(&self.bytes, &other.bytes) }
    }

    /// The element added to itself as often as the scalar says.
    pub fn scalar_multiply(&self, scalar: &Scalar) -> (e: G2Element)
        ensures
            e@ == field_mul(self@, scalar@),
    {
        proof {
            use_type_invariant(self);
        }
        let factor = scalar.to_bytes();
        G2Element { bytes: g2_scaled(&self.bytes, &factor) }
    }

    /// The sum of a batch of elements, added one after the other to the
    /// identity, the first one first. An empty batch is an error.
    pub fn batch_multiply(elements: &[G2Element]) -> (r: Result<G2Element, EngineError>)
        ensures
            r is Err <==> elements@.len() == 0,
            r matches Ok(e) ==> e@ == sum_of_indices(Self::indices(elements@)),
            r matches Err(e) ==> e == EngineError::EmptyBatch,
    {
        if elements.len() < 1 {
            return Err(EngineError::EmptyBatch);
        }
        let ghost indices = Self::indices(elements@);
        let mut product = G2Element::identity();
        let mut i: usize = 0;
        assert(indices.take(0) =~= Seq::<nat>::empty());
        while i < elements.len()
            invariant
                i <= elements.len(),
                indices == Self::indices(elements@),
                product@ == sum_of_indices(indices.take(i as int)),
            decreases elements.len() - i,
        {
            product = product.add(&elements[i]);
            proof {
                let next = indices.take(i + 1);
                assert(next.drop_last() =~= indices.take(i as int));
                assert(next.last() == elements@[i as int]@);
            }
            i += 1;
        }
        assert(indices.take(i as int) =~= indices);
        Ok(product)
    }

    /// The element that a seed stands for: the same for the same seed, in
    /// every call.
    pub fn random_element(seed: &[u8; 32]) -> (e: G2Element)
        ensures
            e@ == g2_seeded_point(seed@),
    {
        G2Element { bytes: g2_from_seed(seed) }
    }
}

/// Whether two byte strings, each in the form that its flag names, are
/// encodings of the same element; false where either is no encoding at all.
pub fn encoded_g2_elements_equal(
    first: &[u8],
    first_compressed: bool,
    second: &[u8],
    second_compressed: bool,
) -> (same: bool)
    ensures
        same == (G2Element::decoded(first@, first_compressed) is Some && G2Element::decoded(
            first@,
            first_compressed,
        ) == G2Element::decoded(second@, second_compressed)),
{
    match G2Element::from_encoding(first, first_compressed) {
        Err(_) => false,
        Ok(a) => match G2Element::from_encoding(second, second_compressed) {
            Err(_) => false,
            Ok(b) => a.equals(&b),
        },
    }
}

/// `G2Affine::from_uncompressed`: whether it accepts the bytes. Every point
/// that it yields lies in the subgroup, so its index is below the order.
#[verifier::external_body]
fn g2_is_uncompressed(bytes: &[u8; 192]) -> (ok: bool)
    ensures
        ok == g2_uncompressed_point(bytes@).is_some(),
        ok ==> g2_uncompressed_point(bytes@).unwrap() < field_order(),
{
    bool::from(bls12_381::G2Affine::from_uncompressed(bytes).is_some())
}

/// `G2Affine::from_compressed`, and `to_uncompressed` of the point that it
/// yields: the uncompressed bytes decode to the same point.
#[verifier::external_body]
fn g2_decompress(bytes: &[u8; 96]) -> (r: Option<[u8; 192]>)
    ensures
        r is Some <==> g2_compressed_point(bytes@) is Some,
        r matches Some(uncompressed) ==> g2_uncompressed_point(uncompressed@)
            == g2_compressed_point(bytes@) && g2_compressed_point(bytes@).unwrap()
            < field_order(),
{
    let point: Option<bls12_381::G2Affine> = bls12_381::G2Affine::from_compressed(bytes).into();
    match point {
        Some(p) => Some(p.to_uncompressed()),
        None => None,
    }
}

/// `G2Affine::to_compressed`: the compressed bytes decode to the same point.
#[verifier::external_body]
fn g2_compress(bytes: &[u8; 192]) -> (compressed: [u8; 96])
    requires
        g2_uncompressed_point(bytes@) is Some,
    ensures
        g2_compressed_point(compressed@) == g2_uncompressed_point(bytes@),
{
    bls12_381::G2Affine::from_uncompressed(bytes).unwrap().to_compressed()
}

/// `G2Affine::default`, the identity, encoded by `to_uncompressed`: the point
/// of index zero.
#[verifier::external_body]
fn g2_identity_bytes() -> (bytes: [u8; 192])
    ensures
        g2_uncompressed_point(bytes@) == Some(0nat),
{
    bls12_381::G2Affine::default().to_uncompressed()
}

/// `==` of `G2Affine`: whether two points are the same.
#[verifier::external_body]
fn g2_same(a: &[u8; 192], b: &[u8; 192]) -> (same: bool)
    requires
        g2_uncompressed_point(a@) is Some,
        g2_uncompressed_point(b@) is Some,
    ensures
        same == (g2_uncompressed_point(a@) == g2_uncompressed_point(b@)),
{
    let p = bls12_381::G2Affine::from_uncompressed(a).unwrap();
    let q = bls12_381::G2Affine::from_uncompressed(b).unwrap();
    p == q
}

/// `+` of a `G2Affine` and a `G2Projective`: the group law, under which
/// indices add modulo the order.
#[verifier::external_body]
fn g2_sum(a: &[u8; 192], b: &[u8; 192]) -> (bytes: [u8; 192])
    requires
        g2_uncompressed_point(a@) is Some,
        g2_uncompressed_point(b@) is Some,
    ensures
        g2_uncompressed_point(bytes@) == Some(
            field_add(g2_uncompressed_point(a@).unwrap(), g2_uncompressed_point(b@).unwrap()),
        ),
{
    let p = bls12_381::G2Affine::from_uncompressed(a).unwrap();
    let q = bls12_381::G2Affine::from_uncompressed(b).unwrap();
    bls12_381::G2Affine::from(p + bls12_381::G2Projective::from(q)).to_uncompressed()
}

/// `-` of a `G2Affine` and a `G2Projective`: the inverse of the group law,
/// under which indices subtract modulo the order.
#[verifier::external_body]
fn g2_difference(a: &[u8; 192], b: &[u8; 192]) -> (bytes: [u8; 192])
    requires
        g2_uncompressed_point(a@) is Some,
        g2_uncompressed_point(b@) is Some,
    ensures
        g2_uncompressed_point(bytes@) == Some(
            field_sub(g2_uncompressed_point(a@).unwrap(), g2_uncompressed_point(b@).unwrap()),
        ),
{
    let p = bls12_381::G2Affine::from_uncompressed(a).unwrap();
    let q = bls12_381::G2Affine::from_uncompressed(b).unwrap();
    bls12_381::G2Affine::from(p - bls12_381::G2Projective::from(q)).to_uncompressed()
}

/// `*` of a `G2Affine` and a `Scalar`: the point added to itself as often as
/// the scalar says, so that the index is multiplied modulo the order.
#[verifier::external_body]
fn g2_scaled(a: &[u8; 192], scalar: &[u8; 32]) -> (bytes: [u8; 192])
    requires
        g2_uncompressed_point(a@) is Some,
        le_value(scalar@) < field_order(),
    ensures
        g2_uncompressed_point(bytes@) == Some(
            field_mul(g2_uncompressed_point(a@).unwrap(), le_value(scalar@)),
        ),
{
    let p = bls12_381::G2Affine::from_uncompressed(a).unwrap();
    let s = bls12_381::Scalar::from_bytes(scalar).unwrap();
    bls12_381::G2Affine::from(p * s).to_uncompressed()
}

/// `G2Projective::random` on `ChaChaRng::from_seed`: a point of the subgroup
/// that depends on the seed alone.
#[verifier::external_body]
fn g2_from_seed(seed: &[u8; 32]) -> (bytes: [u8; 192])
    ensures
        g2_uncompressed_point(bytes@) == Some(g2_seeded_point(seed@)),
        g2_uncompressed_point(bytes@).unwrap() < field_order(),
{
    let rng = <rand_chacha::ChaChaRng as rand_core::SeedableRng>::from_seed(*seed);
    let point = <bls12_381::G2Projective as group::Group>::random(rng);
    bls12_381::G2Affine::from(point).to_uncompressed()
}

} // verus!
