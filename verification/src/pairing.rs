//! The pairing of G1 and G2 into the target group GT.
//!
//! GT is a group of the same prime order as G1 and G2, generated by the
//! pairing of their two generators, so each of its elements has an index as
//! theirs have; it is written additively here, as the other two are. The
//! pairing is bilinear: the index of the pairing of two elements is the
//! product of their indices. A [`GtElement`] holds the display form of a
//! target-group element, the only form in which one leaves the engine, and
//! stands in contracts for its index. The pairing itself is computed by the
//! `bls12_381` crate; what this module believes of it is stated on the
//! private functions at its end.

use crate::error::EngineError;
use crate::field::{field_mul, field_order};
use crate::g1::{g1_uncompressed_point, G1Element};
use crate::g2::{g2_uncompressed_point, G2Element};
use vstd::prelude::*;

verus! {

/// The fixed width of the display form of a target-group element, in bytes.
pub const GT_DISPLAY_SIZE: usize = 1249;

/// The text in which `bls12_381` displays the target-group element of the
/// given index, as bytes.
pub uninterp spec fn gt_display(index: nat) -> Seq<u8>;

/// The index of the target-group element of index `base`, taken `exponent`
/// times.
pub open spec fn gt_power(base: nat, exponent: nat) -> nat {
    field_mul(base, exponent)
}

/// An element of the target group.
pub struct GtElement {
    text: Vec<u8>,
    index: Ghost<nat>,
}

impl View for GtElement {
    type V = nat;

    /// The index of the element.
    closed spec fn view(&self) -> nat {
        self.index@
    }
}

impl GtElement {
    #[verifier::type_invariant]
    spec fn displayed(self) -> bool {
        self.index@ < field_order() && self.text@ == gt_display(self.index@)
    }

    /// The display form of the element.
    pub closed spec fn display(self) -> Seq<u8> {
        self.text@
    }

    /// The display form of the element, which is of the fixed width. A form
    /// of any other width is not handed out, cut or padded, but reported.
    pub fn render(&self) -> (r: Result<Vec<u8>, EngineError>)
        ensures
            self.display() == gt_display(self@),
            r is Ok <==> self.display().len() == GT_DISPLAY_SIZE,
            r matches Ok(bytes) ==> bytes@ == self.display(),
            r matches Err(e) ==> e == EngineError::OutputLength,
    {
        proof {
            use_type_invariant(self);
        }
        if self.text.len() != GT_DISPLAY_SIZE {
            return Err(EngineError::OutputLength);
        }
        Ok(self.text.clone())
    }
}

/// The pairing of an element of G1 with an element of G2.
pub fn pair(g1: &G1Element, g2: &G2Element) -> (gt: GtElement)
    ensures
        gt@ == field_mul(g1@, g2@),
{
    let p = g1.to_uncompressed();
    let q = g2.to_uncompressed();
    let text = pairing_text(&p, &q);
    GtElement { text, index: Ghost(field_mul(g1@, g2@)) }
}

/// Whether the pairing of the first two elements is the pairing of the last
/// two.
pub fn compare_pairings(
    g1_a: &G1Element,
    g2_a: &G2Element,
    g1_b: &G1Element,
    g2_b: &G2Element,
) -> (same: bool)
    ensures
        same == (field_mul(g1_a@, g2_a@) == field_mul(g1_b@, g2_b@)),
{
    let p_a = g1_a.to_uncompressed();
    let q_a = g2_a.to_uncompressed();
    let p_b = g1_b.to_uncompressed();
    let q_b = g2_b.to_uncompressed();
    pairings_same(&p_a, &q_a, &p_b, &q_b)
}

/// The display form of the pairing of two elements.
pub fn pairing_display(g1: &G1Element, g2: &G2Element) -> (r: Result<Vec<u8>, EngineError>)
    ensures
        r is Ok <==> gt_display(field_mul(g1@, g2@)).len() == GT_DISPLAY_SIZE,
        r matches Ok(bytes) ==> bytes@ == gt_display(field_mul(g1@, g2@)),
        r matches Err(e) ==> e == EngineError::OutputLength,
{
    pair(g1, g2).render()
}

/// Whether the pairing of the first two encoded elements is the pairing of
/// the last two. Each byte string is in the form that its flag names; where
/// any of the four is no encoding at all, the answer is `false`.
pub fn compare_encoded_pairings(
    g1_a: &[u8],
    g1_a_compressed: bool,
    g2_a: &[u8],
    g2_a_compressed: bool,
    g1_b: &[u8],
    g1_b_compressed: bool,
    g2_b: &[u8],
    g2_b_compressed: bool,
) -> (same: bool)
    ensures
        same == {
            let p_a = G1Element::decoded(g1_a@, g1_a_compressed);
            let q_a = G2Element::decoded(g2_a@, g2_a_compressed);
            let p_b = G1Element::decoded(g1_b@, g1_b_compressed);
            let q_b = G2Element::decoded(g2_b@, g2_b_compressed);
            p_a is Some && q_a is Some && p_b is Some && q_b is Some && field_mul(
                p_a.unwrap(),
                q_a.unwrap(),
            ) == field_mul(p_b.unwrap(), q_b.unwrap())
        },
{
    let p_a = match G1Element::from_encoding(g1_a, g1_a_compressed) {
        Ok(element) => element,
        Err(_) => return false,
    };
    let q_a = match G2Element::from_encoding(g2_a, g2_a_compressed) {
        Ok(element) => element,
        Err(_) => return false,
    };
    let p_b = match G1Element::from_encoding(g1_b, g1_b_compressed) {
        Ok(element) => element,
        Err(_) => return false,
    };
    let q_b = match G2Element::from_encoding(g2_b, g2_b_compressed) {
        Ok(element) => element,
        Err(_) => return false,
    };
    compare_pairings(&p_a, &q_a, &p_b, &q_b)
}

/// `pairing` of `bls12_381`, and the text in which the result displays
/// itself. The pairing is bilinear, so the index of the result is the product
/// of the two indices.
#[verifier::external_body]
fn pairing_text(g1: &[u8; 96], g2: &[u8; 192]) -> (text: Vec<u8>)
    requires
        g1_uncompressed_point(g1@) is Some,
        g2_uncompressed_point(g2@) is Some,
    ensures
        text@ == gt_display(
            field_mul(g1_uncompressed_point(g1@).unwrap(), g2_uncompressed_point(g2@).unwrap()),
        ),
{
    let p = bls12_381::G1Affine::from_uncompressed(g1).unwrap();
    let q = bls12_381::G2Affine::from_uncompressed(g2).unwrap();
    format!("{}", bls12_381::pairing(&p, &q)).into_bytes()
}

/// `pairing` of `bls12_381`, twice, and `==` of `Gt`: whether the two results
/// are the same element of the target group, which they are exactly when
/// their indices are equal.
#[verifier::external_body]
fn pairings_same(g1_a: &[u8; 96], g2_a: &[u8; 192], g1_b: &[u8; 96], g2_b: &[u8; 192]) -> (same:
    bool)
    requires
        g1_uncompressed_point(g1_a@) is Some,
        g2_uncompressed_point(g2_a@) is Some,
        g1_uncompressed_point(g1_b@) is Some,
        g2_uncompressed_point(g2_b@) is Some,
    ensures
        same == (field_mul(
            g1_uncompressed_point(g1_a@).unwrap(),
            g2_uncompressed_point(g2_a@).unwrap(),
        ) == field_mul(
            g1_uncompressed_point(g1_b@).unwrap(),
            g2_uncompressed_point(g2_b@).unwrap(),
        )),
{
    let p_a = bls12_381::G1Affine::from_uncompressed(g1_a).unwrap();
    let q_a = bls12_381::G2Affine::from_uncompressed(g2_a).unwrap();
    let p_b = bls12_381::G1Affine::from_uncompressed(g1_b).unwrap();
    let q_b = bls12_381::G2Affine::from_uncompressed(g2_b).unwrap();
    bls12_381::pairing(&p_a, &q_a) == bls12_381::pairing(&p_b, &q_b)
}

} // verus!
