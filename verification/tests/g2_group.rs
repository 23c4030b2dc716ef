use pairings_bls12381::error::{EngineError, GenericError};
use pairings_bls12381::g2::{encoded_g2_elements_equal, G2Element};
use pairings_bls12381::scalar::Scalar;

fn g2_generator() -> G2Element {
    G2Element::from_compressed(&bls12_381::G2Affine::generator().to_compressed()).unwrap()
}

fn g2_seeded(byte: u8) -> G2Element {
    G2Element::random_element(&[byte; 32])
}

#[test]
fn g2_round_trips_through_both_encodings() {
    for element in [G2Element::identity(), g2_generator(), g2_seeded(1), g2_seeded(2)] {
        let uncompressed = element.to_uncompressed();
        let compressed = element.to_compressed();
        assert_eq!(G2Element::from_uncompressed(&uncompressed), Ok(element));
        assert_eq!(G2Element::from_compressed(&compressed), Ok(element));
        assert_eq!(G2Element::from_encoding(&uncompressed, false), Ok(element));
        assert_eq!(G2Element::from_encoding(&compressed, true), Ok(element));
    }
}

#[test]
fn g2_decoding_refuses_what_is_no_point() {
    assert_eq!(G2Element::from_uncompressed(&[0xff; 192]), Err(EngineError::InvalidEncoding));
    assert_eq!(G2Element::from_compressed(&[0xff; 96]), Err(EngineError::InvalidEncoding));
    assert_eq!(G2Element::from_uncompressed(&[0u8; 192]), Err(EngineError::InvalidEncoding));
    assert_eq!(G2Element::from_compressed(&[0u8; 96]), Err(EngineError::InvalidEncoding));
    // a point of the curve with one byte of its y-coordinate changed
    let mut off_curve = g2_generator().to_uncompressed();
    off_curve[191] ^= 0x01;
    assert_eq!(G2Element::from_uncompressed(&off_curve), Err(EngineError::InvalidEncoding));
    // the compressed form is no uncompressed form, nor the other way round
    let mut padded = [0u8; 192];
    padded[..96].copy_from_slice(&g2_generator().to_compressed());
    assert_eq!(G2Element::from_uncompressed(&padded), Err(EngineError::InvalidEncoding));
    let mut cut = [0u8; 96];
    cut.copy_from_slice(&g2_generator().to_uncompressed()[..96]);
    assert_eq!(G2Element::from_compressed(&cut), Err(EngineError::InvalidEncoding));
    // bytes without structure
    let mut bytes = [0u8; 96];
    for (i, b) in bytes.iter_mut().enumerate() {
        *b = (i as u8).wrapping_mul(37).wrapping_add(11);
    }
    assert_eq!(G2Element::from_compressed(&bytes), Err(EngineError::InvalidEncoding));
}

#[test]
fn g2_from_encoding_tells_length_from_content() {
    let compressed = g2_generator().to_compressed();
    let uncompressed = g2_generator().to_uncompressed();
    assert_eq!(G2Element::from_encoding(&compressed, false), Err(GenericError::TryInto(96)));
    assert_eq!(G2Element::from_encoding(&uncompressed, true), Err(GenericError::TryInto(192)));
    assert_eq!(G2Element::from_encoding(&[], true), Err(GenericError::TryInto(0)));
    assert_eq!(G2Element::from_encoding(&[0xff; 96], true), Err(GenericError::InputLength(96)));
    assert_eq!(G2Element::from_encoding(&[0xff; 192], false), Err(GenericError::InputLength(192)));
    assert_eq!(G2Element::from_encoding(&[0xff; 96], true).unwrap_err().get_error_code(), 4);
    assert_eq!(G2Element::from_encoding(&[0xff; 95], true).unwrap_err().get_error_code(), 3);
}

#[test]
fn g2_check_validity_is_false_on_every_failure() {
    assert!(G2Element::check_validity(&g2_seeded(3).to_compressed(), true));
    assert!(G2Element::check_validity(&g2_seeded(3).to_uncompressed(), false));
    assert!(!G2Element::check_validity(&g2_seeded(3).to_compressed(), false));
    assert!(!G2Element::check_validity(&g2_seeded(3).to_uncompressed(), true));
    assert!(!G2Element::check_validity(&[0xff; 96], true));
    assert!(!G2Element::check_validity(&[], false));
}

#[test]
fn g2_equals_tells_points_apart_however_they_were_made() {
    let p = g2_seeded(4);
    let q = g2_seeded(5);
    assert!(!p.equals(&q));
    assert!(p.equals(&p));
    // made by decoding, and made by arithmetic
    let decoded = G2Element::from_compressed(&p.to_compressed()).unwrap();
    let computed = p.add(&q).subtract(&q);
    assert!(decoded.equals(&computed));
    assert!(computed.equals(&p));
    assert!(!G2Element::identity().equals(&p));
}

#[test]
fn g2_encoded_elements_equal_is_false_on_any_failure() {
    let p = g2_seeded(6);
    let q = g2_seeded(7);
    assert!(encoded_g2_elements_equal(&p.to_compressed(), true, &p.to_uncompressed(), false));
    assert!(encoded_g2_elements_equal(&p.to_uncompressed(), false, &p.to_uncompressed(), false));
    assert!(!encoded_g2_elements_equal(&p.to_compressed(), true, &q.to_compressed(), true));
    assert!(!encoded_g2_elements_equal(&p.to_compressed(), false, &p.to_compressed(), false));
    assert!(!encoded_g2_elements_equal(&[0xff; 96], true, &[0xff; 96], true));
    assert!(!encoded_g2_elements_equal(&p.to_compressed(), true, &[], true));
}

#[test]
fn g2_group_laws_hold_of_chosen_points() {
    let identity = G2Element::identity();
    for p in [g2_generator(), g2_seeded(8), identity] {
        assert_eq!(p.add(&identity), p);
        assert_eq!(identity.add(&p), p);
        assert_eq!(p.add(&identity.subtract(&p)), identity);
        assert_eq!(p.subtract(&p), identity);
        assert_eq!(p.scalar_multiply(&Scalar::zero()), identity);
        assert_eq!(p.scalar_multiply(&Scalar::one()), p);
    }
}

#[test]
fn g2_add_and_subtract_agree_with_the_curve() {
    let p = g2_generator();
    let q = g2_seeded(9);
    let sum = p.add(&q);
    assert_ne!(sum, p);
    assert_ne!(sum, q);
    assert_eq!(sum, q.add(&p));
    assert_eq!(sum.subtract(&q), p);
    assert_ne!(p.subtract(&q), p);
    let a = bls12_381::G2Affine::from_uncompressed(&p.to_uncompressed()).unwrap();
    let b = bls12_381::G2Affine::from_uncompressed(&q.to_uncompressed()).unwrap();
    let expected = bls12_381::G2Affine::from(bls12_381::G2Projective::from(a) + b);
    assert_eq!(sum.to_uncompressed(), expected.to_uncompressed());
}

#[test]
fn g2_scalar_multiply_is_repeated_addition() {
    let p = g2_generator();
    let double = p.add(&p);
    assert_eq!(p.scalar_multiply(&Scalar::from_integer(2)), double);
    assert_eq!(p.scalar_multiply(&Scalar::from_integer(3)), double.add(&p));
    assert_ne!(p.scalar_multiply(&Scalar::from_integer(2)), p);
    // (r - 1) * P = -P
    let minus_one = Scalar::zero().subtract(&Scalar::one());
    assert_eq!(p.scalar_multiply(&minus_one), G2Element::identity().subtract(&p));
    // (a * b) * P = a * (b * P)
    let a = Scalar::from_integer(123_456_789);
    let b = Scalar::from_seed(&[3u8; 32]);
    assert_eq!(
        p.scalar_multiply(&a.multiply(&b)),
        p.scalar_multiply(&b).scalar_multiply(&a)
    );
    // (a + b) * P = a * P + b * P
    assert_eq!(
        p.scalar_multiply(&a.add(&b)),
        p.scalar_multiply(&a).add(&p.scalar_multiply(&b))
    );
}

#[test]
fn g2_batch_multiply_folds_add_from_the_left() {
    let elements = [g2_generator(), g2_seeded(10), g2_seeded(11), g2_generator()];
    let mut folded = G2Element::identity();
    for element in elements.iter() {
        folded = folded.add(element);
    }
    assert_eq!(G2Element::batch_multiply(&elements), Ok(folded));
    assert_eq!(G2Element::batch_multiply(&elements[..1]), Ok(elements[0]));
    assert_eq!(
        G2Element::batch_multiply(&elements[..2]),
        Ok(elements[0].add(&elements[1]))
    );
    assert_eq!(
        G2Element::batch_multiply(&[G2Element::identity()]),
        Ok(G2Element::identity())
    );
}

#[test]
fn g2_batch_multiply_refuses_an_empty_batch() {
    assert_eq!(G2Element::batch_multiply(&[]), Err(EngineError::EmptyBatch));
    assert_eq!(G2Element::batch_multiply(&[]).unwrap_err().get_error_code(), 1);
}


#[test]
fn g2_identity_has_the_reserved_encodings() {
    let identity = G2Element::identity();
    let mut uncompressed = [0u8; 192];
    uncompressed[0] = 0x40;
    let mut compressed = [0u8; 96];
    compressed[0] = 0xc0;
    assert_eq!(identity.to_uncompressed(), uncompressed);
    assert_eq!(identity.to_compressed(), compressed);
    let decoded = G2Element::from_uncompressed(&identity.to_uncompressed()).unwrap();
    assert_eq!(decoded.to_compressed(), compressed);
    assert!(G2Element::check_validity(&uncompressed, false));
    assert!(G2Element::check_validity(&compressed, true));
}

#[test]
fn g2_generator_decodes_to_the_curve_generator() {
    let generator = g2_generator();
    assert_eq!(
        generator.to_uncompressed(),
        bls12_381::G2Affine::generator().to_uncompressed()
    );
    assert_eq!(generator.to_compressed()[0], 0x93);
}

#[test]
fn g2_random_element_is_a_function_of_the_seed() {
    let known: [u8; 96] = [
        0x84, 0xff, 0xfa, 0x03, 0x51, 0xb7, 0x94, 0x83, 0x31, 0x87, 0x71, 0xc4, 0xa4, 0x59, 0x27,
        0x19, 0x07, 0xbd, 0x81, 0x61, 0x77, 0x3f, 0x15, 0x08, 0xb8, 0x9e, 0x2d, 0x64, 0xdb, 0x5c,
        0xb5, 0x97, 0x40, 0x19, 0xa6, 0xc9, 0x29, 0x18, 0x43, 0xda, 0x3f, 0xc5, 0x29, 0x04, 0x03,
        0x00, 0xad, 0xdb, 0x0f, 0x05, 0xe4, 0xde, 0x44, 0x56, 0xcd, 0x0b, 0xf9, 0x5d, 0x62, 0x6d,
        0xb2, 0x23, 0x3a, 0x18, 0x80, 0x10, 0x03, 0x8d, 0x6b, 0x8a, 0x6e, 0x77, 0x8f, 0x13, 0xe3,
        0x9d, 0xcc, 0xc7, 0x71, 0xce, 0x9b, 0x0f, 0x10, 0xc8, 0x93, 0xa4, 0x80, 0xb0, 0xdc, 0x42,
        0xea, 0x85, 0x94, 0x9f, 0xe7, 0x4a,
    ];
    let first = G2Element::random_element(&[0u8; 32]);
    let second = G2Element::random_element(&[0u8; 32]);
    assert_eq!(first.to_uncompressed(), second.to_uncompressed());
    assert_eq!(first.to_compressed(), known);
    assert_ne!(first, G2Element::identity());
    assert_ne!(first, g2_seeded(1));
    assert!(G2Element::check_validity(&first.to_uncompressed(), false));
}
