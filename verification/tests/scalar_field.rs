use pairings_bls12381::bigint::bytes_to_big_int;
use pairings_bls12381::error::{EngineError, GenericError};
use pairings_bls12381::scalar::{encoded_scalars_equal, Scalar};

/// The field order, little-endian.
const ORDER: [u8; 32] = [
    0x01, 0x00, 0x00, 0x00, 0xff, 0xff, 0xff, 0xff, 0xfe, 0x5b, 0xfe, 0xff, 0x02, 0xa4, 0xbd, 0x53,
    0x05, 0xd8, 0xa1, 0x09, 0x08, 0xd8, 0x39, 0x33, 0x48, 0x7d, 0x9d, 0x29, 0x53, 0xa7, 0xed, 0x73,
];

fn order_minus_one() -> Scalar {
    let mut bytes = ORDER;
    bytes[0] = 0x00;
    Scalar::from_canonical_bytes(&bytes).unwrap()
}

fn small(value: u64) -> [u8; 32] {
    let mut bytes = [0u8; 32];
    bytes[..8].copy_from_slice(&value.to_le_bytes());
    bytes
}

#[test]
fn zero_and_one_have_their_encodings() {
    assert_eq!(Scalar::zero().to_bytes(), [0u8; 32]);
    assert_eq!(Scalar::one().to_bytes(), small(1));
    assert_eq!(Scalar::zero(), Scalar::from_integer(0));
    assert_eq!(Scalar::one(), Scalar::from_integer(1));
}

#[test]
fn from_integer_spells_the_number_little_endian() {
    assert_eq!(Scalar::from_integer(5).to_bytes(), small(5));
    assert_eq!(Scalar::from_integer(0x0102_0304_0506_0708).to_bytes(), small(0x0102_0304_0506_0708));
    assert_eq!(Scalar::from_integer(u64::MAX).to_bytes(), small(u64::MAX));
}

#[test]
fn canonical_bytes_are_those_below_the_order() {
    assert_eq!(Scalar::from_canonical_bytes(&ORDER), Err(EngineError::InvalidEncoding));
    assert_eq!(Scalar::from_canonical_bytes(&[0xff; 32]), Err(EngineError::InvalidEncoding));
    let mut below = ORDER;
    below[0] = 0x00;
    assert_eq!(Scalar::from_canonical_bytes(&below).unwrap().to_bytes(), below);
    let mut above = ORDER;
    above[0] = 0x02;
    assert_eq!(Scalar::from_canonical_bytes(&above), Err(EngineError::InvalidEncoding));
    assert_eq!(Scalar::from_canonical_bytes(&small(7)).unwrap(), Scalar::from_integer(7));
}

#[test]
fn from_encoding_tells_length_from_value() {
    assert_eq!(Scalar::from_encoding(&[0u8; 31]), Err(GenericError::TryInto(31)));
    assert_eq!(Scalar::from_encoding(&[0u8; 33]), Err(GenericError::TryInto(33)));
    assert_eq!(Scalar::from_encoding(&[]), Err(GenericError::TryInto(0)));
    assert_eq!(Scalar::from_encoding(&ORDER), Err(GenericError::InputLength(32)));
    assert_eq!(Scalar::from_encoding(&small(9)), Ok(Scalar::from_integer(9)));
}

#[test]
fn check_validity_collapses_every_failure() {
    assert!(Scalar::check_validity(&small(9)));
    assert!(Scalar::check_validity(&[0u8; 32]));
    assert!(!Scalar::check_validity(&ORDER));
    assert!(!Scalar::check_validity(&[0u8; 31]));
    assert!(!Scalar::check_validity(&[]));
}

#[test]
fn add_is_the_sum_modulo_the_order() {
    let two = Scalar::from_integer(2);
    let three = Scalar::from_integer(3);
    assert_eq!(two.add(&three), Scalar::from_integer(5));
    assert_eq!(order_minus_one().add(&Scalar::one()), Scalar::zero());
    assert_eq!(order_minus_one().add(&three), two);
    assert_eq!(two.add(&Scalar::zero()), two);
}

#[test]
fn subtract_wraps_below_zero() {
    let two = Scalar::from_integer(2);
    let five = Scalar::from_integer(5);
    assert_eq!(five.subtract(&two), Scalar::from_integer(3));
    assert_eq!(Scalar::zero().subtract(&Scalar::one()), order_minus_one());
    assert_eq!(two.subtract(&two), Scalar::zero());
}

#[test]
fn multiply_is_the_product_modulo_the_order() {
    assert_eq!(Scalar::from_integer(6).multiply(&Scalar::from_integer(7)), Scalar::from_integer(42));
    // (r - 1)^2 = 1
    assert_eq!(order_minus_one().multiply(&order_minus_one()), Scalar::one());
    assert_eq!(Scalar::from_integer(6).multiply(&Scalar::zero()), Scalar::zero());
}

#[test]
fn invert_fails_on_zero_alone() {
    assert_eq!(Scalar::zero().invert(), Err(EngineError::DivisionByZero));
    assert_eq!(Scalar::one().invert(), Ok(Scalar::one()));
    assert_eq!(order_minus_one().invert(), Ok(order_minus_one()));
    for value in [2u64, 5, 7, 1 << 40, u64::MAX] {
        let a = Scalar::from_integer(value);
        let inverse = a.invert().unwrap();
        assert_eq!(a.multiply(&inverse), Scalar::one());
        assert_ne!(inverse, a);
    }
}

#[test]
fn divide_is_multiplication_by_the_inverse() {
    let forty_two = Scalar::from_integer(42);
    let seven = Scalar::from_integer(7);
    assert_eq!(forty_two.divide(&seven), Ok(Scalar::from_integer(6)));
    assert_eq!(forty_two.divide(&Scalar::zero()), Err(EngineError::DivisionByZero));
    assert_eq!(Scalar::zero().divide(&Scalar::zero()), Err(EngineError::DivisionByZero));
    let quotient = seven.divide(&forty_two).unwrap();
    assert_eq!(quotient, seven.multiply(&forty_two.invert().unwrap()));
    assert_eq!(quotient.multiply(&forty_two), seven);
}

#[test]
fn power_takes_the_exponent_as_a_plain_number() {
    let two = Scalar::from_integer(2);
    assert_eq!(two.power(&[10, 0, 0, 0]), Scalar::from_integer(1024));
    assert_eq!(two.power(&[0, 0, 0, 0]), Scalar::one());
    assert_eq!(Scalar::zero().power(&[0, 0, 0, 0]), Scalar::one());
    assert_eq!(Scalar::zero().power(&[3, 0, 0, 0]), Scalar::zero());
    assert_eq!(two.power(&[64, 0, 0, 0]), two.power(&[32, 0, 0, 0]).multiply(&two.power(&[32, 0, 0, 0])));
    // the exponent r is not reduced to zero: a^r = a, not a^0 = 1
    let order_limbs: [u64; 4] = [
        0xffff_ffff_0000_0001,
        0x53bd_a402_fffe_5bfe,
        0x3339_d808_09a1_d805,
        0x73ed_a753_299d_7d48,
    ];
    assert_eq!(two.power(&order_limbs), two);
    // an exponent above the order is taken as it is too: a^(2^255) for a = 2
    let high: [u64; 4] = [0, 0, 0, 1 << 63];
    let mut expected = two;
    for _ in 0..255 {
        expected = expected.multiply(&expected);
    }
    assert_eq!(two.power(&high), expected);
}

#[test]
fn power_of_bytes_reads_a_big_endian_exponent() {
    let three = Scalar::from_integer(3);
    assert_eq!(three.power_of_bytes(&[0x04]), Ok(Scalar::from_integer(81)));
    assert_eq!(three.power_of_bytes(&[0x00, 0x00, 0x04]), Ok(Scalar::from_integer(81)));
    assert_eq!(three.power_of_bytes(&[]), Ok(Scalar::one()));
    assert_eq!(three.power_of_bytes(&[0x01, 0x00]), Ok(three.power(&[256, 0, 0, 0])));
    assert_eq!(three.power_of_bytes(&[0u8; 33]), Err(EngineError::InputTooLarge));
    assert_eq!(three.power_of_bytes(&[0u8; 32]), Ok(Scalar::one()));
}

#[test]
fn big_integers_are_reversed_and_padded() {
    assert_eq!(bytes_to_big_int(&[]), Ok([0, 0, 0, 0]));
    assert_eq!(bytes_to_big_int(&[0x01, 0x02]), Ok([0x0102, 0, 0, 0]));
    assert_eq!(
        bytes_to_big_int(&[0x01, 0x02, 0x03, 0x04, 0x05, 0x06, 0x07, 0x08, 0x09]),
        Ok([0x0203_0405_0607_0809, 0x01, 0, 0])
    );
    assert_eq!(bytes_to_big_int(&[0xff; 32]), Ok([u64::MAX; 4]));
    let mut top = [0u8; 32];
    top[0] = 0x80;
    assert_eq!(bytes_to_big_int(&top), Ok([0, 0, 0, 1 << 63]));
    let mut spread = [0u8; 32];
    spread[31] = 0x0a;
    spread[23] = 0x0b;
    spread[15] = 0x0c;
    spread[7] = 0x0d;
    assert_eq!(bytes_to_big_int(&spread), Ok([0x0a, 0x0b, 0x0c, 0x0d]));
}

#[test]
fn big_integers_of_more_than_32_bytes_are_refused() {
    assert_eq!(bytes_to_big_int(&[0u8; 33]), Err(EngineError::InputTooLarge));
    assert_eq!(bytes_to_big_int(&[1u8; 64]), Err(EngineError::InputTooLarge));
}

#[test]
fn equals_compares_field_elements() {
    assert!(Scalar::from_integer(5).equals(&Scalar::from_integer(2).add(&Scalar::from_integer(3))));
    assert!(!Scalar::from_integer(5).equals(&Scalar::from_integer(6)));
    assert!(Scalar::zero().equals(&order_minus_one().add(&Scalar::one())));
}

#[test]
fn encoded_scalars_equal_is_false_on_any_failure() {
    assert!(encoded_scalars_equal(&small(5), &small(5)));
    assert!(!encoded_scalars_equal(&small(5), &small(6)));
    assert!(!encoded_scalars_equal(&ORDER, &ORDER));
    assert!(!encoded_scalars_equal(&small(5), &[0u8; 31]));
    assert!(!encoded_scalars_equal(&[], &small(5)));
}

#[test]
fn from_seed_is_a_function_of_the_seed() {
    let first = Scalar::from_seed(&[0u8; 32]);
    let second = Scalar::from_seed(&[0u8; 32]);
    assert_eq!(first.to_bytes(), second.to_bytes());
    assert_ne!(first.to_bytes(), [0u8; 32]);
    let mut seed = [0u8; 32];
    seed[0] = 1;
    assert_ne!(Scalar::from_seed(&seed), first);
    assert!(Scalar::check_validity(&first.to_bytes()));
}

#[test]
fn error_codes_are_those_of_the_status_slot() {
    assert_eq!(GenericError::Jni.get_error_code(), 1);
    assert_eq!(GenericError::TryFromSlice.get_error_code(), 2);
    assert_eq!(GenericError::TryInto(7).get_error_code(), 3);
    assert_eq!(GenericError::InputLength(32).get_error_code(), 4);
    assert_eq!(GenericError::OutputLength.get_error_code(), 5);
    assert_eq!(EngineError::InvalidEncoding.get_error_code(), 4);
    assert_eq!(EngineError::EmptyBatch.get_error_code(), 1);
    assert_eq!(EngineError::DivisionByZero.get_error_code(), 1);
    assert_eq!(EngineError::InputTooLarge.get_error_code(), 4);
    assert_eq!(EngineError::OutputLength.get_error_code(), 5);
}
