use curve25519_dalek::scalar::Scalar as CurveScalar;
use rand::{thread_rng, Rng};
use schnorr_dalek::scalar::{
    divide_scalar_by_cofactor, multiply_scalar_by_cofactor, scalar_from_xof, Scalar,
};

const ORDER_MINUS_ONE: [u8; 32] = [
    236, 211, 245, 92, 26, 99, 18, 88, 214, 156, 247, 162, 222, 249, 222, 20, 0, 0, 0, 0, 0, 0, 0,
    0, 0, 0, 0, 0, 0, 0, 0, 16,
];

#[test]
fn from_bits_clears_the_top_bit() {
    let s = Scalar::from_bits([0xFF; 32]);
    let mut expected = [0xFFu8; 32];
    expected[31] = 0x7F;
    assert_eq!(s.to_bytes(), expected);
}

#[test]
fn from_bits_keeps_255_bit_values() {
    let s = Scalar::from_bits(ORDER_MINUS_ONE);
    assert_eq!(s.to_bytes(), ORDER_MINUS_ONE);
}

#[test]
fn scalar_from_xof_reduces_all_ones() {
    let s = scalar_from_xof(&[0xFF; 64]);
    let expected: [u8; 32] = [
        0, 15, 156, 68, 227, 17, 6, 164, 71, 147, 133, 104, 167, 27, 14, 208, 101, 190, 245, 23,
        210, 115, 236, 206, 61, 154, 48, 124, 27, 65, 153, 3,
    ];
    assert_eq!(s.to_bytes(), expected);
}

#[test]
fn scalar_from_xof_reduces_a_counting_stream() {
    let mut output = [0u8; 64];
    for i in 0..64 {
        output[i] = i as u8;
    }
    let s = scalar_from_xof(&output);
    let expected: [u8; 32] = [
        122, 60, 98, 130, 240, 45, 55, 160, 80, 35, 182, 13, 84, 40, 230, 204, 89, 97, 212, 195,
        18, 33, 147, 122, 218, 224, 181, 116, 228, 208, 114, 5,
    ];
    assert_eq!(s.to_bytes(), expected);
}

#[test]
fn scalar_from_xof_maps_the_group_order_to_zero() {
    let mut output = [0u8; 64];
    output[..32].copy_from_slice(&ORDER_MINUS_ONE);
    output[0] += 1;
    assert_eq!(scalar_from_xof(&output).to_bytes(), [0u8; 32]);
}

#[test]
fn scalar_from_xof_keeps_small_values() {
    let mut output = [0u8; 64];
    output[..32].copy_from_slice(&ORDER_MINUS_ONE);
    assert_eq!(scalar_from_xof(&output).to_bytes(), ORDER_MINUS_ONE);
}

#[test]
fn scalar_from_xof_is_deterministic_and_canonical() {
    for _ in 0..32 {
        let mut output = [0u8; 64];
        thread_rng().fill(&mut output[..]);
        let a = scalar_from_xof(&output);
        let b = scalar_from_xof(&output);
        assert_eq!(a.to_bytes(), b.to_bytes());
        assert!(CurveScalar::from_canonical_bytes(a.to_bytes()).is_some());
        assert_eq!(
            a.to_bytes(),
            CurveScalar::from_bytes_mod_order_wide(&output).to_bytes()
        );
    }
}

#[test]
fn multiply_scalar_by_cofactor_shifts_and_masks() {
    let s = Scalar::from_bits(ORDER_MINUS_ONE);
    let expected: [u8; 32] = [
        96, 159, 174, 231, 210, 24, 147, 192, 178, 230, 188, 23, 245, 206, 247, 166, 0, 0, 0, 0, 0,
        0, 0, 0, 0, 0, 0, 0, 0, 0, 0, 0,
    ];
    assert_eq!(multiply_scalar_by_cofactor(s).to_bytes(), expected);
}

#[test]
fn multiply_scalar_by_cofactor_of_small_scalar() {
    let mut bytes = [0u8; 32];
    bytes[0] = 0xFF;
    bytes[1] = 0x01;
    let mut expected = [0u8; 32];
    expected[0] = 0xF8;
    expected[1] = 0x0F;
    assert_eq!(
        multiply_scalar_by_cofactor(Scalar::from_bits(bytes)).to_bytes(),
        expected
    );
}

#[test]
fn divide_scalar_by_cofactor_rounds_down() {
    let s = Scalar::from_bits(ORDER_MINUS_ONE);
    let expected: [u8; 32] = [
        125, 186, 158, 75, 99, 76, 2, 203, 154, 243, 94, 212, 59, 223, 155, 2, 0, 0, 0, 0, 0, 0, 0,
        0, 0, 0, 0, 0, 0, 0, 0, 2,
    ];
    assert_eq!(divide_scalar_by_cofactor(s).to_bytes(), expected);
}

#[test]
fn scalar_cofactor_round_trip_below_two_to_the_252() {
    for _ in 0..32 {
        let mut bytes: [u8; 32] = thread_rng().gen();
        bytes[31] &= 0b0000_1111;
        let s = Scalar::from_bits(bytes);
        let back = divide_scalar_by_cofactor(multiply_scalar_by_cofactor(s));
        assert_eq!(back.to_bytes(), bytes);
    }
}

#[test]
fn scalar_cofactor_functions_agree_with_the_curve_library() {
    for _ in 0..32 {
        let mut bytes: [u8; 32] = thread_rng().gen();
        bytes[31] &= 0b0000_1111;
        let theirs = CurveScalar::from_bits(bytes);
        let ours = multiply_scalar_by_cofactor(Scalar::from_bits(bytes));
        assert_eq!(
            (theirs * CurveScalar::from(8u8)).to_bytes(),
            CurveScalar::from_bytes_mod_order(ours.to_bytes()).to_bytes()
        );
    }
}
