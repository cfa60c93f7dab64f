use rand::{thread_rng, Rng};
use schnorr_dalek::cofactor::{divide_scalar_bytes_by_cofactor, multiply_scalar_bytes_by_cofactor};

#[test]
fn cofactor_adjustment() {
    let mut x: [u8; 32] = thread_rng().gen();
    x[31] &= 0b00011111;
    let mut y = x.clone();
    multiply_scalar_bytes_by_cofactor(&mut y);
    divide_scalar_bytes_by_cofactor(&mut y);
    assert_eq!(x, y);

    let mut x: [u8; 32] = thread_rng().gen();
    x[0] &= 0b11111000;
    let mut y = x.clone();
    divide_scalar_bytes_by_cofactor(&mut y);
    multiply_scalar_bytes_by_cofactor(&mut y);
    assert_eq!(x, y);
}

#[test]
fn multiply_then_divide_restores_low_byte_buffer() {
    let mut x = [0u8; 32];
    x[0] = 0xF8;
    let mut y = x;
    multiply_scalar_bytes_by_cofactor(&mut y);
    let mut shifted = [0u8; 32];
    shifted[0] = 0xC0;
    shifted[1] = 0x07;
    assert_eq!(y, shifted);
    divide_scalar_bytes_by_cofactor(&mut y);
    assert_eq!(y, x);
}

#[test]
fn multiply_then_divide_restores_high_byte_buffer() {
    let mut x = [0u8; 32];
    x[31] = 0x1F;
    let mut y = x;
    multiply_scalar_bytes_by_cofactor(&mut y);
    let mut shifted = [0u8; 32];
    shifted[31] = 0xF8;
    assert_eq!(y, shifted);
    divide_scalar_bytes_by_cofactor(&mut y);
    assert_eq!(y, x);
}

#[test]
fn divide_then_multiply_restores_buffer_with_clear_low_bits() {
    let mut x = [0xFFu8; 32];
    x[0] = 0xF8;
    let mut y = x;
    divide_scalar_bytes_by_cofactor(&mut y);
    let mut shifted = [0xFFu8; 32];
    shifted[31] = 0x1F;
    assert_eq!(y, shifted);
    multiply_scalar_bytes_by_cofactor(&mut y);
    assert_eq!(y, x);
}

#[test]
fn multiply_is_times_eight_modulo_two_to_the_256() {
    let mut x = [0u8; 32];
    for i in 0..32 {
        x[i] = (i + 1) as u8;
    }
    multiply_scalar_bytes_by_cofactor(&mut x);
    let expected: [u8; 32] = [
        8, 16, 24, 32, 40, 48, 56, 64, 72, 80, 88, 96, 104, 112, 120, 128, 136, 144, 152, 160,
        168, 176, 184, 192, 200, 208, 216, 224, 232, 240, 248, 0,
    ];
    assert_eq!(x, expected);
}

#[test]
fn divide_is_floor_of_an_eighth() {
    let mut x = [0u8; 32];
    for i in 0..32 {
        x[i] = (i + 1) as u8;
    }
    divide_scalar_bytes_by_cofactor(&mut x);
    let expected: [u8; 32] = [
        64, 96, 128, 160, 192, 224, 0, 33, 65, 97, 129, 161, 193, 225, 1, 34, 66, 98, 130, 162,
        194, 226, 2, 35, 67, 99, 131, 163, 195, 227, 3, 4,
    ];
    assert_eq!(x, expected);
}

#[test]
fn multiply_drops_the_top_three_bits() {
    let mut x = [0xFFu8; 32];
    multiply_scalar_bytes_by_cofactor(&mut x);
    let mut expected = [0xFFu8; 32];
    expected[0] = 0xF8;
    assert_eq!(x, expected);
    divide_scalar_bytes_by_cofactor(&mut x);
    let mut back = [0xFFu8; 32];
    back[31] = 0x1F;
    assert_eq!(x, back);
}

#[test]
fn divide_drops_the_bottom_three_bits() {
    let mut x = [0u8; 32];
    x[0] = 0x07;
    divide_scalar_bytes_by_cofactor(&mut x);
    assert_eq!(x, [0u8; 32]);
    let mut y = [0u8; 32];
    y[0] = 0x0F;
    divide_scalar_bytes_by_cofactor(&mut y);
    multiply_scalar_bytes_by_cofactor(&mut y);
    let mut lossy = [0u8; 32];
    lossy[0] = 0x08;
    assert_eq!(y, lossy);
}

#[test]
fn shifts_leave_zero_at_zero() {
    let mut x = [0u8; 32];
    multiply_scalar_bytes_by_cofactor(&mut x);
    assert_eq!(x, [0u8; 32]);
    divide_scalar_bytes_by_cofactor(&mut x);
    assert_eq!(x, [0u8; 32]);
}
