use kangaroo::convert::{
    be_bytes_to_limbs, limbs_to_be_bytes, limbs_to_le_bytes, scalar_be_to_limbs, u256_to_u128,
};
use kangaroo::gpu::{coords_to_gpu, GpuAffinePoint};

#[test]
fn test_limbs_to_be_bytes_roundtrip() {
    let original: [u32; 8] = [1, 2, 3, 4, 5, 6, 7, 8];
    let bytes = limbs_to_be_bytes(&original);
    let recovered = be_bytes_to_limbs(&bytes);
    assert_eq!(original, recovered);
}

#[test]
fn test_limbs_to_be_bytes_value() {
    let mut limbs = [0u32; 8];
    limbs[0] = 0x01020304;
    let bytes = limbs_to_be_bytes(&limbs);
    assert_eq!(bytes[28], 0x01);
    assert_eq!(bytes[29], 0x02);
    assert_eq!(bytes[30], 0x03);
    assert_eq!(bytes[31], 0x04);
}

#[test]
fn test_scalar_be_to_limbs() {
    let mut bytes = [0u8; 32];
    bytes[31] = 0x42;
    let limbs = scalar_be_to_limbs(&bytes);
    assert_eq!(limbs[0] & 0xFF, 0x42);
}

#[test]
fn test_u256_to_u128() {
    let mut val = [0u8; 32];
    val[0] = 0x42;
    let result = u256_to_u128(&val);
    assert_eq!(result, 0x42);
}

#[test]
fn be_bytes_round_trip() {
    let mut b = [0u8; 32];
    for i in 0..32 {
        b[i] = (i * 31 + 17) as u8;
    }
    assert_eq!(limbs_to_be_bytes(&be_bytes_to_limbs(&b)), b);
}

#[test]
fn be_bytes_to_limbs_layout() {
    let mut b = [0u8; 32];
    for i in 0..32 {
        b[i] = i as u8;
    }
    let l = be_bytes_to_limbs(&b);
    assert_eq!(l[0], 0x1C1D1E1F);
    assert_eq!(l[7], 0x00010203);
}

#[test]
fn limbs_to_le_bytes_layout() {
    let l: [u32; 8] = [0x04030201, 0, 0, 0, 0, 0, 0, 0xA0B0C0D0];
    let b = limbs_to_le_bytes(&l);
    assert_eq!(&b[0..4], &[1, 2, 3, 4]);
    assert_eq!(&b[28..32], &[0xD0, 0xC0, 0xB0, 0xA0]);
    assert_eq!(b[4], 0);
}

#[test]
fn u256_to_u128_takes_low_sixteen_bytes() {
    let mut val = [0xEEu8; 32];
    for i in 0..16 {
        val[i] = (i + 1) as u8;
    }
    assert_eq!(u256_to_u128(&val), 0x100F0E0D0C0B0A090807060504030201);
    assert_eq!(u256_to_u128(&[0xFF; 32]), u128::MAX);
}

#[test]
fn coords_to_gpu_converts_both_halves() {
    let mut x = [0u8; 32];
    let mut y = [0u8; 32];
    x[31] = 7;
    y[0] = 0x80;
    let p: GpuAffinePoint = coords_to_gpu(&x, &y);
    assert_eq!(p.x, [7, 0, 0, 0, 0, 0, 0, 0]);
    assert_eq!(p.y, [0, 0, 0, 0, 0, 0, 0, 0x8000_0000]);
}
