use zkml::bn254::{
    add_mod, fp_from_be, g1_coords_reduced, g1_is_on_curve, g2_coords_reduced, g2_is_on_curve, mont_mul,
    mul_mod, sub_mod, sub_raw, Fp, Fp2, B1_SCALED, B2_SCALED_C0, B2_SCALED_C1, INV, P, ZERO,
};

fn g1_generator() -> [u8; 64] {
    let mut out = [0u8; 64];
    out[31] = 1;
    out[63] = 2;
    out
}

fn g2_generator() -> [u8; 128] {
    let hex = "198e9393920d483a7260bfb731fb5d25f1aa493335a9e71297e485b7aef312c2\
               1800deef121f1e76426a00665e5c4479674322d4f75edadd46debd5cd992f6ed\
               090689d0585ff075ec9e99ad690c3395bc4b313370b38ef355acdadcd122975b\
               12c85ea5db8c6deb4aab71808dcb408fe3d1e7690c43d37b4ce6cc0166fa7daa";
    let mut out = [0u8; 128];
    for (i, byte) in out.iter_mut().enumerate() {
        *byte = u8::from_str_radix(&hex[2 * i..2 * i + 2], 16).unwrap();
    }
    out
}

fn fp(n: u64) -> Fp {
    [n, 0, 0, 0]
}

fn r_mod_p() -> Fp {
    let mut r = fp(1);
    for _ in 0..256 {
        r = add_mod(&r, &r);
    }
    r
}

fn values(n: usize) -> impl Iterator<Item = Fp> {
    let mut state = 0x243f_6a88_85a3_08d3u64;
    (0..n).map(move |_| {
        let mut limb = || {
            state ^= state << 13;
            state ^= state >> 7;
            state ^= state << 17;
            state
        };
        [limb(), limb(), limb(), limb() & 0x0fff_ffff_ffff_ffff]
    })
}

#[test]
fn inv_is_minus_p_inverse_mod_two_to_the_64() {
    assert_eq!(P[0].wrapping_mul(INV), u64::MAX);
}

#[test]
fn montgomery_agrees_with_plain_multiplication() {
    let r = r_mod_p();
    let r2 = mul_mod(&r, &r);
    let mut checked = 0;
    for (a, b) in values(400).zip(values(407).skip(7)) {
        assert_eq!(mont_mul(&mont_mul(&a, &b), &r2), mul_mod(&a, &b));
        checked += 1;
    }
    let p_minus_one = sub_raw(&P, &fp(1));
    for (a, b) in [(p_minus_one, p_minus_one), (p_minus_one, fp(1)), (ZERO, p_minus_one)] {
        assert_eq!(mont_mul(&mont_mul(&a, &b), &r2), mul_mod(&a, &b));
        checked += 1;
    }
    assert!(checked > 400);
}

#[test]
fn the_scaled_constants_are_b_times_r_to_the_minus_two() {
    let r = r_mod_p();
    let r2 = mul_mod(&r, &r);
    assert_eq!(mul_mod(&B1_SCALED, &r2), fp(3));
    let b2 = Fp2 { c0: mul_mod(&B2_SCALED_C0, &r2), c1: mul_mod(&B2_SCALED_C1, &r2) };
    let nine = fp(9);
    let re = sub_mod(&mul_mod(&nine, &b2.c0), &b2.c1);
    let im = add_mod(&b2.c0, &mul_mod(&nine, &b2.c1));
    assert_eq!((re, im), (fp(3), ZERO), "b' must be 3 / (9 + u)");
}

#[test]
fn small_arithmetic_is_right() {
    assert_eq!(add_mod(&fp(2), &fp(3)), fp(5));
    assert_eq!(sub_mod(&fp(5), &fp(3)), fp(2));
    assert_eq!(mul_mod(&fp(6), &fp(7)), fp(42));
}

#[test]
fn subtraction_wraps_modulo_p() {
    let p_minus_one = sub_raw(&P, &fp(1));
    assert_eq!(sub_mod(&ZERO, &fp(1)), p_minus_one);
    assert_eq!(add_mod(&p_minus_one, &fp(1)), ZERO);
}

#[test]
fn multiplication_reduces_modulo_p() {
    let p_minus_one = sub_raw(&P, &fp(1));
    assert_eq!(mul_mod(&p_minus_one, &p_minus_one), fp(1));
}

#[test]
fn p_itself_is_not_a_reduced_coordinate() {
    let mut bytes = [0u8; 32];
    for (i, limb) in P.iter().enumerate() {
        let start = 32 - 8 * (i + 1);
        bytes[start..start + 8].copy_from_slice(&limb.to_be_bytes());
    }
    assert!(fp_from_be(&bytes).is_none(), "p must be rejected");
    bytes[31] -= 1;
    assert!(fp_from_be(&bytes).is_some(), "p - 1 must be accepted");
}

#[test]
fn the_generators_are_on_their_curves() {
    assert!(g1_is_on_curve(&g1_generator()));
    assert!(g2_is_on_curve(&g2_generator()));
}

#[test]
fn infinity_counts_as_on_the_curve() {
    assert!(g1_is_on_curve(&[0u8; 64]));
    assert!(g2_is_on_curve(&[0u8; 128]));
}

#[test]
fn every_single_byte_flip_of_the_g2_generator_is_caught() {
    let g = g2_generator();
    for i in 0..128 {
        let mut bad = g;
        bad[i] ^= 0x01;
        assert!(!g2_is_on_curve(&bad), "flipping byte {i} was not caught");
    }
}

#[test]
fn every_single_byte_flip_of_the_g1_generator_is_caught() {
    let g = g1_generator();
    for i in 0..64 {
        let mut bad = g;
        bad[i] ^= 0x01;
        assert!(!g1_is_on_curve(&bad), "flipping byte {i} was not caught");
    }
}

#[test]
fn a_coordinate_above_p_is_rejected_not_reduced() {
    let mut bad = g2_generator();
    bad[0] = 0xff;
    assert!(!g2_coords_reduced(&bad));
    assert!(!g2_is_on_curve(&bad));
    let mut bad1 = g1_generator();
    bad1[0] = 0xff;
    assert!(!g1_coords_reduced(&bad1));
}

#[test]
fn generators_have_reduced_coordinates() {
    assert!(g1_coords_reduced(&g1_generator()));
    assert!(g2_coords_reduced(&g2_generator()));
}

#[test]
fn g1_point_two_is_on_the_curve() {
    // The double of the generator (1, 2) on y^2 = x^3 + 3.
    let x: [u8; 32] = [
        0x03, 0x06, 0x44, 0xe7, 0x2e, 0x13, 0x1a, 0x02, 0x9b, 0x85, 0x04, 0x5b, 0x68, 0x18, 0x15, 0x85,
        0xd9, 0x78, 0x16, 0xa9, 0x16, 0x87, 0x1c, 0xa8, 0xd3, 0xc2, 0x08, 0xc1, 0x6d, 0x87, 0xcf, 0xd3,
    ];
    let y: [u8; 32] = [
        0x15, 0xed, 0x73, 0x8c, 0x0e, 0x0a, 0x7c, 0x92, 0xe7, 0x84, 0x5f, 0x96, 0xb2, 0xae, 0x9c, 0x0a,
        0x68, 0xa6, 0xa4, 0x49, 0xe3, 0x53, 0x8f, 0xc7, 0xff, 0x3e, 0xbf, 0x7a, 0x5a, 0x18, 0xa2, 0xc4,
    ];
    let mut point = [0u8; 64];
    point[..32].copy_from_slice(&x);
    point[32..].copy_from_slice(&y);
    assert!(g1_is_on_curve(&point));
}
