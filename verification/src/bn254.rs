//! BN254 point validation.
//!
//! G1 points need only a range check before the host's own curve check; G2
//! has no host function, so its curve equation `y^2 = x^3 + b'` over
//! `Fp[u] / (u^2 + 1)` is checked here. Multiplication is Montgomery's
//! (CIOS); the curve checks never convert into Montgomery form: a Montgomery
//! product of plain values is `a * b * R^-1`, so both sides of the curve
//! equation come out scaled by `R^-2` and `b` is precomputed at that scale.
//!
//! Byte layouts: G1 is `be(x) || be(y)`, G2 is
//! `be(x.c1) || be(x.c0) || be(y.c1) || be(y.c0)`, and all-zero bytes encode
//! the point at infinity.
use vstd::prelude::*;

verus! {

/// A base field element as four little-endian 64-bit limbs.
pub type Fp = [u64; 4];

/// The base field modulus `p`.
pub const P: Fp = [0x3c20_8c16_d87c_fd47, 0x9781_6a91_6871_ca8d, 0xb850_45b6_8181_585d, 0x3064_4e72_e131_a029];

/// `-p^-1 mod 2^64`, the Montgomery reduction constant.
pub const INV: u64 = 0x87d2_0782_e486_6389;

/// `3 * R^-2 mod p`, where `R = 2^256`: G1's `b` at the scale of the curve
/// check.
pub const B1_SCALED: Fp = [0xe22a_a9ce_bba9_97e1, 0xefe1_e706_9e50_25a2, 0x2fa2_a82e_82e9_2ead, 0x2a84_6dad_38ab_a7a8];

/// Real part of `b' * R^-2 mod p`, where `b' = 3 / (9 + u)` is the G2 twist
/// constant.
pub const B2_SCALED_C0: Fp = [0xa722_0635_da39_3c03, 0x928e_0ead_353d_8653, 0x1ad4_d0e2_4534_4f6a, 0x0b28_7a76_b729_1b66];

/// Imaginary part of `b' * R^-2 mod p`.
pub const B2_SCALED_C1: Fp = [0xc1e7_01ff_17dc_86f3, 0x9f9b_327e_d867_c8c0, 0x0988_6a0f_6a6c_43b3, 0x0983_920c_5694_aec5];

/// One, for scaling a Montgomery product down once more.
pub const ONE: Fp = [1, 0, 0, 0];

/// Zero.
pub const ZERO: Fp = [0, 0, 0, 0];

/// An element of the quadratic extension `Fp[u] / (u^2 + 1)`: `c0 + c1 * u`.
#[derive(Clone, Copy, PartialEq, Eq, Debug)]
pub struct Fp2 {
    pub c0: Fp,
    pub c1: Fp,
}

/// `2^64`.
pub open spec fn base() -> int {
    0x1_0000_0000_0000_0000int
}

/// `2^128`.
pub open spec fn base2() -> int {
    0x1_0000_0000_0000_0000_0000_0000_0000_0000int
}

/// `2^192`.
pub open spec fn base3() -> int {
    0x1_0000_0000_0000_0000_0000_0000_0000_0000_0000_0000_0000_0000int
}

/// `2^320`.
pub open spec fn base5() -> int {
    0x1_0000_0000_0000_0000_0000_0000_0000_0000_0000_0000_0000_0000_0000_0000_0000_0000_0000_0000_0000_0000int
}

/// `R = 2^256`.
pub open spec fn r_int() -> int {
    0x1_0000_0000_0000_0000_0000_0000_0000_0000_0000_0000_0000_0000_0000_0000_0000_0000int
}

/// The modulus `p` as an integer.
pub open spec fn p_int() -> int {
    0x30644e72e131a029b85045b68181585d97816a916871ca8d3c208c16d87cfd47int
}

/// The integer value of four little-endian limbs.
pub open spec fn fp_val(a: Fp) -> int {
    a@[0] + a@[1] * base() + a@[2] * base2() + a@[3] * base3()
}

/// `x` is a reduced field element.
pub open spec fn reduced(a: Fp) -> bool {
    fp_val(a) < p_int()
}

proof fn lemma_fp_val_bounds(a: Fp)
    ensures
        0 <= fp_val(a) < r_int(),
{
}

proof fn lemma_constants()
    ensures
        fp_val(P) == p_int(),
        fp_val(ONE) == 1,
        fp_val(ZERO) == 0,
        reduced(B1_SCALED),
        reduced(B2_SCALED_C0),
        reduced(B2_SCALED_C1),
{
}

/// `a >= b`, comparing from the most significant limb.
pub fn geq(a: &Fp, b: &Fp) -> (r: bool)
    ensures
        r == (fp_val(*a) >= fp_val(*b)),
{
    if a[3] != b[3] {
        return a[3] > b[3];
    }
    if a[2] != b[2] {
        return a[2] > b[2];
    }
    if a[1] != b[1] {
        return a[1] > b[1];
    }
    if a[0] != b[0] {
        return a[0] > b[0];
    }
    true
}

fn sub_limb(x: u64, y: u64, borrow: u64) -> (r: (u64, u64))
    requires
        borrow <= 1,
    ensures
        r.1 <= 1,
        r.0 - r.1 * base() == x - y - borrow,
{
    let t: i128 = x as i128 - y as i128 - borrow as i128;
    if t < 0 {
        ((t + 0x1_0000_0000_0000_0000i128) as u64, 1)
    } else {
        (t as u64, 0)
    }
}

fn add_limb(x: u64, y: u64, carry: u64) -> (r: (u64, u64))
    requires
        carry <= 1,
    ensures
        r.1 <= 1,
        r.0 + r.1 * base() == x + y + carry,
{
    let t: u128 = x as u128 + y as u128 + carry as u128;
    if t >= 0x1_0000_0000_0000_0000u128 {
        ((t - 0x1_0000_0000_0000_0000u128) as u64, 1)
    } else {
        (t as u64, 0)
    }
}

/// The difference of two limb values, wrapping modulo `2^256`.
pub open spec fn wrapping_diff(a: int, b: int) -> int {
    if a >= b { a - b } else { a - b + r_int() }
}

/// `a - b`, wrapping modulo `2^256` (exact when `a >= b`).
pub fn sub_raw(a: &Fp, b: &Fp) -> (r: Fp)
    ensures
        fp_val(r) == wrapping_diff(fp_val(*a), fp_val(*b)),
{
    let (d0, b0) = sub_limb(a[0], b[0], 0);
    let (d1, b1) = sub_limb(a[1], b[1], b0);
    let (d2, b2) = sub_limb(a[2], b[2], b1);
    let (d3, b3) = sub_limb(a[3], b[3], b2);
    let out: Fp = [d0, d1, d2, d3];
    assert(fp_val(out) - b3 * r_int() == fp_val(*a) - fp_val(*b));
    proof {
        lemma_fp_val_bounds(out);
        lemma_fp_val_bounds(*a);
        lemma_fp_val_bounds(*b);
    }
    out
}

/// What [`add_mod`] computes: the 256-bit sum, reduced once by `p`.
pub open spec fn add_mod_result(a: int, b: int) -> int {
    let s = (a + b) % r_int();
    if s >= p_int() { s - p_int() } else { s }
}

/// `(a + b) mod p`, for `a, b < p` (the sum then never carries out of the
/// top limb).
pub fn add_mod(a: &Fp, b: &Fp) -> (r: Fp)
    ensures
        fp_val(r) == add_mod_result(fp_val(*a), fp_val(*b)),
        reduced(*a) && reduced(*b) ==> fp_val(r) == (fp_val(*a) + fp_val(*b)) % p_int(),
        reduced(*a) && reduced(*b) ==> reduced(r),
{
    let (s0, c0) = add_limb(a[0], b[0], 0);
    let (s1, c1) = add_limb(a[1], b[1], c0);
    let (s2, c2) = add_limb(a[2], b[2], c1);
    let (s3, c3) = add_limb(a[3], b[3], c2);
    let out: Fp = [s0, s1, s2, s3];
    proof {
        lemma_fp_val_bounds(out);
        lemma_fp_val_bounds(*a);
        lemma_fp_val_bounds(*b);
        lemma_constants();
        assert(fp_val(out) + c3 * r_int() == fp_val(*a) + fp_val(*b));
        assert(fp_val(out) == (fp_val(*a) + fp_val(*b)) % r_int()) by {
            vstd::arithmetic::div_mod::lemma_fundamental_div_mod_converse(
                fp_val(*a) + fp_val(*b),
                r_int(),
                c3 as int,
                fp_val(out),
            );
        }
    }
    let p = P;
    if geq(&out, &p) {
        sub_raw(&out, &p)
    } else {
        out
    }
}

/// What [`sub_mod`] computes.
pub open spec fn sub_mod_result(a: int, b: int) -> int {
    if a >= b { a - b } else { wrapping_diff(p_int(), b - a) }
}

/// `(a - b) mod p`, for `a, b < p`.
pub fn sub_mod(a: &Fp, b: &Fp) -> (r: Fp)
    ensures
        fp_val(r) == sub_mod_result(fp_val(*a), fp_val(*b)),
        reduced(*a) && reduced(*b) ==> fp_val(r) == (fp_val(*a) - fp_val(*b)) % p_int(),
        reduced(*a) && reduced(*b) ==> reduced(r),
{
    proof {
        lemma_constants();
        lemma_fp_val_bounds(*a);
        lemma_fp_val_bounds(*b);
    }
    if geq(a, b) {
        let r = sub_raw(a, b);
        proof {
            if reduced(*a) && reduced(*b) {
                vstd::arithmetic::div_mod::lemma_small_mod((fp_val(*a) - fp_val(*b)) as nat, p_int() as nat);
            }
        }
        r
    } else {
        let d = sub_raw(b, a);
        let p = P;
        let r = sub_raw(&p, &d);
        proof {
            if reduced(*a) && reduced(*b) {
                vstd::arithmetic::div_mod::lemma_fundamental_div_mod_converse(
                    fp_val(*a) - fp_val(*b),
                    p_int(),
                    -1,
                    fp_val(r),
                );
            }
        }
        r
    }
}

/// The big-endian value of the eight bytes of `b` at `at`.
pub open spec fn be_u64(b: Seq<u8>, at: int) -> int {
    b[at] * 0x100_0000_0000_0000 + b[at + 1] * 0x1_0000_0000_0000 + b[at + 2] * 0x100_0000_0000
        + b[at + 3] * 0x1_0000_0000 + b[at + 4] * 0x100_0000 + b[at + 5] * 0x1_0000 + b[at + 6]
        * 0x100 + b[at + 7]
}

/// The big-endian value of the 32 bytes of `b` at `at`.
#[verifier::opaque]
pub open spec fn be_u256(b: Seq<u8>, at: int) -> int {
    be_u64(b, at) * base3() + be_u64(b, at + 8) * base2() + be_u64(b, at + 16) * base() + be_u64(
        b,
        at + 24,
    )
}

fn be_word(b: &[u8], at: usize) -> (r: u64)
    requires
        at + 8 <= b@.len(),
    ensures
        r == be_u64(b@, at as int),
{
    let mut w: u64 = b[at] as u64;
    w = w * 256 + b[at + 1] as u64;
    w = w * 256 + b[at + 2] as u64;
    w = w * 256 + b[at + 3] as u64;
    w = w * 256 + b[at + 4] as u64;
    w = w * 256 + b[at + 5] as u64;
    w = w * 256 + b[at + 6] as u64;
    w = w * 256 + b[at + 7] as u64;
    w
}

/// Read 32 big-endian bytes at `at` as a field element, or `None` if they
/// are not a reduced value below `p` (rejected rather than reduced).
pub fn fp_from_be_at(bytes: &[u8], at: usize) -> (r: Option<Fp>)
    requires
        at + 32 <= bytes@.len(),
    ensures
        be_u256(bytes@, at as int) < p_int() <==> r is Some,
        r matches Some(v) ==> fp_val(v) == be_u256(bytes@, at as int),
{
    let n: usize = bytes.len();
    assert(at + 32 <= n);
    let out: Fp = [be_word(bytes, at + 24), be_word(bytes, at + 16), be_word(bytes, at + 8), be_word(bytes, at)];
    assert(fp_val(out) == be_u256(bytes@, at as int)) by {
        reveal(be_u256);
    }
    proof {
        lemma_constants();
    }
    let p = P;
    if geq(&out, &p) {
        None
    } else {
        Some(out)
    }
}

/// Read 32 big-endian bytes as a field element, or `None` if they are not a
/// reduced value below `p`.
pub fn fp_from_be(bytes: &[u8]) -> (r: Option<Fp>)
    requires
        bytes@.len() == 32,
    ensures
        be_u256(bytes@, 0) < p_int() <==> r is Some,
        r matches Some(v) ==> fp_val(v) == be_u256(bytes@, 0),
{
    fp_from_be_at(bytes, 0)
}

// ---------------------------------------------------------------------------
// Montgomery multiplication
// ---------------------------------------------------------------------------

/// The value of a five-limb accumulator.
pub open spec fn val5(t: [u64; 5]) -> int {
    t@[0] + t@[1] * base() + t@[2] * base2() + t@[3] * base3() + t@[4] * r_int()
}

proof fn lemma_mul_limb_bound(x: u64, y: u64)
    ensures
        0 <= x * y <= 0xffff_ffff_ffff_ffff * 0xffff_ffff_ffff_ffff,
{
    assert(0 <= x * y <= 0xffff_ffff_ffff_ffff * 0xffff_ffff_ffff_ffff) by (nonlinear_arith)
        requires
            x <= 0xffff_ffff_ffff_ffff,
            y <= 0xffff_ffff_ffff_ffff,
    ;
}

/// `x * y + acc + carry` as a low and a high limb.
fn mac_limb(x: u64, y: u64, acc: u64, carry: u64) -> (r: (u64, u64))
    ensures
        r.0 + r.1 * base() == x * y + acc + carry,
{
    proof {
        lemma_mul_limb_bound(x, y);
    }
    let prod: u128 = (x as u128) * (y as u128) + (acc as u128) + (carry as u128);
    ((prod % 0x1_0000_0000_0000_0000u128) as u64, (prod / 0x1_0000_0000_0000_0000u128) as u64)
}

proof fn lemma_reduction_cancels(t0: u64, m: u64)
    requires
        m == (t0 as nat * INV as nat) % 0x1_0000_0000_0000_0000,
    ensures
        (m * P@[0] + t0) % base() == 0,
{
    let q = (t0 as int * INV as int) / base();
    assert(t0 as int * INV as int == q * base() + m);
    assert(INV as int * P@[0] as int + 1 == 0x1fe67e5698efd0cc * base());
    assert(m * P@[0] + t0 == base() * (t0 * 0x1fe67e5698efd0ccint - q * P@[0])) by (nonlinear_arith)
        requires
            t0 as int * INV as int == q * base() + m,
            INV as int * P@[0] as int + 1 == 0x1fe67e5698efd0cc * base(),
    ;
    vstd::arithmetic::div_mod::lemma_mod_multiples_basic(t0 * 0x1fe67e5698efd0ccint - q * P@[0], base());
    assert(base() * (t0 * 0x1fe67e5698efd0ccint - q * P@[0]) == (t0 * 0x1fe67e5698efd0ccint - q * P@[0])
        * base()) by (nonlinear_arith);
}

proof fn lemma_distribute4(a: Fp, bi: u64)
    ensures
        fp_val(a) * bi == a@[0] * bi + (a@[1] * bi) * base() + (a@[2] * bi) * base2() + (a@[3] * bi)
            * base3(),
{
    assert(fp_val(a) * bi == a@[0] * bi + (a@[1] * bi) * base() + (a@[2] * bi) * base2() + (a@[3]
        * bi) * base3()) by (nonlinear_arith);
}

proof fn lemma_round_bound(t: int, va: int, bi: int, m: int, t2: int)
    requires
        0 <= t < 2 * p_int(),
        0 <= va < p_int(),
        0 <= bi < base(),
        0 <= m < base(),
        t2 * base() == t + va * bi + m * p_int(),
    ensures
        t2 < 2 * p_int(),
{
    assert(va * bi <= (p_int() - 1) * (base() - 1)) by (nonlinear_arith)
        requires
            0 <= va < p_int(),
            0 <= bi < base(),
    ;
    assert(m * p_int() <= (base() - 1) * p_int()) by (nonlinear_arith)
        requires
            0 <= m < base(),
    ;
    let c1 = (p_int() - 1) * (base() - 1);
    let c2 = (base() - 1) * p_int();
    assert(2 * p_int() - 1 + c1 + c2 < 2 * p_int() * base()) by (nonlinear_arith)
        requires
            c1 == (p_int() - 1) * (base() - 1),
            c2 == (base() - 1) * p_int(),
    ;
    assert(t2 * base() < 2 * p_int() * base());
    assert(t2 < 2 * p_int()) by (nonlinear_arith)
        requires
            t2 * base() < 2 * p_int() * base(),
            base() > 0,
    ;
}

/// One round of CIOS: `(t + a * bi + m * p) / 2^64`, with `m` chosen so the
/// low limb cancels.
fn mont_round(a: &Fp, bi: u64, t: [u64; 5]) -> (r: ([u64; 5], Ghost<int>))
    requires
        reduced(*a),
        val5(t) < 2 * p_int(),
    ensures
        0 <= r.1@ < base(),
        val5(r.0) * base() == val5(t) + fp_val(*a) * bi + r.1@ * p_int(),
        val5(r.0) < 2 * p_int(),
{
    let (x0, c) = mac_limb(a[0], bi, t[0], 0);
    let (x1, c) = mac_limb(a[1], bi, t[1], c);
    let (x2, c) = mac_limb(a[2], bi, t[2], c);
    let (x3, c) = mac_limb(a[3], bi, t[3], c);
    let sum: u128 = t[4] as u128 + c as u128;
    let x4: u64 = (sum % 0x1_0000_0000_0000_0000u128) as u64;
    let x5: u64 = (sum / 0x1_0000_0000_0000_0000u128) as u64;
    let ghost xv = x0 + x1 * base() + x2 * base2() + x3 * base3() + x4 * r_int() + x5 * base5();
    proof {
        lemma_distribute4(*a, bi);
        assert(x4 + x5 * base() == t@[4] + c);
        assert(xv == val5(t) + fp_val(*a) * bi);
    }
    let m: u64 = x0.wrapping_mul(INV);
    proof {
        lemma_reduction_cancels(x0, m);
    }
    let prod: u128 = (m as u128) * (P[0] as u128) + (x0 as u128);
    let c: u64 = (prod / 0x1_0000_0000_0000_0000u128) as u64;
    assert(c * base() == m * P@[0] + x0);
    let (y0, c) = mac_limb(m, P[1], x1, c);
    let (y1, c) = mac_limb(m, P[2], x2, c);
    let (y2, c) = mac_limb(m, P[3], x3, c);
    let sum2: u128 = x4 as u128 + c as u128;
    let y3: u64 = (sum2 % 0x1_0000_0000_0000_0000u128) as u64;
    let hi: u64 = (sum2 / 0x1_0000_0000_0000_0000u128) as u64;
    let y4: u64 = x5 + hi;
    let out: [u64; 5] = [y0, y1, y2, y3, y4];
    proof {
        lemma_constants();
        assert(val5(out) * base() == xv + m * p_int());
        lemma_round_bound(val5(t), fp_val(*a), bi as int, m as int, val5(out));
    }
    (out, Ghost(m as int))
}

/// `B^i` for the first five limb positions.
pub open spec fn limb_pow(i: int) -> int {
    if i == 0 {
        1
    } else if i == 1 {
        base()
    } else if i == 2 {
        base2()
    } else if i == 3 {
        base3()
    } else {
        r_int()
    }
}

/// The value of the first `i` limbs of `b`.
pub open spec fn limb_prefix(b: Fp, i: int) -> int {
    if i <= 0 {
        0
    } else if i == 1 {
        b@[0] as int
    } else if i == 2 {
        b@[0] + b@[1] * base()
    } else if i == 3 {
        b@[0] + b@[1] * base() + b@[2] * base2()
    } else {
        fp_val(b)
    }
}

proof fn lemma_round_step(t: int, t2: int, va: int, bi: int, m: int, bval: int, bpow: int, k: int)
    requires
        t2 * base() == t + va * bi + m * p_int(),
        t * bpow == va * bval + k * p_int(),
    ensures
        t2 * (bpow * base()) == va * (bval + bi * bpow) + (k + m * bpow) * p_int(),
{
    assert(t2 * (bpow * base()) == va * (bval + bi * bpow) + (k + m * bpow) * p_int()) by (nonlinear_arith)
        requires
            t2 * base() == t + va * bi + m * p_int(),
            t * bpow == va * bval + k * p_int(),
    ;
}

/// `lhs` and `rhs` differ by `k` multiples of `p`.
pub open spec fn differ_by(lhs: int, rhs: int, k: int) -> bool {
    lhs == rhs + k * p_int()
}

/// `x * R ≡ a * b (mod p)` with `x` reduced: `x = a * b * R^-1 mod p`.
pub open spec fn is_mont_product(x: int, a: int, b: int) -> bool {
    0 <= x < p_int() && exists|k: int| #[trigger] differ_by(x * r_int(), a * b, k)
}

/// `a * b * R^-1 mod p`, for `a < p`: Montgomery multiplication (CIOS).
///
/// `p < 2^254` leaves two spare bits, so the running total stays below `2p`,
/// fits in four limbs, and one conditional subtraction finishes the
/// reduction.
pub fn mont_mul(a: &Fp, b: &Fp) -> (r: Fp)
    requires
        reduced(*a),
    ensures
        reduced(r),
        is_mont_product(fp_val(r), fp_val(*a), fp_val(*b)),
{
    let mut t: [u64; 5] = [0, 0, 0, 0, 0];
    let ghost mut k: int = 0;
    let mut i: usize = 0;
    while i < 4
        invariant
            i <= 4,
            reduced(*a),
            val5(t) < 2 * p_int(),
            val5(t) * limb_pow(i as int) == fp_val(*a) * limb_prefix(*b, i as int) + k * p_int(),
        decreases 4 - i,
    {
        let bi = b[i];
        let (nt, Ghost(m)) = mont_round(a, bi, t);
        proof {
            lemma_round_step(
                val5(t),
                val5(nt),
                fp_val(*a),
                bi as int,
                m,
                limb_prefix(*b, i as int),
                limb_pow(i as int),
                k,
            );
            assert(limb_pow(i as int) * base() == limb_pow(i + 1));
            assert(limb_prefix(*b, i as int) + bi * limb_pow(i as int) == limb_prefix(*b, i + 1));
            k = k + m * limb_pow(i as int);
        }
        t = nt;
        i = i + 1;
    }
    proof {
        lemma_constants();
    }
    let out: Fp = [t[0], t[1], t[2], t[3]];
    assert(fp_val(out) == val5(t));
    let p = P;
    if geq(&out, &p) {
        let r = sub_raw(&out, &p);
        assert(differ_by(fp_val(r) * r_int(), fp_val(*a) * fp_val(*b), k - r_int()));
        r
    } else {
        assert(differ_by(fp_val(out) * r_int(), fp_val(*a) * fp_val(*b), k));
        out
    }
}

// ---------------------------------------------------------------------------
// The quadratic extension
// ---------------------------------------------------------------------------

/// Both parts of an extension element are reduced.
pub open spec fn fp2_reduced(a: Fp2) -> bool {
    reduced(a.c0) && reduced(a.c1)
}

/// The product `(a0 + a1 u)(b0 + b1 u)` over the integers, with `u^2 = -1`.
pub open spec fn fp2_mul_int(a0: int, a1: int, b0: int, b1: int) -> (int, int) {
    (a0 * b0 - a1 * b1, a0 * b1 + a1 * b0)
}

/// Componentwise `(a + b) mod p`.
pub fn fp2_add(a: &Fp2, b: &Fp2) -> (r: Fp2)
    requires
        fp2_reduced(*a),
        fp2_reduced(*b),
    ensures
        fp2_reduced(r),
        fp_val(r.c0) == (fp_val(a.c0) + fp_val(b.c0)) % p_int(),
        fp_val(r.c1) == (fp_val(a.c1) + fp_val(b.c1)) % p_int(),
{
    Fp2 { c0: add_mod(&a.c0, &b.c0), c1: add_mod(&a.c1, &b.c1) }
}

proof fn lemma_mont_witness(x: int, a: int, b: int) -> (k: int)
    requires
        is_mont_product(x, a, b),
    ensures
        x * r_int() == a * b + k * p_int(),
{
    choose|k: int| #[trigger] differ_by(x * r_int(), a * b, k)
}

/// `(a0 + a1 u)(b0 + b1 u) R^-1`: each part of the product scaled by
/// `R^-1`.
pub fn fp2_mont_mul(a: &Fp2, b: &Fp2) -> (r: Fp2)
    requires
        fp2_reduced(*a),
        fp2_reduced(*b),
    ensures
        fp2_reduced(r),
        exists|k: int|
            #[trigger] differ_by(
                fp_val(r.c0) * r_int(),
                fp2_mul_int(fp_val(a.c0), fp_val(a.c1), fp_val(b.c0), fp_val(b.c1)).0,
                k,
            ),
        exists|k: int|
            #[trigger] differ_by(
                fp_val(r.c1) * r_int(),
                fp2_mul_int(fp_val(a.c0), fp_val(a.c1), fp_val(b.c0), fp_val(b.c1)).1,
                k,
            ),
{
    let a0b0 = mont_mul(&a.c0, &b.c0);
    let a1b1 = mont_mul(&a.c1, &b.c1);
    let a0b1 = mont_mul(&a.c0, &b.c1);
    let a1b0 = mont_mul(&a.c1, &b.c0);
    let r = Fp2 { c0: sub_mod(&a0b0, &a1b1), c1: add_mod(&a0b1, &a1b0) };
    proof {
        let k1 = lemma_mont_witness(fp_val(a0b0), fp_val(a.c0), fp_val(b.c0));
        let k2 = lemma_mont_witness(fp_val(a1b1), fp_val(a.c1), fp_val(b.c1));
        let k3 = lemma_mont_witness(fp_val(a0b1), fp_val(a.c0), fp_val(b.c1));
        let k4 = lemma_mont_witness(fp_val(a1b0), fp_val(a.c1), fp_val(b.c0));
        let d0 = fp_val(a0b0) - fp_val(a1b1);
        let q0 = (d0 - fp_val(r.c0)) / p_int();
        assert(fp_val(r.c0) == d0 % p_int());
        assert(d0 == q0 * p_int() + fp_val(r.c0));
        assert(differ_by(fp_val(r.c0) * r_int(), fp2_mul_int(fp_val(a.c0), fp_val(a.c1), fp_val(b.c0), fp_val(b.c1)).0,
            k1 - k2 - q0 * r_int()));
        let d1 = fp_val(a0b1) + fp_val(a1b0);
        let q1 = (d1 - fp_val(r.c1)) / p_int();
        assert(fp_val(r.c1) == d1 % p_int());
        assert(d1 == q1 * p_int() + fp_val(r.c1));
        assert(differ_by(fp_val(r.c1) * r_int(), fp2_mul_int(fp_val(a.c0), fp_val(a.c1), fp_val(b.c0), fp_val(b.c1)).1,
            k3 + k4 - q1 * r_int()));
    }
    r
}

// ---------------------------------------------------------------------------
// Curve checks
// ---------------------------------------------------------------------------

/// Every byte is zero (the encoding of the point at infinity).
pub open spec fn all_zero(b: Seq<u8>) -> bool {
    forall|i: int| 0 <= i < b.len() ==> b[i] == 0
}

/// `(x, y)` satisfies `y^2 = x^3 + 3` modulo `p`.
pub open spec fn on_g1_curve(x: int, y: int) -> bool {
    (y * y - x * x * x - 3) % p_int() == 0
}

/// A Soroban-encoded G1 point is the point at infinity, or has reduced
/// coordinates on `y^2 = x^3 + 3`.
pub open spec fn spec_g1_is_on_curve(b: Seq<u8>) -> bool {
    all_zero(b) || (be_u256(b, 0) < p_int() && be_u256(b, 32) < p_int() && on_g1_curve(
        be_u256(b, 0),
        be_u256(b, 32),
    ))
}

/// The real part of the G2 twist constant `b' = 3 / (9 + u)`.
pub open spec fn twist_b0() -> int {
    0x2b149d40ceb8aaae81be18991be06ac3b5b4c5e559dbefa33267e6dc24a138e5int
}

/// The imaginary part of the G2 twist constant `b' = 3 / (9 + u)`.
pub open spec fn twist_b1() -> int {
    0x9713b03af0fed4cd2cafadeed8fdf4a74fa084e52d1852e4a2bd0685c315d2int
}

/// `x = x0 + x1 u`, `y = y0 + y1 u` satisfies `y^2 = x^3 + b'` modulo `p`.
pub open spec fn on_g2_curve(x0: int, x1: int, y0: int, y1: int) -> bool {
    let y2 = fp2_mul_int(y0, y1, y0, y1);
    let x2 = fp2_mul_int(x0, x1, x0, x1);
    let x3 = fp2_mul_int(x2.0, x2.1, x0, x1);
    &&& (y2.0 - x3.0 - twist_b0()) % p_int() == 0
    &&& (y2.1 - x3.1 - twist_b1()) % p_int() == 0
}

/// A Soroban-encoded G2 point (`x.c1, x.c0, y.c1, y.c0`) is the point at
/// infinity, or has reduced coordinates on `y^2 = x^3 + b'`.
pub open spec fn spec_g2_is_on_curve(b: Seq<u8>) -> bool {
    all_zero(b) || (be_u256(b, 0) < p_int() && be_u256(b, 32) < p_int() && be_u256(b, 64) < p_int()
        && be_u256(b, 96) < p_int() && on_g2_curve(
        be_u256(b, 32),
        be_u256(b, 0),
        be_u256(b, 96),
        be_u256(b, 64),
    ))
}

fn all_zero_bytes(b: &[u8]) -> (r: bool)
    ensures
        r == all_zero(b@),
{
    let mut i: usize = 0;
    while i < b.len()
        invariant
            i <= b@.len(),
            forall|k: int| 0 <= k < i ==> b@[k] == 0,
        decreases b@.len() - i,
    {
        if b[i] != 0 {
            return false;
        }
        i = i + 1;
    }
    true
}

fn fp_eq(a: &Fp, b: &Fp) -> (r: bool)
    ensures
        r == (fp_val(*a) == fp_val(*b)),
{
    geq(a, b) && geq(b, a)
}

proof fn lemma_cancel_r2(d: int, e: int, s: int)
    requires
        -p_int() < d < p_int(),
        d * (r_int() * r_int()) == e + s * p_int(),
    ensures
        (d == 0) <==> (e % p_int() == 0),
{
    let p = p_int();
    let rr = r_int() * r_int();
    let kk = 0xe2c248f12e3e28d6536380f80f864e4a54b4d0234c561e0f60e389a3e8ddd4bint;
    let j2 = 0x4af96b7d0c1cfe90c2aead8e06b4a189753a51b25bdf0b13938d9320a4ad2c6ff57a22b791888c6bd8afcbd01833da809ede7d651eca6ac987d20782e4866389int;
    assert(rr * kk == 1 + j2 * p) by (nonlinear_arith)
        requires
            rr == r_int() * r_int(),
            p == p_int(),
            kk == 0xe2c248f12e3e28d6536380f80f864e4a54b4d0234c561e0f60e389a3e8ddd4bint,
            j2 == 0x4af96b7d0c1cfe90c2aead8e06b4a189753a51b25bdf0b13938d9320a4ad2c6ff57a22b791888c6bd8afcbd01833da809ede7d651eca6ac987d20782e4866389int,
    ;
    if d == 0 {
        assert(e == (-s) * p);
        vstd::arithmetic::div_mod::lemma_mod_multiples_basic(-s, p);
    }
    if e % p == 0 {
        let q = e / p;
        assert(e == p * q + e % p) by {
            vstd::arithmetic::div_mod::lemma_fundamental_div_mod(e, p);
        }
        let big = (q + s) * kk - d * j2;
        assert(d == p * big) by (nonlinear_arith)
            requires
                d * rr == e + s * p,
                e == p * q,
                rr * kk == 1 + j2 * p,
                big == (q + s) * kk - d * j2,
        ;
        if big > 0 {
            assert(p * big >= p) by (nonlinear_arith)
                requires
                    big > 0,
                    p > 0,
            ;
        } else if big < 0 {
            assert(p * big <= -p) by (nonlinear_arith)
                requires
                    big < 0,
                    p > 0,
            ;
        }
    }
}

proof fn lemma_times_r(a: int, b: int, c: int, k: int, x: int)
    requires
        a * r_int() == b * c + k * p_int(),
    ensures
        (a * x) * r_int() == (b * c) * x + (k * x) * p_int(),
{
    assert((a * x) * r_int() == (b * c) * x + (k * x) * p_int()) by (nonlinear_arith)
        requires
            a * r_int() == b * c + k * p_int(),
    ;
}

proof fn lemma_g1_equation(x: int, y: int, y2: int, lhs: int, x2: int, x3: int, rhs: int)
    requires
        0 <= lhs < p_int(),
        0 <= rhs < p_int(),
        is_mont_product(y2, y, y),
        is_mont_product(lhs, y2, 1),
        is_mont_product(x2, x, x),
        is_mont_product(x3, x2, x),
        rhs == (x3 + fp_val(B1_SCALED)) % p_int(),
    ensures
        (lhs == rhs) <==> on_g1_curve(x, y),
{
    let p = p_int();
    let r = r_int();
    let k1 = lemma_mont_witness(y2, y, y);
    let k2 = lemma_mont_witness(lhs, y2, 1);
    let k3 = lemma_mont_witness(x2, x, x);
    let k4 = lemma_mont_witness(x3, x2, x);
    let b1 = fp_val(B1_SCALED);
    let j = 0xe0ec42772456fbb2480c08aa141de49c5faef517139d213abaa8b961ee07854fe06e6826b499a5438a0f6370489b8f81dc9b782f5c5f405c97761688ad932a9bint;
    assert(b1 * (r * r) == 3 + j * p) by (nonlinear_arith)
        requires
            b1 == 0x2a846dad38aba7a82fa2a82e82e92eadefe1e7069e5025a2e22aa9cebba997e1int,
            r == r_int(),
            p == p_int(),
            j == 0xe0ec42772456fbb2480c08aa141de49c5faef517139d213abaa8b961ee07854fe06e6826b499a5438a0f6370489b8f81dc9b782f5c5f405c97761688ad932a9bint,
    ;
    lemma_constants();
    let delta: int = if x3 + b1 >= p { 1 } else { 0 };
    assert(rhs == x3 + b1 - delta * p);
    let rr = r * r;
    assert(lhs * rr == y * y + (k1 + k2 * r) * p) by (nonlinear_arith)
        requires
            y2 * r == y * y + k1 * p,
            lhs * r == y2 * 1 + k2 * p,
            rr == r * r,
    ;
    assert(x3 * rr == (x2 * x) * r + (k4 * r) * p) by (nonlinear_arith)
        requires
            x3 * r == x2 * x + k4 * p,
            rr == r * r,
    ;
    assert((x2 * x) * r == x * x * x + (x * k3) * p) by (nonlinear_arith)
        requires
            x2 * r == x * x + k3 * p,
    ;
    assert((x * k3 + k4 * r) * p == (x * k3) * p + (k4 * r) * p) by (nonlinear_arith);
    assert(x3 * rr == x * x * x + (x * k3 + k4 * r) * p);
    assert(rhs * rr == x3 * rr + b1 * rr - (delta * rr) * p) by (nonlinear_arith)
        requires
            rhs == x3 + b1 - delta * p,
    ;
    let s = (k1 + k2 * r) - (x * k3 + k4 * r) - j + delta * rr;
    assert(s * p == (k1 + k2 * r) * p - (x * k3 + k4 * r) * p - j * p + (delta * rr) * p) by (nonlinear_arith)
        requires
            s == (k1 + k2 * r) - (x * k3 + k4 * r) - j + delta * rr,
    ;
    assert((lhs - rhs) * rr == lhs * rr - rhs * rr) by (nonlinear_arith);
    assert((lhs - rhs) * rr == (y * y - x * x * x - 3) + s * p);
    lemma_cancel_r2(lhs - rhs, y * y - x * x * x - 3, s);
}

/// True if a Soroban-encoded G1 point is on `y^2 = x^3 + 3` (or is the point
/// at infinity).
pub fn g1_is_on_curve(bytes: &[u8; 64]) -> (r: bool)
    ensures
        r == spec_g1_is_on_curve(bytes@),
{
    if all_zero_bytes(bytes.as_slice()) {
        return true;
    }
    let x = match fp_from_be_at(bytes.as_slice(), 0) {
        Some(v) => v,
        None => {
            return false;
        },
    };
    let y = match fp_from_be_at(bytes.as_slice(), 32) {
        Some(v) => v,
        None => {
            return false;
        },
    };
    proof {
        lemma_constants();
    }
    let one = ONE;
    let b1 = B1_SCALED;
    let y2 = mont_mul(&y, &y);
    let lhs = mont_mul(&y2, &one);
    let x2 = mont_mul(&x, &x);
    let x3 = mont_mul(&x2, &x);
    let rhs = add_mod(&x3, &b1);
    proof {
        lemma_g1_equation(fp_val(x), fp_val(y), fp_val(y2), fp_val(lhs), fp_val(x2), fp_val(x3), fp_val(rhs));
    }
    fp_eq(&lhs, &rhs)
}

proof fn lemma_witness(lhs: int, rhs: int) -> (k: int)
    requires
        exists|k: int| #[trigger] differ_by(lhs, rhs, k),
    ensures
        lhs == rhs + k * p_int(),
{
    choose|k: int| #[trigger] differ_by(lhs, rhs, k)
}

/// One part of the G2 equation: with `l * R^2 = yv + ly p`,
/// `x3 * R = (u * xa - v * xb) + kx p` (the sign of `v` given by `sv`),
/// `u * R = ua + ku p` and `w * R = va + kv p`, the difference of the two
/// sides times `R^2` is `yv - (ua * xa + sv * va * xb) - bconst` plus a
/// multiple of `p`.
proof fn lemma_g2_part(
    l: int,
    rhs: int,
    yv: int,
    ly: int,
    x3: int,
    kx: int,
    u: int,
    ku: int,
    ua: int,
    w: int,
    kv: int,
    va: int,
    xa: int,
    xb: int,
    sv: int,
    bs: int,
    bconst: int,
    jb: int,
) -> (s: int)
    requires
        l * (r_int() * r_int()) == yv + ly * p_int(),
        x3 * r_int() == (u * xa + sv * (w * xb)) + kx * p_int(),
        u * r_int() == ua + ku * p_int(),
        w * r_int() == va + kv * p_int(),
        bs * (r_int() * r_int()) == bconst + jb * p_int(),
        0 <= x3 < p_int(),
        0 <= bs < p_int(),
        rhs == (x3 + bs) % p_int(),
    ensures
        (l - rhs) * (r_int() * r_int()) == (yv - (ua * xa + sv * (va * xb)) - bconst) + s * p_int(),
{
    let p = p_int();
    let r = r_int();
    let rr = r * r;
    let delta: int = if x3 + bs >= p { 1 } else { 0 };
    assert(rhs == x3 + bs - delta * p);
    assert(x3 * rr == (u * xa + sv * (w * xb)) * r + (kx * r) * p) by (nonlinear_arith)
        requires
            x3 * r == (u * xa + sv * (w * xb)) + kx * p,
            rr == r * r,
    ;
    assert((u * xa + sv * (w * xb)) * r == (u * xa) * r + (sv * (w * xb)) * r) by {
        vstd::arithmetic::mul::lemma_mul_is_distributive_add_other_way(r, u * xa, sv * (w * xb));
    }
    assert((u * xa) * r == (u * r) * xa) by (nonlinear_arith);
    assert((sv * (w * xb)) * r == sv * ((w * r) * xb)) by (nonlinear_arith);
    assert((u * r) * xa == ua * xa + (ku * xa) * p) by (nonlinear_arith)
        requires
            u * r == ua + ku * p,
    ;
    assert(sv * ((w * r) * xb) == sv * (va * xb) + (sv * kv * xb) * p) by (nonlinear_arith)
        requires
            w * r == va + kv * p,
    ;
    assert(rhs * rr == x3 * rr + bs * rr - (delta * rr) * p) by (nonlinear_arith)
        requires
            rhs == x3 + bs - delta * p,
    ;
    let s = ly - (kx * r) - (ku * xa) - (sv * kv * xb) - jb + delta * rr;
    assert(s * p == ly * p - (kx * r) * p - (ku * xa) * p - (sv * kv * xb) * p - jb * p + (delta
        * rr) * p) by (nonlinear_arith)
        requires
            s == ly - (kx * r) - (ku * xa) - (sv * kv * xb) - jb + delta * rr,
    ;
    assert((l - rhs) * rr == l * rr - rhs * rr) by (nonlinear_arith);
    s
}

proof fn lemma_g2_equation(x: Fp2, y: Fp2, y2: Fp2, lhs: Fp2, x2: Fp2, x3: Fp2, rhs: Fp2)
    requires
        fp2_reduced(x),
        fp2_reduced(y),
        fp2_reduced(lhs),
        fp2_reduced(x3),
        exists|k: int|
            #[trigger] differ_by(
                fp_val(y2.c0) * r_int(),
                fp2_mul_int(fp_val(y.c0), fp_val(y.c1), fp_val(y.c0), fp_val(y.c1)).0,
                k,
            ),
        exists|k: int|
            #[trigger] differ_by(
                fp_val(y2.c1) * r_int(),
                fp2_mul_int(fp_val(y.c0), fp_val(y.c1), fp_val(y.c0), fp_val(y.c1)).1,
                k,
            ),
        is_mont_product(fp_val(lhs.c0), fp_val(y2.c0), 1),
        is_mont_product(fp_val(lhs.c1), fp_val(y2.c1), 1),
        exists|k: int|
            #[trigger] differ_by(
                fp_val(x2.c0) * r_int(),
                fp2_mul_int(fp_val(x.c0), fp_val(x.c1), fp_val(x.c0), fp_val(x.c1)).0,
                k,
            ),
        exists|k: int|
            #[trigger] differ_by(
                fp_val(x2.c1) * r_int(),
                fp2_mul_int(fp_val(x.c0), fp_val(x.c1), fp_val(x.c0), fp_val(x.c1)).1,
                k,
            ),
        exists|k: int|
            #[trigger] differ_by(
                fp_val(x3.c0) * r_int(),
                fp2_mul_int(fp_val(x2.c0), fp_val(x2.c1), fp_val(x.c0), fp_val(x.c1)).0,
                k,
            ),
        exists|k: int|
            #[trigger] differ_by(
                fp_val(x3.c1) * r_int(),
                fp2_mul_int(fp_val(x2.c0), fp_val(x2.c1), fp_val(x.c0), fp_val(x.c1)).1,
                k,
            ),
        fp_val(rhs.c0) == (fp_val(x3.c0) + fp_val(B2_SCALED_C0)) % p_int(),
        fp_val(rhs.c1) == (fp_val(x3.c1) + fp_val(B2_SCALED_C1)) % p_int(),
    ensures
        (fp_val(lhs.c0) == fp_val(rhs.c0) && fp_val(lhs.c1) == fp_val(rhs.c1)) <==> on_g2_curve(
            fp_val(x.c0),
            fp_val(x.c1),
            fp_val(y.c0),
            fp_val(y.c1),
        ),
{
    let p = p_int();
    let r = r_int();
    lemma_constants();
    let (x0, x1, y0, y1) = (fp_val(x.c0), fp_val(x.c1), fp_val(y.c0), fp_val(y.c1));
    let yy = fp2_mul_int(y0, y1, y0, y1);
    let xx = fp2_mul_int(x0, x1, x0, x1);
    let ky0 = lemma_witness(fp_val(y2.c0) * r, yy.0);
    let ky1 = lemma_witness(fp_val(y2.c1) * r, yy.1);
    let kl0 = lemma_mont_witness(fp_val(lhs.c0), fp_val(y2.c0), 1);
    let kl1 = lemma_mont_witness(fp_val(lhs.c1), fp_val(y2.c1), 1);
    let kx0 = lemma_witness(fp_val(x2.c0) * r, xx.0);
    let kx1 = lemma_witness(fp_val(x2.c1) * r, xx.1);
    let k30 = lemma_witness(
        fp_val(x3.c0) * r,
        fp2_mul_int(fp_val(x2.c0), fp_val(x2.c1), x0, x1).0,
    );
    let k31 = lemma_witness(
        fp_val(x3.c1) * r,
        fp2_mul_int(fp_val(x2.c0), fp_val(x2.c1), x0, x1).1,
    );
    // lhs * R^2 = y^2 + ... p
    assert(fp_val(lhs.c0) * (r * r) == yy.0 + (ky0 + kl0 * r) * p) by (nonlinear_arith)
        requires
            fp_val(y2.c0) * r == yy.0 + ky0 * p,
            fp_val(lhs.c0) * r == fp_val(y2.c0) * 1 + kl0 * p,
    ;
    assert(fp_val(lhs.c1) * (r * r) == yy.1 + (ky1 + kl1 * r) * p) by (nonlinear_arith)
        requires
            fp_val(y2.c1) * r == yy.1 + ky1 * p,
            fp_val(lhs.c1) * r == fp_val(y2.c1) * 1 + kl1 * p,
    ;
    let jc0 = 0x3b07330096b8604ee271b6062dea4e2a237a3a1ea15f4b73b6d41458cc138ea1be189b0a7df7e34f37bd018c52e55dccb1304882138116ac81039853af26018dint;
    let jc1 = 0x3254888e28246713adf35d8d891edadedf9d15fc98bc85d6b2cbfdbd3ea87e5fce6f0b37b91d58856b95aa7ea174bcb05e171463532a8bb3f1aa44687ac2e362int;
    assert(fp_val(B2_SCALED_C0) * (r * r) == twist_b0() + jc0 * p) by (nonlinear_arith)
        requires
            fp_val(B2_SCALED_C0) == 0x0b287a76b7291b661ad4d0e245344f6a928e0ead353d8653a7220635da393c03int,
            r == r_int(),
            p == p_int(),
            jc0 == 0x3b07330096b8604ee271b6062dea4e2a237a3a1ea15f4b73b6d41458cc138ea1be189b0a7df7e34f37bd018c52e55dccb1304882138116ac81039853af26018dint,
    ;
    assert(fp_val(B2_SCALED_C1) * (r * r) == twist_b1() + jc1 * p) by (nonlinear_arith)
        requires
            fp_val(B2_SCALED_C1) == 0x0983920c5694aec509886a0f6a6c43b39f9b327ed867c8c0c1e701ff17dc86f3int,
            r == r_int(),
            p == p_int(),
            jc1 == 0x3254888e28246713adf35d8d891edadedf9d15fc98bc85d6b2cbfdbd3ea87e5fce6f0b37b91d58856b95aa7ea174bcb05e171463532a8bb3f1aa44687ac2e362int,
    ;
    let s0 = lemma_g2_part(
        fp_val(lhs.c0),
        fp_val(rhs.c0),
        yy.0,
        ky0 + kl0 * r,
        fp_val(x3.c0),
        k30,
        fp_val(x2.c0),
        kx0,
        xx.0,
        fp_val(x2.c1),
        kx1,
        xx.1,
        x0,
        x1,
        -1,
        fp_val(B2_SCALED_C0),
        twist_b0(),
        jc0,
    );
    let s1 = lemma_g2_part(
        fp_val(lhs.c1),
        fp_val(rhs.c1),
        yy.1,
        ky1 + kl1 * r,
        fp_val(x3.c1),
        k31,
        fp_val(x2.c0),
        kx0,
        xx.0,
        fp_val(x2.c1),
        kx1,
        xx.1,
        x1,
        x0,
        1,
        fp_val(B2_SCALED_C1),
        twist_b1(),
        jc1,
    );
    lemma_cancel_r2(fp_val(lhs.c0) - fp_val(rhs.c0), yy.0 - (xx.0 * x0 + (-1) * (xx.1 * x1)) - twist_b0(), s0);
    lemma_cancel_r2(fp_val(lhs.c1) - fp_val(rhs.c1), yy.1 - (xx.0 * x1 + 1 * (xx.1 * x0)) - twist_b1(), s1);
    let x3s = fp2_mul_int(xx.0, xx.1, x0, x1);
    assert(x3s.0 == xx.0 * x0 + (-1) * (xx.1 * x1));
    assert(x3s.1 == xx.0 * x1 + 1 * (xx.1 * x0));
}

/// True if a Soroban-encoded G2 point is on `y^2 = x^3 + b'` (or is the
/// point at infinity). Subgroup membership is not checked.
pub fn g2_is_on_curve(bytes: &[u8; 128]) -> (r: bool)
    ensures
        r == spec_g2_is_on_curve(bytes@),
{
    if all_zero_bytes(bytes.as_slice()) {
        return true;
    }
    let p0 = fp_from_be_at(bytes.as_slice(), 0);
    let p1 = fp_from_be_at(bytes.as_slice(), 32);
    let p2 = fp_from_be_at(bytes.as_slice(), 64);
    let p3 = fp_from_be_at(bytes.as_slice(), 96);
    let (x_c1, x_c0, y_c1, y_c0) = match (p0, p1, p2, p3) {
        (Some(a), Some(b), Some(c), Some(d)) => (a, b, c, d),
        _ => {
            return false;
        },
    };
    let x = Fp2 { c0: x_c0, c1: x_c1 };
    let y = Fp2 { c0: y_c0, c1: y_c1 };
    proof {
        lemma_constants();
    }
    let one = ONE;
    let b2 = Fp2 { c0: B2_SCALED_C0, c1: B2_SCALED_C1 };
    let y2 = fp2_mont_mul(&y, &y);
    let lhs = Fp2 { c0: mont_mul(&y2.c0, &one), c1: mont_mul(&y2.c1, &one) };
    let x2 = fp2_mont_mul(&x, &x);
    let x3 = fp2_mont_mul(&x2, &x);
    let rhs = fp2_add(&x3, &b2);
    proof {
        lemma_g2_equation(x, y, y2, lhs, x2, x3, rhs);
    }
    fp_eq(&lhs.c0, &rhs.c0) && fp_eq(&lhs.c1, &rhs.c1)
}

/// True if a Soroban-encoded G1 point has every coordinate below `p`.
pub fn g1_coords_reduced(bytes: &[u8; 64]) -> (r: bool)
    ensures
        r == (be_u256(bytes@, 0) < p_int() && be_u256(bytes@, 32) < p_int()),
{
    fp_from_be_at(bytes.as_slice(), 0).is_some() && fp_from_be_at(bytes.as_slice(), 32).is_some()
}

/// True if every coordinate of a Soroban-encoded G2 point is below `p`.
pub fn g2_coords_reduced(bytes: &[u8; 128]) -> (r: bool)
    ensures
        r == (be_u256(bytes@, 0) < p_int() && be_u256(bytes@, 32) < p_int() && be_u256(bytes@, 64)
            < p_int() && be_u256(bytes@, 96) < p_int()),
{
    fp_from_be_at(bytes.as_slice(), 0).is_some() && fp_from_be_at(bytes.as_slice(), 32).is_some()
        && fp_from_be_at(bytes.as_slice(), 64).is_some() && fp_from_be_at(bytes.as_slice(), 96).is_some()
}

// ---------------------------------------------------------------------------
// Reference multiplication
// ---------------------------------------------------------------------------

/// The value of limbs `l..4` of `b`, most significant first.
pub open spec fn limb_suffix(b: Fp, l: int) -> int {
    if l >= 4 {
        0
    } else if l == 3 {
        b@[3] as int
    } else if l == 2 {
        b@[3] * base() + b@[2]
    } else if l == 1 {
        b@[3] * base2() + b@[2] * base() + b@[1]
    } else {
        fp_val(b)
    }
}

proof fn lemma_shift_step(w: u64, k: u32)
    requires
        k < 64,
    ensures
        (w >> k) as int == 2 * (if k + 1 < 64 { (w >> (k + 1) as u32) as int } else { 0 }) + ((w
            >> k) & 1) as int,
        ((w >> k) & 1) <= 1,
        k == 0 ==> (w >> k) == w,
{
    if k + 1 < 64 {
        let k1 = (k + 1) as u32;
        assert((w >> k) == 2 * (w >> k1) + ((w >> k) & 1)) by (bit_vector)
            requires
                k < 63,
                k1 == k + 1,
        ;
    } else {
        assert(k == 63 ==> (w >> k) == ((w >> k) & 1)) by (bit_vector);
    }
    assert(((w >> k) & 1) <= 1) by (bit_vector);
    assert(k == 0 ==> (w >> k) == w) by (bit_vector);
}

proof fn lemma_double_mod(va: int, cur: int, acc: int)
    requires
        0 <= va < p_int(),
        acc == (va * cur) % p_int(),
    ensures
        (acc + acc) % p_int() == (va * (2 * cur)) % p_int(),
        ((acc + acc) % p_int() + va) % p_int() == (va * (2 * cur + 1)) % p_int(),
{
    let p = p_int();
    vstd::arithmetic::div_mod::lemma_add_mod_noop(va * cur, va * cur, p);
    assert(va * cur + va * cur == va * (2 * cur)) by (nonlinear_arith);
    vstd::arithmetic::div_mod::lemma_small_mod(va as nat, p as nat);
    vstd::arithmetic::div_mod::lemma_add_mod_noop(va * (2 * cur), va, p);
    assert(va * (2 * cur) + va == va * (2 * cur + 1)) by (nonlinear_arith);
}

/// `(a * b) mod p`, by double-and-add over the bits of `b`, most significant
/// first: an independent reference for [`mont_mul`] that shares no
/// constants with it.
pub fn mul_mod(a: &Fp, b: &Fp) -> (r: Fp)
    requires
        reduced(*a),
    ensures
        reduced(r),
        fp_val(r) == (fp_val(*a) * fp_val(*b)) % p_int(),
{
    proof {
        lemma_constants();
        vstd::arithmetic::power2::lemma2_to64();
    }
    let mut acc: Fp = [0, 0, 0, 0];
    let ghost mut cur: int = 0;
    let mut limb: usize = 4;
    while limb > 0
        invariant
            limb <= 4,
            reduced(*a),
            reduced(acc),
            fp_val(acc) == (fp_val(*a) * cur) % p_int(),
            cur == limb_suffix(*b, limb as int),
            vstd::arithmetic::power2::pow2(64) == base(),
        decreases limb,
    {
        limb = limb - 1;
        let w = b[limb];
        let ghost hi = cur;
        let ghost mut top: int = 0;
        let ghost mut pw: int = 1;
        let mut bit: u32 = 64;
        while bit > 0
            invariant
                bit <= 64,
                limb < 4,
                reduced(*a),
                reduced(acc),
                fp_val(acc) == (fp_val(*a) * cur) % p_int(),
                w == b@[limb as int],
                hi == limb_suffix(*b, limb + 1),
                cur == hi * pw + top,
                pw * vstd::arithmetic::power2::pow2(bit as nat) == base(),
                bit == 64 ==> top == 0,
                bit < 64 ==> top == (w >> bit) as int,
                vstd::arithmetic::power2::pow2(64) == base(),
            decreases bit,
        {
            bit = bit - 1;
            proof {
                lemma_shift_step(w, bit);
                lemma_double_mod(fp_val(*a), cur, fp_val(acc));
                vstd::arithmetic::power2::lemma_pow2_unfold((bit + 1) as nat);
            }
            let ghost bv: int = ((w >> bit) & 1) as int;
            acc = add_mod(&acc, &acc);
            if (w >> bit) & 1 == 1 {
                acc = add_mod(&acc, a);
            }
            proof {
                assert(2 * (hi * pw + top) + bv == hi * (2 * pw) + (2 * top + bv)) by (nonlinear_arith);
                assert((2 * pw) * vstd::arithmetic::power2::pow2(bit as nat) == pw
                    * vstd::arithmetic::power2::pow2((bit + 1) as nat)) by (nonlinear_arith)
                    requires
                        vstd::arithmetic::power2::pow2((bit + 1) as nat) == 2
                            * vstd::arithmetic::power2::pow2(bit as nat),
                ;
                cur = 2 * cur + bv;
                top = 2 * top + bv;
                pw = 2 * pw;
            }
        }
        proof {
            assert(vstd::arithmetic::power2::pow2(0) == 1) by {
                vstd::arithmetic::power2::lemma2_to64();
            }
            assert(bit == 0);
            assert(pw == base()) by (nonlinear_arith)
                requires
                    pw * vstd::arithmetic::power2::pow2(0) == base(),
                    vstd::arithmetic::power2::pow2(0) == 1,
            ;
            lemma_shift_step(w, 0);
            assert(top == w as int);
            assert(cur == hi * base() + w) by (nonlinear_arith)
                requires
                    cur == hi * pw + top,
                    pw == base(),
                    top == w,
            ;
            assert(limb_suffix(*b, limb as int) == limb_suffix(*b, limb + 1) * base() + b@[limb as int]);
        }
    }
    acc
}

/// `R^2 mod p`, the factor that takes a Montgomery product back to a plain
/// one.
pub open spec fn r2_mod_p() -> int {
    0x6d89f71cab8351f47ab1eff0a417ff6b5e71911d44501fbf32cfc5b538afa89int
}

/// A Montgomery product followed by a Montgomery product with `R^2 mod p`
/// is the plain product modulo `p`: `mont(mont(a, b), R^2) = a * b mod p`.
pub proof fn lemma_mont_then_r2_is_product(a: int, b: int, x: int, y: int)
    requires
        is_mont_product(x, a, b),
        is_mont_product(y, x, r2_mod_p()),
    ensures
        y == (a * b) % p_int(),
{
    let k1 = lemma_mont_witness(x, a, b);
    let k2 = lemma_mont_witness(y, x, r2_mod_p());
    let ab = a * b;
    assert(x * 0x1_0000_0000_0000_0000_0000_0000_0000_0000_0000_0000_0000_0000_0000_0000_0000_0000int
        == ab + k1 * 0x30644e72e131a029b85045b68181585d97816a916871ca8d3c208c16d87cfd47int);
    assert(y * 0x1_0000_0000_0000_0000_0000_0000_0000_0000_0000_0000_0000_0000_0000_0000_0000_0000int
        == x * 0x6d89f71cab8351f47ab1eff0a417ff6b5e71911d44501fbf32cfc5b538afa89int + k2
        * 0x30644e72e131a029b85045b68181585d97816a916871ca8d3c208c16d87cfd47int);
    let t = k1 * 0x1_0000_0000_0000_0000_0000_0000_0000_0000_0000_0000_0000_0000_0000_0000_0000_0000int - x
        * 0x54a47462623a04a7ab074a5868073013ae965e1767cd4c086f3aed8a19bf90e51int + k2;
    let u = t * 0x2e67157159e5c639cf63e9cfb74492d9eb2022850278edf8ed84884a014afa37int - (y - ab)
        * 0xf57a22b791888c6bd8afcbd01833da809ede7d651eca6ac987d20782e4866389int;
    assert(y == ab + u * 0x30644e72e131a029b85045b68181585d97816a916871ca8d3c208c16d87cfd47int);
    vstd::arithmetic::div_mod::lemma_fundamental_div_mod_converse(ab, p_int(), -u, y);
}

} // verus!
