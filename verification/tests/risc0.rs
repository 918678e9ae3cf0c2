use zkml::risc0::{
    groth16_public_inputs, groth16_verifier_parameters_digest, halted_post_state_digest, journal_digest,
    output_digest, receipt_claim_ok_digest, reverse_bytes, scalar_from_u128_be, selector_from_params_digest,
    split_digest, system_state_digest, tagged_struct, zero_digest, Digest, Sha256, Sha2Hasher, SEAL_LEN,
};

fn sha256(bytes: &[u8]) -> Digest {
    Sha2Hasher.hash(bytes)
}

#[test]
fn tagged_struct_matches_manual_construction() {
    let down = [[1u8; 32], [2u8; 32]];
    let data = [7u32, 9u32];
    let mut expected = Vec::new();
    expected.extend_from_slice(&sha256(b"tag"));
    expected.extend_from_slice(&down[0]);
    expected.extend_from_slice(&down[1]);
    expected.extend_from_slice(&7u32.to_le_bytes());
    expected.extend_from_slice(&9u32.to_le_bytes());
    expected.extend_from_slice(&2u16.to_le_bytes());
    assert_eq!(tagged_struct(Sha2Hasher, "tag", &down, &data), sha256(&expected));
}

#[test]
fn split_digest_reverses_then_splits() {
    let mut digest = [0u8; 32];
    for (i, byte) in digest.iter_mut().enumerate() {
        *byte = i as u8;
    }
    let (lo, hi) = split_digest(&digest);
    assert_eq!(hi[0], 31);
    assert_eq!(hi[15], 16);
    assert_eq!(lo[0], 15);
    assert_eq!(lo[15], 0);
}

#[test]
fn scalars_are_zero_extended() {
    let value = [0xabu8; 16];
    let scalar = scalar_from_u128_be(&value);
    assert_eq!(&scalar[0..16], &[0u8; 16]);
    assert_eq!(&scalar[16..32], &value);
}

#[test]
fn public_inputs_have_five_scalars_and_a_reversed_control_id() {
    let inputs = groth16_public_inputs(&[1u8; 32], &[2u8; 32], &[3u8; 32]);
    assert_eq!(inputs.len(), 5);
    let mut control_id = [0u8; 32];
    control_id[0] = 0xaa;
    control_id[31] = 0xbb;
    let inputs = groth16_public_inputs(&[1u8; 32], &[2u8; 32], &control_id);
    assert_eq!(inputs[4][0], 0xbb);
    assert_eq!(inputs[4][31], 0xaa);
}

#[test]
fn claim_digest_changes_with_journal_and_image() {
    let a = receipt_claim_ok_digest(Sha2Hasher, &[1u8; 32], b"hello");
    let b = receipt_claim_ok_digest(Sha2Hasher, &[1u8; 32], b"hell0");
    let c = receipt_claim_ok_digest(Sha2Hasher, &[2u8; 32], b"hello");
    assert_ne!(a, b);
    assert_ne!(a, c);
}

#[test]
fn selector_is_the_first_four_bytes() {
    let digest = [9u8; 32];
    assert_eq!(selector_from_params_digest(&digest), [9u8, 9, 9, 9]);
}

/// A hasher that forwards to a closure, as a contract passes its host
/// function.
#[derive(Clone, Copy)]
struct ClosureHasher<F>(F);

impl<F: Fn(&[u8]) -> Digest + Copy> Sha256 for ClosureHasher<F> {
    fn hash(&self, bytes: &[u8]) -> Digest {
        (self.0)(bytes)
    }
}

#[test]
fn a_closure_works_as_the_hasher() {
    let closure = |bytes: &[u8]| -> Digest { Sha2Hasher.hash(bytes) };
    assert_eq!(
        receipt_claim_ok_digest(ClosureHasher(closure), &[7u8; 32], b"journal"),
        receipt_claim_ok_digest(Sha2Hasher, &[7u8; 32], b"journal")
    );
}

fn journals() -> Vec<Vec<u8>> {
    let mut out = vec![Vec::new(), vec![0u8], b"zkml".to_vec(), (0u8..96).collect(), vec![0xffu8; 96]];
    let mut state = 0x9e37_79b9_7f4a_7c15u64;
    let mut next = move || {
        state ^= state << 13;
        state ^= state >> 7;
        state ^= state << 17;
        state
    };
    for len in (0..=200).chain([255, 256, 257, 511, 512, 1000]) {
        out.push((0..len).map(|_| next() as u8).collect());
    }
    out
}

#[test]
fn split_digest_recomposes_to_the_reversed_digest() {
    for journal in journals() {
        let digest = journal_digest(Sha2Hasher, &journal);
        let (lo, hi) = split_digest(&digest);
        let mut recomposed = [0u8; 32];
        recomposed[..16].copy_from_slice(&hi);
        recomposed[16..].copy_from_slice(&lo);
        recomposed.reverse();
        assert_eq!(recomposed, digest, "split_digest must be reversible");
    }
}

#[test]
fn seal_len_matches_a_selector_plus_a_groth16_proof() {
    assert_eq!(SEAL_LEN, 4 + 2 * 32 + 4 * 32 + 2 * 32);
}

#[test]
fn sha2_hasher_matches_known_vectors() {
    // SHA-256("abc")
    let d = sha256(b"abc");
    assert_eq!(d[0], 0xba);
    assert_eq!(d[1], 0x78);
    assert_eq!(d[31], 0xad);
    // SHA-256("") starts with e3b0c442.
    let e = journal_digest(Sha2Hasher, b"");
    assert_eq!(&e[0..4], &[0xe3, 0xb0, 0xc4, 0x42]);
}

#[test]
fn digests_compose_from_tagged_structs() {
    let root = [4u8; 32];
    assert_eq!(system_state_digest(Sha2Hasher, &root, 7), tagged_struct(Sha2Hasher, "risc0.SystemState", &[root], &[7]));
    assert_eq!(halted_post_state_digest(Sha2Hasher), system_state_digest(Sha2Hasher, &zero_digest(), 0));
    let jd = journal_digest(Sha2Hasher, b"x");
    assert_eq!(output_digest(Sha2Hasher, &jd), tagged_struct(Sha2Hasher, "risc0.Output", &[jd, [0u8; 32]], &[]));
    let claim = receipt_claim_ok_digest(Sha2Hasher, &[1u8; 32], b"x");
    let expected = tagged_struct(
        Sha2Hasher,
        "risc0.ReceiptClaim",
        &[[0u8; 32], [1u8; 32], halted_post_state_digest(Sha2Hasher), output_digest(Sha2Hasher, &jd)],
        &[0, 0],
    );
    assert_eq!(claim, expected);
    let params = groth16_verifier_parameters_digest(Sha2Hasher, &[1u8; 32], &[2u8; 32], &[3u8; 32]);
    assert_eq!(
        params,
        tagged_struct(Sha2Hasher, "risc0.Groth16ReceiptVerifierParameters", &[[1u8; 32], [2u8; 32], [3u8; 32]], &[])
    );
}

#[test]
fn reverse_bytes_reverses() {
    let mut d = [0u8; 32];
    for (i, b) in d.iter_mut().enumerate() {
        *b = i as u8;
    }
    let r = reverse_bytes(&d);
    assert_eq!(r[0], 31);
    assert_eq!(r[31], 0);
    assert_eq!(reverse_bytes(&r), d);
}
