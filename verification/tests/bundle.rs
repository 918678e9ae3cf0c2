use zkml::bundle::{
    from_hex, to_hex, AnyBundle, BundleError, BundleMeta, ProofSystemId, ProveTimings, VerificationBundleV2,
};
use zkml::journal::{JournalError, JournalV1, ModelKind};
use zkml::proofs::{Groth16Proof, PublicInputs, VerificationBundle};
use zkml::risc0::SEAL_LEN;

fn journal_bytes() -> Vec<u8> {
    JournalV1 {
        model_kind: ModelKind::LogisticRegression,
        model_hash: [1u8; 32],
        input_hash: [2u8; 32],
        output: 34_865,
        class_label: 1,
    }
    .encode()
    .to_vec()
}

fn sample() -> VerificationBundleV2 {
    let mut seal = vec![0u8; SEAL_LEN];
    seal[0..4].copy_from_slice(&[0xde, 0xad, 0xbe, 0xef]);
    VerificationBundleV2::new(
        ProofSystemId::Risc0Groth16,
        [3u8; 32],
        seal,
        journal_bytes(),
        BundleMeta {
            prover_version: "0.0.1".into(),
            created_at: 1_700_000_000,
            cycles: 123_456,
            timings: ProveTimings { prove_and_compress_ms: 20, total_ms: 60 },
        },
    )
    .unwrap()
}

#[test]
fn rejects_wrong_seal_length() {
    let err = VerificationBundleV2::new(
        ProofSystemId::Risc0Groth16,
        [0u8; 32],
        vec![0u8; 10],
        journal_bytes(),
        BundleMeta::default(),
    )
    .unwrap_err();
    assert_eq!(err, BundleError::BadSealLength(10));
}

#[test]
fn rejects_bad_journal() {
    let err = VerificationBundleV2::new(
        ProofSystemId::Risc0Groth16,
        [0u8; 32],
        vec![0u8; SEAL_LEN],
        vec![0u8; 96],
        BundleMeta::default(),
    )
    .unwrap_err();
    assert!(matches!(err, BundleError::Journal(_)));
    assert_eq!(err, BundleError::Journal(JournalError::BadMagic));
}

#[test]
fn binary_round_trips() {
    let bundle = sample();
    let bytes = bundle.to_bytes();
    assert_eq!(&bytes[0..8], b"ZKMLBNDL");
    assert_eq!(VerificationBundleV2::from_bytes(&bytes).unwrap(), bundle);
}

#[test]
fn binary_rejects_truncation() {
    let bytes = sample().to_bytes();
    assert_eq!(VerificationBundleV2::from_bytes(&bytes[..bytes.len() - 1]), Err(BundleError::Truncated));
}

#[test]
fn selector_and_proof_split() {
    let bundle = sample();
    assert_eq!(bundle.selector(), [0xde, 0xad, 0xbe, 0xef]);
    assert_eq!(bundle.proof_bytes().len(), 256);
}

#[test]
fn public_inputs_come_from_the_journal() {
    let bundle = sample();
    let pi = bundle.public_inputs().unwrap();
    assert_eq!(pi.model_hash, [1u8; 32]);
    assert_eq!(pi.class_label, 1);
    assert_eq!(pi.to_bytes().len(), 80);
    assert_eq!(pi.output, 34_865i64.to_le_bytes().to_vec());
}

#[test]
fn hex_helpers_round_trip() {
    let bytes = vec![0x00, 0x0f, 0xf0, 0xff];
    assert_eq!(to_hex(&bytes), "000ff0ff");
    assert_eq!(from_hex("000ff0ff").unwrap(), bytes);
    assert_eq!(from_hex("abc"), None);
    assert_eq!(from_hex("zz"), None);
}

#[test]
fn binary_header_errors() {
    let bytes = sample().to_bytes();
    let mut bad = bytes.clone();
    bad[0] = b'X';
    assert_eq!(VerificationBundleV2::from_bytes(&bad), Err(BundleError::BadMagic));
    let mut v = bytes.clone();
    v[8] = 3;
    assert_eq!(VerificationBundleV2::from_bytes(&v), Err(BundleError::UnsupportedVersion(3)));
    let mut ps = bytes.clone();
    ps[10] = 7;
    assert_eq!(VerificationBundleV2::from_bytes(&ps), Err(BundleError::UnknownProofSystem(7)));
    assert_eq!(VerificationBundleV2::from_bytes(&bytes[..5]), Err(BundleError::Truncated));
    assert_eq!(ProofSystemId::from_u16(1), Ok(ProofSystemId::Risc0Groth16));
    assert_eq!(ProofSystemId::from_u16(2), Err(BundleError::UnknownProofSystem(2)));
}

#[test]
fn encoding_layout_is_length_prefixed() {
    let bundle = sample();
    let bytes = bundle.to_bytes();
    assert_eq!(&bytes[8..10], &2u16.to_le_bytes());
    assert_eq!(&bytes[10..12], &1u16.to_le_bytes());
    assert_eq!(&bytes[12..44], &[3u8; 32]);
    assert_eq!(&bytes[44..48], &(SEAL_LEN as u32).to_le_bytes());
    // magic, version, system, image id, seal, journal, version string, tail
    assert_eq!(bytes.len(), 8 + 2 + 2 + 32 + 4 + SEAL_LEN + 4 + 96 + 4 + 5 + 32);
}

#[test]
fn invalid_utf8_version_is_replaced() {
    let bundle = sample();
    let mut bytes = bundle.to_bytes();
    let ver_at = 8 + 2 + 2 + 32 + 4 + SEAL_LEN + 4 + 96 + 4;
    bytes[ver_at] = 0xff;
    let decoded = VerificationBundleV2::from_bytes(&bytes).unwrap();
    assert_eq!(decoded.meta.prover_version, "\u{fffd}.0.1");
}

#[test]
fn legacy_bundles_are_flagged() {
    let v1 = VerificationBundle {
        proof: Groth16Proof { data: Vec::new() },
        public_inputs: PublicInputs { model_hash: [1u8; 32], input_hash: [2u8; 32], output: vec![0u8; 8], class_label: 0 },
    };
    assert!(AnyBundle::V1(v1).is_legacy());
    assert!(!AnyBundle::V2(sample()).is_legacy());
}

#[test]
fn a_seal_of_the_wrong_length_is_rejected() {
    let journal = JournalV1 {
        model_kind: ModelKind::LogisticRegression,
        model_hash: [0u8; 32],
        input_hash: [0u8; 32],
        output: 0,
        class_label: 0,
    };
    for len in [0usize, 4, SEAL_LEN - 1, SEAL_LEN + 1] {
        let result = VerificationBundleV2::new(
            ProofSystemId::Risc0Groth16,
            [0u8; 32],
            vec![0u8; len],
            journal.encode().to_vec(),
            Default::default(),
        );
        assert!(result.is_err(), "a {len}-byte seal must be rejected");
    }
}

#[test]
fn every_proper_prefix_is_truncated() {
    let bytes = sample().to_bytes();
    for k in 0..bytes.len() {
        assert_eq!(VerificationBundleV2::from_bytes(&bytes[..k]), Err(BundleError::Truncated), "prefix of {k} bytes");
    }
    assert!(VerificationBundleV2::from_bytes(&bytes).is_ok());
}
