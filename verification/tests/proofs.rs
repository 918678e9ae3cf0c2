use zkml::proofs::{Groth16Proof, PublicInputs};

#[test]
fn public_inputs_serialize_with_prefix() {
    let pi = PublicInputs { model_hash: [1u8; 32], input_hash: [2u8; 32], output: vec![9u8; 8], class_label: 0 };
    let bytes = pi.to_bytes();
    assert_eq!(bytes.len(), 80);
    assert_eq!(&bytes[0..32], &[1u8; 32]);
    assert_eq!(&bytes[32..64], &[2u8; 32]);
    assert_eq!(&bytes[64..72], &[9u8; 8]);
    assert_eq!(&bytes[72..80], &[0u8; 8]);
}

#[test]
fn groth16_proof_size_target() {
    let proof = Groth16Proof { data: vec![0u8; 256] };
    assert!(proof.data.len() < 500, "Groth16 proof size {} exceeds 500 byte target", proof.data.len());
}

#[test]
fn class_label_is_little_endian() {
    let pi = PublicInputs { model_hash: [0u8; 32], input_hash: [0u8; 32], output: vec![], class_label: -2 };
    let bytes = pi.to_bytes();
    assert_eq!(bytes.len(), 72);
    assert_eq!(&bytes[64..72], &(-2i64).to_le_bytes());
}
