use zkml::commitment::{commitment_hash, model_elements};
use zkml::fixed_point::FixedPoint;
use zkml::models::{LogisticRegression, Model};
use zkml::proofs::{Groth16Proof, PublicInputs, VerificationBundle};
use zkml::prover::{
    bundle_id, groth16_backend_name, groth16_platform_supported, input_commitment, model_commitment,
    native_groth16_available, str_eq, ProverBackend,
};

#[test]
fn backend_parsing() {
    assert_eq!(ProverBackend::parse("local"), Some(ProverBackend::Local));
    assert!(matches!(ProverBackend::parse("boundless"), Some(ProverBackend::Remote { .. })));
    assert_eq!(ProverBackend::parse("nope"), None);
}

#[test]
fn the_backend_name_says_which_path_compression_takes() {
    let name = groth16_backend_name();
    assert!(matches!(name, "cuda" | "docker"), "got {name}");
    assert_eq!(name == "cuda", native_groth16_available());
}

#[test]
fn remote_alias_and_endpoint() {
    assert_eq!(
        ProverBackend::parse("remote"),
        Some(ProverBackend::Remote { endpoint: "https://boundless.network".to_string() })
    );
    assert_eq!(ProverBackend::parse("Local"), None);
}

#[test]
fn platform_support_needs_x86_64_linux() {
    assert!(groth16_platform_supported("linux", "x86_64"));
    assert!(!groth16_platform_supported("macos", "aarch64"));
    assert!(!groth16_platform_supported("linux", "aarch64"));
}

#[test]
fn commitments_use_the_shared_element_stream() {
    let model = Model::LogisticRegression(LogisticRegression {
        weights: vec![FixedPoint::from_raw(1, 16)],
        bias: FixedPoint::from_raw(2, 16),
    });
    assert_eq!(model_commitment(&model), commitment_hash(&model_elements(&model)));
    let inputs = [FixedPoint::from_raw(5, 16), FixedPoint::from_raw(-6, 16)];
    assert_eq!(input_commitment(&inputs), commitment_hash(&[5, -6]));
}

#[test]
fn bundle_id_commits_to_public_input_bytes() {
    let bundle = VerificationBundle {
        proof: Groth16Proof { data: vec![] },
        public_inputs: PublicInputs { model_hash: [1u8; 32], input_hash: [2u8; 32], output: vec![3u8], class_label: 9 },
    };
    let mut elements = vec![1i64; 32];
    elements.extend(vec![2i64; 32]);
    elements.push(3);
    assert_eq!(bundle_id(&bundle), commitment_hash(&elements));
}

#[test]
fn str_eq_compares_text() {
    assert!(str_eq("abc", "abc"));
    assert!(!str_eq("abc", "abd"));
    assert!(!str_eq("abc", "ab"));
    assert!(str_eq("", ""));
}
