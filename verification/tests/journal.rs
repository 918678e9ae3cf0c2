use zkml::journal::{JournalError, JournalV1, ModelKind, JOURNAL_V1_LEN};
use zkml::models::{LogisticRegression, Model};
use zkml::fixed_point::FixedPoint;

fn sample() -> JournalV1 {
    JournalV1 {
        model_kind: ModelKind::LogisticRegression,
        model_hash: [7u8; 32],
        input_hash: [9u8; 32],
        output: -34_865,
        class_label: 1,
    }
}

#[test]
fn round_trips() {
    let journal = sample();
    let bytes = journal.encode();
    assert_eq!(bytes.len(), JOURNAL_V1_LEN);
    assert_eq!(JournalV1::decode(&bytes).unwrap(), journal);
}

#[test]
fn header_is_stable() {
    let bytes = sample().encode();
    assert_eq!(&bytes[0..4], b"ZKML");
    assert_eq!(u16::from_le_bytes([bytes[4], bytes[5]]), 1);
    assert_eq!(bytes[6], ModelKind::LogisticRegression as u8);
    assert_eq!(bytes[7], 0);
    assert_eq!(&bytes[88..96], &[0u8; 8]);
}

#[test]
fn rejects_bad_length() {
    assert_eq!(JournalV1::decode(&[0u8; 10]), Err(JournalError::InvalidLength(10)));
}

#[test]
fn rejects_bad_magic() {
    let mut bytes = sample().encode();
    bytes[0] = b'X';
    assert_eq!(JournalV1::decode(&bytes), Err(JournalError::BadMagic));
}

#[test]
fn rejects_unknown_version() {
    let mut bytes = sample().encode();
    bytes[4..6].copy_from_slice(&9u16.to_le_bytes());
    assert_eq!(JournalV1::decode(&bytes), Err(JournalError::UnsupportedVersion(9)));
}

#[test]
fn rejects_unknown_model_kind() {
    let mut bytes = sample().encode();
    bytes[6] = 42;
    assert_eq!(JournalV1::decode(&bytes), Err(JournalError::UnknownModelKind(42)));
}

#[test]
fn public_inputs_match_contract_layout() {
    let journal = sample();
    let pi = journal.public_inputs_bytes();
    assert_eq!(pi.len(), 80);
    assert_eq!(&pi[0..32], &journal.model_hash);
    assert_eq!(&pi[32..64], &journal.input_hash);
    assert_eq!(&pi[64..72], &journal.output.to_le_bytes());
    assert_eq!(&pi[72..80], &journal.class_label.to_le_bytes());
}

#[test]
fn encoding_matches_the_documented_layout() {
    let bytes = sample().encode();
    assert_eq!(&bytes[8..40], &[7u8; 32]);
    assert_eq!(&bytes[40..72], &[9u8; 32]);
    assert_eq!(&bytes[72..80], &(-34_865i64).to_le_bytes());
    assert_eq!(&bytes[80..88], &1i64.to_le_bytes());
}

#[test]
fn model_kind_bytes_and_of() {
    assert_eq!(ModelKind::from_byte(0), Ok(ModelKind::DecisionTree));
    assert_eq!(ModelKind::from_byte(2), Ok(ModelKind::TinyMlp));
    assert_eq!(ModelKind::from_byte(3), Err(JournalError::UnknownModelKind(3)));
    assert_eq!(ModelKind::TinyMlp.to_byte(), 2);
    let m = Model::LogisticRegression(LogisticRegression { weights: vec![], bias: FixedPoint::from_raw(0, 16) });
    assert_eq!(ModelKind::of(&m), ModelKind::LogisticRegression);
}

#[test]
fn decode_ignores_reserved_bytes() {
    let mut bytes = sample().encode();
    bytes[7] = 0xaa;
    bytes[95] = 0xbb;
    assert_eq!(JournalV1::decode(&bytes).unwrap(), sample());
}
