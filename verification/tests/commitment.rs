use zkml::commitment::{commit_i64, commitment_hash, from_hex, model_elements, to_hex};
use zkml::fixed_point::FixedPoint;
use zkml::models::{DecisionTree, DenseLayer, LogisticRegression, Model, TinyMLP, TreeNode};

#[test]
fn hex_round_trips() {
    let c = commit_i64(&[1, 2, 3, 4]);
    let encoded = to_hex(&c);
    assert_eq!(encoded.len(), 64);
    assert_eq!(from_hex(&encoded), Some(c));
}

#[test]
fn from_hex_rejects_bad_length() {
    assert_eq!(from_hex("abcd"), None);
}

#[test]
fn commitment_is_stable() {
    assert_eq!(commit_i64(&[1, 2, 3]), commit_i64(&[1, 2, 3]));
}

#[test]
fn commitment_is_order_sensitive() {
    assert_ne!(commit_i64(&[1, 2, 3]), commit_i64(&[3, 2, 1]));
}

#[test]
fn empty_commitment_is_zero() {
    assert_eq!(commit_i64(&[]), [0u8; 32]);
}

#[test]
fn logistic_flattens_weights_then_bias() {
    let model = Model::LogisticRegression(LogisticRegression {
        weights: vec![FixedPoint::from_raw(1, 16), FixedPoint::from_raw(2, 16)],
        bias: FixedPoint::from_raw(3, 16),
    });
    assert_eq!(model_elements(&model), vec![1, 2, 3]);
}

#[test]
fn tree_flattens_features_and_nodes() {
    let model = Model::DecisionTree(DecisionTree {
        num_features: 1,
        nodes: vec![
            TreeNode::Split { feature_index: 0, threshold: FixedPoint::from_raw(10, 16), left: 1, right: 2 },
            TreeNode::Leaf { value: FixedPoint::from_raw(0, 16) },
            TreeNode::Leaf { value: FixedPoint::from_raw(1, 16) },
        ],
    });
    assert_eq!(model_elements(&model), vec![1, 0, 10, 1, 2, 0, 1]);
}

#[test]
fn mlp_flattens_weights_biases_and_sizes() {
    let layer = DenseLayer {
        weights: vec![FixedPoint::from_raw(5, 16), FixedPoint::from_raw(6, 16)],
        biases: vec![FixedPoint::from_raw(7, 16)],
        input_size: 2,
        output_size: 1,
    };
    let model = Model::TinyMLP(TinyMLP { layers: vec![layer] });
    assert_eq!(model_elements(&model), vec![5, 6, 7, 2, 1]);
}

#[test]
fn commit_of_one_element_mixes_its_bytes() {
    // Element 1: byte 0 is 1 and the rest are 0. Position 0 gets
    // (0 + 1) * 31 + 7 = 38; positions 1..8 get 0 * 31 + 7 = 7.
    let c = commit_i64(&[1]);
    assert_eq!(c[0], 38);
    for i in 1..8 {
        assert_eq!(c[i], 7);
    }
    for i in 8..32 {
        assert_eq!(c[i], 0);
    }
    assert_eq!(commitment_hash(&[1]), c);
}

#[test]
fn hex_is_lowercase_and_rejects_non_hex_pairs() {
    let mut c = [0u8; 32];
    c[0] = 0xab;
    c[31] = 0x0f;
    let hex = to_hex(&c);
    assert!(hex.starts_with("ab00"));
    assert!(hex.ends_with("0f"));
    let upper = hex.to_uppercase();
    assert_eq!(from_hex(&upper), Some(c));
    // A sign is not a hex digit.
    let plus = format!("+f{}", "00".repeat(31));
    assert_eq!(from_hex(&plus), None);
    let bad = format!("zz{}", "00".repeat(31));
    assert_eq!(from_hex(&bad), None);
}
