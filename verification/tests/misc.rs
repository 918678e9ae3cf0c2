use zkml::cli::{check_structure, count_splits, kind_of};
use zkml::error::ZkmlError;
use zkml::fixed_point::FixedPoint;
use zkml::models::{DecisionTree, LogisticRegression, Model, TreeNode};
use zkml::onnx::{check_opset, min_version_for_domain, ModelProto, OnnxImportError, OperatorSetIdProto, MIN_OPSET_CORE};
use zkml::tensor::Tensor;

fn opset(domain: &str, version: i64) -> OperatorSetIdProto {
    OperatorSetIdProto { domain: domain.to_string(), version }
}

fn with_opsets(opset_import: Vec<OperatorSetIdProto>) -> ModelProto {
    ModelProto { opset_import, ..Default::default() }
}

#[test]
fn opset_floors_per_domain() {
    assert_eq!(min_version_for_domain(""), Some(MIN_OPSET_CORE));
    assert_eq!(min_version_for_domain("ai.onnx"), Some(17));
    assert_eq!(min_version_for_domain("ai.onnx.ml"), Some(1));
    assert_eq!(min_version_for_domain("com.vendor"), None);
}

#[test]
fn opset_checks() {
    assert!(matches!(check_opset(&with_opsets(vec![])), Err(OnnxImportError::MalformedModel(_))));
    assert_eq!(check_opset(&with_opsets(vec![opset("", 17), opset("ai.onnx.ml", 3)])), Ok(()));
    assert_eq!(
        check_opset(&with_opsets(vec![opset("", 16)])),
        Err(OnnxImportError::UnsupportedOpset { found: 16, required: 17 })
    );
    assert!(matches!(
        check_opset(&with_opsets(vec![opset("com.vendor", 1)])),
        Err(OnnxImportError::MalformedModel(_))
    ));
    assert_eq!(check_opset(&with_opsets(vec![opset("com.vendor", 1), opset("ai.onnx", 18)])), Ok(()));
}

#[test]
fn tensor_get_and_reshape() {
    let fp = |v: i64| FixedPoint::from_raw(v, 16);
    let t = Tensor::new(vec![fp(1), fp(2), fp(3), fp(4)], 2, 2).unwrap();
    assert_eq!(t.get(1, 1), Some(fp(4)));
    assert_eq!(t.get(2, 0), None);
    assert_eq!(t.rows(), 2);
    assert_eq!(t.cols(), 2);
    assert!(Tensor::new(vec![fp(1)], 2, 2).is_none());
    let mut t2 = Tensor::new(vec![fp(1); 6], 2, 3).unwrap();
    assert!(t2.reshape(3, 2));
    assert_eq!(t2.rows(), 3);
    assert!(!t2.reshape(4, 2));
    assert_eq!(t2.cols(), 2);
}

#[test]
fn inspect_helpers() {
    let fp = |v: i64| FixedPoint::from_raw(v, 16);
    let tree = DecisionTree {
        num_features: 1,
        nodes: vec![
            TreeNode::Split { feature_index: 0, threshold: fp(0), left: 1, right: 2 },
            TreeNode::Leaf { value: fp(0) },
            TreeNode::Leaf { value: fp(1) },
        ],
    };
    assert_eq!(count_splits(&tree.nodes), 1);
    let model = Model::DecisionTree(tree);
    assert_eq!(kind_of(&model), "decision_tree");
    assert_eq!(check_structure(&model), Ok(()));
    let lr = Model::LogisticRegression(LogisticRegression { weights: vec![], bias: fp(0) });
    assert_eq!(kind_of(&lr), "logistic_regression");
    let bad = Model::DecisionTree(DecisionTree { num_features: 1, nodes: vec![] });
    assert!(matches!(check_structure(&bad), Err(ZkmlError::InvalidModel(_))));
}

#[test]
fn error_messages_name_the_failure() {
    let e = ZkmlError::FeatureCountMismatch { expected: 3, got: 2 };
    assert_eq!(e.message(), "feature count mismatch: expected 3, got 2");
    assert_eq!(ZkmlError::ArithmeticOverflow.message(), "arithmetic overflow");
}

fn quant(x: f64) -> FixedPoint {
    FixedPoint::from_raw((x * 65536.0).round() as i64, 16)
}

#[test]
fn get_in_and_out_of_bounds() {
    let t = Tensor::new(vec![quant(1.0), quant(2.0), quant(3.0), quant(4.0)], 2, 2).unwrap();
    assert_eq!(t.get(1, 1), Some(quant(4.0)));
    assert_eq!(t.get(2, 0), None);
}

#[test]
fn reshape_requires_matching_count() {
    let mut t = Tensor::new(vec![quant(1.0); 6], 2, 3).unwrap();
    assert!(t.reshape(3, 2));
    assert!(!t.reshape(4, 2));
}

#[test]
fn error_text_writes_numbers_and_messages_in_full() {
    let e = ZkmlError::FeatureCountMismatch { expected: 1204, got: 0 };
    assert_eq!(e.message(), "feature count mismatch: expected 1204, got 0");
    assert_eq!(ZkmlError::InvalidModel("cycle detected".into()).message(), "invalid model: cycle detected");
    assert_eq!(ZkmlError::ParseError("bad".into()).message(), "parse error: bad");
    assert_eq!(ZkmlError::QuantizationError("mixed".into()).message(), "quantization error: mixed");
}
