use zkml::fixed_point::{FixedPoint, DEFAULT_SCALE};
use zkml::models::{DecisionTree, DenseLayer, LogisticRegression, Model, TinyMLP, TreeNode};

fn q(v: i64) -> FixedPoint {
    FixedPoint::from_raw(v, DEFAULT_SCALE)
}

fn split(f: usize, l: usize, r: usize) -> TreeNode {
    TreeNode::Split { feature_index: f, threshold: q(0), left: l, right: r }
}

fn leaf() -> TreeNode {
    TreeNode::Leaf { value: q(0) }
}

#[test]
fn valid_tree_passes() {
    let tree = DecisionTree { num_features: 1, nodes: vec![split(0, 1, 2), leaf(), leaf()] };
    assert!(tree.validate().is_ok());
}

#[test]
fn out_of_range_child_fails() {
    let tree = DecisionTree { num_features: 1, nodes: vec![split(0, 9, 2)] };
    assert!(tree.validate().is_err());
}

#[test]
fn tree_defects_are_reported() {
    // empty
    assert!(DecisionTree { num_features: 1, nodes: vec![] }.validate().is_err());
    // feature index out of range
    assert!(DecisionTree { num_features: 1, nodes: vec![split(1, 1, 2), leaf(), leaf()] }.validate().is_err());
    // shared child (a node reached twice)
    assert!(DecisionTree { num_features: 1, nodes: vec![split(0, 1, 1), leaf()] }.validate().is_err());
    // self loop
    assert!(DecisionTree { num_features: 1, nodes: vec![split(0, 0, 1), leaf()] }.validate().is_err());
    // orphan
    assert!(DecisionTree { num_features: 1, nodes: vec![split(0, 1, 2), leaf(), leaf(), leaf()] }.validate().is_err());
}

#[test]
fn mlp_validation_checks_shapes_and_chaining() {
    let l1 = DenseLayer { weights: vec![q(1); 6], biases: vec![q(0); 3], input_size: 2, output_size: 3 };
    let l2 = DenseLayer { weights: vec![q(1); 3], biases: vec![q(0); 1], input_size: 3, output_size: 1 };
    assert!(TinyMLP { layers: vec![l1.clone(), l2.clone()] }.validate().is_ok());
    assert!(TinyMLP { layers: vec![l2.clone(), l1.clone()] }.validate().is_err());
    assert!(TinyMLP { layers: vec![] }.validate().is_err());
}

#[test]
fn logistic_feature_count() {
    let model = Model::LogisticRegression(LogisticRegression { weights: vec![q(1); 5], bias: q(0) });
    assert_eq!(model.num_features(), 5);
    let mlp = Model::TinyMLP(TinyMLP { layers: vec![] });
    assert_eq!(mlp.num_features(), 0);
}

fn invalid_text(r: Result<(), zkml::error::ZkmlError>) -> String {
    match r {
        Err(zkml::error::ZkmlError::InvalidModel(m)) => m,
        other => panic!("expected InvalidModel, got {other:?}"),
    }
}

#[test]
fn validation_messages_name_the_first_defect() {
    let tree = |nodes: Vec<TreeNode>| DecisionTree { num_features: 1, nodes };
    assert_eq!(invalid_text(tree(vec![]).validate()), "decision tree has no nodes");
    assert_eq!(invalid_text(tree(vec![split(1, 1, 2), leaf(), leaf()]).validate()), "node 0: feature index 1 out of range");
    assert_eq!(invalid_text(tree(vec![split(0, 9, 2)]).validate()), "node 0: child index out of range");
    assert_eq!(invalid_text(tree(vec![split(0, 0, 1), leaf()]).validate()), "node 0: split points to itself");
    assert_eq!(invalid_text(tree(vec![split(0, 1, 1), leaf()]).validate()), "node 1: cycle detected (node visited twice)");
    assert_eq!(invalid_text(tree(vec![split(0, 1, 2), leaf(), leaf(), leaf()]).validate()), "orphan node detected");
    let l1 = DenseLayer { weights: vec![q(1); 6], biases: vec![q(0); 3], input_size: 2, output_size: 3 };
    let short_w = DenseLayer { weights: vec![q(1); 5], ..l1.clone() };
    let short_b = DenseLayer { biases: vec![q(0); 2], ..l1.clone() };
    assert_eq!(invalid_text(TinyMLP { layers: vec![] }.validate()), "TinyMLP must have at least one layer");
    assert_eq!(invalid_text(TinyMLP { layers: vec![short_w] }.validate()), "expected 6 weights, got 5");
    assert_eq!(invalid_text(TinyMLP { layers: vec![short_b] }.validate()), "expected 3 biases, got 2");
    assert_eq!(invalid_text(TinyMLP { layers: vec![l1.clone(), l1] }.validate()), "layer 0 output_size 3 does not match layer 1 input_size 2");
}
