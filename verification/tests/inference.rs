use zkml::error::ZkmlError;
use zkml::fixed_point::{FixedPoint, DEFAULT_SCALE};
use zkml::inference::{argmax, run_batch, run_inference, try_run_inference};
use zkml::models::{DecisionTree, DenseLayer, LogisticRegression, Model, TinyMLP, TreeNode};

const ONE: i64 = 1 << 16;

fn q(v: i64) -> FixedPoint {
    FixedPoint::from_raw(v, DEFAULT_SCALE)
}

fn stump() -> Model {
    Model::DecisionTree(DecisionTree {
        num_features: 1,
        nodes: vec![
            TreeNode::Split { feature_index: 0, threshold: q(ONE / 2), left: 1, right: 2 },
            TreeNode::Leaf { value: q(0) },
            TreeNode::Leaf { value: q(ONE) },
        ],
    })
}

#[test]
fn logistic_regression_mixed_scale_returns_error() {
    let model = Model::LogisticRegression(LogisticRegression {
        weights: vec![FixedPoint::from_raw(100, 16), FixedPoint::from_raw(100, 16)],
        bias: FixedPoint::from_raw(0, 16),
    });
    let inputs = vec![FixedPoint::from_raw(100, 16), FixedPoint::from_raw(100, 8)];
    assert!(matches!(try_run_inference(&model, &inputs), Err(ZkmlError::QuantizationError(_))));
}

#[test]
fn empty_input_is_rejected() {
    let model = Model::LogisticRegression(LogisticRegression { weights: vec![q(ONE)], bias: q(0) });
    assert_eq!(
        try_run_inference(&model, &[]),
        Err(ZkmlError::FeatureCountMismatch { expected: 1, got: 0 })
    );
}

#[test]
fn logistic_regression_overflow_boundary_returns_error() {
    let big = FixedPoint::from_raw(i64::MAX / 2, 16);
    let model = Model::LogisticRegression(LogisticRegression { weights: vec![big], bias: q(0) });
    assert_eq!(try_run_inference(&model, &[big]), Err(ZkmlError::ArithmeticOverflow));
}

#[test]
fn logistic_regression_exact_value_and_parity() {
    // 2.5 * 4 + (-1.5) * 2 + 0.5 = 7.5
    let model = Model::LogisticRegression(LogisticRegression {
        weights: vec![q(5 * ONE / 2), q(-3 * ONE / 2)],
        bias: q(ONE / 2),
    });
    let inputs = vec![q(4 * ONE), q(2 * ONE)];
    let res = try_run_inference(&model, &inputs).unwrap();
    assert_eq!(res.value, 15 * ONE / 2);
    assert_eq!(run_inference(&model, &inputs).value, res.value);
}

#[test]
fn wrong_feature_count_is_reported() {
    let model = Model::LogisticRegression(LogisticRegression { weights: vec![q(ONE), q(ONE)], bias: q(0) });
    assert_eq!(
        try_run_inference(&model, &[q(1), q(2), q(3)]),
        Err(ZkmlError::FeatureCountMismatch { expected: 2, got: 3 })
    );
}

#[test]
fn tree_goes_left_on_equal_threshold() {
    let model = stump();
    assert_eq!(run_inference(&model, &[q(ONE / 2)]).value, 0);
    assert_eq!(run_inference(&model, &[q(ONE / 2 + 1)]).value, ONE);
    assert_eq!(try_run_inference(&model, &[q(0)]).unwrap().value, 0);
}

#[test]
fn tree_cycle_hits_the_iteration_bound() {
    let model = Model::DecisionTree(DecisionTree {
        num_features: 1,
        nodes: vec![
            TreeNode::Split { feature_index: 0, threshold: q(0), left: 1, right: 1 },
            TreeNode::Split { feature_index: 0, threshold: q(0), left: 0, right: 0 },
        ],
    });
    assert!(matches!(try_run_inference(&model, &[q(5)]), Err(ZkmlError::InvalidModel(_))));
}

#[test]
fn single_layer_identity_and_relu_between_layers() {
    let layer = DenseLayer { weights: vec![q(ONE)], biases: vec![q(0)], input_size: 1, output_size: 1 };
    let model = Model::TinyMLP(TinyMLP { layers: vec![layer.clone()] });
    assert_eq!(run_inference(&model, &[q(ONE * 7 / 10)]).value, ONE * 7 / 10);
    // Two identity layers: the hidden ReLU zeroes a negative input.
    let model2 = Model::TinyMLP(TinyMLP { layers: vec![layer.clone(), layer] });
    assert_eq!(run_inference(&model2, &[q(-ONE)]).value, 0);
    // The final layer has no ReLU.
    let neg = DenseLayer { weights: vec![q(-ONE)], biases: vec![q(0)], input_size: 1, output_size: 1 };
    let model3 = Model::TinyMLP(TinyMLP { layers: vec![neg] });
    assert_eq!(run_inference(&model3, &[q(ONE)]).value, -ONE);
}

#[test]
fn invalid_mlp_topology_is_an_error() {
    let layer = DenseLayer { weights: vec![q(ONE)], biases: vec![], input_size: 1, output_size: 1 };
    let model = Model::TinyMLP(TinyMLP { layers: vec![layer] });
    assert!(matches!(try_run_inference(&model, &[q(1)]), Err(ZkmlError::InvalidModel(_))));
}

#[test]
fn argmax_takes_the_last_of_equal_maxima() {
    let logits = vec![q(1), q(9), q(4), q(9)];
    assert_eq!(argmax(&logits), Some(3));
    assert_eq!(argmax(&[q(1), q(9), q(4)]), Some(1));
    assert_eq!(argmax(&[]), None);
}

#[test]
fn batch_matches_single() {
    let model = Model::LogisticRegression(LogisticRegression { weights: vec![q(ONE)], bias: q(0) });
    let rows = vec![vec![q(ONE / 2)], vec![q(ONE * 9 / 10)]];
    let batched = run_batch(&model, &rows);
    assert_eq!(batched.len(), 2);
    for (row, out) in rows.iter().zip(batched.iter()) {
        assert_eq!(run_inference(&model, row).value, out.value);
    }
}

/// `round(x * 2^16)` at the default scale, the quantization the models use.
fn fp(x: f64) -> FixedPoint {
    FixedPoint::from_raw((x * 65536.0).round() as i64, DEFAULT_SCALE)
}

fn as_f64(f: FixedPoint) -> f64 {
    f.value as f64 / (1i64 << f.scale) as f64
}

#[test]
fn single_layer_identity() {
    let layer = DenseLayer { weights: vec![fp(1.0)], biases: vec![fp(0.0)], input_size: 1, output_size: 1 };
    let model = Model::TinyMLP(TinyMLP { layers: vec![layer] });
    let out = run_inference(&model, &[fp(0.7)]);
    assert!((as_f64(out) - 0.7).abs() < 1e-2);
}

#[test]
fn argmax_picks_highest_logit() {
    let logits = vec![fp(0.1), fp(0.9), fp(0.4)];
    assert_eq!(argmax(&logits), Some(1));
}

#[test]
fn logistic_regression_in_range_parity() {
    let model = Model::LogisticRegression(LogisticRegression {
        weights: vec![fp(2.5), fp(-1.5)],
        bias: fp(0.5),
    });
    let inputs = vec![fp(4.0), fp(2.0)];
    let res = try_run_inference(&model, &inputs).unwrap();
    assert!((as_f64(res) - 7.5).abs() < 1e-3);
    assert_eq!(run_inference(&model, &inputs).value, res.value);
}

/// Layer 1 (2→2): W = [[1, 0], [0, 1]], b = [0, -1];
/// layer 2 (2→1): W = [[0.5, 1]], b = [0.25].
fn network_2_2_1() -> TinyMLP {
    TinyMLP {
        layers: vec![
            DenseLayer {
                weights: vec![fp(1.0), fp(0.0), fp(0.0), fp(1.0)],
                biases: vec![fp(0.0), fp(-1.0)],
                input_size: 2,
                output_size: 2,
            },
            DenseLayer { weights: vec![fp(0.5), fp(1.0)], biases: vec![fp(0.25)], input_size: 2, output_size: 1 },
        ],
    }
}

#[test]
fn hand_computed_2_2_1_matches_exact_q16_16() {
    let model = Model::TinyMLP(network_2_2_1());
    let out = run_inference(&model, &[fp(2.0), fp(0.5)]);
    assert_eq!(out.value, 81920);
    assert_eq!(out.scale, 16);
}

#[test]
fn relu_zeroes_negative_hidden_activations() {
    let model = Model::TinyMLP(network_2_2_1());
    let out = run_inference(&model, &[fp(2.0), fp(0.5)]);
    assert_eq!(out.value, 81920);
    assert_ne!(out.value, 49152);
}

#[test]
fn shape_mismatch_input_length_returns_error() {
    let model = Model::TinyMLP(network_2_2_1());
    let err = try_run_inference(&model, &[fp(1.0)]).expect_err("single feature must not match input_size 2");
    assert_eq!(err, ZkmlError::FeatureCountMismatch { expected: 2, got: 1 });
}

#[test]
fn shape_mismatch_layer_chain_returns_error() {
    let mlp = TinyMLP {
        layers: vec![
            DenseLayer {
                weights: vec![fp(1.0), fp(0.0), fp(0.0), fp(1.0)],
                biases: vec![fp(0.0), fp(0.0)],
                input_size: 2,
                output_size: 2,
            },
            DenseLayer { weights: vec![fp(1.0); 3], biases: vec![fp(0.0)], input_size: 3, output_size: 1 },
        ],
    };
    assert!(matches!(mlp.validate(), Err(ZkmlError::InvalidModel(_))));
    let model = Model::TinyMLP(mlp);
    let err = try_run_inference(&model, &[fp(1.0), fp(2.0)]).expect_err("unchained layers must be rejected");
    assert!(matches!(err, ZkmlError::InvalidModel(_)));
}

const GOLDEN_ABS_ERR_BOUND: f64 = 1e-4;

fn golden_network() -> TinyMLP {
    TinyMLP {
        layers: vec![
            DenseLayer {
                weights: vec![fp(0.3), fp(-0.2), fp(0.1), fp(0.4)],
                biases: vec![fp(0.1), fp(-0.5)],
                input_size: 2,
                output_size: 2,
            },
            DenseLayer { weights: vec![fp(0.6), fp(0.2)], biases: vec![fp(0.05)], input_size: 2, output_size: 1 },
        ],
    }
}

fn float_golden(inputs: &[f64; 2]) -> f64 {
    let h0 = 0.3 * inputs[0] + (-0.2) * inputs[1] + 0.1;
    let h1 = 0.1 * inputs[0] + 0.4 * inputs[1] + (-0.5);
    let a0 = h0.max(0.0);
    let a1 = h1.max(0.0);
    0.6 * a0 + 0.2 * a1 + 0.05
}

#[test]
fn golden_float_reference_within_documented_bound() {
    let model = Model::TinyMLP(golden_network());
    let inputs_f = [0.5_f64, 0.5];
    let fixed_out = as_f64(run_inference(&model, &[fp(inputs_f[0]), fp(inputs_f[1])]));
    let float_out = float_golden(&inputs_f);
    let err = (fixed_out - float_out).abs();
    assert!(err > 0.0, "expected a nonzero rounding deviation, got fixed={fixed_out} float={float_out}");
    assert!(err <= GOLDEN_ABS_ERR_BOUND, "fixed={fixed_out} float={float_out} abs_err={err}");
}

#[test]
fn three_layer_network_at_scale_eight_agrees_with_unchecked_inference() {
    let at8 = |v: i64| FixedPoint::from_raw(v, 8);
    let layer = |n_in: usize, n_out: usize, w: Vec<i64>, b: Vec<i64>| DenseLayer {
        weights: w.into_iter().map(at8).collect(),
        biases: b.into_iter().map(at8).collect(),
        input_size: n_in,
        output_size: n_out,
    };
    let mlp = Model::TinyMLP(TinyMLP {
        layers: vec![
            // 2 -> 3: rows [1, 0], [0, 1], [-1, 1] (weights 1.0 = 256 at scale 8)
            layer(2, 3, vec![256, 0, 0, 256, -256, 256], vec![0, 0, 128]),
            // 3 -> 2: rows [1, 1, 0], [0, 0, 2]
            layer(3, 2, vec![256, 256, 0, 0, 0, 512], vec![0, 0]),
            // 2 -> 1: [1, -1]
            layer(2, 1, vec![256, -256], vec![64]),
        ],
    });
    let inputs = vec![at8(512), at8(-256)];
    // layer 1: [2, -1, -3 + 0.5] -> relu [2, 0, 0]; layer 2: [2, 0] -> relu [2, 0];
    // layer 3: 2 - 0 + 0.25 = 2.25 = 576 at scale 8.
    let checked = try_run_inference(&mlp, &inputs);
    assert_eq!(checked, Ok(at8(576)));
    assert_eq!(checked, Ok(run_inference(&mlp, &inputs)));
}
