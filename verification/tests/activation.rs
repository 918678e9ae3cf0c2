use zkml::activation::{
    hard_sigmoid, hard_sigmoid_vec, hard_swish, hard_swish_vec, hardtanh, hardtanh_vec, leaky_relu,
    leaky_relu_vec, relu, relu6, relu6_vec, relu_vec,
};
use zkml::fixed_point::{FixedPoint, DEFAULT_SCALE};

fn q(v: i64) -> FixedPoint {
    FixedPoint::from_raw(v, DEFAULT_SCALE)
}

const ONE: i64 = 1 << 16;

#[test]
fn relu_zeroes_negatives_and_passes_positives() {
    assert_eq!(relu(q(-2 * ONE)).value, 0);
    assert_eq!(relu(q(2 * ONE)).value, 2 * ONE);
    let out = relu_vec(&[q(-1), q(5), q(0)]);
    assert_eq!(out, vec![q(0), q(5), q(0)]);
}

#[test]
fn leaky_relu_shifts_negatives() {
    assert_eq!(leaky_relu(q(2 * ONE), 4).value, 2 * ONE);
    assert_eq!(leaky_relu(q(-ONE), 4).value, -ONE / 16);
    // The arithmetic shift floors: -1 >> 4 stays -1.
    assert_eq!(leaky_relu(q(-1), 4).value, -1);
    let out = leaky_relu_vec(&[q(-ONE), q(2 * ONE)], 4);
    assert_eq!(out.len(), 2);
    assert!(out[0].value < 0 && out[0].value > -ONE);
    assert_eq!(out[1].value, 2 * ONE);
}

#[test]
fn relu6_clamps_to_zero_and_six() {
    assert_eq!(relu6(q(-2 * ONE)).value, 0);
    assert_eq!(relu6(q(9 * ONE)).value, 6 * ONE);
    assert_eq!(relu6(q(7 * ONE / 2)).value, 7 * ONE / 2);
    assert_eq!(relu6_vec(&[q(-ONE), q(9 * ONE)]), vec![q(0), q(6 * ONE)]);
}

#[test]
fn hard_sigmoid_is_half_at_zero_and_saturates() {
    assert_eq!(hard_sigmoid(q(0)).value, ONE / 2);
    assert_eq!(hard_sigmoid(q(10 * ONE)).value, ONE);
    assert_eq!(hard_sigmoid(q(-10 * ONE)).value, 0);
    let out = hard_sigmoid_vec(&[q(0), q(10 * ONE)]);
    assert_eq!(out, vec![q(ONE / 2), q(ONE)]);
}

#[test]
fn hard_swish_is_zero_at_origin_and_identity_for_large_inputs() {
    assert_eq!(hard_swish(q(0)).value, 0);
    assert_eq!(hard_swish(q(8 * ONE)).value, 8 * ONE);
    assert!(hard_swish(q(-ONE)).value < 0);
    assert_eq!(hard_swish_vec(&[q(0), q(8 * ONE)]), vec![q(0), q(8 * ONE)]);
}

#[test]
fn hardtanh_saturates_both_ends() {
    assert_eq!(hardtanh(q(ONE / 2)).value, ONE / 2);
    assert_eq!(hardtanh(q(4 * ONE)).value, ONE);
    assert_eq!(hardtanh(q(-4 * ONE)).value, -ONE);
    assert_eq!(hardtanh_vec(&[q(2 * ONE), q(-ONE / 4)]), vec![q(ONE), q(-ONE / 4)]);
}

#[test]
fn relu6_at_scale_sixty_three_has_a_zero_bound() {
    // 6 << 63 wraps to zero, so the clamp range collapses to zero.
    let x = FixedPoint::from_raw(12345, 63);
    assert_eq!(relu6(x).value, 0);
}

/// `round(x * 2^16)` at the default scale, the quantization the models use.
fn quant(x: f64) -> FixedPoint {
    FixedPoint::from_raw((x * 65536.0).round() as i64, DEFAULT_SCALE)
}

fn as_f64(f: FixedPoint) -> f64 {
    f.value as f64 / (1i64 << f.scale) as f64
}

#[test]
fn relu_clamps_negatives() {
    let neg = quant(-2.0);
    assert_eq!(relu(neg).value, 0);
}

#[test]
fn relu_passes_positives() {
    let pos = quant(2.0);
    assert_eq!(relu(pos).value, pos.value);
}

#[test]
fn leaky_relu_keeps_positives() {
    let pos = quant(2.0);
    assert_eq!(leaky_relu(pos, 4).value, pos.value);
}

#[test]
fn leaky_relu_dampens_negatives() {
    let neg = quant(-1.0);
    let out = leaky_relu(neg, 4);
    assert!(out.value < 0);
    assert!(out.value > neg.value);
}

#[test]
fn leaky_relu_vec_applies_elementwise() {
    let xs = vec![quant(-1.0), quant(2.0)];
    let out = leaky_relu_vec(&xs, 4);
    assert_eq!(out.len(), 2);
    assert!(out[0].value < 0 && out[0].value > xs[0].value);
    assert_eq!(out[1].value, xs[1].value);
}

#[test]
fn relu6_clamps_negatives_to_zero() {
    assert_eq!(relu6(quant(-2.0)).value, 0);
}

#[test]
fn relu6_caps_at_six() {
    assert!((as_f64(relu6(quant(9.0))) - 6.0).abs() < 1e-4);
}

#[test]
fn relu6_passes_mid_range() {
    assert!((as_f64(relu6(quant(3.5))) - 3.5).abs() < 1e-4);
}

#[test]
fn hard_sigmoid_centers_at_half() {
    assert!((as_f64(hard_sigmoid(quant(0.0))) - 0.5).abs() < 1e-3);
}

#[test]
fn hard_sigmoid_saturates() {
    assert!((as_f64(hard_sigmoid(quant(10.0))) - 1.0).abs() < 1e-3);
    assert!(as_f64(hard_sigmoid(quant(-10.0))).abs() < 1e-3);
}

#[test]
fn hard_swish_zero_at_origin() {
    assert!(as_f64(hard_swish(quant(0.0))).abs() < 1e-3);
}

#[test]
fn hard_swish_approaches_identity_for_large_positive() {
    let x = quant(8.0);
    assert!((as_f64(hard_swish(x)) - 8.0).abs() < 1e-2);
}

#[test]
fn hard_swish_small_negative_is_negative() {
    let out = hard_swish(quant(-1.0));
    assert!(as_f64(out) < 0.0);
}

#[test]
fn hardtanh_passes_mid_range() {
    assert!((as_f64(hardtanh(quant(0.5))) - 0.5).abs() < 1e-4);
}

#[test]
fn hardtanh_vec_applies_elementwise() {
    let xs = vec![quant(2.0), quant(-0.25)];
    let out = hardtanh_vec(&xs);
    assert_eq!(out.len(), 2);
    assert!((as_f64(out[0]) - 1.0).abs() < 1e-4);
    assert!((as_f64(out[1]) + 0.25).abs() < 1e-4);
}

#[test]
fn relu6_vec_applies_elementwise() {
    let xs = vec![quant(-1.0), quant(9.0)];
    let out = relu6_vec(&xs);
    assert_eq!(out.len(), 2);
    assert_eq!(out[0].value, 0);
    assert!((as_f64(out[1]) - 6.0).abs() < 1e-4);
}

#[test]
fn hard_sigmoid_vec_applies_elementwise() {
    let xs = vec![quant(0.0), quant(10.0)];
    let out = hard_sigmoid_vec(&xs);
    assert_eq!(out.len(), 2);
    assert!((as_f64(out[0]) - 0.5).abs() < 1e-3);
    assert!((as_f64(out[1]) - 1.0).abs() < 1e-3);
}

#[test]
fn hard_swish_vec_applies_elementwise() {
    let xs = vec![quant(0.0), quant(8.0)];
    let out = hard_swish_vec(&xs);
    assert_eq!(out.len(), 2);
    assert!(as_f64(out[0]).abs() < 1e-3);
    assert!((as_f64(out[1]) - 8.0).abs() < 1e-2);
}
