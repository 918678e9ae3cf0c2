//! Activation functions for quantized neural network layers.
//!
//! Only ZK-friendly activations are offered: each one is a comparison, a
//! select, a shift or a clamp on the raw scaled integer.
use vstd::prelude::*;

use crate::fixed_point::FixedPoint;

verus! {

/// `max(0, x)` on the raw value, keeping the scale.
pub open spec fn spec_relu(x: FixedPoint) -> FixedPoint {
    if x.value < 0 {
        FixedPoint { value: 0, scale: x.scale }
    } else {
        x
    }
}

/// Negative raw values shifted right arithmetically by `shift`.
pub open spec fn spec_leaky_relu(x: FixedPoint, shift: u32) -> FixedPoint {
    if x.value < 0 {
        FixedPoint { value: x.value >> shift, scale: x.scale }
    } else {
        x
    }
}

/// The raw value of the constant `c` at fractional scale `s`: `c << s` in
/// 64-bit arithmetic.
pub open spec fn const_at_scale(c: i64, s: u32) -> i64 {
    c << s
}

/// ReLU6 is defined at scale `s` when the shift is in range and `6 << s`
/// did not wrap to a negative bound.
pub open spec fn relu6_defined(s: u32) -> bool {
    s < 64 && const_at_scale(6, s) >= 0
}

/// `clamp(x, 0, 6)` at the scale of `x`.
pub open spec fn spec_relu6(x: FixedPoint) -> FixedPoint {
    x.spec_clamp(
        FixedPoint { value: 0, scale: x.scale },
        FixedPoint { value: const_at_scale(6, x.scale), scale: x.scale },
    )
}

/// `relu6(x + 3) / 6`, or zero when the division yields nothing.
pub open spec fn spec_hard_sigmoid(x: FixedPoint) -> FixedPoint {
    let three = FixedPoint { value: const_at_scale(3, x.scale), scale: x.scale };
    let six = FixedPoint { value: const_at_scale(6, x.scale), scale: x.scale };
    match spec_relu6(x.spec_saturating_add(three)).spec_checked_div(six) {
        Some(q) => q,
        None => FixedPoint { value: 0, scale: x.scale },
    }
}

/// `x * hard_sigmoid(x)`.
pub open spec fn spec_hard_swish(x: FixedPoint) -> FixedPoint {
    x.spec_mul(spec_hard_sigmoid(x))
}

/// `clamp(x, -1, 1)` at the scale of `x`.
pub open spec fn spec_hardtanh(x: FixedPoint) -> FixedPoint {
    x.spec_clamp(
        FixedPoint { value: (-const_at_scale(1, x.scale)) as i64, scale: x.scale },
        FixedPoint { value: const_at_scale(1, x.scale), scale: x.scale },
    )
}

/// Element-wise ReLU.
pub open spec fn relu_seq(xs: Seq<FixedPoint>) -> Seq<FixedPoint> {
    xs.map_values(|x: FixedPoint| spec_relu(x))
}

/// ReLU is monotone, never negative, zero on negative inputs and the
/// identity elsewhere.
pub proof fn lemma_relu_monotone(x: FixedPoint, y: FixedPoint)
    requires
        x.value <= y.value,
    ensures
        spec_relu(x).value <= spec_relu(y).value,
        spec_relu(x).value >= 0,
        x.value < 0 ==> spec_relu(x).value == 0,
        x.value >= 0 ==> spec_relu(x).value == x.value,
{
}

/// `6 << s` is a non-negative bound for every `s` up to 60.
pub proof fn lemma_six_bound(s: u32)
    requires
        s <= 60,
    ensures
        relu6_defined(s),
        0 <= const_at_scale(3, s) <= const_at_scale(6, s),
{
    assert(s <= 60 ==> (6i64 << s) >= 0 && (3i64 << s) >= 0 && (3i64 << s) <= (6i64 << s)) by (bit_vector);
}

/// Quantized ReLU: `max(0, x)`.
pub fn relu(x: FixedPoint) -> (r: FixedPoint)
    ensures
        r == spec_relu(x),
{
    if x.value < 0 {
        FixedPoint::from_raw(0, x.scale)
    } else {
        x
    }
}

/// Apply ReLU element-wise to a slice, returning a new vector.
pub fn relu_vec(xs: &[FixedPoint]) -> (r: Vec<FixedPoint>)
    ensures
        r@ == relu_seq(xs@),
{
    let mut out: Vec<FixedPoint> = Vec::new();
    let mut i: usize = 0;
    while i < xs.len()
        invariant
            i <= xs@.len(),
            out@ == relu_seq(xs@.take(i as int)),
        decreases xs@.len() - i,
    {
        out.push(relu(xs[i]));
        proof {
            assert(xs@.take(i + 1) == xs@.take(i as int).push(xs@[i as int]));
        }
        i = i + 1;
    }
    proof {
        assert(xs@.take(i as int) == xs@);
    }
    out
}

/// Quantized leaky ReLU: positives pass through, negatives are scaled by
/// `2^-shift` with an arithmetic shift (`shift = 4` is a slope of 1/16).
pub fn leaky_relu(x: FixedPoint, shift: u32) -> (r: FixedPoint)
    requires
        shift < 64,
    ensures
        r == spec_leaky_relu(x, shift),
{
    if x.value < 0 {
        FixedPoint::from_raw(x.value >> shift, x.scale)
    } else {
        x
    }
}

/// Apply leaky ReLU element-wise to a slice, returning a new vector.
pub fn leaky_relu_vec(xs: &[FixedPoint], shift: u32) -> (r: Vec<FixedPoint>)
    requires
        shift < 64,
    ensures
        r@ == xs@.map_values(|x: FixedPoint| spec_leaky_relu(x, shift)),
{
    let mut out: Vec<FixedPoint> = Vec::new();
    let mut i: usize = 0;
    while i < xs.len()
        invariant
            shift < 64,
            i <= xs@.len(),
            out@ == xs@.take(i as int).map_values(|x: FixedPoint| spec_leaky_relu(x, shift)),
        decreases xs@.len() - i,
    {
        out.push(leaky_relu(xs[i], shift));
        proof {
            assert(xs@.take(i + 1) == xs@.take(i as int).push(xs@[i as int]));
        }
        i = i + 1;
    }
    proof {
        assert(xs@.take(i as int) == xs@);
    }
    out
}

/// Quantized ReLU6: `min(max(0, x), 6)`.
pub fn relu6(x: FixedPoint) -> (r: FixedPoint)
    requires
        relu6_defined(x.scale),
    ensures
        r == spec_relu6(x),
{
    let zero = FixedPoint::from_raw(0, x.scale);
    let six = FixedPoint::from_raw(6i64 << x.scale, x.scale);
    x.clamp(zero, six)
}

/// Apply ReLU6 element-wise to a slice, returning a new vector.
pub fn relu6_vec(xs: &[FixedPoint]) -> (r: Vec<FixedPoint>)
    requires
        forall|i: int| 0 <= i < xs@.len() ==> relu6_defined(#[trigger] xs@[i].scale),
    ensures
        r@ == xs@.map_values(|x: FixedPoint| spec_relu6(x)),
{
    let mut out: Vec<FixedPoint> = Vec::new();
    let mut i: usize = 0;
    while i < xs.len()
        invariant
            forall|i: int| 0 <= i < xs@.len() ==> relu6_defined(#[trigger] xs@[i].scale),
            i <= xs@.len(),
            out@ == xs@.take(i as int).map_values(|x: FixedPoint| spec_relu6(x)),
        decreases xs@.len() - i,
    {
        out.push(relu6(xs[i]));
        proof {
            assert(xs@.take(i + 1) == xs@.take(i as int).push(xs@[i as int]));
        }
        i = i + 1;
    }
    proof {
        assert(xs@.take(i as int) == xs@);
    }
    out
}

/// Quantized hard sigmoid: `relu6(x + 3) / 6`, an output in `[0, 1]`.
pub fn hard_sigmoid(x: FixedPoint) -> (r: FixedPoint)
    requires
        relu6_defined(x.scale),
    ensures
        r == spec_hard_sigmoid(x),
{
    let three = FixedPoint::from_raw(3i64 << x.scale, x.scale);
    let six = FixedPoint::from_raw(6i64 << x.scale, x.scale);
    let bounded = relu6(x.saturating_add(three));
    match bounded.checked_div(six) {
        Some(q) => q,
        None => FixedPoint::from_raw(0, x.scale),
    }
}

/// Apply hard sigmoid element-wise to a slice, returning a new vector.
pub fn hard_sigmoid_vec(xs: &[FixedPoint]) -> (r: Vec<FixedPoint>)
    requires
        forall|i: int| 0 <= i < xs@.len() ==> relu6_defined(#[trigger] xs@[i].scale),
    ensures
        r@ == xs@.map_values(|x: FixedPoint| spec_hard_sigmoid(x)),
{
    let mut out: Vec<FixedPoint> = Vec::new();
    let mut i: usize = 0;
    while i < xs.len()
        invariant
            forall|i: int| 0 <= i < xs@.len() ==> relu6_defined(#[trigger] xs@[i].scale),
            i <= xs@.len(),
            out@ == xs@.take(i as int).map_values(|x: FixedPoint| spec_hard_sigmoid(x)),
        decreases xs@.len() - i,
    {
        out.push(hard_sigmoid(xs[i]));
        proof {
            assert(xs@.take(i + 1) == xs@.take(i as int).push(xs@[i as int]));
        }
        i = i + 1;
    }
    proof {
        assert(xs@.take(i as int) == xs@);
    }
    out
}

/// Quantized hard swish: `x * hard_sigmoid(x)`.
pub fn hard_swish(x: FixedPoint) -> (r: FixedPoint)
    requires
        relu6_defined(x.scale),
    ensures
        r == spec_hard_swish(x),
{
    x.mul(hard_sigmoid(x))
}

/// Apply hard swish element-wise to a slice, returning a new vector.
pub fn hard_swish_vec(xs: &[FixedPoint]) -> (r: Vec<FixedPoint>)
    requires
        forall|i: int| 0 <= i < xs@.len() ==> relu6_defined(#[trigger] xs@[i].scale),
    ensures
        r@ == xs@.map_values(|x: FixedPoint| spec_hard_swish(x)),
{
    let mut out: Vec<FixedPoint> = Vec::new();
    let mut i: usize = 0;
    while i < xs.len()
        invariant
            forall|i: int| 0 <= i < xs@.len() ==> relu6_defined(#[trigger] xs@[i].scale),
            i <= xs@.len(),
            out@ == xs@.take(i as int).map_values(|x: FixedPoint| spec_hard_swish(x)),
        decreases xs@.len() - i,
    {
        out.push(hard_swish(xs[i]));
        proof {
            assert(xs@.take(i + 1) == xs@.take(i as int).push(xs@[i as int]));
        }
        i = i + 1;
    }
    proof {
        assert(xs@.take(i as int) == xs@);
    }
    out
}

/// Quantized hard tanh: `clamp(x, -1, 1)`.
pub fn hardtanh(x: FixedPoint) -> (r: FixedPoint)
    requires
        x.scale < 63,
    ensures
        r == spec_hardtanh(x),
{
    proof {
        let s = x.scale;
        assert(s < 63 ==> (1i64 << s) > 0) by (bit_vector);
    }
    let one = FixedPoint::from_raw(1i64 << x.scale, x.scale);
    x.clamp(one.neg(), one)
}

/// Apply hard tanh element-wise to a slice, returning a new vector.
pub fn hardtanh_vec(xs: &[FixedPoint]) -> (r: Vec<FixedPoint>)
    requires
        forall|i: int| 0 <= i < xs@.len() ==> #[trigger] xs@[i].scale < 63,
    ensures
        r@ == xs@.map_values(|x: FixedPoint| spec_hardtanh(x)),
{
    let mut out: Vec<FixedPoint> = Vec::new();
    let mut i: usize = 0;
    while i < xs.len()
        invariant
            forall|i: int| 0 <= i < xs@.len() ==> #[trigger] xs@[i].scale < 63,
            i <= xs@.len(),
            out@ == xs@.take(i as int).map_values(|x: FixedPoint| spec_hardtanh(x)),
        decreases xs@.len() - i,
    {
        out.push(hardtanh(xs[i]));
        proof {
            assert(xs@.take(i + 1) == xs@.take(i as int).push(xs@[i as int]));
        }
        i = i + 1;
    }
    proof {
        assert(xs@.take(i as int) == xs@);
    }
    out
}

} // verus!
