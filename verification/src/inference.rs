//! Model inference engine.
//!
//! Executes quantized models with fixed-point arithmetic. Every result is
//! stated against a mathematical forward pass: the tree walk, the logistic
//! accumulation and the dense layers below, each with the exact set of inputs
//! on which it succeeds.
use vstd::prelude::*;

use crate::activation::{relu_seq, relu_vec};
use crate::error::{result_kind, ErrorKind, ZkmlError};
use crate::fixed_point::FixedPoint;
use crate::models::{
    layer_shape_ok, mlp_error_text, lemma_walk_in_range, lemma_walk_push, mlp_valid, node_local_ok, spec_num_features,
    tree_well_formed, walk, DecisionTree, DenseLayer, LogisticRegression, Model, TinyMLP, TreeNode,
    MAX_TREE_DEPTH,
};

verus! {

/// Upper bound on the steps of a decision-tree traversal.
pub const MAX_ITERATIONS: usize = 10_000;

// ---------------------------------------------------------------------------
// Shared multiply-accumulate
// ---------------------------------------------------------------------------

/// One checked multiply-accumulate step: `acc + w * x`, `None` once any
/// product or sum has overflowed.
pub open spec fn mac(acc: Option<FixedPoint>, w: FixedPoint, x: FixedPoint) -> Option<FixedPoint> {
    match acc {
        Some(a) => match w.spec_checked_mul(x) {
            Some(p) => a.spec_checked_add(p),
            None => None,
        },
        None => None,
    }
}

/// The operands of a multiply-accumulate step share one scale and the
/// rescaling shift is in range.
pub open spec fn mac_safe(acc: FixedPoint, w: FixedPoint, x: FixedPoint) -> bool {
    &&& w.scale == x.scale
    &&& w.scale < 128
    &&& acc.scale == w.scale
}

fn mac_step(acc: FixedPoint, w: FixedPoint, x: FixedPoint) -> (r: Option<FixedPoint>)
    requires
        mac_safe(acc, w, x),
    ensures
        r == mac(Some(acc), w, x),
{
    match w.checked_mul(x) {
        Some(p) => acc.checked_add(p),
        None => None,
    }
}

// ---------------------------------------------------------------------------
// Decision trees
// ---------------------------------------------------------------------------

/// Walk the tree from node `idx` for at most `fuel` steps: a leaf's value,
/// or `None` when the steps run out. A sample goes left when its feature is
/// `<=` the threshold.
pub open spec fn tree_walk(nodes: Seq<TreeNode>, inputs: Seq<FixedPoint>, idx: int, fuel: nat) -> Option<
    FixedPoint,
>
    decreases fuel,
{
    if fuel == 0 {
        None
    } else {
        match nodes[idx] {
            TreeNode::Leaf { value } => Some(value),
            TreeNode::Split { feature_index, threshold, left, right } => tree_walk(
                nodes,
                inputs,
                if inputs[feature_index as int].value <= threshold.value { left as int } else { right as int },
                (fuel - 1) as nat,
            ),
        }
    }
}

/// Every node visited by [`tree_walk`] is in range and every feature it
/// reads exists.
pub open spec fn tree_walk_safe(nodes: Seq<TreeNode>, inputs: Seq<FixedPoint>, idx: int, fuel: nat) -> bool
    decreases fuel,
{
    fuel == 0 || (0 <= idx < nodes.len() && match nodes[idx] {
        TreeNode::Leaf { .. } => true,
        TreeNode::Split { feature_index, threshold, left, right } => feature_index < inputs.len()
            && tree_walk_safe(
            nodes,
            inputs,
            if inputs[feature_index as int].value <= threshold.value { left as int } else { right as int },
            (fuel - 1) as nat,
        ),
    })
}

/// Outcome of decision-tree inference.
pub open spec fn spec_infer_tree(tree: DecisionTree, inputs: Seq<FixedPoint>) -> Result<FixedPoint, ErrorKind> {
    if inputs.len() != tree.num_features {
        Err(ErrorKind::FeatureCountMismatch { expected: tree.num_features, got: inputs.len() as usize })
    } else {
        match tree_walk(tree.nodes@, inputs, 0, MAX_ITERATIONS as nat) {
            Some(v) => Ok(v),
            None => Err(ErrorKind::InvalidModel),
        }
    }
}

/// Decision-tree inference does not index out of bounds.
pub open spec fn tree_safe(tree: DecisionTree, inputs: Seq<FixedPoint>) -> bool {
    inputs.len() == tree.num_features ==> tree_walk_safe(tree.nodes@, inputs, 0, MAX_ITERATIONS as nat)
}

/// The message of a traversal that runs out of steps.
pub open spec fn traversal_limit_text() -> Seq<char> {
    "decision tree traversal exceeded maximum iterations (10000) - possible cycle"@
}

/// The message of an invalid-model error from inference: the validation
/// message of a network, the traversal limit of a tree.
pub open spec fn invalid_model_text(model: Model) -> Seq<char> {
    match model {
        Model::TinyMLP(mlp) => mlp_error_text(mlp.layers@),
        _ => traversal_limit_text(),
    }
}

/// Fallible decision tree inference with bounded iteration.
fn try_infer_decision_tree(tree: &DecisionTree, inputs: &[FixedPoint]) -> (r: Result<FixedPoint, ZkmlError>)
    requires
        tree_safe(*tree, inputs@),
    ensures
        result_kind(r) == spec_infer_tree(*tree, inputs@),
        r matches Err(ZkmlError::InvalidModel(m)) ==> m@ == traversal_limit_text(),
{
    if inputs.len() != tree.num_features {
        return Err(ZkmlError::FeatureCountMismatch { expected: tree.num_features, got: inputs.len() });
    }
    let ghost nodes = tree.nodes@;
    let mut node_idx: usize = 0;
    let mut iteration: usize = 0;
    while iteration < MAX_ITERATIONS
        invariant
            nodes == tree.nodes@,
            inputs@.len() == tree.num_features,
            iteration <= MAX_ITERATIONS,
            tree_walk_safe(nodes, inputs@, node_idx as int, (MAX_ITERATIONS - iteration) as nat),
            tree_walk(nodes, inputs@, 0, MAX_ITERATIONS as nat) == tree_walk(
                nodes,
                inputs@,
                node_idx as int,
                (MAX_ITERATIONS - iteration) as nat,
            ),
        decreases MAX_ITERATIONS - iteration,
    {
        match &tree.nodes[node_idx] {
            TreeNode::Split { feature_index, threshold, left, right } => {
                if inputs[*feature_index].value <= threshold.value {
                    node_idx = *left;
                } else {
                    node_idx = *right;
                }
            },
            TreeNode::Leaf { value } => {
                assert(tree_walk(nodes, inputs@, node_idx as int, (MAX_ITERATIONS - iteration) as nat) == Some(
                    *value,
                ));
                return Ok(*value);
            },
        }
        iteration = iteration + 1;
    }
    Err(ZkmlError::InvalidModel(
        "decision tree traversal exceeded maximum iterations (10000) - possible cycle".to_string(),
    ))
}

// ---------------------------------------------------------------------------
// Logistic regression
// ---------------------------------------------------------------------------

/// All values share the scale of the first.
pub open spec fn uniform_scale(xs: Seq<FixedPoint>) -> bool {
    forall|i: int| 0 <= i < xs.len() ==> (#[trigger] xs[i]).scale == xs[0].scale
}

/// `bias + sum(weights[i] * inputs[i])` over the first `k` features.
pub open spec fn lr_acc(lr: LogisticRegression, inputs: Seq<FixedPoint>, k: int) -> Option<FixedPoint>
    decreases k,
{
    if k <= 0 {
        Some(lr.bias)
    } else {
        mac(lr_acc(lr, inputs, k - 1), lr.weights@[k - 1], inputs[k - 1])
    }
}

/// Outcome of logistic-regression inference.
pub open spec fn spec_infer_lr(lr: LogisticRegression, inputs: Seq<FixedPoint>) -> Result<FixedPoint, ErrorKind> {
    if inputs.len() == 0 {
        Err(ErrorKind::FeatureCountMismatch { expected: lr.weights@.len() as usize, got: 0 })
    } else if inputs.len() != lr.weights@.len() {
        Err(
            ErrorKind::FeatureCountMismatch {
                expected: lr.weights@.len() as usize,
                got: inputs.len() as usize,
            },
        )
    } else if !uniform_scale(inputs) {
        Err(ErrorKind::QuantizationError)
    } else {
        match lr_acc(lr, inputs, inputs.len() as int) {
            Some(a) => Ok(FixedPoint { value: a.value, scale: inputs[0].scale }),
            None => Err(ErrorKind::ArithmeticOverflow),
        }
    }
}

/// Every multiply-accumulate step that logistic inference reaches has
/// operands of one scale.
pub open spec fn lr_safe(lr: LogisticRegression, inputs: Seq<FixedPoint>) -> bool {
    inputs.len() > 0 && inputs.len() == lr.weights@.len() && uniform_scale(inputs) ==> forall|k: int|
        0 <= k < inputs.len() && #[trigger] lr_acc(lr, inputs, k) is Some ==> mac_safe(
            lr_acc(lr, inputs, k)->0,
            lr.weights@[k],
            inputs[k],
        )
}

proof fn lemma_lr_acc_none(lr: LogisticRegression, inputs: Seq<FixedPoint>, k: int, m: int)
    requires
        0 <= k <= m,
        lr_acc(lr, inputs, k) is None,
    ensures
        lr_acc(lr, inputs, m) is None,
    decreases m - k,
{
    if k < m {
        lemma_lr_acc_none(lr, inputs, k, m - 1);
    }
}

/// Fallible logistic regression: `dot(weights, inputs) + bias` with checked
/// arithmetic, over non-empty inputs of one scale.
fn try_infer_logistic_regression(lr: &LogisticRegression, inputs: &[FixedPoint]) -> (r: Result<
    FixedPoint,
    ZkmlError,
>)
    requires
        lr_safe(*lr, inputs@),
    ensures
        result_kind(r) == spec_infer_lr(*lr, inputs@),
        r matches Err(ZkmlError::QuantizationError(m)) ==> m@ == "inputs have non-uniform fixed-point scale"@,
{
    if inputs.len() == 0 {
        return Err(ZkmlError::FeatureCountMismatch { expected: lr.weights.len(), got: 0 });
    }
    if inputs.len() != lr.weights.len() {
        return Err(ZkmlError::FeatureCountMismatch { expected: lr.weights.len(), got: inputs.len() });
    }
    let scale = inputs[0].scale;
    let mut s: usize = 0;
    while s < inputs.len()
        invariant
            s <= inputs@.len(),
            inputs@.len() == lr.weights@.len(),
            inputs@.len() > 0,
            scale == inputs@[0].scale,
            forall|i: int| 0 <= i < s ==> (#[trigger] inputs@[i]).scale == scale,
        decreases inputs@.len() - s,
    {
        if inputs[s].scale != scale {
            assert(!uniform_scale(inputs@)) by {
                assert(inputs@[s as int].scale != inputs@[0].scale);
            }
            return Err(ZkmlError::QuantizationError("inputs have non-uniform fixed-point scale".to_string()));
        }
        s = s + 1;
    }
    let mut acc = lr.bias;
    let mut k: usize = 0;
    while k < inputs.len()
        invariant
            k <= inputs@.len(),
            inputs@.len() == lr.weights@.len(),
            inputs@.len() > 0,
            uniform_scale(inputs@),
            lr_safe(*lr, inputs@),
            lr_acc(*lr, inputs@, k as int) == Some(acc),
        decreases inputs@.len() - k,
    {
        match mac_step(acc, lr.weights[k], inputs[k]) {
            Some(a) => {
                acc = a;
            },
            None => {
                proof {
                    lemma_lr_acc_none(*lr, inputs@, k + 1, inputs@.len() as int);
                }
                return Err(ZkmlError::ArithmeticOverflow);
            },
        }
        k = k + 1;
    }
    Ok(FixedPoint::from_raw(acc.value, scale))
}

// ---------------------------------------------------------------------------
// Dense layers and the tiny MLP
// ---------------------------------------------------------------------------

/// The number of inputs a row of `layer` reads: `min(|xs|, input_size)`.
pub open spec fn row_terms(layer: DenseLayer, xs: Seq<FixedPoint>) -> int {
    if xs.len() < layer.input_size { xs.len() as int } else { layer.input_size as int }
}

/// Row-major position of weight `(j, k)`.
pub open spec fn weight_index(layer: DenseLayer, j: int, k: int) -> int {
    j * layer.input_size + k
}

/// Output neuron `j` after its first `k` terms, starting from its bias.
pub open spec fn dense_row(layer: DenseLayer, xs: Seq<FixedPoint>, j: int, k: int) -> Option<FixedPoint>
    decreases k,
{
    if k <= 0 {
        Some(layer.biases@[j])
    } else {
        mac(dense_row(layer, xs, j, k - 1), layer.weights@[weight_index(layer, j, k - 1)], xs[k - 1])
    }
}

/// Scale of a layer's outputs: that of its first input, 16 without inputs.
pub open spec fn out_scale(xs: Seq<FixedPoint>) -> u32 {
    if xs.len() > 0 { xs[0].scale } else { 16 }
}

/// The first `j` outputs of `layer` on `xs`, `None` on overflow.
pub open spec fn dense_rows(layer: DenseLayer, xs: Seq<FixedPoint>, j: int) -> Option<Seq<FixedPoint>>
    decreases j,
{
    if j <= 0 {
        Some(Seq::empty())
    } else {
        match dense_rows(layer, xs, j - 1) {
            Some(s) => match dense_row(layer, xs, j - 1, row_terms(layer, xs)) {
                Some(a) => Some(s.push(FixedPoint { value: a.value, scale: out_scale(xs) })),
                None => None,
            },
            None => None,
        }
    }
}

/// All outputs of `layer` on `xs`, `None` on overflow.
pub open spec fn spec_dense(layer: DenseLayer, xs: Seq<FixedPoint>) -> Option<Seq<FixedPoint>> {
    dense_rows(layer, xs, layer.output_size as int)
}

/// Row `j` reads an existing bias, in-range weights, and operands of one
/// scale at every step it reaches.
pub open spec fn row_safe(layer: DenseLayer, xs: Seq<FixedPoint>, j: int) -> bool {
    &&& j < layer.biases@.len()
    &&& forall|k: int|
        0 <= k < row_terms(layer, xs) && #[trigger] dense_row(layer, xs, j, k) is Some ==> {
            &&& weight_index(layer, j, k) < layer.weights@.len()
            &&& mac_safe(dense_row(layer, xs, j, k)->0, layer.weights@[weight_index(layer, j, k)], xs[k])
        }
}

/// Every row that the forward pass of `layer` reaches is safe.
pub open spec fn dense_safe(layer: DenseLayer, xs: Seq<FixedPoint>) -> bool {
    forall|j: int|
        0 <= j < layer.output_size && #[trigger] dense_rows(layer, xs, j) is Some ==> row_safe(layer, xs, j)
}

proof fn lemma_dense_row_none(layer: DenseLayer, xs: Seq<FixedPoint>, j: int, k: int, m: int)
    requires
        0 <= k <= m,
        dense_row(layer, xs, j, k) is None,
    ensures
        dense_row(layer, xs, j, m) is None,
    decreases m - k,
{
    if k < m {
        lemma_dense_row_none(layer, xs, j, k, m - 1);
    }
}

proof fn lemma_dense_rows_none(layer: DenseLayer, xs: Seq<FixedPoint>, j: int, m: int)
    requires
        0 <= j <= m,
        dense_rows(layer, xs, j) is None,
    ensures
        dense_rows(layer, xs, m) is None,
    decreases m - j,
{
    if j < m {
        lemma_dense_rows_none(layer, xs, j, m - 1);
    }
}

/// One dense layer: `out[j] = bias[j] + sum_i weight[j, i] * in[i]`, with
/// weights stored row-major.
fn dense_forward(layer: &DenseLayer, inputs: &[FixedPoint]) -> (r: Result<Vec<FixedPoint>, ZkmlError>)
    requires
        dense_safe(*layer, inputs@),
    ensures
        match spec_dense(*layer, inputs@) {
            Some(s) => r matches Ok(v) && v@ == s,
            None => r matches Err(e) && e == ZkmlError::ArithmeticOverflow,
        },
{
    let scale: u32 = if inputs.len() > 0 { inputs[0].scale } else { 16 };
    let terms: usize = if inputs.len() < layer.input_size { inputs.len() } else { layer.input_size };
    let mut out: Vec<FixedPoint> = Vec::new();
    let mut j: usize = 0;
    while j < layer.output_size
        invariant
            j <= layer.output_size,
            dense_safe(*layer, inputs@),
            scale == out_scale(inputs@),
            terms == row_terms(*layer, inputs@),
            dense_rows(*layer, inputs@, j as int) == Some(out@),
        decreases layer.output_size - j,
    {
        assert(row_safe(*layer, inputs@, j as int));
        let mut acc = layer.biases[j];
        let mut i: usize = 0;
        while i < terms
            invariant
                j < layer.output_size,
                i <= terms,
                terms == row_terms(*layer, inputs@),
                row_safe(*layer, inputs@, j as int),
                dense_row(*layer, inputs@, j as int, i as int) == Some(acc),
            decreases terms - i,
        {
            let wlen = layer.weights.len();
            assert(weight_index(*layer, j as int, i as int) < layer.weights@.len());
            assert(j * layer.input_size + i < wlen);
            let w = layer.weights[j * layer.input_size + i];
            match mac_step(acc, w, inputs[i]) {
                Some(a) => {
                    acc = a;
                },
                None => {
                    proof {
                        lemma_dense_row_none(*layer, inputs@, j as int, i + 1, terms as int);
                        lemma_dense_rows_none(*layer, inputs@, j + 1, layer.output_size as int);
                    }
                    return Err(ZkmlError::ArithmeticOverflow);
                },
            }
            i = i + 1;
        }
        out.push(FixedPoint::from_raw(acc.value, scale));
        j = j + 1;
    }
    Ok(out)
}

/// Index of the final layer (0 when there are none).
pub open spec fn last_layer(layers: Seq<DenseLayer>) -> int {
    if layers.len() > 0 { layers.len() - 1 } else { 0 }
}

/// Activations after applying layers `idx..` to `acts`, with ReLU after
/// every layer but the last; `None` on overflow.
pub open spec fn mlp_from(layers: Seq<DenseLayer>, acts: Seq<FixedPoint>, idx: int) -> Option<Seq<FixedPoint>>
    decreases layers.len() - idx,
{
    if idx >= layers.len() {
        Some(acts)
    } else {
        match spec_dense(layers[idx], acts) {
            Some(out) => mlp_from(
                layers,
                if idx != last_layer(layers) { relu_seq(out) } else { out },
                idx + 1,
            ),
            None => None,
        }
    }
}

/// Every layer that the forward pass from `idx` reaches is safe.
pub open spec fn mlp_safe_from(layers: Seq<DenseLayer>, acts: Seq<FixedPoint>, idx: int) -> bool
    decreases layers.len() - idx,
{
    idx >= layers.len() || (dense_safe(layers[idx], acts) && match spec_dense(layers[idx], acts) {
        Some(out) => mlp_safe_from(
            layers,
            if idx != last_layer(layers) { relu_seq(out) } else { out },
            idx + 1,
        ),
        None => true,
    })
}

/// Outcome of the MLP forward pass: the first output of the final layer
/// (zero at scale 16 when it has none).
pub open spec fn spec_infer_mlp(mlp: TinyMLP, inputs: Seq<FixedPoint>) -> Result<FixedPoint, ErrorKind> {
    match mlp_from(mlp.layers@, inputs, 0) {
        Some(a) => Ok(if a.len() > 0 { a[0] } else { FixedPoint { value: 0, scale: 16 } }),
        None => Err(ErrorKind::ArithmeticOverflow),
    }
}

/// Fallible TinyMLP forward pass.
fn try_infer_tiny_mlp(mlp: &TinyMLP, inputs: &[FixedPoint]) -> (r: Result<FixedPoint, ZkmlError>)
    requires
        mlp_safe_from(mlp.layers@, inputs@, 0),
    ensures
        result_kind(r) == spec_infer_mlp(*mlp, inputs@),
{
    let mut activations: Vec<FixedPoint> = vstd::slice::slice_to_vec(inputs);
    let last: usize = if mlp.layers.len() > 0 { mlp.layers.len() - 1 } else { 0 };
    let mut idx: usize = 0;
    while idx < mlp.layers.len()
        invariant
            idx <= mlp.layers@.len(),
            last == last_layer(mlp.layers@),
            mlp_from(mlp.layers@, inputs@, 0) == mlp_from(mlp.layers@, activations@, idx as int),
            mlp_safe_from(mlp.layers@, activations@, idx as int),
        decreases mlp.layers@.len() - idx,
    {
        let out = match dense_forward(&mlp.layers[idx], activations.as_slice()) {
            Ok(v) => v,
            Err(e) => {
                return Err(e);
            },
        };
        if idx != last {
            activations = relu_vec(out.as_slice());
        } else {
            activations = out;
        }
        idx = idx + 1;
    }
    if activations.len() > 0 {
        Ok(activations[0])
    } else {
        Ok(FixedPoint::from_raw(0, 16))
    }
}

// ---------------------------------------------------------------------------
// Entry points
// ---------------------------------------------------------------------------

/// Outcome of validated inference.
pub open spec fn spec_try_run_inference(model: Model, inputs: Seq<FixedPoint>) -> Result<FixedPoint, ErrorKind> {
    let expected = spec_num_features(model);
    if inputs.len() == 0 {
        Err(ErrorKind::FeatureCountMismatch { expected, got: 0 })
    } else if expected != 0 && inputs.len() != expected {
        Err(ErrorKind::FeatureCountMismatch { expected, got: inputs.len() as usize })
    } else {
        match model {
            Model::LogisticRegression(lr) => spec_infer_lr(lr, inputs),
            Model::TinyMLP(mlp) => if !mlp_valid(mlp.layers@) {
                Err(ErrorKind::InvalidModel)
            } else {
                spec_infer_mlp(mlp, inputs)
            },
            Model::DecisionTree(tree) => spec_infer_tree(tree, inputs),
        }
    }
}

/// Validated inference neither indexes out of bounds nor mixes scales in
/// an operation.
pub open spec fn try_run_safe(model: Model, inputs: Seq<FixedPoint>) -> bool {
    let expected = spec_num_features(model);
    inputs.len() > 0 && (expected == 0 || inputs.len() == expected) ==> match model {
        Model::LogisticRegression(lr) => lr_safe(lr, inputs),
        Model::TinyMLP(mlp) => mlp_valid(mlp.layers@) ==> mlp_safe_from(mlp.layers@, inputs, 0),
        Model::DecisionTree(tree) => tree_safe(tree, inputs),
    }
}

/// Outcome of the model-specific forward pass, without the up-front
/// feature-count and topology checks.
pub open spec fn spec_forward(model: Model, inputs: Seq<FixedPoint>) -> Result<FixedPoint, ErrorKind> {
    match model {
        Model::DecisionTree(tree) => spec_infer_tree(tree, inputs),
        Model::LogisticRegression(lr) => spec_infer_lr(lr, inputs),
        Model::TinyMLP(mlp) => spec_infer_mlp(mlp, inputs),
    }
}

/// Unvalidated inference succeeds: the forward pass is safe and yields a
/// value.
pub open spec fn run_ok(model: Model, inputs: Seq<FixedPoint>) -> bool {
    &&& match model {
        Model::DecisionTree(tree) => tree_safe(tree, inputs),
        Model::LogisticRegression(lr) => lr_safe(lr, inputs),
        Model::TinyMLP(mlp) => mlp_safe_from(mlp.layers@, inputs, 0),
    }
    &&& spec_forward(model, inputs) is Ok
}

/// Run inference on a model given a vector of input features, returning
/// the raw fixed-point output. The forward pass must succeed.
pub fn run_inference(model: &Model, inputs: &[FixedPoint]) -> (r: FixedPoint)
    requires
        run_ok(*model, inputs@),
    ensures
        spec_forward(*model, inputs@) == Ok::<FixedPoint, ErrorKind>(r),
{
    let res = match model {
        Model::DecisionTree(tree) => try_infer_decision_tree(tree, inputs),
        Model::LogisticRegression(lr) => try_infer_logistic_regression(lr, inputs),
        Model::TinyMLP(mlp) => try_infer_tiny_mlp(mlp, inputs),
    };
    match res {
        Ok(v) => v,
        Err(_) => {
            proof {
                assert(false);
            }
            FixedPoint::from_raw(0, 16)
        },
    }
}

/// Validated inference that returns an error instead of panicking on a
/// feature-count mismatch, empty input, invalid TinyMLP topology,
/// non-uniform input scales, a tree walk that does not end, or fixed-point
/// overflow.
pub fn try_run_inference(model: &Model, inputs: &[FixedPoint]) -> (r: Result<FixedPoint, ZkmlError>)
    requires
        try_run_safe(*model, inputs@),
    ensures
        result_kind(r) == spec_try_run_inference(*model, inputs@),
        r matches Err(ZkmlError::InvalidModel(m)) ==> m@ == invalid_model_text(*model),
        r matches Err(ZkmlError::QuantizationError(m)) ==> m@ == "inputs have non-uniform fixed-point scale"@,
{
    if inputs.len() == 0 {
        return Err(ZkmlError::FeatureCountMismatch { expected: model.num_features(), got: 0 });
    }
    let expected = model.num_features();
    if expected != 0 && inputs.len() != expected {
        return Err(ZkmlError::FeatureCountMismatch { expected, got: inputs.len() });
    }
    match model {
        Model::LogisticRegression(lr) => try_infer_logistic_regression(lr, inputs),
        Model::TinyMLP(mlp) => {
            match mlp.validate() {
                Ok(()) => {},
                Err(e) => {
                    return Err(e);
                },
            }
            try_infer_tiny_mlp(mlp, inputs)
        },
        Model::DecisionTree(tree) => try_infer_decision_tree(tree, inputs),
    }
}

/// Wherever validated inference yields a value and the unvalidated forward
/// pass is safe, unvalidated inference yields the same value.
pub proof fn lemma_run_agrees_with_try(model: Model, inputs: Seq<FixedPoint>)
    requires
        spec_try_run_inference(model, inputs) is Ok,
    ensures
        spec_forward(model, inputs) == spec_try_run_inference(model, inputs),
{
}

/// Index of the largest value; on ties the last such index, as
/// `Iterator::max_by_key` picks it.
pub fn argmax(values: &[FixedPoint]) -> (r: Option<usize>)
    ensures
        r is None <==> values@.len() == 0,
        r matches Some(i) ==> {
            &&& i < values@.len()
            &&& forall|j: int| 0 <= j < values@.len() ==> (#[trigger] values@[j]).value <= values@[i as int].value
            &&& forall|j: int| i < j < values@.len() ==> (#[trigger] values@[j]).value < values@[i as int].value
        },
{
    if values.len() == 0 {
        return None;
    }
    let mut best: usize = 0;
    let mut i: usize = 1;
    while i < values.len()
        invariant
            1 <= i <= values@.len(),
            best < i,
            forall|j: int| 0 <= j < i ==> (#[trigger] values@[j]).value <= values@[best as int].value,
            forall|j: int| best < j < i ==> (#[trigger] values@[j]).value < values@[best as int].value,
        decreases values@.len() - i,
    {
        if values[i].value >= values[best].value {
            best = i;
        }
        i = i + 1;
    }
    Some(best)
}

/// Run inference for each input row, returning one output per row.
pub fn run_batch(model: &Model, rows: &[Vec<FixedPoint>]) -> (r: Vec<FixedPoint>)
    requires
        forall|i: int| 0 <= i < rows@.len() ==> run_ok(*model, (#[trigger] rows@[i])@),
    ensures
        r@.len() == rows@.len(),
        forall|i: int|
            0 <= i < rows@.len() ==> spec_forward(*model, (#[trigger] rows@[i])@) == Ok::<
                FixedPoint,
                ErrorKind,
            >(r@[i]),
{
    let mut out: Vec<FixedPoint> = Vec::new();
    let mut i: usize = 0;
    while i < rows.len()
        invariant
            i <= rows@.len(),
            out@.len() == i,
            forall|k: int| 0 <= k < rows@.len() ==> run_ok(*model, (#[trigger] rows@[k])@),
            forall|k: int|
                0 <= k < i ==> spec_forward(*model, (#[trigger] rows@[k])@) == Ok::<FixedPoint, ErrorKind>(
                    out@[k],
                ),
        decreases rows@.len() - i,
    {
        let v = run_inference(model, rows[i].as_slice());
        out.push(v);
        i = i + 1;
    }
    out
}

proof fn lemma_walk_reaches_leaf(
    nodes: Seq<TreeNode>,
    num_features: usize,
    inputs: Seq<FixedPoint>,
    d: Seq<bool>,
    k: int,
    fuel: nat,
)
    requires
        tree_well_formed(nodes, num_features),
        inputs.len() == num_features,
        walk(nodes, d) == Some(k),
        fuel + d.len() > MAX_TREE_DEPTH,
    ensures
        tree_walk_safe(nodes, inputs, k, fuel),
        tree_walk(nodes, inputs, k, fuel) is Some,
    decreases fuel,
{
    lemma_walk_in_range(nodes, num_features, d);
    assert(node_local_ok(nodes, num_features, k));
    assert(d.len() <= MAX_TREE_DEPTH);
    match nodes[k] {
        TreeNode::Split { feature_index, threshold, left, right } => {
            let b = !(inputs[feature_index as int].value <= threshold.value);
            lemma_walk_push(nodes, d, b);
            let next: int = if b { right as int } else { left as int };
            assert(walk(nodes, d.push(b)) == Some(next));
            assert(d.push(b).len() <= MAX_TREE_DEPTH);
            lemma_walk_reaches_leaf(nodes, num_features, inputs, d.push(b), next, (fuel - 1) as nat);
        },
        TreeNode::Leaf { .. } => {},
    }
}

/// A decision tree that passes validation is walked to a leaf within the
/// iteration bound on every input of the declared width: tree inference
/// neither indexes out of bounds nor fails.
pub proof fn lemma_validated_tree_reaches_leaf(tree: DecisionTree, inputs: Seq<FixedPoint>)
    requires
        tree_well_formed(tree.nodes@, tree.num_features),
        inputs.len() == tree.num_features,
    ensures
        tree_safe(tree, inputs),
        spec_infer_tree(tree, inputs) is Ok,
{
    assert(walk(tree.nodes@, Seq::<bool>::empty()) == Some(0int));
    lemma_walk_reaches_leaf(tree.nodes@, tree.num_features, inputs, Seq::<bool>::empty(), 0, MAX_ITERATIONS as nat);
}

// ---------------------------------------------------------------------------
// Laws over whole models
// ---------------------------------------------------------------------------

/// An empty input, or one of another width than the model declares, is
/// rejected with a feature-count mismatch.
pub proof fn lemma_width_mismatch_is_rejected(model: Model, inputs: Seq<FixedPoint>)
    requires
        inputs.len() == 0 || (spec_num_features(model) != 0 && inputs.len() != spec_num_features(model)),
    ensures
        spec_try_run_inference(model, inputs) matches Err(ErrorKind::FeatureCountMismatch { .. }),
{
}

/// A value within ±2.0 at the default scale.
pub open spec fn within_two(x: FixedPoint) -> bool {
    x.scale == 16 && -0x20000 <= x.value <= 0x20000
}

proof fn lemma_small_product(w: FixedPoint, x: FixedPoint)
    requires
        within_two(w),
        within_two(x),
    ensures
        w.spec_checked_mul(x) matches Some(p) && p.scale == 16 && -0x40000 <= p.value <= 0x40000,
{
    let a = w.value;
    let b = x.value;
    assert(-0x4_0000_0000 <= a * b <= 0x4_0000_0000) by (nonlinear_arith)
        requires
            -0x20000 <= a <= 0x20000,
            -0x20000 <= b <= 0x20000,
    ;
    let q: i128 = (a as i128 * b as i128) as i128;
    assert(q == a * b);
    assert(-0x4_0000_0000 <= q <= 0x4_0000_0000 ==> -0x40000 <= q >> 16u32 <= 0x40000) by (bit_vector);
}

proof fn lemma_small_lr_acc(lr: LogisticRegression, inputs: Seq<FixedPoint>, k: int)
    requires
        0 <= k <= inputs.len(),
        inputs.len() == lr.weights@.len(),
        inputs.len() <= 0x100000,
        within_two(lr.bias),
        forall|i: int| 0 <= i < inputs.len() ==> within_two(#[trigger] lr.weights@[i]),
        forall|i: int| 0 <= i < inputs.len() ==> within_two(#[trigger] inputs[i]),
    ensures
        lr_acc(lr, inputs, k) matches Some(a) && a.scale == 16 && -0x20000 - k * 0x40000 <= a.value <= 0x20000
            + k * 0x40000,
    decreases k,
{
    if k > 0 {
        lemma_small_lr_acc(lr, inputs, k - 1);
        lemma_small_product(lr.weights@[k - 1], inputs[k - 1]);
    }
}

/// Logistic regression whose weights, bias and inputs all lie within ±2.0
/// at the default scale, over an input of the declared width (up to 2^20
/// features), never fails: no product or sum overflows.
pub proof fn lemma_small_logistic_inference_succeeds(lr: LogisticRegression, inputs: Seq<FixedPoint>)
    requires
        inputs.len() > 0,
        inputs.len() == lr.weights@.len(),
        inputs.len() <= 0x100000,
        within_two(lr.bias),
        forall|i: int| 0 <= i < inputs.len() ==> within_two(#[trigger] lr.weights@[i]),
        forall|i: int| 0 <= i < inputs.len() ==> within_two(#[trigger] inputs[i]),
    ensures
        spec_try_run_inference(Model::LogisticRegression(lr), inputs) is Ok,
{
    lemma_small_lr_acc(lr, inputs, inputs.len() as int);
    assert(uniform_scale(inputs)) by {
        assert(within_two(inputs[0]));
    }
}

/// A decision tree that passes validation never fails on an input of its
/// declared width.
pub proof fn lemma_validated_tree_inference_succeeds(tree: DecisionTree, inputs: Seq<FixedPoint>)
    requires
        tree_well_formed(tree.nodes@, tree.num_features),
        inputs.len() == tree.num_features,
        inputs.len() > 0,
    ensures
        spec_try_run_inference(Model::DecisionTree(tree), inputs) is Ok,
{
    lemma_validated_tree_reaches_leaf(tree, inputs);
}

/// A value at the default scale of magnitude at most `b`.
pub open spec fn bounded_by(x: FixedPoint, b: int) -> bool {
    x.scale == 16 && -b <= x.value <= b
}

proof fn lemma_scaled_product(w: FixedPoint, x: FixedPoint, b: int)
    requires
        within_two(w),
        bounded_by(x, b),
        0 <= b <= 0x100_0000_0000,
    ensures
        w.spec_checked_mul(x) matches Some(p) && bounded_by(p, 2 * b),
{
    let a = w.value;
    let c = x.value;
    assert(-0x20000 * b <= a * c <= 0x20000 * b) by (nonlinear_arith)
        requires
            -0x20000 <= a <= 0x20000,
            -b <= c <= b,
            0 <= b,
    ;
    let q: i128 = (a as i128 * c as i128) as i128;
    assert(q == a * c);
    assert(-0x2000_0000_0000_0000 <= q <= 0x2000_0000_0000_0000 ==> (q >> 16u32) * 65536 <= q && q < (q >> 16u32)
        * 65536 + 65536) by (bit_vector);
}

proof fn lemma_bounded_row(layer: DenseLayer, xs: Seq<FixedPoint>, j: int, k: int, b: int)
    requires
        layer_shape_ok(layer),
        layer.input_size <= 3,
        layer.output_size <= 3,
        xs.len() == layer.input_size,
        0 <= j < layer.output_size,
        0 <= k <= layer.input_size,
        0 <= b <= 0x100_0000_0000,
        forall|i: int| 0 <= i < layer.weights@.len() ==> within_two(#[trigger] layer.weights@[i]),
        forall|i: int| 0 <= i < layer.biases@.len() ==> within_two(#[trigger] layer.biases@[i]),
        forall|i: int| 0 <= i < xs.len() ==> bounded_by(#[trigger] xs[i], b),
    ensures
        dense_row(layer, xs, j, k) matches Some(a) && bounded_by(a, 0x20000 + k * 2 * b),
    decreases k,
{
    if k > 0 {
        lemma_bounded_row(layer, xs, j, k - 1, b);
        let wi = weight_index(layer, j, k - 1);
        assert(0 <= wi < layer.input_size * layer.output_size) by (nonlinear_arith)
            requires
                wi == j * layer.input_size + (k - 1),
                0 <= j < layer.output_size,
                1 <= k <= layer.input_size,
        ;
        assert(layer.input_size * layer.output_size <= 9) by (nonlinear_arith)
            requires
                layer.input_size <= 3,
                layer.output_size <= 3,
        ;
        lemma_scaled_product(layer.weights@[wi], xs[k - 1], b);
        assert((k - 1) * 2 * b + 2 * b == k * 2 * b && k * 2 * b <= 6 * 0x100_0000_0000) by (nonlinear_arith)
            requires
                1 <= k <= 3,
                0 <= b <= 0x100_0000_0000,
        ;
    } else {
        assert(within_two(layer.biases@[j]));
    }
}

proof fn lemma_bounded_rows(layer: DenseLayer, xs: Seq<FixedPoint>, j: int, b: int)
    requires
        layer_shape_ok(layer),
        layer.input_size <= 3,
        layer.output_size <= 3,
        xs.len() == layer.input_size,
        0 <= j <= layer.output_size,
        0 <= b <= 0x100_0000_0000,
        forall|i: int| 0 <= i < layer.weights@.len() ==> within_two(#[trigger] layer.weights@[i]),
        forall|i: int| 0 <= i < layer.biases@.len() ==> within_two(#[trigger] layer.biases@[i]),
        forall|i: int| 0 <= i < xs.len() ==> bounded_by(#[trigger] xs[i], b),
    ensures
        dense_rows(layer, xs, j) matches Some(out) && out.len() == j && forall|i: int|
            0 <= i < j ==> bounded_by(#[trigger] out[i], 0x20000 + 6 * b),
    decreases j,
{
    if j > 0 {
        lemma_bounded_rows(layer, xs, j - 1, b);
        lemma_bounded_row(layer, xs, j - 1, row_terms(layer, xs), b);
        let prev = dense_rows(layer, xs, j - 1)->0;
        let a = dense_row(layer, xs, j - 1, row_terms(layer, xs))->0;
        assert(row_terms(layer, xs) <= 3);
        assert(0x20000 + row_terms(layer, xs) * 2 * b <= 0x20000 + 6 * b) by (nonlinear_arith)
            requires
                0 <= row_terms(layer, xs) <= 3,
                0 <= b,
        ;
        assert(out_scale(xs) == 16) by {
            if xs.len() > 0 {
                assert(bounded_by(xs[0], b));
            }
        }
        let out = prev.push(FixedPoint { value: a.value, scale: out_scale(xs) });
        assert forall|i: int| 0 <= i < j implies bounded_by(#[trigger] out[i], 0x20000 + 6 * b) by {
            if i < j - 1 {
                assert(out[i] == prev[i]);
            }
        }
    }
}

/// A multi-layer perceptron of at most two valid layers, each at most three
/// wide, whose weights, biases and inputs all lie within ±2.0 at the default
/// scale, never fails on an input of its declared width.
pub proof fn lemma_small_mlp_inference_succeeds(mlp: TinyMLP, inputs: Seq<FixedPoint>)
    requires
        mlp_valid(mlp.layers@),
        mlp.layers@.len() <= 2,
        forall|l: int|
            0 <= l < mlp.layers@.len() ==> (#[trigger] mlp.layers@[l]).input_size <= 3 && mlp.layers@[l].output_size
                <= 3,
        forall|l: int, i: int|
            0 <= l < mlp.layers@.len() && 0 <= i < mlp.layers@[l].weights@.len() ==> within_two(
                #[trigger] mlp.layers@[l].weights@[i],
            ),
        forall|l: int, i: int|
            0 <= l < mlp.layers@.len() && 0 <= i < mlp.layers@[l].biases@.len() ==> within_two(
                #[trigger] mlp.layers@[l].biases@[i],
            ),
        inputs.len() == mlp.layers@[0].input_size,
        inputs.len() > 0,
        forall|i: int| 0 <= i < inputs.len() ==> within_two(#[trigger] inputs[i]),
    ensures
        spec_try_run_inference(Model::TinyMLP(mlp), inputs) is Ok,
{
    let layers = mlp.layers@;
    let l0 = layers[0];
    assert(layer_shape_ok(l0));
    assert(l0.input_size <= 3 && l0.output_size <= 3);
    assert forall|i: int| 0 <= i < l0.weights@.len() implies within_two(#[trigger] l0.weights@[i]) by {
        assert(within_two(mlp.layers@[0].weights@[i]));
    }
    assert forall|i: int| 0 <= i < l0.biases@.len() implies within_two(#[trigger] l0.biases@[i]) by {
        assert(within_two(mlp.layers@[0].biases@[i]));
    }
    assert forall|i: int| 0 <= i < inputs.len() implies bounded_by(#[trigger] inputs[i], 0x20000) by {
        assert(within_two(inputs[i]));
    }
    lemma_bounded_rows(l0, inputs, l0.output_size as int, 0x20000);
    let out0 = spec_dense(l0, inputs)->0;
    if layers.len() == 1 {
        assert(mlp_from(layers, out0, 1) == Some(out0));
    } else {
        let l1 = layers[1];
        assert(layer_shape_ok(l1));
        assert(l1.input_size <= 3 && l1.output_size <= 3);
        assert(l0.output_size == l1.input_size);
        let acts = relu_seq(out0);
        let b1: int = 0xE0000int;
        assert forall|i: int| 0 <= i < acts.len() implies bounded_by(#[trigger] acts[i], b1) by {
            assert(bounded_by(out0[i], b1));
        }
        assert forall|i: int| 0 <= i < l1.weights@.len() implies within_two(#[trigger] l1.weights@[i]) by {
            assert(within_two(mlp.layers@[1].weights@[i]));
        }
        assert forall|i: int| 0 <= i < l1.biases@.len() implies within_two(#[trigger] l1.biases@[i]) by {
            assert(within_two(mlp.layers@[1].biases@[i]));
        }
        lemma_bounded_rows(l1, acts, l1.output_size as int, b1);
        let out1 = spec_dense(l1, acts)->0;
        assert(mlp_from(layers, out1, 2) == Some(out1));
        assert(last_layer(layers) == 1);
        assert(mlp_from(layers, acts, 1) == Some(out1));
    }
}

/// Every value of `xs` has scale `s`.
pub open spec fn all_at_scale(xs: Seq<FixedPoint>, s: u32) -> bool {
    forall|i: int| 0 <= i < xs.len() ==> (#[trigger] xs[i]).scale == s
}

/// Every weight and bias of every layer has scale `s`.
pub open spec fn layers_at_scale(layers: Seq<DenseLayer>, s: u32) -> bool {
    forall|l: int|
        0 <= l < layers.len() ==> all_at_scale((#[trigger] layers[l]).weights@, s) && all_at_scale(
            layers[l].biases@,
            s,
        )
}

/// The layer has exactly one weight per input and output pair, one bias per
/// output, and every parameter at scale `s`.
spec fn layer_ready(layer: DenseLayer, s: u32) -> bool {
    &&& layer.weights@.len() == layer.input_size * layer.output_size
    &&& layer.biases@.len() == layer.output_size
    &&& all_at_scale(layer.weights@, s)
    &&& all_at_scale(layer.biases@, s)
    &&& s < 128
}

proof fn lemma_row_at_scale(layer: DenseLayer, xs: Seq<FixedPoint>, j: int, k: int, s: u32)
    requires
        layer_ready(layer, s),
        xs.len() == layer.input_size,
        all_at_scale(xs, s),
        0 <= j < layer.output_size,
        0 <= k <= layer.input_size,
    ensures
        dense_row(layer, xs, j, k) matches Some(a) ==> a.scale == s,
    decreases k,
{
    if k > 0 {
        lemma_row_at_scale(layer, xs, j, k - 1, s);
        lemma_weight_in_range(layer, j, k - 1);
        assert(layer.weights@[weight_index(layer, j, k - 1)].scale == s);
    }
}

proof fn lemma_weight_in_range(layer: DenseLayer, j: int, k: int)
    requires
        0 <= j < layer.output_size,
        0 <= k < layer.input_size,
    ensures
        0 <= weight_index(layer, j, k) < layer.input_size * layer.output_size,
{
    let n = layer.input_size as int;
    let m = layer.output_size as int;
    assert(0 <= j * n + k < n * m) by (nonlinear_arith)
        requires
            0 <= j < m,
            0 <= k < n,
    ;
}

proof fn lemma_row_is_safe(layer: DenseLayer, xs: Seq<FixedPoint>, j: int, s: u32)
    requires
        layer_ready(layer, s),
        xs.len() == layer.input_size,
        all_at_scale(xs, s),
        0 <= j < layer.output_size,
    ensures
        row_safe(layer, xs, j),
{
    assert forall|k: int|
        0 <= k < row_terms(layer, xs) && #[trigger] dense_row(layer, xs, j, k) is Some implies {
        &&& weight_index(layer, j, k) < layer.weights@.len()
        &&& mac_safe(dense_row(layer, xs, j, k)->0, layer.weights@[weight_index(layer, j, k)], xs[k])
    } by {
        lemma_row_at_scale(layer, xs, j, k, s);
        lemma_weight_in_range(layer, j, k);
        assert(layer.weights@[weight_index(layer, j, k)].scale == s);
        assert(xs[k].scale == s);
    }
}

proof fn lemma_rows_at_scale(layer: DenseLayer, xs: Seq<FixedPoint>, j: int, s: u32)
    requires
        layer_ready(layer, s),
        xs.len() == layer.input_size,
        xs.len() > 0,
        all_at_scale(xs, s),
        0 <= j <= layer.output_size,
    ensures
        dense_rows(layer, xs, j) matches Some(out) ==> out.len() == j && all_at_scale(out, s),
    decreases j,
{
    if j > 0 {
        lemma_rows_at_scale(layer, xs, j - 1, s);
        assert(out_scale(xs) == s);
        if dense_rows(layer, xs, j) is Some {
            let prev = dense_rows(layer, xs, j - 1)->0;
            let out = dense_rows(layer, xs, j)->0;
            assert forall|i: int| 0 <= i < out.len() implies (#[trigger] out[i]).scale == s by {
                if i < j - 1 {
                    assert(out[i] == prev[i]);
                }
            }
        }
    }
}

proof fn lemma_mlp_safe_at_scale(layers: Seq<DenseLayer>, acts: Seq<FixedPoint>, idx: int, s: u32)
    requires
        mlp_valid(layers),
        forall|l: int| 0 <= l < layers.len() ==> layer_ready(#[trigger] layers[l], s),
        forall|l: int| 0 <= l < layers.len() - 1 ==> (#[trigger] layers[l]).output_size > 0,
        0 <= idx <= layers.len(),
        idx < layers.len() ==> acts.len() == layers[idx].input_size,
        acts.len() > 0,
        all_at_scale(acts, s),
    ensures
        mlp_safe_from(layers, acts, idx),
    decreases layers.len() - idx,
{
    if idx < layers.len() {
        let layer = layers[idx];
        assert(layer_ready(layer, s));
        assert forall|j: int|
            0 <= j < layer.output_size && #[trigger] dense_rows(layer, acts, j) is Some implies row_safe(
            layer,
            acts,
            j,
        ) by {
            lemma_row_is_safe(layer, acts, j, s);
        }
        lemma_rows_at_scale(layer, acts, layer.output_size as int, s);
        if spec_dense(layer, acts) is Some {
            let out = spec_dense(layer, acts)->0;
            let next = if idx != last_layer(layers) { relu_seq(out) } else { out };
            if idx + 1 < layers.len() {
                assert(layers[idx].output_size == layers[idx + 1].input_size);
                assert(layers[idx].output_size > 0);
                assert forall|i: int| 0 <= i < next.len() implies (#[trigger] next[i]).scale == s by {
                    assert(out[i].scale == s);
                }
                lemma_mlp_safe_at_scale(layers, next, idx + 1, s);
            } else {
                assert(mlp_safe_from(layers, next, idx + 1));
            }
            assert(mlp_safe_from(layers, next, idx + 1));
        }
        assert(dense_safe(layer, acts));
    }
}

/// A validated network whose weights, biases and inputs all share one scale
/// below 128, whose hidden layers are not empty and whose weight matrices fit
/// in memory, runs on an input of its declared width without a failed
/// check; validated inference succeeds exactly when the forward pass does not
/// overflow, and then gives what the unchecked forward pass gives.
pub proof fn lemma_validated_mlp_inference(mlp: TinyMLP, inputs: Seq<FixedPoint>, s: u32)
    requires
        mlp_valid(mlp.layers@),
        forall|l: int|
            0 <= l < mlp.layers@.len() ==> (#[trigger] mlp.layers@[l]).input_size * mlp.layers@[l].output_size
                <= usize::MAX,
        forall|l: int| 0 <= l < mlp.layers@.len() - 1 ==> (#[trigger] mlp.layers@[l]).output_size > 0,
        s < 128,
        layers_at_scale(mlp.layers@, s),
        inputs.len() == mlp.layers@[0].input_size,
        inputs.len() > 0,
        all_at_scale(inputs, s),
    ensures
        try_run_safe(Model::TinyMLP(mlp), inputs),
        spec_try_run_inference(Model::TinyMLP(mlp), inputs) is Ok <==> mlp_from(mlp.layers@, inputs, 0) is Some,
        mlp_from(mlp.layers@, inputs, 0) is Some ==> spec_forward(Model::TinyMLP(mlp), inputs)
            == spec_try_run_inference(Model::TinyMLP(mlp), inputs),
{
    let layers = mlp.layers@;
    assert forall|l: int| 0 <= l < layers.len() implies layer_ready(#[trigger] layers[l], s) by {
        assert(layer_shape_ok(layers[l]));
        assert(all_at_scale(layers[l].weights@, s) && all_at_scale(layers[l].biases@, s));
    }
    lemma_mlp_safe_at_scale(layers, inputs, 0, s);
}

/// On a model that validation accepts and an input of its declared width
/// whose values keep the arithmetic in range, validated inference runs
/// without a failed check, succeeds, and gives what unvalidated inference
/// gives (both are spec functions of their arguments, so a second call
/// gives the same result). The cases: a decision tree that passes
/// validation; a logistic regression whose weights, bias and inputs lie
/// within ±2.0 at the default scale, with at most 2^20 features; a network
/// that passes validation, whose parameters and inputs share one scale `s`
/// below 128, whose hidden layers are not empty, whose weight matrices fit
/// in memory, and whose forward pass does not overflow.
pub proof fn lemma_validated_inference_agrees(model: Model, inputs: Seq<FixedPoint>, s: u32)
    requires
        inputs.len() > 0,
        inputs.len() == spec_num_features(model),
        match model {
            Model::DecisionTree(t) => tree_well_formed(t.nodes@, t.num_features),
            Model::LogisticRegression(lr) => {
                &&& inputs.len() == lr.weights@.len()
                &&& inputs.len() <= 0x100000
                &&& within_two(lr.bias)
                &&& forall|i: int| 0 <= i < inputs.len() ==> within_two(#[trigger] lr.weights@[i])
                &&& forall|i: int| 0 <= i < inputs.len() ==> within_two(#[trigger] inputs[i])
            },
            Model::TinyMLP(m) => {
                &&& mlp_valid(m.layers@)
                &&& forall|l: int|
                    0 <= l < m.layers@.len() ==> (#[trigger] m.layers@[l]).input_size * m.layers@[l].output_size
                        <= usize::MAX
                &&& forall|l: int| 0 <= l < m.layers@.len() - 1 ==> (#[trigger] m.layers@[l]).output_size > 0
                &&& s < 128
                &&& layers_at_scale(m.layers@, s)
                &&& all_at_scale(inputs, s)
                &&& mlp_from(m.layers@, inputs, 0) is Some
            },
        },
    ensures
        try_run_safe(model, inputs),
        run_ok(model, inputs),
        spec_try_run_inference(model, inputs) is Ok,
        spec_forward(model, inputs) == spec_try_run_inference(model, inputs),
{
    match model {
        Model::DecisionTree(t) => {
            lemma_validated_tree_reaches_leaf(t, inputs);
        },
        Model::LogisticRegression(lr) => {
            lemma_small_logistic_inference_succeeds(lr, inputs);
            assert forall|k: int|
                0 <= k < inputs.len() && #[trigger] lr_acc(lr, inputs, k) is Some implies mac_safe(
                lr_acc(lr, inputs, k)->0,
                lr.weights@[k],
                inputs[k],
            ) by {
                lemma_small_lr_acc(lr, inputs, k);
                assert(within_two(lr.weights@[k]));
                assert(within_two(inputs[k]));
            }
        },
        Model::TinyMLP(m) => {
            lemma_validated_mlp_inference(m, inputs, s);
            assert(mlp_safe_from(m.layers@, inputs, 0));
        },
    }
    lemma_run_agrees_with_try(model, inputs);
}

/// Along the path `d` from the root every step is decided by the input: at
/// a split on feature `f` with threshold `t` the step goes right exactly
/// when `inputs[f].value > t.value`.
pub open spec fn path_follows_inputs(nodes: Seq<TreeNode>, inputs: Seq<FixedPoint>, d: Seq<bool>) -> bool {
    forall|i: int|
        0 <= i < d.len() ==> match walk(nodes, #[trigger] d.take(i)) {
            Some(k) => 0 <= k < nodes.len() && match nodes[k] {
                TreeNode::Split { feature_index, threshold, .. } => feature_index < inputs.len() && d[i] == (
                inputs[feature_index as int].value > threshold.value),
                TreeNode::Leaf { .. } => false,
            },
            None => false,
        }
}

/// The path `d` from the root ends at a leaf holding `v`.
pub open spec fn ends_at_leaf(nodes: Seq<TreeNode>, d: Seq<bool>, v: FixedPoint) -> bool {
    match walk(nodes, d) {
        Some(k) => 0 <= k < nodes.len() && nodes[k] == TreeNode::Leaf { value: v },
        None => false,
    }
}

proof fn lemma_follow_walk(
    nodes: Seq<TreeNode>,
    num_features: usize,
    inputs: Seq<FixedPoint>,
    d: Seq<bool>,
    k: int,
    fuel: nat,
)
    requires
        tree_well_formed(nodes, num_features),
        inputs.len() == num_features,
        walk(nodes, d) == Some(k),
        path_follows_inputs(nodes, inputs, d),
        fuel + d.len() > MAX_TREE_DEPTH,
    ensures
        exists|e: Seq<bool>, v: FixedPoint|
            #![trigger path_follows_inputs(nodes, inputs, e), ends_at_leaf(nodes, e, v)]
            path_follows_inputs(nodes, inputs, e) && ends_at_leaf(nodes, e, v) && tree_walk(nodes, inputs, k, fuel)
                == Some(v),
    decreases fuel,
{
    lemma_walk_in_range(nodes, num_features, d);
    assert(node_local_ok(nodes, num_features, k));
    assert(d.len() <= MAX_TREE_DEPTH);
    match nodes[k] {
        TreeNode::Split { feature_index, threshold, left, right } => {
            let b = !(inputs[feature_index as int].value <= threshold.value);
            lemma_walk_push(nodes, d, b);
            let next: int = if b { right as int } else { left as int };
            let e = d.push(b);
            assert(walk(nodes, e) == Some(next));
            assert(e.len() <= MAX_TREE_DEPTH);
            assert forall|i: int| 0 <= i < e.len() implies match walk(nodes, #[trigger] e.take(i)) {
                Some(k2) => 0 <= k2 < nodes.len() && match nodes[k2] {
                    TreeNode::Split { feature_index, threshold, .. } => feature_index < inputs.len() && e[i] == (
                    inputs[feature_index as int].value > threshold.value),
                    TreeNode::Leaf { .. } => false,
                },
                None => false,
            } by {
                if i < d.len() {
                    assert(e.take(i) =~= d.take(i));
                    assert(e[i] == d[i]);
                } else {
                    assert(e.take(i) =~= d);
                }
            }
            lemma_follow_walk(nodes, num_features, inputs, e, next, (fuel - 1) as nat);
        },
        TreeNode::Leaf { value } => {
            assert(path_follows_inputs(nodes, inputs, d));
            assert(ends_at_leaf(nodes, d, value));
        },
    }
}

/// Validated decision-tree inference answers with the leaf at the end of
/// the root path that the input decides: at each split on feature `f` with
/// threshold `t` the path goes left exactly when `inputs[f].value <=
/// t.value`.
pub proof fn lemma_tree_answer_follows_comparisons(tree: DecisionTree, inputs: Seq<FixedPoint>)
    requires
        tree_well_formed(tree.nodes@, tree.num_features),
        inputs.len() == tree.num_features,
        inputs.len() > 0,
    ensures
        exists|e: Seq<bool>, v: FixedPoint|
            #![trigger path_follows_inputs(tree.nodes@, inputs, e), ends_at_leaf(tree.nodes@, e, v)]
            path_follows_inputs(tree.nodes@, inputs, e) && ends_at_leaf(tree.nodes@, e, v) && spec_try_run_inference(
                Model::DecisionTree(tree),
                inputs,
            ) == Ok::<FixedPoint, ErrorKind>(v),
{
    let d = Seq::<bool>::empty();
    assert(walk(tree.nodes@, d) == Some(0int));
    assert(path_follows_inputs(tree.nodes@, inputs, d));
    lemma_follow_walk(tree.nodes@, tree.num_features, inputs, d, 0, MAX_ITERATIONS as nat);
}

/// A stump (one split on feature `j` at threshold `t`, then two leaves)
/// answers with its left leaf exactly when `inputs[j].value <= t.value`,
/// whatever the other features hold.
pub proof fn lemma_stump_answer(tree: DecisionTree, inputs: Seq<FixedPoint>, j: usize, t: FixedPoint, a: FixedPoint, b: FixedPoint)
    requires
        tree.nodes@ == seq![
            TreeNode::Split { feature_index: j, threshold: t, left: 1, right: 2 },
            TreeNode::Leaf { value: a },
            TreeNode::Leaf { value: b },
        ],
        j < tree.num_features,
        inputs.len() == tree.num_features,
    ensures
        spec_try_run_inference(Model::DecisionTree(tree), inputs) == Ok::<FixedPoint, ErrorKind>(
            if inputs[j as int].value <= t.value { a } else { b },
        ),
{
    let nodes = tree.nodes@;
    assert(tree_walk(nodes, inputs, 1, (MAX_ITERATIONS - 1) as nat) == Some(a));
    assert(tree_walk(nodes, inputs, 2, (MAX_ITERATIONS - 1) as nat) == Some(b));
}

proof fn lemma_dense_rows_shape(layer: DenseLayer, xs: Seq<FixedPoint>, j: int)
    requires
        0 <= j,
    ensures
        dense_rows(layer, xs, j) matches Some(s) ==> s.len() == j && forall|i: int|
            0 <= i < j ==> (#[trigger] dense_row(layer, xs, i, row_terms(layer, xs))) is Some && s[i]
                == (FixedPoint { value: dense_row(layer, xs, i, row_terms(layer, xs))->0.value, scale: out_scale(xs) }),
    decreases j,
{
    if j > 0 {
        lemma_dense_rows_shape(layer, xs, j - 1);
        if dense_rows(layer, xs, j) is Some {
            let prev = dense_rows(layer, xs, j - 1)->0;
            let s = dense_rows(layer, xs, j)->0;
            assert forall|i: int| 0 <= i < j implies (#[trigger] dense_row(layer, xs, i, row_terms(layer, xs))) is Some
                && s[i] == (FixedPoint {
                value: dense_row(layer, xs, i, row_terms(layer, xs))->0.value,
                scale: out_scale(xs),
            }) by {
                if i < j - 1 {
                    assert(s[i] == prev[i]);
                }
            }
        }
    }
}

proof fn lemma_first_row_same(l1: DenseLayer, l2: DenseLayer, xs: Seq<FixedPoint>, k: int)
    requires
        l1.input_size == l2.input_size,
        l1.biases@[0] == l2.biases@[0],
        forall|i: int| 0 <= i < l1.input_size ==> l1.weights@[i] == l2.weights@[i],
        0 <= k <= l1.input_size,
    ensures
        dense_row(l1, xs, 0, k) == dense_row(l2, xs, 0, k),
    decreases k,
{
    if k > 0 {
        lemma_first_row_same(l1, l2, xs, k - 1);
        assert(weight_index(l1, 0, k - 1) == k - 1);
        assert(weight_index(l2, 0, k - 1) == k - 1);
    }
}

proof fn lemma_first_row_is_regression(l: DenseLayer, lr: LogisticRegression, xs: Seq<FixedPoint>, k: int)
    requires
        lr.bias == l.biases@[0],
        forall|i: int| 0 <= i < l.input_size ==> lr.weights@[i] == l.weights@[i],
        0 <= k <= l.input_size,
    ensures
        dense_row(l, xs, 0, k) == lr_acc(lr, xs, k),
    decreases k,
{
    if k > 0 {
        lemma_first_row_is_regression(l, lr, xs, k - 1);
        assert(weight_index(l, 0, k - 1) == k - 1);
    }
}

/// A network of one layer answers with that layer's first output neuron:
/// wherever it succeeds, its answer is that of the logistic regression
/// whose weights are the layer's first weight row and whose bias is its
/// first bias, on the same inputs (of one scale).
pub proof fn lemma_single_layer_answers_first_row(mlp: TinyMLP, lr: LogisticRegression, inputs: Seq<FixedPoint>)
    requires
        mlp.layers@.len() == 1,
        inputs.len() > 0,
        inputs.len() == mlp.layers@[0].input_size,
        mlp.layers@[0].output_size > 0,
        mlp.layers@[0].weights@.len() >= inputs.len(),
        mlp.layers@[0].biases@.len() > 0,
        lr.weights@ == mlp.layers@[0].weights@.take(inputs.len() as int),
        lr.bias == mlp.layers@[0].biases@[0],
        uniform_scale(inputs),
    ensures
        spec_try_run_inference(Model::TinyMLP(mlp), inputs) matches Ok(v) ==> spec_try_run_inference(
            Model::LogisticRegression(lr),
            inputs,
        ) == Ok::<FixedPoint, ErrorKind>(v),
{
    let l = mlp.layers@[0];
    let n = inputs.len() as int;
    if spec_try_run_inference(Model::TinyMLP(mlp), inputs) is Ok {
        lemma_dense_rows_shape(l, inputs, l.output_size as int);
        assert(last_layer(mlp.layers@) == 0);
        let out = spec_dense(l, inputs)->0;
        assert(mlp_from(mlp.layers@, out, 1) == Some(out));
        assert(row_terms(l, inputs) == n);
        lemma_first_row_is_regression(l, lr, inputs, n);
        assert(dense_row(l, inputs, 0, n) is Some);
        assert(lr.weights@.len() == n);
    }
}

proof fn lemma_truncated_last_layer(
    l1: Seq<DenseLayer>,
    l2: Seq<DenseLayer>,
    acts: Seq<FixedPoint>,
    idx: int,
)
    requires
        l1.len() == l2.len(),
        l1.len() >= 1,
        forall|i: int| 0 <= i < l1.len() - 1 ==> l2[i] == l1[i],
        l2.last().input_size == l1.last().input_size,
        l2.last().output_size == 1,
        l1.last().output_size >= 1,
        l1.last().biases@.len() >= 1,
        l2.last().biases@ == seq![l1.last().biases@[0]],
        forall|i: int| 0 <= i < l1.last().input_size ==> l2.last().weights@[i] == l1.last().weights@[i],
        0 <= idx < l1.len(),
    ensures
        mlp_from(l1, acts, idx) matches Some(a) ==> (mlp_from(l2, acts, idx) matches Some(b) && a.len() >= 1
            && b.len() == 1 && b[0] == a[0]),
    decreases l1.len() - idx,
{
    let last = l1.len() - 1;
    assert(last_layer(l1) == last && last_layer(l2) == last);
    if idx < last {
        assert(l2[idx] == l1[idx]);
        if spec_dense(l1[idx], acts) is Some {
            let out = spec_dense(l1[idx], acts)->0;
            lemma_truncated_last_layer(l1, l2, relu_seq(out), idx + 1);
        }
    } else {
        let a1 = l1[idx];
        let a2 = l2[idx];
        lemma_dense_rows_shape(a1, acts, a1.output_size as int);
        lemma_dense_rows_shape(a2, acts, 1);
        if spec_dense(a1, acts) is Some {
            let out = spec_dense(a1, acts)->0;
            assert(mlp_from(l1, out, idx + 1) == Some(out));
            assert(row_terms(a1, acts) == row_terms(a2, acts));
            lemma_first_row_same(a1, a2, acts, row_terms(a1, acts));
            assert(dense_rows(a2, acts, 0) == Some(Seq::<FixedPoint>::empty()));
            assert(dense_row(a1, acts, 0, row_terms(a1, acts)) is Some);
            let out2 = spec_dense(a2, acts)->0;
            assert(mlp_from(l2, out2, idx + 1) == Some(out2));
        }
    }
}

/// A network answers with the first output neuron of its final layer:
/// wherever it succeeds, keeping only the first neuron of the final layer
/// (its first weight row and first bias) gives the same answer.
pub proof fn lemma_answer_is_first_output(m: TinyMLP, m2: TinyMLP, inputs: Seq<FixedPoint>)
    requires
        m.layers@.len() >= 1,
        m2.layers@.len() == m.layers@.len(),
        forall|i: int| 0 <= i < m.layers@.len() - 1 ==> m2.layers@[i] == m.layers@[i],
        m2.layers@.last().input_size == m.layers@.last().input_size,
        m2.layers@.last().output_size == 1,
        m.layers@.last().output_size >= 1,
        m.layers@.last().weights@.len() >= m.layers@.last().input_size,
        m.layers@.last().biases@.len() >= 1,
        m2.layers@.last().weights@ == m.layers@.last().weights@.take(m.layers@.last().input_size as int),
        m2.layers@.last().biases@ == seq![m.layers@.last().biases@[0]],
    ensures
        spec_try_run_inference(Model::TinyMLP(m), inputs) is Ok ==> spec_try_run_inference(Model::TinyMLP(m2), inputs)
            == spec_try_run_inference(Model::TinyMLP(m), inputs),
{
    let l1 = m.layers@;
    let l2 = m2.layers@;
    if spec_try_run_inference(Model::TinyMLP(m), inputs) is Ok {
        lemma_truncated_last_layer(l1, l2, inputs, 0);
        let last = l1.len() - 1;
        assert(l2[0].input_size == l1[0].input_size) by {
            if last > 0 {
                assert(l2[0] == l1[0]);
            }
        }
        assert(mlp_valid(l2)) by {
            assert forall|i: int| 0 <= i < l2.len() implies #[trigger] layer_shape_ok(l2[i]) by {
                if i < last {
                    assert(l2[i] == l1[i]);
                    assert(layer_shape_ok(l1[i]));
                } else {
                    assert(layer_shape_ok(l1[i]));
                    assert(l1.last().input_size * l1.last().output_size >= l1.last().input_size) by (nonlinear_arith)
                        requires
                            l1.last().output_size >= 1,
                    ;
                }
            }
            assert forall|i: int| 0 <= i < l2.len() - 1 implies (#[trigger] l2[i]).output_size == l2[i + 1].input_size by {
                assert(l1[i].output_size == l1[i + 1].input_size);
                assert(l2[i] == l1[i]);
                if i + 1 < last {
                    assert(l2[i + 1] == l1[i + 1]);
                }
            }
        }
    }
}

} // verus!
