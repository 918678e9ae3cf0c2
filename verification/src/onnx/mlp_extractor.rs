//! Dense-network extraction: which nodes form each dense layer (`Gemm`, or
//! `MatMul` followed by an optional `Add`, with `Relu` between layers), how
//! each layer is read from the quantized initialiser tensors, whether
//! consecutive layers chain, and the resulting [`TinyMLP`]. Decoding the
//! tensors' floating-point payloads, and judging a `Gemm` node's
//! floating-point attributes, is left to the caller.
use vstd::prelude::*;

use super::proto::{GraphProto, NodeProto};
use super::{is_dense_op, push_decimal, push_signed, OnnxImportError};
use crate::error::{decimal, signed_decimal};
use super::tree_extractor::{attr_named, attribute_index};
use crate::fixed_point::{FixedPoint, DEFAULT_SCALE};
use crate::models::{chain_error_from, layer_shape_ok, mlp_error_text, mlp_valid, shape_error_from, DenseLayer, TinyMLP};
use crate::prover::str_eq;

verus! {

/// One dense layer of the graph, by node position.
#[derive(Debug, Clone, Copy, PartialEq, Eq, Structural)]
pub enum DenseStep {
    /// A fused `Gemm` node.
    Gemm { node: usize },
    /// A `MatMul` node and the `Add` node right after it, if any.
    MatMul { node: usize, add: Option<usize> },
}

/// The dense layers of a graph in order, and where the walk stopped early.
#[derive(Debug, Clone, PartialEq, Eq)]
pub struct DensePlan {
    /// The layers found before the walk stopped.
    pub steps: Vec<DenseStep>,
    /// The error for a standalone `Add` that ended the walk, if one did.
    pub stop: Option<OnnxImportError>,
}

/// The layers found from node `i` on, and the position of the standalone
/// `Add` that stops the walk, if any.
pub open spec fn plan_from(nodes: Seq<NodeProto>, i: int) -> (Seq<DenseStep>, Option<int>)
    decreases nodes.len() - i,
{
    if i >= nodes.len() {
        (Seq::empty(), None)
    } else if nodes[i].op_type@ == "Gemm"@ {
        let rest = plan_from(nodes, i + 1);
        (seq![DenseStep::Gemm { node: i as usize }] + rest.0, rest.1)
    } else if nodes[i].op_type@ == "MatMul"@ {
        if i + 1 < nodes.len() && nodes[i + 1].op_type@ == "Add"@ {
            let rest = plan_from(nodes, i + 2);
            (seq![DenseStep::MatMul { node: i as usize, add: Some((i + 1) as usize) }] + rest.0, rest.1)
        } else {
            let rest = plan_from(nodes, i + 1);
            (seq![DenseStep::MatMul { node: i as usize, add: None }] + rest.0, rest.1)
        }
    } else if nodes[i].op_type@ == "Relu"@ {
        plan_from(nodes, i + 1)
    } else {
        (Seq::empty(), Some(i))
    }
}

/// Every node is one of `Gemm`, `MatMul`, `Add` and `Relu`.
pub open spec fn all_dense(nodes: Seq<NodeProto>) -> bool {
    forall|i: int| 0 <= i < nodes.len() ==> is_dense_op(#[trigger] nodes[i].op_type@)
}

/// Walk the graph and list its dense layers.
///
/// An empty graph, or one with an operator other than `Gemm`, `MatMul`,
/// `Add` and `Relu`, is malformed. Otherwise the walk groups each `MatMul`
/// with an `Add` right after it, skips `Relu`, and stops at a standalone
/// `Add`, which is recorded as the malformed-model error the caller
/// reports once the layers before it are extracted.
pub fn plan_dense_layers(graph: &GraphProto) -> (r: Result<DensePlan, OnnxImportError>)
    ensures
        graph.node@.len() == 0 || !all_dense(graph.node@) ==> (r matches Err(e) && e is MalformedModel),
        graph.node@.len() > 0 && all_dense(graph.node@) ==> (r matches Ok(plan) && plan.steps@ == plan_from(
            graph.node@,
            0,
        ).0 && (plan.stop is Some <==> plan_from(graph.node@, 0).1 is Some) && (plan.stop matches Some(e)
            ==> e is MalformedModel)),
        graph.node@.len() == 0 ==> (r matches Err(OnnxImportError::MalformedModel(m)) && m@
            == "MLP graph has no nodes"@),
        forall|k: int|
            0 <= k < graph.node@.len() && !is_dense_op(#[trigger] graph.node@[k].op_type@) && (forall|j: int|
                0 <= j < k ==> is_dense_op(graph.node@[j].op_type@)) ==> (r matches Err(
                OnnxImportError::MalformedModel(m),
            ) && m@ == "MLP graph contains unsupported operator '"@ + graph.node@[k].op_type@
                + "' (expected Gemm, MatMul, Add, or Relu)"@),
        r matches Ok(plan) ==> (plan.stop matches Some(OnnxImportError::MalformedModel(m)) ==> (plan_from(
            graph.node@,
            0,
        ).1 matches Some(i) && m@ == "unexpected standalone Add node '"@ + graph.node@[i].name@
            + "' without preceding MatMul"@)),
{
    let nodes = &graph.node;
    if nodes.len() == 0 {
        return Err(OnnxImportError::MalformedModel("MLP graph has no nodes".to_owned()));
    }
    let mut k: usize = 0;
    while k < nodes.len()
        invariant
            nodes@ == graph.node@,
            k <= nodes@.len(),
            forall|j: int| 0 <= j < k ==> is_dense_op(#[trigger] nodes@[j].op_type@),
        decreases nodes@.len() - k,
    {
        let op = nodes[k].op_type.as_str();
        if !(str_eq(op, "Gemm") || str_eq(op, "MatMul") || str_eq(op, "Add") || str_eq(op, "Relu")) {
            assert(!is_dense_op(nodes@[k as int].op_type@));
            assert(!all_dense(graph.node@));
            let mut msg = String::new();
            msg.append("MLP graph contains unsupported operator '");
            msg.append(op);
            msg.append("' (expected Gemm, MatMul, Add, or Relu)");
            return Err(OnnxImportError::MalformedModel(msg));
        }
        k = k + 1;
    }
    let mut steps: Vec<DenseStep> = Vec::new();
    let mut i: usize = 0;
    while i < nodes.len()
        invariant
            nodes@ == graph.node@,
            nodes@.len() > 0,
            all_dense(nodes@),
            i <= nodes@.len(),
            plan_from(nodes@, 0).0 == steps@ + plan_from(nodes@, i as int).0,
            plan_from(nodes@, 0).1 == plan_from(nodes@, i as int).1,
        decreases nodes@.len() - i,
    {
        let op = nodes[i].op_type.as_str();
        if str_eq(op, "Gemm") {
            let ghost before = steps@;
            steps.push(DenseStep::Gemm { node: i });
            proof {
                assert(steps@ + plan_from(nodes@, i + 1).0 =~= before + (seq![DenseStep::Gemm { node: i }] + plan_from(
                    nodes@,
                    i + 1,
                ).0));
            }
            i = i + 1;
        } else if str_eq(op, "MatMul") {
            let ghost before = steps@;
            if i + 1 < nodes.len() && str_eq(nodes[i + 1].op_type.as_str(), "Add") {
                steps.push(DenseStep::MatMul { node: i, add: Some(i + 1) });
                proof {
                    assert(steps@ + plan_from(nodes@, i + 2).0 =~= before + (seq![
                        DenseStep::MatMul { node: i, add: Some((i + 1) as usize) },
                    ] + plan_from(nodes@, i + 2).0));
                }
                i = i + 2;
            } else {
                steps.push(DenseStep::MatMul { node: i, add: None });
                proof {
                    assert(steps@ + plan_from(nodes@, i + 1).0 =~= before + (seq![
                        DenseStep::MatMul { node: i, add: None },
                    ] + plan_from(nodes@, i + 1).0));
                }
                i = i + 1;
            }
        } else if str_eq(op, "Relu") {
            i = i + 1;
        } else {
            let mut msg = String::new();
            if str_eq(op, "Add") {
                msg.append("unexpected standalone Add node '");
                msg.append(nodes[i].name.as_str());
                msg.append("' without preceding MatMul");
            } else {
                msg.append("unexpected operator '");
                msg.append(op);
                msg.append("' in MLP graph");
            }
            proof {
                assert(plan_from(nodes@, i as int).0 =~= Seq::<DenseStep>::empty());
                assert(steps@ + Seq::<DenseStep>::empty() =~= steps@);
            }
            return Ok(DensePlan { steps, stop: Some(OnnxImportError::MalformedModel(msg)) });
        }
    }
    proof {
        assert(steps@ + Seq::<DenseStep>::empty() =~= steps@);
    }
    Ok(DensePlan { steps, stop: None })
}

/// The layers, given as `(input_size, output_size)`, are not empty and each
/// one's outputs feed the next one's inputs.
pub open spec fn layers_chain(shapes: Seq<(usize, usize)>) -> bool {
    &&& shapes.len() > 0
    &&& forall|j: int| 0 <= j < shapes.len() - 1 ==> (#[trigger] shapes[j]).1 == shapes[j + 1].0
}

/// Check that dense layers were found and that consecutive ones chain; the
/// first mismatch is named in the error. Every error is a
/// [`OnnxImportError::MalformedModel`].
pub fn check_layer_chain(shapes: &[(usize, usize)]) -> (r: Result<(), OnnxImportError>)
    ensures
        r is Ok <==> layers_chain(shapes@),
        r matches Err(e) ==> e is MalformedModel,
        shapes@.len() == 0 ==> (r matches Err(OnnxImportError::MalformedModel(m)) && m@
            == "MLP graph contains no dense layers (expected Gemm or MatMul + Add nodes)"@),
        forall|j: int|
            0 <= j < shapes@.len() - 1 && (#[trigger] shapes@[j]).1 != shapes@[j + 1].0 && (forall|i: int|
                0 <= i < j ==> shapes@[i].1 == shapes@[i + 1].0) ==> (r matches Err(
                OnnxImportError::MalformedModel(m),
            ) && m@ == "layer "@ + decimal(j as nat) + " output_size "@ + decimal(shapes@[j].1 as nat)
                + " does not match layer "@ + decimal((j + 1) as nat) + " input_size "@ + decimal(
                shapes@[j + 1].0 as nat,
            )),
{
    if shapes.len() == 0 {
        return Err(
            OnnxImportError::MalformedModel(
                "MLP graph contains no dense layers (expected Gemm or MatMul + Add nodes)".to_owned(),
            ),
        );
    }
    let mut j: usize = 0;
    let last = shapes.len() - 1;
    while j < last
        invariant
            shapes@.len() > 0,
            last == shapes@.len() - 1,
            j <= last,
            forall|m: int| 0 <= m < j ==> (#[trigger] shapes@[m]).1 == shapes@[m + 1].0,
        decreases shapes@.len() - j,
    {
        let out = shapes[j].1;
        let next_in = shapes[j + 1].0;
        if out != next_in {
            let mut msg = String::new();
            msg.append("layer ");
            push_decimal(&mut msg, j as u64);
            msg.append(" output_size ");
            push_decimal(&mut msg, out as u64);
            msg.append(" does not match layer ");
            push_decimal(&mut msg, (j + 1) as u64);
            msg.append(" input_size ");
            push_decimal(&mut msg, next_in as u64);
            return Err(OnnxImportError::MalformedModel(msg));
        }
        j = j + 1;
    }
    Ok(())
}

/// An initialiser tensor with its values already quantized: its name, its
/// declared dimensions, and either its values in row-major order or the
/// error that decoding them gave.
#[derive(Debug)]
pub struct QuantTensor {
    /// The tensor's name, as graph inputs refer to it.
    pub name: String,
    /// The declared dimensions.
    pub dims: Vec<i64>,
    /// The decoded values, or why they could not be decoded.
    pub values: Result<Vec<FixedPoint>, OnnxImportError>,
}

/// The position of the last of the first `n` tensors named `name`.
pub open spec fn lookup_upto(inits: Seq<QuantTensor>, name: Seq<char>, n: int) -> Option<int>
    decreases n,
{
    if n <= 0 {
        None
    } else if inits[n - 1].name@ == name {
        Some(n - 1)
    } else {
        lookup_upto(inits, name, n - 1)
    }
}

/// The tensor a name refers to: the last one with that name, as in a table
/// keyed by name that is filled in order.
pub open spec fn lookup(inits: Seq<QuantTensor>, name: Seq<char>) -> Option<int> {
    lookup_upto(inits, name, inits.len() as int)
}

/// The first of `names` from position `k` on that names a tensor, and that
/// tensor's position.
pub open spec fn first_named_from(names: Seq<String>, inits: Seq<QuantTensor>, k: int) -> Option<int>
    decreases names.len() - k,
{
    if k >= names.len() || k < 0 {
        None
    } else {
        match lookup(inits, names[k]@) {
            Some(t) => Some(t),
            None => first_named_from(names, inits, k + 1),
        }
    }
}

/// The weight tensor of a `MatMul` node: its second input.
pub open spec fn matmul_weight(matmul: NodeProto, inits: Seq<QuantTensor>) -> Option<QuantTensor> {
    if matmul.input@.len() < 2 {
        None
    } else {
        match lookup(inits, matmul.input@[1]@) {
            Some(t) => Some(inits[t]),
            None => None,
        }
    }
}

/// The dimensions are present and all positive.
pub open spec fn dims_positive(dims: Seq<i64>) -> bool {
    dims.len() > 0 && forall|i: int| 0 <= i < dims.len() ==> dims[i] > 0
}

/// The weight tensor of the node, with decoded values and two positive
/// dimensions, holds at least `dims[0] * dims[1]` values.
pub open spec fn matmul_weight_fits(matmul: NodeProto, inits: Seq<QuantTensor>) -> bool {
    match matmul_weight(matmul, inits) {
        Some(w) => (w.values matches Ok(vals) && dims_positive(w.dims@) && w.dims@.len() == 2) ==> (
        w.dims@[0] * w.dims@[1] <= w.values->Ok_0@.len()),
        None => true,
    }
}

/// `out` is the `rows × cols` row-major matrix `w` stored column by column.
pub open spec fn transposed(w: Seq<FixedPoint>, rows: int, cols: int, out: Seq<FixedPoint>) -> bool {
    &&& out.len() == rows * cols
    &&& forall|r: int, c: int|
        0 <= r < rows && 0 <= c < cols ==> #[trigger] out[c * rows + r] == w[r * cols + c]
}

/// `n` zeros at the default scale.
pub open spec fn zero_biases(n: int) -> Seq<FixedPoint> {
    Seq::new(n as nat, |i: int| FixedPoint { value: 0, scale: DEFAULT_SCALE })
}

/// The position of the last tensor named `name`.
fn find_tensor(inits: &[QuantTensor], name: &str) -> (r: Option<usize>)
    ensures
        r matches Some(i) ==> lookup(inits@, name@) == Some(i as int) && i < inits@.len(),
        r is None ==> lookup(inits@, name@) is None,
{
    let mut i: usize = inits.len();
    while i > 0
        invariant
            i <= inits@.len(),
            lookup(inits@, name@) == lookup_upto(inits@, name@, i as int),
        decreases i,
    {
        i = i - 1;
        if str_eq(inits[i].name.as_str(), name) {
            return Some(i);
        }
    }
    None
}

/// A copy of an error, equal to it.
fn copy_error(e: &OnnxImportError) -> (r: OnnxImportError)
    ensures
        r == *e,
{
    match e {
        OnnxImportError::MalformedModel(m) => OnnxImportError::MalformedModel(m.clone()),
        OnnxImportError::UnsupportedOpset { found, required } => OnnxImportError::UnsupportedOpset {
            found: *found,
            required: *required,
        },
        OnnxImportError::UnsupportedOperator { op_type } => OnnxImportError::UnsupportedOperator {
            op_type: op_type.clone(),
        },
        OnnxImportError::ExtractionNotImplemented { architecture_hint } =>
            OnnxImportError::ExtractionNotImplemented { architecture_hint: architecture_hint.clone() },
    }
}

/// A copy of a list of fixed-point values.
fn copy_values(v: &Vec<FixedPoint>) -> (r: Vec<FixedPoint>)
    ensures
        r@ == v@,
{
    let mut r: Vec<FixedPoint> = Vec::new();
    let mut i: usize = 0;
    while i < v.len()
        invariant
            i <= v@.len(),
            r@ == v@.take(i as int),
        decreases v@.len() - i,
    {
        r.push(v[i]);
        i = i + 1;
        proof {
            assert(r@ =~= v@.take(i as int));
        }
    }
    proof {
        assert(v@.take(v@.len() as int) =~= v@);
    }
    r
}

proof fn lemma_row_index(r: int, c: int, rows: int, cols: int)
    requires
        0 <= r < rows,
        0 <= c < cols,
    ensures
        0 <= r * cols + c < rows * cols,
{
    assert(r * cols + c < rows * cols) by (nonlinear_arith)
        requires
            0 <= r < rows,
            0 <= c < cols,
    ;
    assert(0 <= r * cols) by (nonlinear_arith)
        requires
            0 <= r,
            0 <= c < cols,
    ;
}

proof fn lemma_column_index(r: int, c: int, c2: int, rows: int)
    requires
        0 <= r < rows,
        0 <= c < c2,
    ensures
        c * rows + r < c2 * rows,
        0 <= c * rows + r,
{
    assert(c * rows + r < c2 * rows) by (nonlinear_arith)
        requires
            0 <= r < rows,
            0 <= c < c2,
    ;
    assert(0 <= c * rows) by (nonlinear_arith)
        requires
            0 <= c,
            0 <= r < rows,
    ;
}

/// The `rows × cols` row-major matrix `w` stored column by column.
fn transpose(w: &Vec<FixedPoint>, rows: usize, cols: usize) -> (out: Vec<FixedPoint>)
    requires
        rows * cols <= w@.len(),
    ensures
        transposed(w@, rows as int, cols as int, out@),
{
    let mut out: Vec<FixedPoint> = Vec::new();
    let wl = w.len();
    let mut c: usize = 0;
    while c < cols
        invariant
            wl == w@.len(),
            rows * cols <= w@.len(),
            c <= cols,
            out@.len() == c * rows,
            forall|r2: int, c2: int|
                0 <= r2 < rows && 0 <= c2 < c ==> #[trigger] out@[c2 * rows + r2] == w@[r2 * cols + c2],
        decreases cols - c,
    {
        let mut r: usize = 0;
        while r < rows
            invariant
                wl == w@.len(),
                rows * cols <= w@.len(),
                c < cols,
                r <= rows,
                out@.len() == c * rows + r,
                forall|r2: int, c2: int|
                    0 <= r2 < rows && 0 <= c2 < c ==> #[trigger] out@[c2 * rows + r2] == w@[r2 * cols + c2],
                forall|r2: int| 0 <= r2 < r ==> #[trigger] out@[c * rows + r2] == w@[r2 * cols + c],
            decreases rows - r,
        {
            proof {
                lemma_row_index(r as int, c as int, rows as int, cols as int);
                assert(r * cols <= r * cols + c);
            }
            let idx = r * cols + c;
            let ghost before = out@;
            out.push(w[idx]);
            proof {
                assert forall|r2: int, c2: int| 0 <= r2 < rows && 0 <= c2 < c implies #[trigger] out@[c2
                    * rows + r2] == w@[r2 * cols + c2] by {
                    lemma_column_index(r2, c2, c as int, rows as int);
                    assert(out@[c2 * rows + r2] == before[c2 * rows + r2]);
                }
            }
            r = r + 1;
        }
        proof {
            assert((c + 1) * rows == c * rows + rows) by (nonlinear_arith);
        }
        c = c + 1;
    }
    proof {
        assert(cols * rows == rows * cols) by (nonlinear_arith);
        assert forall|r2: int, c2: int| 0 <= r2 < rows && 0 <= c2 < cols implies #[trigger] out@[c2
            * rows + r2] == w@[r2 * cols + c2] by {}
    }
    out
}

/// Whether [`extract_matmul_add_layer`] may be called on these arguments:
/// the weight tensor, when it decodes to a 2-D shape, holds all its values.
pub fn matmul_weight_in_bounds(matmul: &NodeProto, inits: &[QuantTensor]) -> (r: bool)
    ensures
        r == matmul_weight_fits(*matmul, inits@),
{
    if matmul.input.len() < 2 {
        return true;
    }
    match find_tensor(inits, matmul.input[1].as_str()) {
        None => true,
        Some(t) => {
            let w = &inits[t];
            match &w.values {
                Err(_) => true,
                Ok(vals) => {
                    if w.dims.len() != 2 || w.dims[0] <= 0 || w.dims[1] <= 0 {
                        proof {
                            if w.dims@.len() == 2 && w.dims@[0] > 0 && w.dims@[1] > 0 {
                                assert(dims_positive(w.dims@));
                            } else {
                                assert(!(dims_positive(w.dims@) && w.dims@.len() == 2));
                            }
                        }
                        true
                    } else {
                        proof {
                            assert(dims_positive(w.dims@));
                        }
                        let rows = w.dims[0] as u128;
                        let cols = w.dims[1] as u128;
                        proof {
                            assert(rows * cols < 0x4000_0000_0000_0000_0000_0000_0000_0000) by (nonlinear_arith)
                                requires
                                    rows < 0x8000_0000_0000_0000,
                                    cols < 0x8000_0000_0000_0000,
                            ;
                        }
                        rows * cols <= vals.len() as u128
                    }
                },
            }
        },
    }
}

/// Why a layer could not be read: a malformed model with this message, or
/// the decoding error of one of its tensors, passed on as it is.
pub ghost enum ImportFailure {
    Malformed(Seq<char>),
    Passed(OnnxImportError),
}

/// What a dense layer is read as: its weights taken from `source` (a
/// `rows × cols` row-major matrix), stored one row per output when
/// `transpose` holds and as they are otherwise, with these biases and sizes.
pub ghost struct LayerSpec {
    pub source: Seq<FixedPoint>,
    pub rows: int,
    pub cols: int,
    pub transpose: bool,
    pub biases: Seq<FixedPoint>,
    pub input_size: usize,
    pub output_size: usize,
}

/// The layer is what `sp` describes.
pub open spec fn layer_is(l: DenseLayer, sp: LayerSpec) -> bool {
    &&& l.input_size == sp.input_size
    &&& l.output_size == sp.output_size
    &&& l.biases@ == sp.biases
    &&& if sp.transpose {
        transposed(sp.source, sp.rows, sp.cols, l.weights@)
    } else {
        l.weights@ == sp.source
    }
}

/// The result is what the outcome says: the layer it describes, or its
/// failure.
pub open spec fn outcome_holds(r: Result<DenseLayer, OnnxImportError>, o: Result<LayerSpec, ImportFailure>) -> bool {
    match o {
        Ok(sp) => r matches Ok(l) && layer_is(l, sp),
        Err(ImportFailure::Malformed(msg)) => r matches Err(OnnxImportError::MalformedModel(m)) && m@ == msg,
        Err(ImportFailure::Passed(e)) => r == Err::<DenseLayer, OnnxImportError>(e),
    }
}

/// The position of the first non-positive dimension from `k` on.
pub open spec fn first_nonpositive_from(dims: Seq<i64>, k: int) -> Option<int>
    decreases dims.len() - k,
{
    if k < 0 || k >= dims.len() {
        None
    } else if dims[k] <= 0 {
        Some(k)
    } else {
        first_nonpositive_from(dims, k + 1)
    }
}

/// The complaint about a tensor's shape: no dimensions, or the first
/// non-positive one.
pub open spec fn shape_failure(name: Seq<char>, dims: Seq<i64>) -> Option<Seq<char>> {
    if dims.len() == 0 {
        Some("initialiser '"@ + name + "' has no shape dimensions"@)
    } else {
        match first_nonpositive_from(dims, 0) {
            Some(k) => Some("initialiser '"@ + name + "' has non-positive dimension "@ + signed_decimal(dims[k] as int)),
            None => None,
        }
    }
}

/// What reading a `MatMul` node, and the `Add` node after it if any, gives.
/// The weight is the tensor named by the second input, a matrix of
/// `input_size` rows and `output_size` columns stored one row per output;
/// the bias is the first input of the `Add` node that names a tensor, zero
/// without an `Add` node.
pub open spec fn matmul_outcome(matmul: NodeProto, add: Option<NodeProto>, inits: Seq<QuantTensor>) -> Result<
    LayerSpec,
    ImportFailure,
> {
    if matmul.input@.len() < 2 {
        Err(ImportFailure::Malformed("MatMul node '"@ + matmul.name@ + "' has fewer than 2 inputs"@))
    } else {
        match lookup(inits, matmul.input@[1]@) {
            None => Err(
                ImportFailure::Malformed(
                    "MatMul node '"@ + matmul.name@ + "': weight input '"@ + matmul.input@[1]@
                        + "' not found in initialisers"@,
                ),
            ),
            Some(t) => match inits[t].values {
                Err(e) => Err(ImportFailure::Passed(e)),
                Ok(vals) => match shape_failure(inits[t].name@, inits[t].dims@) {
                    Some(m) => Err(ImportFailure::Malformed(m)),
                    None => if inits[t].dims@.len() != 2 {
                        Err(
                            ImportFailure::Malformed(
                                "MatMul node '"@ + matmul.name@ + "': weight tensor must be 2-D (got "@ + decimal(
                                    inits[t].dims@.len(),
                                ) + " dims)"@,
                            ),
                        )
                    } else {
                        let rows = inits[t].dims@[0] as usize;
                        let cols = inits[t].dims@[1] as usize;
                        let biases = match add {
                            None => Ok(zero_biases(cols as int)),
                            Some(a) => match first_named_from(a.input@, inits, 0) {
                                None => Err(
                                    ImportFailure::Malformed(
                                        "Add node '"@ + a.name@ + "': no initialiser input found for bias"@,
                                    ),
                                ),
                                Some(bt) => match inits[bt].values {
                                    Err(e) => Err(ImportFailure::Passed(e)),
                                    Ok(bv) => if bv@.len() != cols {
                                        Err(
                                            ImportFailure::Malformed(
                                                "Add node '"@ + a.name@ + "': bias length "@ + decimal(bv@.len())
                                                    + " does not match output_size "@ + decimal(cols as nat),
                                            ),
                                        )
                                    } else {
                                        Ok(bv@)
                                    },
                                },
                            },
                        };
                        match biases {
                            Err(f) => Err(f),
                            Ok(b) => Ok(
                                LayerSpec {
                                    source: vals@,
                                    rows: rows as int,
                                    cols: cols as int,
                                    transpose: true,
                                    biases: b,
                                    input_size: rows,
                                    output_size: cols,
                                },
                            ),
                        }
                    },
                },
            },
        }
    }
}

/// The `transB` attribute of a `Gemm` node, zero when absent.
pub open spec fn trans_b(gemm: NodeProto) -> i64 {
    match attr_named(gemm, "transB"@) {
        Some(a) => a.i,
        None => 0,
    }
}

/// The node names a bias: a third input that is not empty.
pub open spec fn gemm_has_bias(gemm: NodeProto) -> bool {
    gemm.input@.len() >= 3 && gemm.input@[2]@.len() > 0
}

/// What reading a `Gemm` node gives, once its floating-point attributes
/// were judged by `scaling` and its bias, if scaled, already holds the
/// scaled values. The weight is the tensor named by the second input; with
/// `transB` it is stored as it is, one row per output, else it is a matrix
/// of one row per input and is stored one row per output. The bias is the
/// tensor named by a non-empty third input, zero without one.
pub open spec fn gemm_outcome(gemm: NodeProto, scaling: Result<(), OnnxImportError>, inits: Seq<QuantTensor>) -> Result<
    LayerSpec,
    ImportFailure,
> {
    if gemm.input@.len() < 2 {
        Err(ImportFailure::Malformed("Gemm node '"@ + gemm.name@ + "' has fewer than 2 inputs"@))
    } else {
        match scaling {
            Err(e) => Err(ImportFailure::Passed(e)),
            Ok(_) => match lookup(inits, gemm.input@[1]@) {
                None => Err(
                    ImportFailure::Malformed(
                        "Gemm node '"@ + gemm.name@ + "': weight input '"@ + gemm.input@[1]@
                            + "' not found in initialisers"@,
                    ),
                ),
                Some(t) => match inits[t].values {
                    Err(e) => Err(ImportFailure::Passed(e)),
                    Ok(vals) => match shape_failure(inits[t].name@, inits[t].dims@) {
                        Some(m) => Err(ImportFailure::Malformed(m)),
                        None => if inits[t].dims@.len() != 2 {
                            Err(
                                ImportFailure::Malformed(
                                    "Gemm node '"@ + gemm.name@ + "': weight tensor must be 2-D (got "@ + decimal(
                                        inits[t].dims@.len(),
                                    ) + " dims)"@,
                                ),
                            )
                        } else {
                            let d0 = inits[t].dims@[0] as usize;
                            let d1 = inits[t].dims@[1] as usize;
                            let tb = trans_b(gemm) != 0;
                            let input_size = if tb { d1 } else { d0 };
                            let output_size = if tb { d0 } else { d1 };
                            let biases = if gemm_has_bias(gemm) {
                                match lookup(inits, gemm.input@[2]@) {
                                    None => Err(
                                        ImportFailure::Malformed(
                                            "Gemm node '"@ + gemm.name@ + "': bias input '"@ + gemm.input@[2]@
                                                + "' not found in initialisers"@,
                                        ),
                                    ),
                                    Some(bt) => match inits[bt].values {
                                        Err(e) => Err(ImportFailure::Passed(e)),
                                        Ok(bv) => if bv@.len() != output_size {
                                            Err(
                                                ImportFailure::Malformed(
                                                    "Gemm node '"@ + gemm.name@ + "': bias length "@ + decimal(
                                                        bv@.len(),
                                                    ) + " does not match output_size "@ + decimal(output_size as nat),
                                                ),
                                            )
                                        } else {
                                            Ok(bv@)
                                        },
                                    },
                                }
                            } else {
                                Ok(zero_biases(output_size as int))
                            };
                            match biases {
                                Err(f) => Err(f),
                                Ok(b) => Ok(
                                    LayerSpec {
                                        source: vals@,
                                        rows: d0 as int,
                                        cols: d1 as int,
                                        transpose: !tb,
                                        biases: b,
                                        input_size,
                                        output_size,
                                    },
                                ),
                            }
                        },
                    },
                },
            },
        }
    }
}

/// The weight tensor of the node, when reading reaches the transposition
/// (supported scaling, decoded values, two positive dimensions, no
/// `transB`), holds at least `dims[0] * dims[1]` values.
pub open spec fn gemm_weight_fits(gemm: NodeProto, scaling: Result<(), OnnxImportError>, inits: Seq<QuantTensor>) -> bool {
    gemm.input@.len() >= 2 && scaling is Ok && trans_b(gemm) == 0 ==> match lookup(inits, gemm.input@[1]@) {
        Some(t) => (inits[t].values is Ok && dims_positive(inits[t].dims@) && inits[t].dims@.len() == 2) ==> (
        inits[t].dims@[0] * inits[t].dims@[1] <= inits[t].values->Ok_0@.len()),
        None => true,
    }
}

/// Check a tensor's shape: present dimensions, all positive.
fn check_dims(w: &QuantTensor) -> (r: Result<(), OnnxImportError>)
    ensures
        match shape_failure(w.name@, w.dims@) {
            Some(m) => r matches Err(OnnxImportError::MalformedModel(x)) && x@ == m,
            None => r is Ok && dims_positive(w.dims@),
        },
{
    if w.dims.len() == 0 {
        let mut msg = String::new();
        msg.append("initialiser '");
        msg.append(w.name.as_str());
        msg.append("' has no shape dimensions");
        return Err(OnnxImportError::MalformedModel(msg));
    }
    let mut k: usize = 0;
    while k < w.dims.len()
        invariant
            k <= w.dims@.len(),
            w.dims@.len() > 0,
            forall|j: int| 0 <= j < k ==> w.dims@[j] > 0,
            first_nonpositive_from(w.dims@, 0) == first_nonpositive_from(w.dims@, k as int),
        decreases w.dims@.len() - k,
    {
        if w.dims[k] <= 0 {
            let mut msg = String::new();
            msg.append("initialiser '");
            msg.append(w.name.as_str());
            msg.append("' has non-positive dimension ");
            push_signed(&mut msg, w.dims[k]);
            return Err(OnnxImportError::MalformedModel(msg));
        }
        k = k + 1;
    }
    Ok(())
}

/// `n` zero biases at the default scale.
fn zero_vec(n: usize) -> (v: Vec<FixedPoint>)
    ensures
        v@ == zero_biases(n as int),
{
    let mut zeros: Vec<FixedPoint> = Vec::new();
    let mut j: usize = 0;
    while j < n
        invariant
            j <= n,
            zeros@ == zero_biases(j as int),
        decreases n - j,
    {
        zeros.push(FixedPoint { value: 0, scale: DEFAULT_SCALE });
        j = j + 1;
        proof {
            assert(zeros@ =~= zero_biases(j as int));
        }
    }
    zeros
}

/// The first of `names` that names a tensor, and that tensor's position.
fn find_first_named(names: &Vec<String>, inits: &[QuantTensor]) -> (r: Option<usize>)
    ensures
        r matches Some(b) ==> first_named_from(names@, inits@, 0) == Some(b as int) && b < inits@.len(),
        r is None ==> first_named_from(names@, inits@, 0) is None,
{
    let mut j: usize = 0;
    while j < names.len()
        invariant
            j <= names@.len(),
            first_named_from(names@, inits@, 0) == first_named_from(names@, inits@, j as int),
        decreases names@.len() - j,
    {
        let nm = names[j].as_str();
        assert(nm@ == names@[j as int]@);
        match find_tensor(inits, nm) {
            Some(bt) => {
                return Some(bt);
            },
            None => {},
        }
        j = j + 1;
    }
    None
}

/// Read a dense layer from a `MatMul` node and the `Add` node that follows
/// it, if any; see [`matmul_outcome`].
pub fn extract_matmul_add_layer(matmul: &NodeProto, add: Option<&NodeProto>, inits: &[QuantTensor]) -> (r:
    Result<DenseLayer, OnnxImportError>)
    requires
        matmul_weight_fits(*matmul, inits@),
    ensures
        outcome_holds(
            r,
            matmul_outcome(
                *matmul,
                match add {
                    Some(a) => Some(*a),
                    None => None,
                },
                inits@,
            ),
        ),
{
    if matmul.input.len() < 2 {
        let mut msg = String::new();
        msg.append("MatMul node '");
        msg.append(matmul.name.as_str());
        msg.append("' has fewer than 2 inputs");
        return Err(OnnxImportError::MalformedModel(msg));
    }
    let w_name = matmul.input[1].as_str();
    assert(w_name@ == matmul.input@[1]@);
    let t = match find_tensor(inits, w_name) {
        Some(t) => t,
        None => {
            let mut msg = String::new();
            msg.append("MatMul node '");
            msg.append(matmul.name.as_str());
            msg.append("': weight input '");
            msg.append(w_name);
            msg.append("' not found in initialisers");
            return Err(OnnxImportError::MalformedModel(msg));
        },
    };
    let w = &inits[t];
    assert(matmul_weight(*matmul, inits@) == Some(*w));
    let vals = match &w.values {
        Ok(v) => v,
        Err(e) => {
            return Err(copy_error(e));
        },
    };
    match check_dims(w) {
        Ok(()) => {},
        Err(e) => {
            return Err(e);
        },
    }
    if w.dims.len() != 2 {
        let mut msg = String::new();
        msg.append("MatMul node '");
        msg.append(matmul.name.as_str());
        msg.append("': weight tensor must be 2-D (got ");
        push_decimal(&mut msg, w.dims.len() as u64);
        msg.append(" dims)");
        return Err(OnnxImportError::MalformedModel(msg));
    }
    let vl = vals.len();
    proof {
        assert(w.dims@[0] * w.dims@[1] <= vals@.len());
        assert(vl == vals@.len());
        assert(w.dims@[0] <= w.dims@[0] * w.dims@[1]) by (nonlinear_arith)
            requires
                w.dims@[1] >= 1,
                w.dims@[0] >= 1,
        ;
        assert(w.dims@[1] <= w.dims@[0] * w.dims@[1]) by (nonlinear_arith)
            requires
                w.dims@[1] >= 1,
                w.dims@[0] >= 1,
        ;
    }
    let rows = w.dims[0] as usize;
    let cols = w.dims[1] as usize;
    assert(rows == w.dims@[0] && cols == w.dims@[1]);
    let weights = transpose(vals, rows, cols);
    let biases = match add {
        None => zero_vec(cols),
        Some(a) => {
            let bt = match find_first_named(&a.input, inits) {
                Some(bt) => bt,
                None => {
                    let mut msg = String::new();
                    msg.append("Add node '");
                    msg.append(a.name.as_str());
                    msg.append("': no initialiser input found for bias");
                    return Err(OnnxImportError::MalformedModel(msg));
                },
            };
            let b = &inits[bt];
            let bv = match &b.values {
                Ok(v) => v,
                Err(e) => {
                    return Err(copy_error(e));
                },
            };
            if bv.len() != cols {
                let mut msg = String::new();
                msg.append("Add node '");
                msg.append(a.name.as_str());
                msg.append("': bias length ");
                push_decimal(&mut msg, bv.len() as u64);
                msg.append(" does not match output_size ");
                push_decimal(&mut msg, cols as u64);
                return Err(OnnxImportError::MalformedModel(msg));
            }
            copy_values(bv)
        },
    };
    Ok(DenseLayer { weights, biases, input_size: rows, output_size: cols })
}
/// The `transB` attribute of a `Gemm` node, zero when absent.
fn trans_b_of(gemm: &NodeProto) -> (r: i64)
    ensures
        r == trans_b(*gemm),
{
    match attribute_index(gemm, "transB") {
        Some(k) => gemm.attribute[k].i,
        None => 0,
    }
}

/// A copy of a scaling verdict, equal to it.
fn copy_scaling(s: &Result<(), OnnxImportError>) -> (r: Result<(), OnnxImportError>)
    ensures
        r == *s,
{
    match s {
        Ok(u) => Ok(*u),
        Err(e) => Err(copy_error(e)),
    }
}

/// Whether [`extract_gemm_layer`] may be called on these arguments: the
/// weight tensor, when it is to be transposed, holds all its values.
pub fn gemm_weight_in_bounds(gemm: &NodeProto, scaling: &Result<(), OnnxImportError>, inits: &[QuantTensor]) -> (r:
    bool)
    ensures
        r == gemm_weight_fits(*gemm, *scaling, inits@),
{
    if gemm.input.len() < 2 || scaling.is_err() || trans_b_of(gemm) != 0 {
        return true;
    }
    let w_name = gemm.input[1].as_str();
    assert(w_name@ == gemm.input@[1]@);
    match find_tensor(inits, w_name) {
        None => true,
        Some(t) => {
            let w = &inits[t];
            match &w.values {
                Err(_) => true,
                Ok(vals) => {
                    if w.dims.len() != 2 || w.dims[0] <= 0 || w.dims[1] <= 0 {
                        proof {
                            if w.dims@.len() == 2 && w.dims@[0] > 0 && w.dims@[1] > 0 {
                                assert(dims_positive(w.dims@));
                            } else {
                                assert(!(dims_positive(w.dims@) && w.dims@.len() == 2));
                            }
                        }
                        true
                    } else {
                        proof {
                            assert(dims_positive(w.dims@));
                        }
                        let rows = w.dims[0] as u128;
                        let cols = w.dims[1] as u128;
                        proof {
                            assert(rows * cols < 0x4000_0000_0000_0000_0000_0000_0000_0000) by (nonlinear_arith)
                                requires
                                    rows < 0x8000_0000_0000_0000,
                                    cols < 0x8000_0000_0000_0000,
                            ;
                        }
                        rows * cols <= vals.len() as u128
                    }
                },
            }
        },
    }
}

/// Read a dense layer from a `Gemm` node; see [`gemm_outcome`].
///
/// `scaling` is the verdict on the node's floating-point attributes (only
/// `alpha = 1` and `transA = 0` are supported), and a bias that `beta`
/// scales is expected already scaled in `inits`.
pub fn extract_gemm_layer(gemm: &NodeProto, scaling: Result<(), OnnxImportError>, inits: &[QuantTensor]) -> (r:
    Result<DenseLayer, OnnxImportError>)
    requires
        gemm_weight_fits(*gemm, scaling, inits@),
    ensures
        outcome_holds(r, gemm_outcome(*gemm, scaling, inits@)),
{
    if gemm.input.len() < 2 {
        let mut msg = String::new();
        msg.append("Gemm node '");
        msg.append(gemm.name.as_str());
        msg.append("' has fewer than 2 inputs");
        return Err(OnnxImportError::MalformedModel(msg));
    }
    match scaling {
        Ok(()) => {},
        Err(e) => {
            return Err(e);
        },
    }
    let w_name = gemm.input[1].as_str();
    assert(w_name@ == gemm.input@[1]@);
    let t = match find_tensor(inits, w_name) {
        Some(t) => t,
        None => {
            let mut msg = String::new();
            msg.append("Gemm node '");
            msg.append(gemm.name.as_str());
            msg.append("': weight input '");
            msg.append(w_name);
            msg.append("' not found in initialisers");
            return Err(OnnxImportError::MalformedModel(msg));
        },
    };
    let w = &inits[t];
    let vals = match &w.values {
        Ok(v) => v,
        Err(e) => {
            return Err(copy_error(e));
        },
    };
    match check_dims(w) {
        Ok(()) => {},
        Err(e) => {
            return Err(e);
        },
    }
    if w.dims.len() != 2 {
        let mut msg = String::new();
        msg.append("Gemm node '");
        msg.append(gemm.name.as_str());
        msg.append("': weight tensor must be 2-D (got ");
        push_decimal(&mut msg, w.dims.len() as u64);
        msg.append(" dims)");
        return Err(OnnxImportError::MalformedModel(msg));
    }
    let tb = trans_b_of(gemm);
    let d0 = w.dims[0] as usize;
    let d1 = w.dims[1] as usize;
    let (input_size, output_size, weights) = if tb != 0 {
        (d1, d0, copy_values(vals))
    } else {
        let vl = vals.len();
        proof {
            assert(w.dims@[0] * w.dims@[1] <= vals@.len());
            assert(vl == vals@.len());
            assert(w.dims@[0] <= w.dims@[0] * w.dims@[1]) by (nonlinear_arith)
                requires
                    w.dims@[1] >= 1,
                    w.dims@[0] >= 1,
            ;
            assert(w.dims@[1] <= w.dims@[0] * w.dims@[1]) by (nonlinear_arith)
                requires
                    w.dims@[1] >= 1,
                    w.dims@[0] >= 1,
            ;
            assert(d0 == w.dims@[0] && d1 == w.dims@[1]);
        }
        (d0, d1, transpose(vals, d0, d1))
    };
    let biases = if gemm.input.len() >= 3 && !gemm.input[2].as_str().is_empty() {
        let b_name = gemm.input[2].as_str();
        assert(b_name@ == gemm.input@[2]@);
        let bt = match find_tensor(inits, b_name) {
            Some(bt) => bt,
            None => {
                let mut msg = String::new();
                msg.append("Gemm node '");
                msg.append(gemm.name.as_str());
                msg.append("': bias input '");
                msg.append(b_name);
                msg.append("' not found in initialisers");
                return Err(OnnxImportError::MalformedModel(msg));
            },
        };
        let b = &inits[bt];
        let bv = match &b.values {
            Ok(v) => v,
            Err(e) => {
                return Err(copy_error(e));
            },
        };
        if bv.len() != output_size {
            let mut msg = String::new();
            msg.append("Gemm node '");
            msg.append(gemm.name.as_str());
            msg.append("': bias length ");
            push_decimal(&mut msg, bv.len() as u64);
            msg.append(" does not match output_size ");
            push_decimal(&mut msg, output_size as u64);
            return Err(OnnxImportError::MalformedModel(msg));
        }
        copy_values(bv)
    } else {
        zero_vec(output_size)
    };
    Ok(DenseLayer { weights, biases, input_size, output_size })
}

/// The step's nodes lie among the first `n`.
pub open spec fn step_in_range(step: DenseStep, n: int) -> bool {
    match step {
        DenseStep::Gemm { node } => node < n,
        DenseStep::MatMul { node, add } => node < n && (add matches Some(a) ==> a < n),
    }
}

proof fn lemma_plan_in_range(nodes: Seq<NodeProto>, i: int)
    requires
        0 <= i,
        nodes.len() <= usize::MAX,
    ensures
        forall|k: int|
            0 <= k < plan_from(nodes, i).0.len() ==> step_in_range(#[trigger] plan_from(nodes, i).0[k], nodes.len() as int),
        plan_from(nodes, i).1 matches Some(j) ==> 0 <= j < nodes.len(),
    decreases nodes.len() - i,
{
    if i < nodes.len() {
        lemma_plan_in_range(nodes, i + 1);
        if i + 2 <= nodes.len() {
            lemma_plan_in_range(nodes, i + 2);
        }
        let p = plan_from(nodes, i).0;
        if nodes[i].op_type@ == "Gemm"@ {
            let first = DenseStep::Gemm { node: i as usize };
            let rest = plan_from(nodes, i + 1).0;
            assert(p =~= seq![first] + rest);
            assert forall|k: int| 0 <= k < p.len() implies step_in_range(#[trigger] p[k], nodes.len() as int) by {
                if k > 0 {
                    assert(p[k] == rest[k - 1]);
                }
            }
        } else if nodes[i].op_type@ == "MatMul"@ {
            if i + 1 < nodes.len() && nodes[i + 1].op_type@ == "Add"@ {
                let first = DenseStep::MatMul { node: i as usize, add: Some((i + 1) as usize) };
                let rest = plan_from(nodes, i + 2).0;
                assert(p =~= seq![first] + rest);
                assert forall|k: int| 0 <= k < p.len() implies step_in_range(#[trigger] p[k], nodes.len() as int) by {
                    if k > 0 {
                        assert(p[k] == rest[k - 1]);
                    }
                }
            } else {
                let first = DenseStep::MatMul { node: i as usize, add: None };
                let rest = plan_from(nodes, i + 1).0;
                assert(p =~= seq![first] + rest);
                assert forall|k: int| 0 <= k < p.len() implies step_in_range(#[trigger] p[k], nodes.len() as int) by {
                    if k > 0 {
                        assert(p[k] == rest[k - 1]);
                    }
                }
            }
        }
    }
}

/// The node an optional position names.
pub open spec fn node_of(nodes: Seq<NodeProto>, a: Option<usize>) -> Option<NodeProto> {
    match a {
        Some(a) => Some(nodes[a as int]),
        None => None,
    }
}

/// What reading one planned layer gives; `scalings` holds the verdict on
/// each node's floating-point attributes, by position.
pub open spec fn step_outcome(
    nodes: Seq<NodeProto>,
    step: DenseStep,
    inits: Seq<QuantTensor>,
    scalings: Seq<Result<(), OnnxImportError>>,
) -> Result<LayerSpec, ImportFailure> {
    match step {
        DenseStep::Gemm { node } => gemm_outcome(nodes[node as int], scalings[node as int], inits),
        DenseStep::MatMul { node, add } => matmul_outcome(nodes[node as int], node_of(nodes, add), inits),
    }
}

/// Reading one planned layer stays within its weight tensor.
pub open spec fn step_fits(
    nodes: Seq<NodeProto>,
    step: DenseStep,
    inits: Seq<QuantTensor>,
    scalings: Seq<Result<(), OnnxImportError>>,
) -> bool {
    match step {
        DenseStep::Gemm { node } => gemm_weight_fits(nodes[node as int], scalings[node as int], inits),
        DenseStep::MatMul { node, .. } => matmul_weight_fits(nodes[node as int], inits),
    }
}

/// The layers read from the planned steps `k..`, in order, or the failure
/// of the first step that fails.
pub open spec fn steps_outcome(
    nodes: Seq<NodeProto>,
    steps: Seq<DenseStep>,
    inits: Seq<QuantTensor>,
    scalings: Seq<Result<(), OnnxImportError>>,
    k: int,
) -> Result<Seq<LayerSpec>, ImportFailure>
    decreases steps.len() - k,
{
    if k < 0 || k >= steps.len() {
        Ok(Seq::empty())
    } else {
        match step_outcome(nodes, steps[k], inits, scalings) {
            Err(f) => Err(f),
            Ok(sp) => match steps_outcome(nodes, steps, inits, scalings, k + 1) {
                Err(f) => Err(f),
                Ok(rest) => Ok(seq![sp] + rest),
            },
        }
    }
}

/// Every step from `k` on that reading reaches stays within its weight
/// tensor.
pub open spec fn steps_fit(
    nodes: Seq<NodeProto>,
    steps: Seq<DenseStep>,
    inits: Seq<QuantTensor>,
    scalings: Seq<Result<(), OnnxImportError>>,
    k: int,
) -> bool
    decreases steps.len() - k,
{
    k < 0 || k >= steps.len() || (step_fits(nodes, steps[k], inits, scalings) && (step_outcome(
        nodes,
        steps[k],
        inits,
        scalings,
    ) is Ok ==> steps_fit(nodes, steps, inits, scalings, k + 1)))
}

/// What [`extract_mlp`] needs of its input: reading the planned layers of a
/// dense graph stays within every weight tensor it transposes.
pub open spec fn mlp_inputs_fit(
    nodes: Seq<NodeProto>,
    inits: Seq<QuantTensor>,
    scalings: Seq<Result<(), OnnxImportError>>,
) -> bool {
    nodes.len() > 0 && all_dense(nodes) ==> steps_fit(nodes, plan_from(nodes, 0).0, inits, scalings, 0)
}

/// Each layer is what the matching description says.
pub open spec fn layers_are(ls: Seq<DenseLayer>, specs: Seq<LayerSpec>) -> bool {
    &&& ls.len() == specs.len()
    &&& forall|k: int| 0 <= k < ls.len() ==> layer_is(#[trigger] ls[k], specs[k])
}

/// The `(input_size, output_size)` of each described layer.
pub open spec fn spec_shapes(specs: Seq<LayerSpec>) -> Seq<(usize, usize)> {
    specs.map_values(|sp: LayerSpec| (sp.input_size, sp.output_size))
}

/// The message [`check_layer_chain`] gives for shapes that do not chain.
pub open spec fn chain_error_text(shapes: Seq<(usize, usize)>, m: Seq<char>) -> bool {
    if shapes.len() == 0 {
        m == "MLP graph contains no dense layers (expected Gemm or MatMul + Add nodes)"@
    } else {
        forall|j: int|
            0 <= j < shapes.len() - 1 && (#[trigger] shapes[j]).1 != shapes[j + 1].0 && (forall|i: int|
                0 <= i < j ==> shapes[i].1 == shapes[i + 1].0) ==> m == "layer "@ + decimal(j as nat)
                + " output_size "@ + decimal(shapes[j].1 as nat) + " does not match layer "@ + decimal(
                (j + 1) as nat,
            ) + " input_size "@ + decimal(shapes[j + 1].0 as nat)
    }
}

/// The outcome of reading a dense graph whose operators are all dense:
/// the first planned layer that fails; else a standalone `Add` that ended
/// the plan; else layers that do not chain; else the network of the read
/// layers, or its validation message when it fails validation.
pub open spec fn mlp_outcome_holds(
    r: Result<TinyMLP, OnnxImportError>,
    nodes: Seq<NodeProto>,
    inits: Seq<QuantTensor>,
    scalings: Seq<Result<(), OnnxImportError>>,
) -> bool {
    match steps_outcome(nodes, plan_from(nodes, 0).0, inits, scalings, 0) {
        Err(ImportFailure::Malformed(msg)) => r matches Err(OnnxImportError::MalformedModel(m)) && m@ == msg,
        Err(ImportFailure::Passed(e)) => r == Err::<TinyMLP, OnnxImportError>(e),
        Ok(specs) => match plan_from(nodes, 0).1 {
            Some(i) => r matches Err(OnnxImportError::MalformedModel(m)) && m@ == "unexpected standalone Add node '"@
                + nodes[i].name@ + "' without preceding MatMul"@,
            None => if !layers_chain(spec_shapes(specs)) {
                r matches Err(OnnxImportError::MalformedModel(m)) && chain_error_text(spec_shapes(specs), m@)
            } else {
                forall|ls: Seq<DenseLayer>| #[trigger]
                    layers_are(ls, specs) ==> if mlp_valid(ls) {
                        r matches Ok(mlp) && layers_are(mlp.layers@, specs)
                    } else {
                        r matches Err(OnnxImportError::MalformedModel(m)) && m@ == "MLP validation failed: "@
                            + "invalid model: "@ + mlp_error_text(ls)
                    }
            },
        },
    }
}

/// A described prefix followed by the outcome of the rest.
spec fn prepend(p: Seq<LayerSpec>, o: Result<Seq<LayerSpec>, ImportFailure>) -> Result<Seq<LayerSpec>, ImportFailure> {
    match o {
        Ok(rest) => Ok(p + rest),
        Err(f) => Err(f),
    }
}

/// Two layer lists agree in every count and size.
spec fn same_shapes(a: Seq<DenseLayer>, b: Seq<DenseLayer>) -> bool {
    &&& a.len() == b.len()
    &&& forall|k: int|
        0 <= k < a.len() ==> (#[trigger] a[k]).weights@.len() == b[k].weights@.len() && a[k].biases@.len()
            == b[k].biases@.len() && a[k].input_size == b[k].input_size && a[k].output_size == b[k].output_size
}

proof fn lemma_same_shapes_errors(a: Seq<DenseLayer>, b: Seq<DenseLayer>, i: int)
    requires
        same_shapes(a, b),
        0 <= i,
    ensures
        shape_error_from(a, i) == shape_error_from(b, i),
        chain_error_from(a, i) == chain_error_from(b, i),
    decreases a.len() - i,
{
    if i < a.len() {
        lemma_same_shapes_errors(a, b, i + 1);
        assert(a[i].weights@.len() == b[i].weights@.len());
        if i + 1 < a.len() {
            assert(a[i + 1].input_size == b[i + 1].input_size);
        }
    }
}

proof fn lemma_same_shapes_validate(a: Seq<DenseLayer>, b: Seq<DenseLayer>)
    requires
        same_shapes(a, b),
    ensures
        mlp_valid(a) == mlp_valid(b),
        mlp_error_text(a) == mlp_error_text(b),
{
    lemma_same_shapes_errors(a, b, 0);
    assert forall|k: int| 0 <= k < a.len() implies #[trigger] layer_shape_ok(a[k]) == layer_shape_ok(b[k]) by {
        assert(a[k].weights@.len() == b[k].weights@.len());
    }
    if mlp_valid(a) {
        assert forall|k: int| 0 <= k < b.len() implies #[trigger] layer_shape_ok(b[k]) by {
            assert(layer_shape_ok(a[k]));
        }
        assert forall|k: int| 0 <= k < b.len() - 1 implies (#[trigger] b[k]).output_size == b[k + 1].input_size by {
            assert(a[k].output_size == a[k + 1].input_size);
            assert(a[k + 1].input_size == b[k + 1].input_size);
        }
    }
    if mlp_valid(b) {
        assert forall|k: int| 0 <= k < a.len() implies #[trigger] layer_shape_ok(a[k]) by {
            assert(layer_shape_ok(b[k]));
        }
        assert forall|k: int| 0 <= k < a.len() - 1 implies (#[trigger] a[k]).output_size == a[k + 1].input_size by {
            assert(b[k].output_size == b[k + 1].input_size);
            assert(a[k + 1].input_size == b[k + 1].input_size);
        }
    }
}

proof fn lemma_described_layers_same_shapes(a: Seq<DenseLayer>, b: Seq<DenseLayer>, specs: Seq<LayerSpec>)
    requires
        layers_are(a, specs),
        layers_are(b, specs),
    ensures
        same_shapes(a, b),
{
    assert forall|k: int| 0 <= k < a.len() implies (#[trigger] a[k]).weights@.len() == b[k].weights@.len()
        && a[k].biases@.len() == b[k].biases@.len() && a[k].input_size == b[k].input_size && a[k].output_size
        == b[k].output_size by {
        assert(layer_is(a[k], specs[k]));
        assert(layer_is(b[k], specs[k]));
    }
}

/// Read one planned layer.
fn extract_step(
    graph: &GraphProto,
    step: DenseStep,
    inits: &[QuantTensor],
    scalings: &[Result<(), OnnxImportError>],
) -> (r: Result<DenseLayer, OnnxImportError>)
    requires
        scalings@.len() == graph.node@.len(),
        step_in_range(step, graph.node@.len() as int),
        step_fits(graph.node@, step, inits@, scalings@),
    ensures
        outcome_holds(r, step_outcome(graph.node@, step, inits@, scalings@)),
{
    match step {
        DenseStep::Gemm { node } => extract_gemm_layer(&graph.node[node], copy_scaling(&scalings[node]), inits),
        DenseStep::MatMul { node, add } => {
            let add_node = match add {
                Some(a) => Some(&graph.node[a]),
                None => None,
            };
            extract_matmul_add_layer(&graph.node[node], add_node, inits)
        },
    }
}

/// Whether a planned layer may be read.
fn step_in_bounds(
    graph: &GraphProto,
    step: DenseStep,
    inits: &[QuantTensor],
    scalings: &[Result<(), OnnxImportError>],
) -> (r: bool)
    requires
        scalings@.len() == graph.node@.len(),
        step_in_range(step, graph.node@.len() as int),
    ensures
        r == step_fits(graph.node@, step, inits@, scalings@),
{
    match step {
        DenseStep::Gemm { node } => gemm_weight_in_bounds(&graph.node[node], &scalings[node], inits),
        DenseStep::MatMul { node, .. } => matmul_weight_in_bounds(&graph.node[node], inits),
    }
}

/// Whether [`extract_mlp`] may be called on these arguments.
pub fn mlp_weights_in_bounds(
    graph: &GraphProto,
    inits: &[QuantTensor],
    scalings: &[Result<(), OnnxImportError>],
) -> (r: bool)
    requires
        scalings@.len() == graph.node@.len(),
    ensures
        r == mlp_inputs_fit(graph.node@, inits@, scalings@),
{
    let plan = match plan_dense_layers(graph) {
        Ok(p) => p,
        Err(_) => {
            return true;
        },
    };
    let ghost nodes = graph.node@;
    let ghost steps = plan.steps@;
    let node_count = graph.node.len();
    proof {
        assert(node_count == nodes.len());
        lemma_plan_in_range(nodes, 0);
    }
    let mut k: usize = 0;
    while k < plan.steps.len()
        invariant
            nodes == graph.node@,
            nodes.len() > 0 && all_dense(nodes),
            steps == plan.steps@,
            steps == plan_from(nodes, 0).0,
            scalings@.len() == nodes.len(),
            forall|q: int| 0 <= q < steps.len() ==> step_in_range(#[trigger] steps[q], nodes.len() as int),
            k <= steps.len(),
            steps_fit(nodes, steps, inits@, scalings@, 0) == steps_fit(nodes, steps, inits@, scalings@, k as int),
        decreases steps.len() - k,
    {
        let step = plan.steps[k];
        assert(step_in_range(steps[k as int], nodes.len() as int));
        if !step_in_bounds(graph, step, inits, scalings) {
            return false;
        }
        match extract_step(graph, step, inits, scalings) {
            Ok(_) => {},
            Err(_) => {
                return true;
            },
        }
        k = k + 1;
    }
    true
}

/// Read a [`TinyMLP`] from a graph of `Gemm` or `MatMul` + `Add` layers
/// with `Relu` between them, over its quantized initialisers; `scalings`
/// holds, by node position, the verdict on each `Gemm` node's
/// floating-point attributes. The plan's errors come first, then the first
/// layer that cannot be read, then a standalone `Add`, then layers that do
/// not chain, and last the network's own validation.
pub fn extract_mlp(
    graph: &GraphProto,
    inits: &[QuantTensor],
    scalings: &[Result<(), OnnxImportError>],
) -> (r: Result<TinyMLP, OnnxImportError>)
    requires
        scalings@.len() == graph.node@.len(),
        mlp_inputs_fit(graph.node@, inits@, scalings@),
    ensures
        graph.node@.len() == 0 || !all_dense(graph.node@) ==> (r matches Err(e) && e is MalformedModel),
        graph.node@.len() == 0 ==> (r matches Err(OnnxImportError::MalformedModel(m)) && m@
            == "MLP graph has no nodes"@),
        forall|k: int|
            0 <= k < graph.node@.len() && !is_dense_op(#[trigger] graph.node@[k].op_type@) && (forall|j: int|
                0 <= j < k ==> is_dense_op(graph.node@[j].op_type@)) ==> (r matches Err(
                OnnxImportError::MalformedModel(m),
            ) && m@ == "MLP graph contains unsupported operator '"@ + graph.node@[k].op_type@
                + "' (expected Gemm, MatMul, Add, or Relu)"@),
        graph.node@.len() > 0 && all_dense(graph.node@) ==> mlp_outcome_holds(r, graph.node@, inits@, scalings@),
{
    let plan = match plan_dense_layers(graph) {
        Ok(p) => p,
        Err(e) => {
            return Err(e);
        },
    };
    let ghost nodes = graph.node@;
    let ghost steps = plan.steps@;
    let node_count = graph.node.len();
    proof {
        assert(node_count == nodes.len());
        lemma_plan_in_range(nodes, 0);
    }
    let mut layers: Vec<DenseLayer> = Vec::new();
    let ghost mut prefix: Seq<LayerSpec> = Seq::empty();
    let mut k: usize = 0;
    while k < plan.steps.len()
        invariant
            nodes == graph.node@,
            nodes.len() > 0 && all_dense(nodes),
            steps == plan.steps@,
            steps == plan_from(nodes, 0).0,
            scalings@.len() == nodes.len(),
            forall|q: int| 0 <= q < steps.len() ==> step_in_range(#[trigger] steps[q], nodes.len() as int),
            k <= steps.len(),
            steps_fit(nodes, steps, inits@, scalings@, k as int),
            layers_are(layers@, prefix),
            steps_outcome(nodes, steps, inits@, scalings@, 0) == prepend(
                prefix,
                steps_outcome(nodes, steps, inits@, scalings@, k as int),
            ),
        decreases steps.len() - k,
    {
        let step = plan.steps[k];
        assert(step_in_range(steps[k as int], nodes.len() as int));
        match extract_step(graph, step, inits, scalings) {
            Ok(l) => {
                proof {
                    let sp = step_outcome(nodes, step, inits@, scalings@)->Ok_0;
                    let rest = steps_outcome(nodes, steps, inits@, scalings@, k + 1);
                    match rest {
                        Ok(rs) => {
                            assert(prefix + (seq![sp] + rs) =~= prefix.push(sp) + rs);
                        },
                        Err(_) => {},
                    }
                    prefix = prefix.push(sp);
                }
                layers.push(l);
                proof {
                    assert forall|q: int| 0 <= q < layers@.len() implies layer_is(
                        #[trigger] layers@[q],
                        prefix[q],
                    ) by {}
                }
            },
            Err(e) => {
                return Err(e);
            },
        }
        k = k + 1;
    }
    proof {
        assert(prefix + Seq::<LayerSpec>::empty() =~= prefix);
    }
    match plan.stop {
        Some(e) => {
            return Err(e);
        },
        None => {},
    }
    let mut shapes: Vec<(usize, usize)> = Vec::new();
    let mut j: usize = 0;
    while j < layers.len()
        invariant
            j <= layers@.len(),
            layers_are(layers@, prefix),
            shapes@ == spec_shapes(prefix).take(j as int),
        decreases layers@.len() - j,
    {
        shapes.push((layers[j].input_size, layers[j].output_size));
        j = j + 1;
        proof {
            assert(layer_is(layers@[j - 1], prefix[j - 1]));
            assert(shapes@ =~= spec_shapes(prefix).take(j as int));
        }
    }
    proof {
        assert(spec_shapes(prefix).take(layers@.len() as int) =~= spec_shapes(prefix));
    }
    match check_layer_chain(&shapes) {
        Ok(()) => {},
        Err(e) => {
            return Err(e);
        },
    }
    let mlp = TinyMLP { layers };
    proof {
        assert forall|ls: Seq<DenseLayer>| #[trigger] layers_are(ls, prefix) implies same_shapes(ls, mlp.layers@) by {
            lemma_described_layers_same_shapes(ls, mlp.layers@, prefix);
        }
        assert forall|ls: Seq<DenseLayer>| #[trigger] layers_are(ls, prefix) implies mlp_valid(ls) == mlp_valid(
            mlp.layers@,
        ) && mlp_error_text(ls) == mlp_error_text(mlp.layers@) by {
            lemma_same_shapes_validate(ls, mlp.layers@);
        }
    }
    let ghost specs = prefix;
    assert(steps_outcome(nodes, steps, inits@, scalings@, 0) == Ok::<Seq<LayerSpec>, ImportFailure>(specs));
    assert(plan_from(nodes, 0).1 is None);
    assert(layers_chain(spec_shapes(specs)));
    match mlp.validate() {
        Ok(()) => {
            let r = Ok(mlp);
            proof {
                assert forall|ls: Seq<DenseLayer>| #[trigger] layers_are(ls, specs) implies mlp_valid(ls) && (r matches Ok(
                    m,
                ) && layers_are(m.layers@, specs)) by {}
                assert(mlp_outcome_holds(r, nodes, inits@, scalings@));
            }
            r
        },
        Err(e) => {
            let mut msg = String::new();
            msg.append("MLP validation failed: ");
            let text = e.message();
            msg.append(text.as_str());
            proof {
                let m = e->InvalidModel_0;
                assert(text@ == "invalid model: "@ + m@);
                assert(msg@ =~= "MLP validation failed: "@ + "invalid model: "@ + mlp_error_text(mlp.layers@));
            }
            let r = Err(OnnxImportError::MalformedModel(msg));
            proof {
                assert forall|ls: Seq<DenseLayer>| #[trigger] layers_are(ls, specs) implies !mlp_valid(ls) && (r matches Err(
                    OnnxImportError::MalformedModel(m),
                ) && m@ == "MLP validation failed: "@ + "invalid model: "@ + mlp_error_text(ls)) by {}
                assert(mlp_outcome_holds(r, nodes, inits@, scalings@));
            }
            r
        },
    }
}

} // verus!
