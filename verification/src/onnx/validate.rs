//! Opset and operator validation for ONNX models.
use vstd::prelude::*;

use super::proto::{GraphProto, ModelProto, NodeProto, OperatorSetIdProto};
use super::{OnnxErrorKind, OnnxImportError};
use crate::prover::str_eq;

verus! {

/// Minimum opset for the core ONNX domain (`""` / `ai.onnx`).
pub const MIN_OPSET_CORE: i64 = 17;

/// Minimum opset for the classic ML domain (`ai.onnx.ml`), which versions
/// independently of the core domain.
pub const MIN_OPSET_ML: i64 = 1;

/// The opset floor of a domain, `None` for domains not enforced.
pub open spec fn domain_floor(domain: Seq<char>) -> Option<i64> {
    if domain == ""@ || domain == "ai.onnx"@ {
        Some(MIN_OPSET_CORE)
    } else if domain == "ai.onnx.ml"@ {
        Some(MIN_OPSET_ML)
    } else {
        None
    }
}

/// Per-domain opset floor; `None` for domains not enforced (such as vendor
/// extensions).
pub fn min_version_for_domain(domain: &str) -> (r: Option<i64>)
    ensures
        r == domain_floor(domain@),
{
    if str_eq(domain, "") || str_eq(domain, "ai.onnx") {
        Some(MIN_OPSET_CORE)
    } else if str_eq(domain, "ai.onnx.ml") {
        Some(MIN_OPSET_ML)
    } else {
        None
    }
}

/// Scan the opset entries from `i` on, `saw` telling whether an enforced
/// domain was met before `i`: the first enforced entry below its floor is
/// reported; without any enforced entry the model is malformed.
pub open spec fn opset_scan(entries: Seq<OperatorSetIdProto>, i: int, saw: bool) -> Result<(), OnnxErrorKind>
    decreases entries.len() - i,
{
    if i >= entries.len() {
        if saw { Ok(()) } else { Err(OnnxErrorKind::MalformedModel) }
    } else {
        match domain_floor(entries[i].domain@) {
            None => opset_scan(entries, i + 1, saw),
            Some(required) => if entries[i].version < required {
                Err(OnnxErrorKind::UnsupportedOpset { found: entries[i].version, required })
            } else {
                opset_scan(entries, i + 1, true)
            },
        }
    }
}

/// Outcome of [`check_opset`] on a model's opset imports.
pub open spec fn spec_check_opset(entries: Seq<OperatorSetIdProto>) -> Result<(), OnnxErrorKind> {
    if entries.len() == 0 {
        Err(OnnxErrorKind::MalformedModel)
    } else {
        opset_scan(entries, 0, false)
    }
}

/// Ensure every known domain's opset import meets its floor, and that the
/// model declares an opset for the core or ML domain at all.
pub fn check_opset(model: &ModelProto) -> (r: Result<(), OnnxImportError>)
    ensures
        super::onnx_result_kind(r) == spec_check_opset(model.opset_import@),
        r matches Err(OnnxImportError::MalformedModel(m)) ==> m@ == (if model.opset_import@.len() == 0 {
            "model declares no opset_import entries"@
        } else {
            "model has no opset_import for ai.onnx or ai.onnx.ml"@
        }),
{
    let opset_import = &model.opset_import;
    if opset_import.len() == 0 {
        return Err(OnnxImportError::MalformedModel("model declares no opset_import entries".to_string()));
    }
    let mut saw_relevant = false;
    let mut i: usize = 0;
    while i < opset_import.len()
        invariant
            opset_import == &model.opset_import,
            i <= opset_import@.len(),
            opset_import@.len() > 0,
            spec_check_opset(opset_import@) == opset_scan(opset_import@, i as int, saw_relevant),
        decreases opset_import@.len() - i,
    {
        let entry = &opset_import[i];
        match min_version_for_domain(entry.domain.as_str()) {
            None => {},
            Some(required) => {
                saw_relevant = true;
                if entry.version < required {
                    return Err(OnnxImportError::UnsupportedOpset { found: entry.version, required });
                }
            },
        }
        i = i + 1;
    }
    if !saw_relevant {
        return Err(
            OnnxImportError::MalformedModel("model has no opset_import for ai.onnx or ai.onnx.ml".to_string()),
        );
    }
    Ok(())
}

/// `op` is one of the `allowed` operator names.
pub open spec fn op_allowed(allowed: Seq<&str>, op: Seq<char>) -> bool {
    exists|k: int| 0 <= k < allowed.len() && (#[trigger] allowed[k])@ == op
}

/// A node that the operator check rejects: empty or not allowed.
pub open spec fn node_rejected(node: NodeProto, allowed: Seq<&str>) -> bool {
    node.op_type@.len() == 0 || !op_allowed(allowed, node.op_type@)
}

/// Index of the first rejected node from `i` on.
pub open spec fn first_rejected(nodes: Seq<NodeProto>, allowed: Seq<&str>, i: int) -> Option<int>
    decreases nodes.len() - i,
{
    if i >= nodes.len() {
        None
    } else if node_rejected(nodes[i], allowed) {
        Some(i)
    } else {
        first_rejected(nodes, allowed, i + 1)
    }
}

/// Whether `op` is one of `allowed`.
pub(crate) fn contains_op(allowed: &[&str], op: &str) -> (r: bool)
    ensures
        r == op_allowed(allowed@, op@),
{
    let mut k: usize = 0;
    while k < allowed.len()
        invariant
            k <= allowed@.len(),
            forall|j: int| 0 <= j < k ==> (#[trigger] allowed@[j])@ != op@,
        decreases allowed@.len() - k,
    {
        if str_eq(allowed[k], op) {
            return true;
        }
        k = k + 1;
    }
    false
}

/// Walk every graph node and reject the first operator outside `allowed`:
/// an empty operator type makes the model malformed, any other unlisted
/// one is unsupported and named in the error.
pub fn check_operators(graph: &GraphProto, allowed: &[&str]) -> (r: Result<(), OnnxImportError>)
    ensures
        match first_rejected(graph.node@, allowed@, 0) {
            None => r is Ok,
            Some(i) => if graph.node@[i].op_type@.len() == 0 {
                r matches Err(OnnxImportError::MalformedModel(m)) && m@ == "node '"@ + graph.node@[i].name@
                    + "' has empty op_type"@
            } else {
                r matches Err(OnnxImportError::UnsupportedOperator { op_type }) && op_type@
                    == graph.node@[i].op_type@
            },
        },
{
    let mut i: usize = 0;
    while i < graph.node.len()
        invariant
            i <= graph.node@.len(),
            first_rejected(graph.node@, allowed@, 0) == first_rejected(graph.node@, allowed@, i as int),
        decreases graph.node@.len() - i,
    {
        let node = &graph.node[i];
        let op = node.op_type.as_str();
        if op.is_empty() {
            let mut msg = String::new();
            msg.append("node '");
            msg.append(node.name.as_str());
            msg.append("' has empty op_type");
            return Err(OnnxImportError::MalformedModel(msg));
        }
        if !contains_op(allowed, op) {
            return Err(OnnxImportError::UnsupportedOperator { op_type: op.to_owned() });
        }
        i = i + 1;
    }
    Ok(())
}

/// Some node of `nodes` has operator type `op`.
pub open spec fn has_op(nodes: Seq<NodeProto>, op: Seq<char>) -> bool {
    exists|i: int| 0 <= i < nodes.len() && (#[trigger] nodes[i]).op_type@ == op
}

/// The architecture label of a model, from the operators its graph uses.
pub open spec fn architecture_label(model: ModelProto) -> Seq<char> {
    match model.graph {
        None => "unknown"@,
        Some(g) => {
            let n = g.node@;
            if has_op(n, "TreeEnsembleClassifier"@) {
                "decision tree (TreeEnsembleClassifier)"@
            } else if has_op(n, "LinearClassifier"@) {
                "logistic regression (LinearClassifier)"@
            } else if has_op(n, "MatMul"@) {
                if has_op(n, "Add"@) && has_op(n, "Relu"@) {
                    "tiny MLP (MatMul + Add + Relu)"@
                } else if has_op(n, "Add"@) {
                    "tiny MLP (MatMul + Add)"@
                } else if has_op(n, "Relu"@) {
                    "tiny MLP (MatMul + Relu)"@
                } else {
                    "tiny MLP (MatMul)"@
                }
            } else {
                "unknown"@
            }
        },
    }
}

/// Derive a short architecture label from the operator mix, for error
/// messages.
pub fn detect_architecture(model: &ModelProto) -> (r: String)
    ensures
        r@ == architecture_label(*model),
{
    let graph = match &model.graph {
        None => {
            return "unknown".to_owned();
        },
        Some(g) => g,
    };
    let ghost n = graph.node@;
    let mut has_tree = false;
    let mut has_linear = false;
    let mut has_matmul = false;
    let mut has_add = false;
    let mut has_relu = false;
    let mut i: usize = 0;
    while i < graph.node.len()
        invariant
            n == graph.node@,
            i <= n.len(),
            has_tree == exists|j: int| 0 <= j < i && (#[trigger] n[j]).op_type@ == "TreeEnsembleClassifier"@,
            has_linear == exists|j: int| 0 <= j < i && (#[trigger] n[j]).op_type@ == "LinearClassifier"@,
            has_matmul == exists|j: int| 0 <= j < i && (#[trigger] n[j]).op_type@ == "MatMul"@,
            has_add == exists|j: int| 0 <= j < i && (#[trigger] n[j]).op_type@ == "Add"@,
            has_relu == exists|j: int| 0 <= j < i && (#[trigger] n[j]).op_type@ == "Relu"@,
        decreases n.len() - i,
    {
        let op = graph.node[i].op_type.as_str();
        if str_eq(op, "TreeEnsembleClassifier") {
            has_tree = true;
        }
        if str_eq(op, "LinearClassifier") {
            has_linear = true;
        }
        if str_eq(op, "MatMul") {
            has_matmul = true;
        }
        if str_eq(op, "Add") {
            has_add = true;
        }
        if str_eq(op, "Relu") {
            has_relu = true;
        }
        i = i + 1;
    }
    if has_tree {
        "decision tree (TreeEnsembleClassifier)".to_owned()
    } else if has_linear {
        "logistic regression (LinearClassifier)".to_owned()
    } else if has_matmul {
        if has_add && has_relu {
            "tiny MLP (MatMul + Add + Relu)".to_owned()
        } else if has_add {
            "tiny MLP (MatMul + Add)".to_owned()
        } else if has_relu {
            "tiny MLP (MatMul + Relu)".to_owned()
        } else {
            "tiny MLP (MatMul)".to_owned()
        }
    } else {
        "unknown".to_owned()
    }
}

} // verus!
