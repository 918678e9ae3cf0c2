//! ONNX model import over the decoded protobuf: opset and operator
//! validation, and extraction of decision trees and linear classifiers into
//! the internal model types.
use vstd::prelude::*;

pub mod extract;
pub mod mlp_extractor;
pub mod proto;
pub mod tree_extractor;
pub mod validate;

pub use proto::{
    AttributeProto, GraphProto, ModelProto, NodeProto, OperatorSetIdProto, TensorShapeProto,
    TensorShapeProtoDimension, TensorTypeProto, TypeProto, ValueInfoProto,
};
pub use extract::extract_linear_classifier;
pub use mlp_extractor::{
    check_layer_chain, extract_gemm_layer, extract_matmul_add_layer, extract_mlp, gemm_weight_in_bounds,
    matmul_weight_in_bounds, mlp_weights_in_bounds, plan_dense_layers, DensePlan, DenseStep, QuantTensor,
};
pub use tree_extractor::{extract_tree, leaf_table_in_bounds, validate_tree_structure};
pub use validate::{
    check_operators, check_opset, detect_architecture, min_version_for_domain, MIN_OPSET_CORE,
    MIN_OPSET_ML,
};

pub(crate) use crate::error::{push_decimal, push_signed};
use crate::models::Model;
use crate::prover::str_eq;
use tree_extractor::{tree_attrs, tree_error_text, tree_extracts, tree_node_in_bounds, tree_nodes};
use extract::{linear_error_text, linear_parameters};
use validate::{architecture_label, contains_op, first_rejected, op_allowed, spec_check_opset};

verus! {

/// Minimum core ONNX opset version; the historical name of
/// [`MIN_OPSET_CORE`].
pub const MIN_OPSET_VERSION: i64 = MIN_OPSET_CORE;

/// Errors produced while parsing or validating an ONNX model.
#[derive(Debug, Clone, PartialEq, Eq)]
pub enum OnnxImportError {
    /// Protobuf decoding failed or the model structure is incomplete.
    MalformedModel(String),
    /// An opset import is below the minimum supported version.
    UnsupportedOpset {
        /// The opset version found in the model.
        found: i64,
        /// The minimum version required by this importer.
        required: i64,
    },
    /// A graph node uses an operator outside the allowlist.
    UnsupportedOperator {
        /// The ONNX `op_type` string of the offending node.
        op_type: String,
    },
    /// Validation succeeded but parameter extraction is not implemented yet.
    ExtractionNotImplemented {
        /// Best-effort architecture label derived from the operator set.
        architecture_hint: String,
    },
}

/// The variant of an [`OnnxImportError`] with its numeric fields.
pub enum OnnxErrorKind {
    MalformedModel,
    UnsupportedOpset { found: i64, required: i64 },
    UnsupportedOperator,
    ExtractionNotImplemented,
}

impl OnnxImportError {
    /// This error's variant and numeric fields.
    pub open spec fn kind(self) -> OnnxErrorKind {
        match self {
            OnnxImportError::MalformedModel(_) => OnnxErrorKind::MalformedModel,
            OnnxImportError::UnsupportedOpset { found, required } => OnnxErrorKind::UnsupportedOpset {
                found,
                required,
            },
            OnnxImportError::UnsupportedOperator { .. } => OnnxErrorKind::UnsupportedOperator,
            OnnxImportError::ExtractionNotImplemented { .. } => OnnxErrorKind::ExtractionNotImplemented,
        }
    }
}

/// An error reduced to its kind.
pub open spec fn onnx_result_kind(r: Result<(), OnnxImportError>) -> Result<(), OnnxErrorKind> {
    match r {
        Ok(()) => Ok(()),
        Err(e) => Err(e.kind()),
    }
}

// ---------------------------------------------------------------------------
// Model-level import
// ---------------------------------------------------------------------------

/// The operators the importer accepts.
pub open spec fn supported_operators() -> Seq<&'static str> {
    seq!["TreeEnsembleClassifier", "LinearClassifier", "Gemm", "MatMul", "Add", "Relu"]
}

/// The outcome of [`validate_model`]: the opset check, then a graph with at
/// least one node, then the operator allowlist (`Some(i)`: node `i` is the
/// first one rejected).
pub ghost enum ValidationOutcome {
    /// Every check passes.
    Valid,
    /// The opset check fails with this error.
    Opset(OnnxErrorKind),
    /// The model has no graph.
    NoGraph,
    /// The graph has no nodes.
    EmptyGraph,
    /// Node `i` is the first one the operator check rejects.
    Rejected(int),
}

/// What [`validate_model`] finds in `model`.
pub open spec fn validation_outcome(model: ModelProto) -> ValidationOutcome {
    match spec_check_opset(model.opset_import@) {
        Err(k) => ValidationOutcome::Opset(k),
        Ok(()) => match model.graph {
            None => ValidationOutcome::NoGraph,
            Some(g) => if g.node@.len() == 0 {
                ValidationOutcome::EmptyGraph
            } else {
                match first_rejected(g.node@, supported_operators(), 0) {
                    Some(i) => ValidationOutcome::Rejected(i),
                    None => ValidationOutcome::Valid,
                }
            },
        },
    }
}

/// Validate the opset imports and the operator allowlist of a decoded
/// model. A missing or empty graph is malformed; a rejected operator is
/// reported as [`check_operators`] reports it.
pub fn validate_model(model: &ModelProto) -> (r: Result<(), OnnxImportError>)
    ensures
        match validation_outcome(*model) {
            ValidationOutcome::Valid => r is Ok,
            ValidationOutcome::Opset(k) => r matches Err(e) && e.kind() == k && (e matches OnnxImportError::MalformedModel(
                m,
            ) ==> m@ == (if model.opset_import@.len() == 0 {
                "model declares no opset_import entries"@
            } else {
                "model has no opset_import for ai.onnx or ai.onnx.ml"@
            })),
            ValidationOutcome::NoGraph => r matches Err(OnnxImportError::MalformedModel(m)) && m@
                == "model has no graph"@,
            ValidationOutcome::EmptyGraph => r matches Err(OnnxImportError::MalformedModel(m)) && m@
                == "model graph has no nodes"@,
            ValidationOutcome::Rejected(i) => {
                let op = model.graph->0.node@[i].op_type@;
                if op.len() == 0 {
                    r matches Err(OnnxImportError::MalformedModel(m)) && m@ == "node '"@
                        + model.graph->0.node@[i].name@ + "' has empty op_type"@
                } else {
                    r matches Err(OnnxImportError::UnsupportedOperator { op_type }) && op_type@ == op
                }
            },
        },
{
    match check_opset(model) {
        Ok(()) => {},
        Err(e) => {
            return Err(e);
        },
    }
    let graph = match &model.graph {
        Some(g) => g,
        None => {
            return Err(OnnxImportError::MalformedModel("model has no graph".to_owned()));
        },
    };
    if graph.node.len() == 0 {
        return Err(OnnxImportError::MalformedModel("model graph has no nodes".to_owned()));
    }
    let allowed: [&str; 6] = ["TreeEnsembleClassifier", "LinearClassifier", "Gemm", "MatMul", "Add", "Relu"];
    assert(allowed@ =~= supported_operators());
    check_operators(graph, &allowed)
}

/// An operator of a dense-network graph.
pub open spec fn is_dense_op(op: Seq<char>) -> bool {
    op == "Gemm"@ || op == "MatMul"@ || op == "Add"@ || op == "Relu"@
}

/// The graph is a dense network: every operator is `Gemm`, `MatMul`, `Add`
/// or `Relu`, and at least one is `Gemm` or `MatMul`.
pub open spec fn mlp_graph(nodes: Seq<NodeProto>) -> bool {
    &&& forall|i: int| 0 <= i < nodes.len() ==> is_dense_op(#[trigger] nodes[i].op_type@)
    &&& exists|i: int| 0 <= i < nodes.len() && (#[trigger] nodes[i].op_type@ == "Gemm"@ || nodes[i].op_type@ == "MatMul"@)
}

/// Whether the graph is a dense network, which is imported as a multi-layer
/// perceptron rather than as a single classifier node.
pub fn is_mlp_graph(graph: &GraphProto) -> (r: bool)
    ensures
        r == mlp_graph(graph.node@),
{
    let mut all_dense = true;
    let mut any_dense_layer = false;
    let mut i: usize = 0;
    while i < graph.node.len()
        invariant
            i <= graph.node@.len(),
            all_dense == forall|j: int| 0 <= j < i ==> is_dense_op(#[trigger] graph.node@[j].op_type@),
            any_dense_layer == exists|j: int|
                0 <= j < i && (#[trigger] graph.node@[j].op_type@ == "Gemm"@ || graph.node@[j].op_type@ == "MatMul"@),
        decreases graph.node@.len() - i,
    {
        let op = graph.node[i].op_type.as_str();
        let gemm = str_eq(op, "Gemm");
        let matmul = str_eq(op, "MatMul");
        let add = str_eq(op, "Add");
        let relu = str_eq(op, "Relu");
        if !(gemm || matmul || add || relu) {
            all_dense = false;
        }
        if gemm || matmul {
            any_dense_layer = true;
        }
        i = i + 1;
    }
    all_dense && any_dense_layer
}

/// The feature count declared by the last dimension of the first graph
/// input, `None` when the graph, the input, its tensor type, its shape or a
/// positive dimension is missing.
pub open spec fn declared_features(model: ModelProto) -> Option<usize> {
    match model.graph {
        None => None,
        Some(g) => if g.input@.len() == 0 {
            None
        } else {
            match g.input@[0].value_type {
                None => None,
                Some(ty) => match ty.tensor {
                    None => None,
                    Some(tt) => match tt.shape {
                        None => None,
                        Some(shape) => if shape.dim@.len() == 0 {
                            None
                        } else {
                            let last = shape.dim@[shape.dim@.len() - 1];
                            if last.dim_value > 0 {
                                Some(last.dim_value as usize)
                            } else {
                                None
                            }
                        },
                    },
                },
            }
        },
    }
}

/// The message of a feature count that cannot be read: the first piece of
/// the first input's type that is missing, or why its last dimension has
/// no value.
pub open spec fn features_error_text(model: ModelProto) -> Seq<char> {
    match model.graph {
        None => "model has no graph"@,
        Some(g) => if g.input@.len() == 0 {
            "model has no input tensors"@
        } else {
            match g.input@[0].value_type {
                None => "input has no type info"@,
                Some(ty) => match ty.tensor {
                    None => "input is not a tensor"@,
                    Some(tt) => match tt.shape {
                        None => "input has no shape"@,
                        Some(shape) => if shape.dim@.len() == 0 {
                            "input shape has no dimensions"@
                        } else {
                            let last = shape.dim@[shape.dim@.len() - 1];
                            if last.dim_param@.len() > 0 {
                                "input has symbolic dimension '"@ + last.dim_param@
                                    + "', cannot determine num_features"@
                            } else {
                                "input dimension has no value or parameter"@
                            }
                        },
                    },
                },
            }
        },
    }
}

/// The number of features: the last dimension of the first graph input
/// (`[num_features]` or `[batch, num_features]`). A symbolic or unset last
/// dimension cannot be resolved at import time and is an error, as is any
/// missing piece of the input's type; every error is a
/// [`OnnxImportError::MalformedModel`].
pub fn extract_num_features(model: &ModelProto) -> (r: Result<usize, OnnxImportError>)
    ensures
        match declared_features(*model) {
            Some(n) => r == Ok::<usize, OnnxImportError>(n),
            None => r matches Err(OnnxImportError::MalformedModel(m)) && m@ == features_error_text(*model),
        },
{
    let graph = match &model.graph {
        Some(g) => g,
        None => {
            return Err(OnnxImportError::MalformedModel("model has no graph".to_owned()));
        },
    };
    if graph.input.len() == 0 {
        return Err(OnnxImportError::MalformedModel("model has no input tensors".to_owned()));
    }
    let first_input = &graph.input[0];
    let type_info = match &first_input.value_type {
        Some(t) => t,
        None => {
            return Err(OnnxImportError::MalformedModel("input has no type info".to_owned()));
        },
    };
    let tensor_type = match &type_info.tensor {
        Some(t) => t,
        None => {
            return Err(OnnxImportError::MalformedModel("input is not a tensor".to_owned()));
        },
    };
    let shape = match &tensor_type.shape {
        Some(s) => s,
        None => {
            return Err(OnnxImportError::MalformedModel("input has no shape".to_owned()));
        },
    };
    if shape.dim.len() == 0 {
        return Err(OnnxImportError::MalformedModel("input shape has no dimensions".to_owned()));
    }
    let last_dim = &shape.dim[shape.dim.len() - 1];
    if last_dim.dim_value > 0 {
        Ok(last_dim.dim_value as usize)
    } else if !last_dim.dim_param.as_str().is_empty() {
        let mut msg = String::new();
        msg.append("input has symbolic dimension '");
        msg.append(last_dim.dim_param.as_str());
        msg.append("', cannot determine num_features");
        Err(OnnxImportError::MalformedModel(msg))
    } else {
        Err(OnnxImportError::MalformedModel("input dimension has no value or parameter".to_owned()))
    }
}

/// The single node of the model's graph, when it has exactly one.
pub open spec fn single_node(model: ModelProto) -> Option<NodeProto> {
    match model.graph {
        Some(g) => if g.node@.len() == 1 { Some(g.node@[0]) } else { None },
        None => None,
    }
}

/// What [`import_classifier`] needs of its input: a tree node whose feature
/// count resolves reads its class table in bounds.
pub open spec fn classifier_in_bounds(model: ModelProto) -> bool {
    match single_node(model) {
        Some(n) => n.op_type@ == "TreeEnsembleClassifier"@ && declared_features(model) is Some
            ==> tree_node_in_bounds(n),
        None => true,
    }
}

/// Import a validated model whose graph is a single classifier node: a
/// `TreeEnsembleClassifier` becomes a [`Model::DecisionTree`] over the
/// declared feature count, a `LinearClassifier` a
/// [`Model::LogisticRegression`]. A missing graph or a graph of other than
/// one node is malformed; any other operator is unsupported.
pub fn import_classifier(model: &ModelProto) -> (r: Result<Model, OnnxImportError>)
    requires
        classifier_in_bounds(*model),
    ensures
        match single_node(*model) {
            None => r matches Err(e) && e is MalformedModel,
            Some(n) => if n.op_type@ == "TreeEnsembleClassifier"@ {
                match declared_features(*model) {
                    None => r matches Err(OnnxImportError::MalformedModel(m)) && m@ == features_error_text(*model),
                    Some(nf) => if tree_extracts(n, nf) {
                        r matches Ok(Model::DecisionTree(t)) && t.nodes@ == tree_nodes(tree_attrs(n)->0, nf)
                            && t.num_features == nf
                    } else {
                        r matches Err(OnnxImportError::MalformedModel(m)) && tree_error_text(n, nf, m@)
                    },
                }
            } else if n.op_type@ == "LinearClassifier"@ {
                match linear_parameters(n) {
                    Some((w, b)) => r matches Ok(Model::LogisticRegression(lr)) && lr.weights@ == w && lr.bias
                        == b,
                    None => r matches Err(OnnxImportError::MalformedModel(m)) && m@ == linear_error_text(n),
                }
            } else if op_allowed(supported_operators(), n.op_type@) {
                r matches Err(OnnxImportError::ExtractionNotImplemented { architecture_hint }) && architecture_hint@
                    == architecture_label(*model)
            } else {
                r matches Err(OnnxImportError::UnsupportedOperator { op_type }) && op_type@ == n.op_type@
            },
        },
        model.graph is None ==> (r matches Err(OnnxImportError::MalformedModel(m)) && m@ == "model has no graph"@),
        model.graph matches Some(g) && g.node@.len() != 1 ==> (r matches Err(OnnxImportError::MalformedModel(m))
            && m@ == "multi-node graph with architecture '"@ + architecture_label(*model) + "' is not supported"@),
{
    let graph = match &model.graph {
        Some(g) => g,
        None => {
            return Err(OnnxImportError::MalformedModel("model has no graph".to_owned()));
        },
    };
    if graph.node.len() != 1 {
        let architecture = detect_architecture(model);
        let mut msg = String::new();
        msg.append("multi-node graph with architecture '");
        msg.append(architecture.as_str());
        msg.append("' is not supported");
        return Err(OnnxImportError::MalformedModel(msg));
    }
    let node = &graph.node[0];
    let op = node.op_type.as_str();
    if str_eq(op, "TreeEnsembleClassifier") {
        let num_features = match extract_num_features(model) {
            Ok(n) => n,
            Err(e) => {
                return Err(e);
            },
        };
        match extract_tree(node, num_features) {
            Ok(tree) => Ok(Model::DecisionTree(tree)),
            Err(e) => Err(e),
        }
    } else if str_eq(op, "LinearClassifier") {
        match extract_linear_classifier(node) {
            Ok(lr) => Ok(Model::LogisticRegression(lr)),
            Err(e) => Err(e),
        }
    } else {
        let allowed: [&str; 6] = ["TreeEnsembleClassifier", "LinearClassifier", "Gemm", "MatMul", "Add", "Relu"];
        assert(allowed@ =~= supported_operators());
        if contains_op(&allowed, op) {
            Err(OnnxImportError::ExtractionNotImplemented { architecture_hint: detect_architecture(model) })
        } else {
            Err(OnnxImportError::UnsupportedOperator { op_type: op.to_owned() })
        }
    }
}

} // verus!
