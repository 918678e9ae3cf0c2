//! The part of the ONNX protobuf schema that the importer reads, as plain
//! values. Floating-point payloads (`AttributeProto::floats`) are held
//! already quantized to [`FixedPoint`], which is what every consumer of them
//! turns them into.
use vstd::prelude::*;

use crate::fixed_point::FixedPoint;

verus! {

/// Operator set identifier: a domain and its opset version.
#[derive(Debug, Clone, Default, PartialEq, Eq)]
pub struct OperatorSetIdProto {
    /// Domain name. Empty string means the default ONNX domain (`ai.onnx`).
    pub domain: String,
    /// Opset version for this domain.
    pub version: i64,
}

/// A named attribute of a graph node.
#[derive(Debug, Clone, Default, PartialEq, Eq)]
pub struct AttributeProto {
    /// Attribute name.
    pub name: String,
    /// Single integer value.
    pub i: i64,
    /// Repeated integer values.
    pub ints: Vec<i64>,
    /// Repeated floating-point values, each quantized to Q16.16.
    pub floats: Vec<FixedPoint>,
    /// Single string value, as raw bytes.
    pub s: Vec<u8>,
    /// Repeated string values, as raw bytes.
    pub strings: Vec<Vec<u8>>,
}

/// A computation node of the graph.
#[derive(Debug, Clone, Default, PartialEq, Eq)]
pub struct NodeProto {
    /// Names of the node's inputs.
    pub input: Vec<String>,
    /// Names of the node's outputs.
    pub output: Vec<String>,
    /// Node name, for diagnostics.
    pub name: String,
    /// Operator type, such as `MatMul` or `TreeEnsembleClassifier`.
    pub op_type: String,
    /// Operator domain; empty for the default ONNX domain.
    pub domain: String,
    /// Operator attributes.
    pub attribute: Vec<AttributeProto>,
}

/// One dimension of a tensor shape: a fixed size or a symbolic name.
#[derive(Debug, Clone, Default, PartialEq, Eq)]
pub struct TensorShapeProtoDimension {
    /// The fixed size, or 0 when unset.
    pub dim_value: i64,
    /// The symbolic name, or empty when unset.
    pub dim_param: String,
}

/// The shape of a tensor.
#[derive(Debug, Clone, Default, PartialEq, Eq)]
pub struct TensorShapeProto {
    /// The dimensions, outermost first.
    pub dim: Vec<TensorShapeProtoDimension>,
}

/// The type of a tensor value: element type and shape.
#[derive(Debug, Clone, Default, PartialEq, Eq)]
pub struct TensorTypeProto {
    /// Element data type code.
    pub elem_type: i32,
    /// The shape, when declared.
    pub shape: Option<TensorShapeProto>,
}

/// The type of a graph value.
#[derive(Debug, Clone, Default, PartialEq, Eq)]
pub struct TypeProto {
    /// Present when the value is a tensor.
    pub tensor: Option<TensorTypeProto>,
}

/// A named graph input or output with its type.
#[derive(Debug, Clone, Default, PartialEq, Eq)]
pub struct ValueInfoProto {
    /// Value name.
    pub name: String,
    /// Declared type, when present.
    pub value_type: Option<TypeProto>,
}

/// A computation graph: its nodes in topological order and its inputs.
#[derive(Debug, Clone, Default, PartialEq, Eq)]
pub struct GraphProto {
    /// The nodes, in topological order.
    pub node: Vec<NodeProto>,
    /// Graph name.
    pub name: String,
    /// The graph inputs; the first is the feature vector.
    pub input: Vec<ValueInfoProto>,
}

/// A whole model: metadata, graph and opset imports.
#[derive(Debug, Clone, Default, PartialEq, Eq)]
pub struct ModelProto {
    /// IR version of the file format.
    pub ir_version: i64,
    /// Name of the producing tool.
    pub producer_name: String,
    /// Version of the producing tool.
    pub producer_version: String,
    /// Model domain.
    pub domain: String,
    /// Model version.
    pub model_version: i64,
    /// Free-form documentation.
    pub doc_string: String,
    /// The graph, when present.
    pub graph: Option<GraphProto>,
    /// The operator sets the model depends on.
    pub opset_import: Vec<OperatorSetIdProto>,
}

} // verus!
