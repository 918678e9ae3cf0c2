use zkml::fixed_point::{FixedPoint, DEFAULT_SCALE};
use zkml::models::{Model, TreeNode};
use zkml::onnx::{
    check_layer_chain, extract_gemm_layer, extract_matmul_add_layer, extract_mlp, gemm_weight_in_bounds,
    matmul_weight_in_bounds, mlp_weights_in_bounds, plan_dense_layers, DenseStep, QuantTensor,
    check_operators, check_opset, detect_architecture, extract_linear_classifier, extract_num_features,
    extract_tree, import_classifier, is_mlp_graph, leaf_table_in_bounds, validate_model, validate_tree_structure,
    AttributeProto, GraphProto, ModelProto, NodeProto, OnnxImportError, OperatorSetIdProto, TensorShapeProto,
    TensorShapeProtoDimension, TensorTypeProto, TypeProto, ValueInfoProto, MIN_OPSET_CORE, MIN_OPSET_ML,
};

/// `round(x * 2^16)`, how floating-point attribute values are held.
fn quant(x: f64) -> FixedPoint {
    FixedPoint::from_raw((x * 65536.0).round() as i64, DEFAULT_SCALE)
}

fn ints(name: &str, v: Vec<i64>) -> AttributeProto {
    AttributeProto { name: name.into(), ints: v, ..Default::default() }
}

fn floats(name: &str, v: Vec<f64>) -> AttributeProto {
    AttributeProto { name: name.into(), floats: v.into_iter().map(quant).collect(), ..Default::default() }
}

fn strings(name: &str, v: Vec<&str>) -> AttributeProto {
    AttributeProto { name: name.into(), strings: v.into_iter().map(|s| s.as_bytes().to_vec()).collect(), ..Default::default() }
}

fn opsets(core: i64, ml: i64) -> Vec<OperatorSetIdProto> {
    vec![
        OperatorSetIdProto { domain: String::new(), version: core },
        OperatorSetIdProto { domain: "ai.onnx.ml".into(), version: ml },
    ]
}

/// A stump: one split on feature 0 at 0.5 with two leaves.
fn make_tree_node() -> NodeProto {
    NodeProto {
        name: "tree".into(),
        op_type: "TreeEnsembleClassifier".into(),
        domain: "ai.onnx.ml".into(),
        input: vec!["X".into()],
        output: vec!["Y".into()],
        attribute: vec![
            ints("nodes_treeids", vec![0, 0, 0]),
            ints("nodes_nodeids", vec![0, 1, 2]),
            ints("nodes_featureids", vec![0, 0, 0]),
            floats("nodes_values", vec![0.5, 0.0, 0.0]),
            strings("nodes_modes", vec!["BRANCH_LEQ", "LEAF", "LEAF"]),
            ints("nodes_truenodeids", vec![1, 0, 0]),
            ints("nodes_falsenodeids", vec![2, 0, 0]),
            ints("class_ids", vec![0, 1]),
            floats("class_weights", vec![0.0, 1.0]),
            ints("class_nodeids", vec![1, 2]),
            ints("class_treeids", vec![0, 0]),
        ],
    }
}

fn attr_mut<'a>(node: &'a mut NodeProto, name: &str) -> &'a mut AttributeProto {
    node.attribute.iter_mut().find(|a| a.name == name).unwrap()
}

fn malformed_message(e: OnnxImportError) -> String {
    match e {
        OnnxImportError::MalformedModel(msg) => msg,
        other => panic!("expected MalformedModel, got {other:?}"),
    }
}

#[test]
fn test_simple_tree_extraction() {
    let node = make_tree_node();
    let tree = extract_tree(&node, 1).unwrap();
    assert_eq!(tree.nodes.len(), 3);
    assert_eq!(tree.num_features, 1);
}

#[test]
fn test_reject_ensemble() {
    let mut node = make_tree_node();
    attr_mut(&mut node, "nodes_treeids").ints = vec![0, 0, 1];
    attr_mut(&mut node, "class_treeids").ints = vec![0, 1];
    let err = extract_tree(&node, 1).unwrap_err();
    assert!(malformed_message(err).contains("Multi-tree ensembles"));
}

#[test]
fn test_reject_unsupported_mode() {
    let mut node = make_tree_node();
    attr_mut(&mut node, "nodes_modes").strings[0] = b"BRANCH_LT".to_vec();
    let err = extract_tree(&node, 1).unwrap_err();
    assert!(malformed_message(err).contains("unsupported node mode"));
}

#[test]
fn test_detect_out_of_bounds_child() {
    let mut node = make_tree_node();
    attr_mut(&mut node, "nodes_truenodeids").ints[0] = 99;
    let err = extract_tree(&node, 1).unwrap_err();
    assert!(malformed_message(err).contains("not found in nodes_nodeids"));
}

#[test]
fn extracted_stump_has_exact_nodes() {
    let tree = extract_tree(&make_tree_node(), 1).unwrap();
    assert_eq!(
        tree.nodes,
        vec![
            TreeNode::Split { feature_index: 0, threshold: FixedPoint::from_raw(32768, 16), left: 1, right: 2 },
            TreeNode::Leaf { value: FixedPoint::from_raw(0, 16) },
            TreeNode::Leaf { value: FixedPoint::from_raw(65536, 16) },
        ]
    );
}

#[test]
fn tree_extraction_error_cases() {
    // A feature index beyond the declared count.
    assert!(malformed_message(extract_tree(&make_tree_node(), 0).unwrap_err()).contains("out of range"));
    // A missing attribute.
    let mut node = make_tree_node();
    node.attribute.retain(|a| a.name != "class_ids");
    assert!(malformed_message(extract_tree(&node, 1).unwrap_err()).contains("missing class_ids"));
    // Inconsistent lengths.
    let mut node = make_tree_node();
    attr_mut(&mut node, "nodes_values").floats.pop();
    assert!(malformed_message(extract_tree(&node, 1).unwrap_err()).contains("inconsistent"));
    // A leaf without a class weight.
    let mut node = make_tree_node();
    attr_mut(&mut node, "class_nodeids").ints = vec![1, 1];
    assert!(malformed_message(extract_tree(&node, 1).unwrap_err()).contains("not found in class_nodeids"));
    // A class entry in another tree.
    let mut node = make_tree_node();
    attr_mut(&mut node, "class_treeids").ints = vec![0, 2];
    assert!(malformed_message(extract_tree(&node, 1).unwrap_err()).contains("multi-tree class weights"));
    // Both children of the root pointing at the same leaf: node 2 is unreachable.
    let mut node = make_tree_node();
    attr_mut(&mut node, "nodes_falsenodeids").ints[0] = 1;
    assert!(malformed_message(extract_tree(&node, 1).unwrap_err()).contains("cycle detected"));
}

#[test]
fn class_table_bounds_check() {
    assert!(leaf_table_in_bounds(&make_tree_node()));
    let mut node = make_tree_node();
    attr_mut(&mut node, "class_weights").floats.pop();
    assert!(!leaf_table_in_bounds(&node));
    // A non-zero tree id stops the walk before the short weights are read.
    attr_mut(&mut node, "class_treeids").ints = vec![0, 3];
    assert!(leaf_table_in_bounds(&node));
}

#[test]
fn structure_validation_cases() {
    let leaf = TreeNode::Leaf { value: FixedPoint::from_raw(0, 16) };
    let split = |l: usize, r: usize| TreeNode::Split { feature_index: 0, threshold: FixedPoint::from_raw(0, 16), left: l, right: r };
    let tree = |nodes: Vec<TreeNode>| zkml::models::DecisionTree { nodes, num_features: 1 };
    assert!(validate_tree_structure(&tree(vec![split(1, 2), leaf.clone(), leaf.clone()])).is_ok());
    assert!(validate_tree_structure(&tree(vec![])).is_err());
    assert!(validate_tree_structure(&tree(vec![split(1, 5), leaf.clone()])).is_err());
    assert!(validate_tree_structure(&tree(vec![split(0, 1), leaf.clone()])).is_err());
    assert!(validate_tree_structure(&tree(vec![leaf.clone(), leaf.clone()])).is_err());
    // A self-loop deep in the tree is a cycle.
    assert!(validate_tree_structure(&tree(vec![split(1, 2), split(1, 2), leaf.clone()])).is_err());
}

fn make_node_with_coefficients(coeffs: Vec<f64>, intercepts: Vec<f64>) -> NodeProto {
    NodeProto {
        name: "test".into(),
        op_type: "LinearClassifier".into(),
        domain: "ai.onnx.ml".into(),
        input: vec!["X".into()],
        output: vec!["Y".into()],
        attribute: vec![floats("coefficients", coeffs), floats("intercepts", intercepts)],
    }
}

#[test]
fn a_label_that_is_not_utf8_is_an_error_not_a_dropped_entry() {
    let mut node = make_node_with_coefficients(vec![1.0, 2.0, 3.0], vec![0.1, 0.2, 0.3]);
    node.attribute.push(AttributeProto {
        name: "classlabels_strings".into(),
        strings: vec![b"low".to_vec(), vec![0xff, 0xfe], b"high".to_vec()],
        ..Default::default()
    });
    let message = malformed_message(extract_linear_classifier(&node).unwrap_err());
    assert!(message.contains("not valid UTF-8"), "expected the decode to be reported, got: {message}");
}

#[test]
fn extract_binary_classifier_succeeds() {
    let node = make_node_with_coefficients(vec![0.5, -0.3, 0.8], vec![0.1]);
    let result = extract_linear_classifier(&node);
    assert!(result.is_ok());
    let lr = result.unwrap();
    assert_eq!(lr.weights.len(), 3);
    assert_eq!(lr.weights[0], quant(0.5));
    assert_eq!(lr.bias, quant(0.1));
}

#[test]
fn multi_class_rejected() {
    let mut node = make_node_with_coefficients(vec![0.5, -0.3, 0.8], vec![0.1, 0.2]);
    node.attribute.push(ints("classlabels_ints", vec![0, 1, 2]));
    let msg = malformed_message(extract_linear_classifier(&node).unwrap_err());
    assert!(msg.contains("Multi-class"));
    assert!(msg.contains("3 classes"));
}

#[test]
fn linear_classifier_post_transform_and_intercepts() {
    let mut node = make_node_with_coefficients(vec![0.5], vec![0.1]);
    node.attribute.push(strings("post_transform", vec!["LOGISTIC"]));
    assert!(extract_linear_classifier(&node).is_ok());
    let mut node = make_node_with_coefficients(vec![0.5], vec![0.1]);
    node.attribute.push(AttributeProto { name: "post_transform".into(), s: b"SOFTMAX".to_vec(), ..Default::default() });
    assert!(malformed_message(extract_linear_classifier(&node).unwrap_err()).contains("Unsupported post_transform"));
    let node = make_node_with_coefficients(vec![0.5], vec![0.1, 0.2]);
    assert!(malformed_message(extract_linear_classifier(&node).unwrap_err()).contains("exactly 1 intercept"));
    let node = make_node_with_coefficients(vec![], vec![0.1]);
    assert!(malformed_message(extract_linear_classifier(&node).unwrap_err()).contains("coefficients"));
}

#[test]
fn rejects_empty_opset_list() {
    let model = ModelProto::default();
    assert!(matches!(check_opset(&model), Err(OnnxImportError::MalformedModel(_))));
}

#[test]
fn ignores_unrelated_domains_when_core_present() {
    let model = ModelProto {
        opset_import: vec![
            OperatorSetIdProto { domain: "com.example".into(), version: 1 },
            OperatorSetIdProto { domain: String::new(), version: 17 },
        ],
        ..Default::default()
    };
    assert!(check_opset(&model).is_ok());
}

#[test]
fn accepts_realistic_ml_opset_with_core_17() {
    let model = ModelProto { opset_import: opsets(17, 3), ..Default::default() };
    assert!(check_opset(&model).is_ok());
}

#[test]
fn rejects_core_below_floor() {
    let model = ModelProto { opset_import: opsets(13, 3), ..Default::default() };
    match check_opset(&model).unwrap_err() {
        OnnxImportError::UnsupportedOpset { found, required } => {
            assert_eq!(found, 13);
            assert_eq!(required, MIN_OPSET_CORE);
        },
        other => panic!("unexpected: {other:?}"),
    }
}

#[test]
fn rejects_ml_below_floor() {
    let model = ModelProto { opset_import: opsets(17, 0), ..Default::default() };
    match check_opset(&model).unwrap_err() {
        OnnxImportError::UnsupportedOpset { found, required } => {
            assert_eq!(found, 0);
            assert_eq!(required, MIN_OPSET_ML);
        },
        other => panic!("unexpected: {other:?}"),
    }
}

#[test]
fn operator_check_reports_first_offender() {
    let graph = GraphProto {
        name: "g".into(),
        node: vec![
            NodeProto { op_type: "MatMul".into(), ..Default::default() },
            NodeProto { op_type: "Softmax".into(), ..Default::default() },
        ],
        ..Default::default()
    };
    match check_operators(&graph, &["MatMul", "Add", "Relu"]).unwrap_err() {
        OnnxImportError::UnsupportedOperator { op_type } => assert_eq!(op_type, "Softmax"),
        other => panic!("unexpected: {other:?}"),
    }
}

/// A model over the given operators, as the importer's own tests build it.
fn model_with(core_opset: i64, ml_opset: i64, ops: &[&str]) -> ModelProto {
    ModelProto {
        ir_version: 8,
        opset_import: opsets(core_opset, ml_opset),
        graph: Some(GraphProto {
            name: "test".into(),
            input: vec![],
            node: ops
                .iter()
                .enumerate()
                .map(|(i, op)| NodeProto {
                    name: format!("n{i}"),
                    op_type: (*op).into(),
                    domain: if op.ends_with("Classifier") { "ai.onnx.ml".into() } else { String::new() },
                    input: vec!["X".into()],
                    output: vec![format!("Y{i}")],
                    attribute: vec![],
                })
                .collect(),
        }),
        ..Default::default()
    }
}

/// Validation followed by classifier import, for graphs that are not dense
/// networks.
fn import(model: &ModelProto) -> Result<Model, OnnxImportError> {
    validate_model(model)?;
    assert!(!is_mlp_graph(model.graph.as_ref().unwrap()));
    import_classifier(model)
}

#[test]
fn valid_tree_extraction_fails_without_attributes() {
    let err = import(&model_with(17, 3, &["TreeEnsembleClassifier"])).unwrap_err();
    assert!(matches!(err, OnnxImportError::MalformedModel(_)));
}

#[test]
fn linear_classifier_without_attributes_fails() {
    let err = import(&model_with(18, 1, &["LinearClassifier"])).unwrap_err();
    assert!(matches!(err, OnnxImportError::MalformedModel(_)));
}

#[test]
fn unsupported_operator_names_offender() {
    match import(&model_with(17, 1, &["Conv"])).unwrap_err() {
        OnnxImportError::UnsupportedOperator { op_type } => assert_eq!(op_type, "Conv"),
        other => panic!("unexpected error: {other:?}"),
    }
}

#[test]
fn low_core_opset_is_rejected() {
    match import(&model_with(13, 3, &["TreeEnsembleClassifier"])).unwrap_err() {
        OnnxImportError::UnsupportedOpset { found, required } => {
            assert_eq!(found, 13);
            assert_eq!(required, MIN_OPSET_CORE);
        },
        other => panic!("unexpected error: {other:?}"),
    }
}

#[test]
fn realistic_ml_opset_is_accepted() {
    let err = import(&model_with(17, 5, &["TreeEnsembleClassifier"])).unwrap_err();
    assert!(matches!(err, OnnxImportError::MalformedModel(_)), "got {err:?}");
}

#[test]
fn missing_graph_is_malformed() {
    let model = ModelProto {
        ir_version: 8,
        opset_import: vec![OperatorSetIdProto { domain: String::new(), version: 17 }],
        graph: None,
        ..Default::default()
    };
    assert!(matches!(validate_model(&model), Err(OnnxImportError::MalformedModel(_))));
}

#[test]
fn empty_graph_is_malformed() {
    let model = ModelProto {
        ir_version: 8,
        opset_import: vec![OperatorSetIdProto { domain: String::new(), version: 17 }],
        graph: Some(GraphProto { name: "empty".into(), input: vec![], node: vec![] }),
        ..Default::default()
    };
    assert!(matches!(validate_model(&model), Err(OnnxImportError::MalformedModel(_))));
}

fn feature_input(dims: Vec<TensorShapeProtoDimension>) -> ValueInfoProto {
    ValueInfoProto {
        name: "X".into(),
        value_type: Some(TypeProto {
            tensor: Some(TensorTypeProto { elem_type: 1, shape: Some(TensorShapeProto { dim: dims }) }),
        }),
    }
}

#[test]
fn tree_model_imports_with_declared_features() {
    let mut model = model_with(17, 3, &["TreeEnsembleClassifier"]);
    let graph = model.graph.as_mut().unwrap();
    graph.node[0] = make_tree_node();
    graph.input = vec![feature_input(vec![
        TensorShapeProtoDimension { dim_value: 0, dim_param: "N".into() },
        TensorShapeProtoDimension { dim_value: 1, dim_param: String::new() },
    ])];
    assert_eq!(extract_num_features(&model), Ok(1));
    match import(&model).unwrap() {
        Model::DecisionTree(t) => {
            assert_eq!(t.num_features, 1);
            assert_eq!(t.nodes.len(), 3);
        },
        _ => panic!("expected a decision tree"),
    }
}

#[test]
fn symbolic_feature_dimension_is_rejected() {
    let mut model = model_with(17, 3, &["TreeEnsembleClassifier"]);
    model.graph.as_mut().unwrap().input =
        vec![feature_input(vec![TensorShapeProtoDimension { dim_value: 0, dim_param: "F".into() }])];
    assert!(malformed_message(extract_num_features(&model).unwrap_err()).contains("symbolic dimension 'F'"));
}

#[test]
fn architecture_labels_and_mlp_detection() {
    assert_eq!(detect_architecture(&ModelProto::default()), "unknown");
    assert_eq!(
        detect_architecture(&model_with(17, 1, &["TreeEnsembleClassifier"])),
        "decision tree (TreeEnsembleClassifier)"
    );
    assert_eq!(detect_architecture(&model_with(17, 1, &["LinearClassifier"])), "logistic regression (LinearClassifier)");
    assert_eq!(detect_architecture(&model_with(17, 1, &["MatMul", "Add", "Relu"])), "tiny MLP (MatMul + Add + Relu)");
    assert_eq!(detect_architecture(&model_with(17, 1, &["MatMul", "Relu"])), "tiny MLP (MatMul + Relu)");
    assert!(is_mlp_graph(model_with(17, 1, &["Gemm", "Relu", "Gemm"]).graph.as_ref().unwrap()));
    assert!(!is_mlp_graph(model_with(17, 1, &["Add", "Relu"]).graph.as_ref().unwrap()));
    assert!(!is_mlp_graph(model_with(17, 1, &["MatMul", "Softmax"]).graph.as_ref().unwrap()));
    let err = import_classifier(&model_with(17, 1, &["TreeEnsembleClassifier", "LinearClassifier"])).unwrap_err();
    assert!(malformed_message(err).contains("multi-node graph with architecture 'decision tree"));
}

fn op_node(name: &str, op: &str) -> NodeProto {
    NodeProto { name: name.into(), op_type: op.into(), ..Default::default() }
}

fn graph_of(nodes: Vec<NodeProto>) -> GraphProto {
    GraphProto { name: "test".into(), input: vec![], node: nodes }
}

fn gemm_node(name: &str, inputs: Vec<&str>, trans_b: i64) -> NodeProto {
    NodeProto {
        name: name.into(),
        op_type: "Gemm".into(),
        domain: String::new(),
        input: inputs.into_iter().map(String::from).collect(),
        output: vec![format!("{name}_out")],
        attribute: vec![AttributeProto { name: "transB".into(), i: trans_b, ..Default::default() }],
    }
}

fn relu_node(name: &str) -> NodeProto {
    NodeProto { name: name.into(), op_type: "Relu".into(), ..Default::default() }
}

/// A float initialiser as the importer hands it over: quantized values.
fn make_tensor(name: &str, dims: Vec<i64>, data: Vec<f64>) -> QuantTensor {
    QuantTensor { name: name.into(), dims, values: Ok(data.into_iter().map(quant).collect()) }
}

fn mlp_of(graph: &GraphProto, inits: &[QuantTensor]) -> Result<zkml::models::TinyMLP, OnnxImportError> {
    let scalings: Vec<Result<(), OnnxImportError>> = vec![Ok(()); graph.node.len()];
    assert!(mlp_weights_in_bounds(graph, inits, &scalings));
    extract_mlp(graph, inits, &scalings)
}

#[test]
fn single_gemm_layer_extracts() {
    let w = make_tensor("W", vec![1, 2], vec![0.5, -0.3]);
    let b = make_tensor("B", vec![1], vec![0.1]);
    let graph = GraphProto { name: "test".into(), input: vec![], node: vec![gemm_node("gemm0", vec!["X", "W", "B"], 1)] };
    let mlp = mlp_of(&graph, &[w, b]).unwrap();
    assert_eq!(mlp.layers.len(), 1);
    assert_eq!(mlp.layers[0].input_size, 2);
    assert_eq!(mlp.layers[0].output_size, 1);
}

#[test]
fn two_layer_gemm_with_relu() {
    let w1 = make_tensor("W1", vec![2, 2], vec![1.0, 0.0, 0.0, 1.0]);
    let b1 = make_tensor("B1", vec![2], vec![0.0, 0.0]);
    let w2 = make_tensor("W2", vec![1, 2], vec![0.5, 1.0]);
    let b2 = make_tensor("B2", vec![1], vec![0.25]);
    let graph = GraphProto {
        name: "test".into(),
        input: vec![],
        node: vec![
            gemm_node("gemm0", vec!["X", "W1", "B1"], 1),
            relu_node("relu0"),
            gemm_node("gemm1", vec!["relu_out", "W2", "B2"], 1),
        ],
    };
    let mlp = mlp_of(&graph, &[w1, b1, w2, b2]).unwrap();
    assert_eq!(mlp.layers.len(), 2);
    assert_eq!(mlp.layers[0].input_size, 2);
    assert_eq!(mlp.layers[0].output_size, 2);
    assert_eq!(mlp.layers[1].input_size, 2);
    assert_eq!(mlp.layers[1].output_size, 1);
}

#[test]
fn missing_initialiser_fails() {
    let graph = GraphProto { name: "test".into(), input: vec![], node: vec![gemm_node("gemm0", vec!["X", "W", "B"], 1)] };
    let err = mlp_of(&graph, &[]).unwrap_err();
    assert!(matches!(err, OnnxImportError::MalformedModel(msg) if msg.contains("not found")));
}

#[test]
fn unsupported_op_in_mlp_graph_fails() {
    let graph = GraphProto {
        name: "test".into(),
        input: vec![],
        node: vec![NodeProto { name: "softmax".into(), op_type: "Softmax".into(), ..Default::default() }],
    };
    let err = mlp_of(&graph, &[]).unwrap_err();
    assert!(matches!(err, OnnxImportError::MalformedModel(msg) if msg.contains("Softmax")));
}

#[test]
fn layer_chain_mismatch_fails() {
    // Layer 1: 2→3, Layer 2: 2→1 (input_size mismatch: 3 ≠ 2)
    let w1 = make_tensor("W1", vec![3, 2], vec![1.0; 6]);
    let b1 = make_tensor("B1", vec![3], vec![0.0; 3]);
    let w2 = make_tensor("W2", vec![1, 2], vec![0.5, 1.0]);
    let b2 = make_tensor("B2", vec![1], vec![0.0]);
    let graph = GraphProto {
        name: "test".into(),
        input: vec![],
        node: vec![
            gemm_node("gemm0", vec!["X", "W1", "B1"], 1),
            relu_node("relu0"),
            gemm_node("gemm1", vec!["relu_out", "W2", "B2"], 1),
        ],
    };
    let err = mlp_of(&graph, &[w1, b1, w2, b2]).unwrap_err();
    assert!(matches!(err, OnnxImportError::MalformedModel(msg) if msg.contains("does not match")));
}

#[test]
fn matmul_add_pair_extracts() {
    let w = make_tensor("W", vec![2, 1], vec![0.5, -0.3]);
    let b = make_tensor("B", vec![1], vec![0.1]);
    let graph = GraphProto {
        name: "test".into(),
        input: vec![],
        node: vec![
            NodeProto {
                name: "matmul0".into(),
                op_type: "MatMul".into(),
                input: vec!["X".into(), "W".into()],
                output: vec!["mm_out".into()],
                ..Default::default()
            },
            NodeProto {
                name: "add0".into(),
                op_type: "Add".into(),
                input: vec!["mm_out".into(), "B".into()],
                output: vec!["out".into()],
                ..Default::default()
            },
        ],
    };
    let mlp = mlp_of(&graph, &[w, b]).unwrap();
    assert_eq!(mlp.layers.len(), 1);
    assert_eq!(mlp.layers[0].input_size, 2);
    assert_eq!(mlp.layers[0].output_size, 1);
}

#[test]
fn gemm_layers_transpose_only_without_trans_b() {
    // W is 2 inputs × 3 outputs without transB: stored one row per output.
    let w = make_tensor("W", vec![2, 3], vec![1.0, 2.0, 3.0, 4.0, 5.0, 6.0]);
    let inits = vec![w];
    let layer = extract_gemm_layer(&gemm_node("g", vec!["X", "W"], 0), Ok(()), &inits).unwrap();
    assert_eq!((layer.input_size, layer.output_size), (2, 3));
    assert_eq!(layer.weights, [1.0, 4.0, 2.0, 5.0, 3.0, 6.0].map(quant).to_vec());
    assert_eq!(layer.biases, vec![quant(0.0); 3]);
    // With transB the same tensor is 3 inputs × 2 outputs, stored as it is.
    let layer = extract_gemm_layer(&gemm_node("g", vec!["X", "W", ""], 1), Ok(()), &inits).unwrap();
    assert_eq!((layer.input_size, layer.output_size), (3, 2));
    assert_eq!(layer.weights, [1.0, 2.0, 3.0, 4.0, 5.0, 6.0].map(quant).to_vec());
}

#[test]
fn gemm_error_cases() {
    let w = || make_tensor("W", vec![1, 2], vec![0.5, -0.3]);
    let err = |node: &NodeProto, scaling: Result<(), OnnxImportError>, inits: &[QuantTensor]| {
        assert!(gemm_weight_in_bounds(node, &scaling, inits));
        extract_gemm_layer(node, scaling, inits).unwrap_err()
    };
    let bad_alpha = OnnxImportError::MalformedModel("only alpha=1".into());
    assert_eq!(
        malformed_message(err(&gemm_node("g", vec!["X"], 1), Err(bad_alpha.clone()), &[w()])),
        "Gemm node 'g' has fewer than 2 inputs"
    );
    assert_eq!(err(&gemm_node("g", vec!["X", "W"], 1), Err(bad_alpha.clone()), &[w()]), bad_alpha);
    assert_eq!(
        malformed_message(err(&gemm_node("g", vec!["X", "V"], 1), Ok(()), &[w()])),
        "Gemm node 'g': weight input 'V' not found in initialisers"
    );
    assert_eq!(
        malformed_message(err(&gemm_node("g", vec!["X", "W"], 1), Ok(()), &[make_tensor("W", vec![2], vec![1.0, 2.0])])),
        "Gemm node 'g': weight tensor must be 2-D (got 1 dims)"
    );
    assert_eq!(
        malformed_message(err(&gemm_node("g", vec!["X", "W", "B"], 1), Ok(()), &[w()])),
        "Gemm node 'g': bias input 'B' not found in initialisers"
    );
    assert_eq!(
        malformed_message(err(&gemm_node("g", vec!["X", "W", "B"], 1), Ok(()), &[w(), make_tensor("B", vec![2], vec![0.0; 2])])),
        "Gemm node 'g': bias length 2 does not match output_size 1"
    );
    assert!(!gemm_weight_in_bounds(&gemm_node("g", vec!["X", "W"], 0), &Ok(()), &[make_tensor("W", vec![2, 2], vec![1.0; 3])]));
}

#[test]
fn mlp_error_order_and_validation_message() {
    // A layer error comes before a standalone Add.
    let graph = GraphProto {
        name: "test".into(),
        input: vec![],
        node: vec![gemm_node("gemm0", vec!["X", "W"], 1), op_node("stray", "Add")],
    };
    assert_eq!(
        malformed_message(mlp_of(&graph, &[]).unwrap_err()),
        "Gemm node 'gemm0': weight input 'W' not found in initialisers"
    );
    assert_eq!(
        malformed_message(mlp_of(&graph, &[make_tensor("W", vec![1, 2], vec![0.5, 1.0])]).unwrap_err()),
        "unexpected standalone Add node 'stray' without preceding MatMul"
    );
    // transB with a weight of the wrong count passes the chain check and fails validation.
    let graph = GraphProto { name: "test".into(), input: vec![], node: vec![gemm_node("gemm0", vec!["X", "W"], 1)] };
    let w = QuantTensor { name: "W".into(), dims: vec![1, 2], values: Ok(vec![quant(1.0); 3]) };
    assert_eq!(
        malformed_message(mlp_of(&graph, &[w]).unwrap_err()),
        "MLP validation failed: invalid model: expected 2 weights, got 3"
    );
}
#[test]
fn dense_plan_groups_layers() {
    let plan = plan_dense_layers(&graph_of(vec![
        op_node("g0", "Gemm"),
        op_node("r0", "Relu"),
        op_node("m1", "MatMul"),
        op_node("a1", "Add"),
        op_node("r1", "Relu"),
        op_node("m2", "MatMul"),
    ]))
    .unwrap();
    assert_eq!(
        plan.steps,
        vec![
            DenseStep::Gemm { node: 0 },
            DenseStep::MatMul { node: 2, add: Some(3) },
            DenseStep::MatMul { node: 5, add: None },
        ]
    );
    assert!(plan.stop.is_none());
    let plan = plan_dense_layers(&graph_of(vec![op_node("g0", "Gemm"), op_node("stray", "Add")])).unwrap();
    assert_eq!(plan.steps, vec![DenseStep::Gemm { node: 0 }]);
    assert!(matches!(plan.stop, Some(OnnxImportError::MalformedModel(msg)) if msg.contains("standalone Add node 'stray'")));
    assert!(plan_dense_layers(&graph_of(vec![])).is_err());
    assert!(check_layer_chain(&[]).is_err());
    assert!(check_layer_chain(&[(2, 3), (3, 1)]).is_ok());
}

/// A tree node with the given attribute values, in the importer's order.
#[allow(clippy::too_many_arguments)]
fn tree_node_with(
    name: &str,
    treeids: Vec<i64>,
    nodeids: Vec<i64>,
    featureids: Vec<i64>,
    values: Vec<f64>,
    modes: Vec<&str>,
    truenodeids: Vec<i64>,
    falsenodeids: Vec<i64>,
    class_ids: Vec<i64>,
    class_weights: Vec<f64>,
    class_nodeids: Vec<i64>,
    class_treeids: Vec<i64>,
) -> NodeProto {
    NodeProto {
        name: name.into(),
        op_type: "TreeEnsembleClassifier".into(),
        domain: "ai.onnx.ml".into(),
        input: vec!["X".into()],
        output: vec!["Y".into()],
        attribute: vec![
            ints("nodes_treeids", treeids),
            ints("nodes_nodeids", nodeids),
            ints("nodes_featureids", featureids),
            floats("nodes_values", values),
            strings("nodes_modes", modes),
            ints("nodes_truenodeids", truenodeids),
            ints("nodes_falsenodeids", falsenodeids),
            ints("class_ids", class_ids),
            floats("class_weights", class_weights),
            ints("class_nodeids", class_nodeids),
            ints("class_treeids", class_treeids),
        ],
    }
}

/// A single-node tree model over `num_features` inputs.
fn tree_model(graph_name: &str, num_features: i64, node: NodeProto) -> ModelProto {
    ModelProto {
        ir_version: 8,
        opset_import: opsets(17, 3),
        graph: Some(GraphProto {
            name: graph_name.into(),
            input: vec![feature_input(vec![TensorShapeProtoDimension {
                dim_value: num_features,
                dim_param: String::new(),
            }])],
            node: vec![node],
        }),
        ..Default::default()
    }
}

fn create_test_tree_model() -> ModelProto {
    tree_model(
        "test_tree",
        1,
        tree_node_with(
            "tree",
            vec![0, 0, 0],
            vec![0, 1, 2],
            vec![0, 0, 0],
            vec![0.5, 0.0, 0.0],
            vec!["BRANCH_LEQ", "LEAF", "LEAF"],
            vec![1, 0, 0],
            vec![2, 0, 0],
            vec![0, 1],
            vec![0.0, 1.0],
            vec![1, 2],
            vec![0, 0],
        ),
    )
}

#[test]
fn test_tree_extraction_round_trip() {
    let model = import(&create_test_tree_model()).expect("ONNX import should succeed");
    match model {
        Model::DecisionTree(tree) => {
            assert_eq!(tree.nodes.len(), 3);
            assert_eq!(tree.num_features, 1);
            match &tree.nodes[0] {
                TreeNode::Split { feature_index, threshold, left, right } => {
                    assert_eq!(*feature_index, 0);
                    assert!((threshold.value as f64 / 65536.0 - 0.5).abs() < 1e-4);
                    assert_eq!(*left, 1);
                    assert_eq!(*right, 2);
                },
                _ => panic!("Root should be a split node"),
            }
            match &tree.nodes[1] {
                TreeNode::Leaf { value } => assert!((value.value as f64 / 65536.0 - 0.0).abs() < 1e-4),
                _ => panic!("Node 1 should be a leaf"),
            }
            match &tree.nodes[2] {
                TreeNode::Leaf { value } => assert!((value.value as f64 / 65536.0 - 1.0).abs() < 1e-4),
                _ => panic!("Node 2 should be a leaf"),
            }
        },
        _ => panic!("Expected DecisionTree model"),
    }
}

#[test]
fn test_tree_inference_matches_expected() {
    let model = import(&create_test_tree_model()).expect("ONNX import should succeed");
    let out = |x: f64| zkml::inference::run_inference(&model, &[quant(x)]).value as f64 / 65536.0;
    assert!((out(0.3) - 0.0).abs() < 1e-4, "Feature 0.3 should output 0.0");
    assert!((out(0.7) - 1.0).abs() < 1e-4, "Feature 0.7 should output 1.0");
    assert!((out(0.5) - 0.0).abs() < 1e-4, "Feature 0.5 should output 0.0 (LEQ)");
}

#[test]
fn test_reject_multi_tree_ensemble() {
    let model = tree_model(
        "ensemble",
        1,
        tree_node_with(
            "ensemble",
            vec![0, 1],
            vec![0, 1],
            vec![0, 0],
            vec![0.5, 0.0],
            vec!["LEAF", "LEAF"],
            vec![0, 0],
            vec![0, 0],
            vec![0, 0],
            vec![0.0, 0.0],
            vec![0, 1],
            vec![0, 1],
        ),
    );
    assert!(malformed_message(import(&model).unwrap_err()).contains("Multi-tree ensembles"));
}

#[test]
fn test_reject_unsupported_node_mode() {
    let model = tree_model(
        "bad_mode",
        1,
        tree_node_with(
            "bad_mode",
            vec![0],
            vec![0],
            vec![0],
            vec![0.5],
            vec!["BRANCH_LT"],
            vec![0],
            vec![0],
            vec![0],
            vec![0.0],
            vec![0],
            vec![0],
        ),
    );
    assert!(malformed_message(import(&model).unwrap_err()).contains("unsupported node mode"));
}

#[test]
fn test_reject_out_of_bounds_child_index() {
    let model = tree_model(
        "bad_child",
        1,
        tree_node_with(
            "bad_child",
            vec![0],
            vec![0],
            vec![0],
            vec![0.5],
            vec!["BRANCH_LEQ"],
            vec![99],
            vec![0],
            vec![0],
            vec![0.0],
            vec![0],
            vec![0],
        ),
    );
    assert!(malformed_message(import(&model).unwrap_err()).contains("not found in nodes_nodeids"));
}

#[test]
fn test_reject_cycle_in_tree() {
    let model = tree_model(
        "cycle",
        2,
        tree_node_with(
            "cycle",
            vec![0, 0],
            vec![0, 1],
            vec![0, 1],
            vec![0.5, 0.3],
            vec!["BRANCH_LEQ", "BRANCH_LEQ"],
            vec![1, 0],
            vec![1, 1],
            vec![0, 0],
            vec![0.0, 0.0],
            vec![0, 1],
            vec![0, 0],
        ),
    );
    assert!(malformed_message(import(&model).unwrap_err()).contains("cycle"));
}

#[test]
fn a_label_that_is_not_utf8_names_the_attribute() {
    let mut node = make_node_with_coefficients(vec![1.0, 2.0], vec![0.1]);
    node.attribute.push(AttributeProto {
        name: "classlabels_strings".into(),
        strings: vec![b"low".to_vec(), vec![0xc3]],
        ..Default::default()
    });
    let message = malformed_message(extract_linear_classifier(&node).unwrap_err());
    assert_eq!(message, "attribute 'classlabels_strings' holds a string that is not valid UTF-8");
}

fn fp(v: i64) -> FixedPoint {
    FixedPoint::from_raw(v, DEFAULT_SCALE)
}

fn tensor(name: &str, dims: Vec<i64>, values: Vec<i64>) -> QuantTensor {
    QuantTensor { name: name.into(), dims, values: Ok(values.into_iter().map(fp).collect()) }
}

fn op(op_type: &str, name: &str, inputs: &[&str]) -> NodeProto {
    NodeProto {
        name: name.into(),
        op_type: op_type.into(),
        input: inputs.iter().map(|s| s.to_string()).collect(),
        output: vec![format!("{name}_out")],
        ..Default::default()
    }
}

#[test]
fn matmul_weights_are_stored_one_row_per_output() {
    // W is 2 inputs × 3 outputs, row-major: [[1, 2, 3], [4, 5, 6]].
    let inits = vec![tensor("W", vec![2, 3], vec![1, 2, 3, 4, 5, 6]), tensor("B", vec![3], vec![7, 8, 9])];
    let matmul = op("MatMul", "mm", &["X", "W"]);
    let add = op("Add", "add", &["mm_out", "B"]);
    assert!(matmul_weight_in_bounds(&matmul, &inits));
    let layer = extract_matmul_add_layer(&matmul, Some(&add), &inits).unwrap();
    assert_eq!(layer.input_size, 2);
    assert_eq!(layer.output_size, 3);
    assert_eq!(layer.weights, vec![fp(1), fp(4), fp(2), fp(5), fp(3), fp(6)]);
    assert_eq!(layer.biases, vec![fp(7), fp(8), fp(9)]);
}

#[test]
fn matmul_without_add_has_zero_biases() {
    let inits = vec![tensor("W", vec![1, 2], vec![10, 20])];
    let layer = extract_matmul_add_layer(&op("MatMul", "mm", &["X", "W"]), None, &inits).unwrap();
    assert_eq!(layer.weights, vec![fp(10), fp(20)]);
    assert_eq!(layer.biases, vec![fp(0), fp(0)]);
}

#[test]
fn matmul_uses_the_last_initialiser_of_a_name_and_the_first_bias_input() {
    let inits = vec![
        tensor("W", vec![1, 1], vec![1]),
        tensor("W", vec![1, 1], vec![2]),
        tensor("C", vec![1], vec![5]),
        tensor("B", vec![1], vec![3]),
    ];
    let add = op("Add", "add", &["mm_out", "B", "C"]);
    let layer = extract_matmul_add_layer(&op("MatMul", "mm", &["X", "W"]), Some(&add), &inits).unwrap();
    assert_eq!(layer.weights, vec![fp(2)]);
    assert_eq!(layer.biases, vec![fp(3)]);
}

#[test]
fn matmul_error_cases() {
    let w = || tensor("W", vec![2, 2], vec![1, 2, 3, 4]);
    let matmul = op("MatMul", "mm", &["X", "W"]);
    let err = |m: &NodeProto, add: Option<&NodeProto>, inits: &[QuantTensor]| {
        malformed_message(extract_matmul_add_layer(m, add, inits).unwrap_err())
    };
    assert_eq!(err(&op("MatMul", "mm", &["X"]), None, &[w()]), "MatMul node 'mm' has fewer than 2 inputs");
    assert_eq!(
        err(&matmul, None, &[]),
        "MatMul node 'mm': weight input 'W' not found in initialisers"
    );
    assert_eq!(err(&matmul, None, &[tensor("W", vec![], vec![1])]), "initialiser 'W' has no shape dimensions");
    assert_eq!(
        err(&matmul, None, &[tensor("W", vec![2, -1], vec![1])]),
        "initialiser 'W' has non-positive dimension -1"
    );
    assert_eq!(
        err(&matmul, None, &[tensor("W", vec![1, 1, 1], vec![1])]),
        "MatMul node 'mm': weight tensor must be 2-D (got 3 dims)"
    );
    let add_no_init = op("Add", "add", &["mm_out", "Z"]);
    assert_eq!(err(&matmul, Some(&add_no_init), &[w()]), "Add node 'add': no initialiser input found for bias");
    let add = op("Add", "add", &["mm_out", "B"]);
    assert_eq!(
        err(&matmul, Some(&add), &[w(), tensor("B", vec![3], vec![1, 2, 3])]),
        "Add node 'add': bias length 3 does not match output_size 2"
    );
}

#[test]
fn matmul_passes_on_decoding_errors() {
    let bad = |name: &str| QuantTensor {
        name: name.into(),
        dims: vec![2, 2],
        values: Err(OnnxImportError::MalformedModel(format!("initialiser '{name}' has data_type 7"))),
    };
    let matmul = op("MatMul", "mm", &["X", "W"]);
    assert_eq!(
        extract_matmul_add_layer(&matmul, None, &[bad("W")]).unwrap_err(),
        OnnxImportError::MalformedModel("initialiser 'W' has data_type 7".into())
    );
    let add = op("Add", "add", &["mm_out", "B"]);
    let inits = vec![tensor("W", vec![2, 2], vec![1, 2, 3, 4]), bad("B")];
    assert_eq!(
        extract_matmul_add_layer(&matmul, Some(&add), &inits).unwrap_err(),
        OnnxImportError::MalformedModel("initialiser 'B' has data_type 7".into())
    );
}

#[test]
fn matmul_weight_bounds_check() {
    let matmul = op("MatMul", "mm", &["X", "W"]);
    assert!(!matmul_weight_in_bounds(&matmul, &[tensor("W", vec![2, 2], vec![1, 2, 3])]));
    assert!(matmul_weight_in_bounds(&matmul, &[tensor("W", vec![2, 2], vec![1, 2, 3, 4, 5])]));
    assert!(matmul_weight_in_bounds(&matmul, &[tensor("W", vec![2, 0], vec![])]));
    assert!(matmul_weight_in_bounds(&matmul, &[]));
}

#[test]
fn dense_plan_and_chain_messages() {
    assert_eq!(malformed_message(plan_dense_layers(&graph_of(vec![])).unwrap_err()), "MLP graph has no nodes");
    assert_eq!(
        malformed_message(plan_dense_layers(&graph_of(vec![op_node("g0", "Gemm"), op_node("s", "Softmax")])).unwrap_err()),
        "MLP graph contains unsupported operator 'Softmax' (expected Gemm, MatMul, Add, or Relu)"
    );
    let plan = plan_dense_layers(&graph_of(vec![op_node("stray", "Add")])).unwrap();
    assert_eq!(
        malformed_message(plan.stop.unwrap()),
        "unexpected standalone Add node 'stray' without preceding MatMul"
    );
    assert_eq!(
        malformed_message(check_layer_chain(&[(2, 3), (3, 4), (5, 1)]).unwrap_err()),
        "layer 1 output_size 4 does not match layer 2 input_size 5"
    );
    assert_eq!(
        malformed_message(check_layer_chain(&[]).unwrap_err()),
        "MLP graph contains no dense layers (expected Gemm or MatMul + Add nodes)"
    );
}

#[test]
fn tree_extraction_messages_are_exact() {
    let mut node = make_tree_node();
    attr_mut(&mut node, "nodes_treeids").ints = vec![0, 1, 1, 2];
    assert_eq!(
        malformed_message(extract_tree(&node, 1).unwrap_err()),
        "Multi-tree ensembles are not yet supported (found 3 trees)"
    );
    let mut node = make_tree_node();
    node.attribute.retain(|a| a.name != "nodes_values");
    assert_eq!(malformed_message(extract_tree(&node, 1).unwrap_err()), "missing attribute 'nodes_values'");
    assert_eq!(
        malformed_message(extract_tree(&make_tree_node(), 0).unwrap_err()),
        "node 0: feature index 0 out of range (num_features=0)"
    );
    let mut node = make_tree_node();
    attr_mut(&mut node, "nodes_truenodeids").ints[0] = -4;
    assert_eq!(
        malformed_message(extract_tree(&node, 1).unwrap_err()),
        "node 0: true child node id -4 not found in nodes_nodeids"
    );
    let leaf = TreeNode::Leaf { value: FixedPoint::from_raw(0, 16) };
    let split = |l: usize, r: usize| TreeNode::Split { feature_index: 0, threshold: FixedPoint::from_raw(0, 16), left: l, right: r };
    let tree = |nodes: Vec<TreeNode>| zkml::models::DecisionTree { nodes, num_features: 1 };
    assert_eq!(
        malformed_message(validate_tree_structure(&tree(vec![split(1, 5), leaf.clone()])).unwrap_err()),
        "node 0: right child index 5 out of bounds (num_nodes=2)"
    );
    assert_eq!(
        malformed_message(validate_tree_structure(&tree(vec![leaf.clone(), leaf.clone()])).unwrap_err()),
        "node 1 is not reachable from root"
    );
    assert_eq!(
        malformed_message(validate_tree_structure(&tree(vec![])).unwrap_err()),
        "invalid node index 0 during traversal"
    );
}

#[test]
fn lone_allowlisted_operator_without_extractor_is_not_implemented() {
    match import(&model_with(17, 1, &["Relu"])).unwrap_err() {
        OnnxImportError::ExtractionNotImplemented { architecture_hint } => assert_eq!(architecture_hint, "unknown"),
        other => panic!("unexpected error: {other:?}"),
    }
}
