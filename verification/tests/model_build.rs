//! Building the IR graph from whole models: sharing, ordering, errors.
use onnx_ir::ir::IrError;
use onnx_ir::ir::Node;
use onnx_ir::ir::NodeDefinition;
use onnx_ir::onnx_model::onnx_attribute;
use onnx_ir::onnx_model::onnx_graph;
use onnx_ir::onnx_model::onnx_initializer;
use onnx_ir::onnx_model::onnx_model;
use onnx_ir::onnx_model::onnx_node;
use onnx_ir::onnx_model::onnx_tensor;
use onnx_ir::onnx::AttributeProto;
use onnx_ir::ir::AttributeValue;
use onnx_ir::tensor::ScalarType;
use onnx_ir::tensor::TensorData;

fn build_err(model: &onnx_ir::onnx::ModelProto, outputs: Option<&Vec<String>>) -> IrError {
    match Node::from_model(model, outputs) {
        Err(e) => e,
        Ok(_) => panic!("construction should fail"),
    }
}

#[test]
fn builds_a_convolution_model() {
    let weights: Vec<u32> = (0..9).map(|_| 1.0f32.to_bits()).collect();
    let model = onnx_model(onnx_graph(
        vec![onnx_tensor("X", &[1, 1, 5, 5])],
        vec![onnx_tensor("Y", &[1, 1, 3, 3])],
        vec![],
        vec![onnx_initializer("W", weights, vec![1, 1, 3, 3])],
        vec![onnx_node(
            vec!["X", "W"],
            vec!["Y"],
            "Conv",
            vec![onnx_attribute("kernel_shape", AttributeProto::from_ints(vec![3, 3]))],
        )],
    ));
    let g = Node::from_model(&model, None).expect("graph should build");

    // arena: W constant, X input, the Conv operator, then the root
    assert_eq!(g.nodes.len(), 4);
    assert_eq!(g.root, 3);
    match &g.nodes[g.root].definition {
        NodeDefinition::Outputs { names } => assert_eq!(names, &vec!["Y".to_string()]),
        _ => panic!("root should collect outputs"),
    }
    assert_eq!(g.nodes[g.root].inputs.len(), 1);
    let conv_index = g.nodes[g.root].inputs[0].source_node;
    assert_eq!(g.nodes[g.root].inputs[0].output_index, 0);
    assert_eq!(*g.by_name.get(&"Y".to_string()).unwrap(), conv_index);

    match &g.nodes[conv_index].definition {
        NodeDefinition::Operator(d) => {
            assert_eq!(d.op_type, "Conv");
            assert_eq!(d.display_name, "Y");
            assert_eq!(d.output_shapes.len(), 1);
            assert_eq!(d.output_shapes[0].data_type, ScalarType::F32);
            assert_eq!(d.output_shapes[0].dims, vec![1, 1, 3, 3]);
            match d.attributes.get(&"kernel_shape".to_string()) {
                Some(AttributeValue::I64s(v)) => assert_eq!(v, &vec![3, 3]),
                _ => panic!("kernel_shape should be an integer sequence"),
            }
        }
        _ => panic!("Y should be produced by an operator node"),
    }

    // the Conv node's edges lead to the X input and the W constant
    let x_index = *g.by_name.get(&"X".to_string()).unwrap();
    let w_index = *g.by_name.get(&"W".to_string()).unwrap();
    assert_eq!(g.nodes[conv_index].inputs[0].source_node, x_index);
    assert_eq!(g.nodes[conv_index].inputs[1].source_node, w_index);
    assert!(matches!(&g.nodes[x_index].definition, NodeDefinition::Input { .. }));
    match &g.nodes[w_index].definition {
        NodeDefinition::Tensor(t) => {
            assert_eq!(t.display_name, "W");
            assert_eq!(t.dims, vec![1, 1, 3, 3]);
            match &t.data {
                TensorData::F32(v) => assert_eq!(v.len(), 9),
                _ => panic!("W should hold 32-bit float data"),
            }
        }
        _ => panic!("W should be a constant node"),
    }
}

#[test]
fn shares_one_node_per_output_name() {
    // a diamond: two consumers of `a` must share one node
    let model = onnx_model(onnx_graph(
        vec![onnx_tensor("X", &[4])],
        vec![onnx_tensor("d", &[4])],
        vec![onnx_tensor("a", &[4]), onnx_tensor("b", &[4]), onnx_tensor("c", &[4])],
        vec![],
        vec![
            onnx_node(vec!["X"], vec!["a"], "Relu", vec![]),
            onnx_node(vec!["a"], vec!["b"], "Exp", vec![]),
            onnx_node(vec!["a"], vec!["c"], "Neg", vec![]),
            onnx_node(vec!["b", "c"], vec!["d"], "Add", vec![]),
        ],
    ));
    let g = Node::from_model(&model, None).expect("graph should build");

    // exactly one node for each of: X, a, b, c, d, root — no duplicate for `a`
    assert_eq!(g.nodes.len(), 6);
    let b_index = *g.by_name.get(&"b".to_string()).unwrap();
    let c_index = *g.by_name.get(&"c".to_string()).unwrap();
    let a_index = *g.by_name.get(&"a".to_string()).unwrap();
    assert_eq!(g.nodes[b_index].inputs[0].source_node, a_index);
    assert_eq!(g.nodes[c_index].inputs[0].source_node, a_index);
    assert_eq!(
        g.nodes[b_index].inputs[0].source_node,
        g.nodes[c_index].inputs[0].source_node
    );
}

#[test]
fn dangling_input_fails_with_the_missing_name() {
    let model = onnx_model(onnx_graph(
        vec![],
        vec![onnx_tensor("z", &[1])],
        vec![],
        vec![],
        vec![onnx_node(vec!["ghost"], vec!["z"], "Relu", vec![])],
    ));
    let err = build_err(&model, None);
    assert_eq!(
        err,
        IrError::InputNodeNotFound {
            target_node_name: "z".to_string(),
            input_name: "ghost".to_string(),
        }
    );
}

#[test]
fn empty_input_name_becomes_a_placeholder() {
    // an empty input name is an intentionally omitted optional operand
    let model = onnx_model(onnx_graph(
        vec![onnx_tensor("X", &[2])],
        vec![onnx_tensor("p", &[2])],
        vec![],
        vec![],
        vec![onnx_node(vec!["X", ""], vec!["p"], "Clip", vec![])],
    ));
    let g = Node::from_model(&model, None).expect("graph should build");
    let p_index = *g.by_name.get(&"p".to_string()).unwrap();
    assert_eq!(g.nodes[p_index].inputs.len(), 2);
    let missing_index = g.nodes[p_index].inputs[1].source_node;
    assert_eq!(g.nodes[p_index].inputs[1].output_index, 0);
    assert!(matches!(&g.nodes[missing_index].definition, NodeDefinition::Missing));
    assert!(g.nodes[missing_index].inputs.is_empty());
}

#[test]
fn multi_output_producer_records_slot_indices() {
    let model = onnx_model(onnx_graph(
        vec![onnx_tensor("X", &[8])],
        vec![onnx_tensor("s1", &[4]), onnx_tensor("s2", &[4])],
        vec![],
        vec![],
        vec![onnx_node(vec!["X"], vec!["s1", "s2"], "Split", vec![])],
    ));
    let g = Node::from_model(&model, None).expect("graph should build");
    let split_index = *g.by_name.get(&"s1".to_string()).unwrap();
    assert_eq!(*g.by_name.get(&"s2".to_string()).unwrap(), split_index);
    let root = &g.nodes[g.root];
    assert_eq!(root.inputs.len(), 2);
    assert_eq!(root.inputs[0].source_node, split_index);
    assert_eq!(root.inputs[0].output_index, 0);
    assert_eq!(root.inputs[1].source_node, split_index);
    assert_eq!(root.inputs[1].output_index, 1);
}

#[test]
fn consumer_of_second_output_uses_slot_one() {
    let model = onnx_model(onnx_graph(
        vec![onnx_tensor("X", &[8])],
        vec![onnx_tensor("t", &[4])],
        vec![onnx_tensor("s1", &[4]), onnx_tensor("s2", &[4])],
        vec![],
        vec![
            onnx_node(vec!["X"], vec!["s1", "s2"], "Split", vec![]),
            onnx_node(vec!["s2"], vec!["t"], "Relu", vec![]),
        ],
    ));
    let g = Node::from_model(&model, None).expect("graph should build");
    let t_index = *g.by_name.get(&"t".to_string()).unwrap();
    let split_index = *g.by_name.get(&"s2".to_string()).unwrap();
    assert_eq!(g.nodes[t_index].inputs[0].source_node, split_index);
    assert_eq!(g.nodes[t_index].inputs[0].output_index, 1);
}

#[test]
fn duplicate_output_name_is_rejected() {
    let model = onnx_model(onnx_graph(
        vec![onnx_tensor("X", &[1])],
        vec![onnx_tensor("y", &[1])],
        vec![],
        vec![],
        vec![
            onnx_node(vec!["X"], vec!["y"], "Relu", vec![]),
            onnx_node(vec!["X"], vec!["y"], "Neg", vec![]),
        ],
    ));
    assert_eq!(build_err(&model, None), IrError::DuplicateOutputName("y".to_string()));
}

#[test]
fn initializer_clashing_with_node_output_is_rejected() {
    let model = onnx_model(onnx_graph(
        vec![onnx_tensor("X", &[1])],
        vec![onnx_tensor("y", &[1])],
        vec![],
        vec![onnx_initializer("y", vec![0], vec![1])],
        vec![onnx_node(vec!["X"], vec!["y"], "Relu", vec![])],
    ));
    assert_eq!(build_err(&model, None), IrError::DuplicateOutputName("y".to_string()));
}

#[test]
fn consumption_cycle_is_rejected() {
    let model = onnx_model(onnx_graph(
        vec![],
        vec![onnx_tensor("a", &[1])],
        vec![onnx_tensor("b", &[1])],
        vec![],
        vec![
            onnx_node(vec!["b"], vec!["a"], "Relu", vec![]),
            onnx_node(vec!["a"], vec!["b"], "Neg", vec![]),
        ],
    ));
    assert!(matches!(build_err(&model, None), IrError::Cyclic(_)));
}

#[test]
fn unknown_requested_output_is_rejected() {
    let model = onnx_model(onnx_graph(
        vec![onnx_tensor("X", &[1])],
        vec![onnx_tensor("y", &[1])],
        vec![],
        vec![],
        vec![onnx_node(vec!["X"], vec!["y"], "Relu", vec![])],
    ));
    let wanted = vec!["nope".to_string()];
    assert_eq!(build_err(&model, Some(&wanted)), IrError::OutputNodeNotFound("nope".to_string()));
}

#[test]
fn undeclared_output_shape_is_rejected() {
    // `q` is produced but its shape is declared nowhere
    let model = onnx_model(onnx_graph(
        vec![onnx_tensor("X", &[1])],
        vec![onnx_tensor("y", &[1])],
        vec![],
        vec![],
        vec![
            onnx_node(vec!["X"], vec!["q"], "Relu", vec![]),
            onnx_node(vec!["q"], vec!["y"], "Neg", vec![]),
        ],
    ));
    assert_eq!(build_err(&model, None), IrError::OutputNodeNotFound("q".to_string()));
}

#[test]
fn restricting_outputs_narrows_reachability() {
    // requesting only `b` must not allocate the dead branch through `c`
    let model = onnx_model(onnx_graph(
        vec![onnx_tensor("X", &[4])],
        vec![onnx_tensor("b", &[4]), onnx_tensor("c", &[4])],
        vec![onnx_tensor("a", &[4])],
        vec![],
        vec![
            onnx_node(vec!["X"], vec!["a"], "Relu", vec![]),
            onnx_node(vec!["a"], vec!["b"], "Exp", vec![]),
            onnx_node(vec!["a"], vec!["c"], "Neg", vec![]),
        ],
    ));
    let wanted = vec!["b".to_string()];
    let g = Node::from_model(&model, Some(&wanted)).expect("graph should build");
    // X input, a, b and the root — the `c` operator is never built
    assert_eq!(g.nodes.len(), 4);
    assert!(g.by_name.get(&"c".to_string()).is_none());
    match &g.nodes[g.root].definition {
        NodeDefinition::Outputs { names } => assert_eq!(names, &vec!["b".to_string()]),
        _ => panic!("root should collect outputs"),
    }
}

#[test]
fn initializer_shadows_same_named_input() {
    let model = onnx_model(onnx_graph(
        vec![onnx_tensor("W", &[1])],
        vec![onnx_tensor("y", &[1])],
        vec![],
        vec![onnx_initializer("W", vec![3.5f32.to_bits()], vec![1])],
        vec![onnx_node(vec!["W"], vec!["y"], "Relu", vec![])],
    ));
    let g = Node::from_model(&model, None).expect("graph should build");
    let w_index = *g.by_name.get(&"W".to_string()).unwrap();
    assert!(matches!(&g.nodes[w_index].definition, NodeDefinition::Tensor(_)));
}
