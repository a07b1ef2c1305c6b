//! Model assembly helpers, operator-set resolution and operator
//! definitions.
use onnx_ir::ir::AttributeValue;
use onnx_ir::name_map::NameMap;
use onnx_ir::onnx::AttributeProto;
use onnx_ir::onnx::OperatorSetIdProto;
use onnx_ir::onnx::TensorProto;
use onnx_ir::ir::OperatorDefinition;
use onnx_ir::onnx_model::get_opset_version;
use onnx_ir::onnx_model::onnx_attribute;
use onnx_ir::onnx_model::onnx_graph;
use onnx_ir::onnx_model::onnx_initializer_int64;
use onnx_ir::onnx_model::onnx_model;
use onnx_ir::onnx_model::onnx_model_with_opset;
use onnx_ir::onnx_model::onnx_node;
use onnx_ir::onnx_model::onnx_tensor;
use onnx_ir::onnx_model::OpsetError;
use onnx_ir::tensor::DataTypeError;
use onnx_ir::tensor::Shape;
use onnx_ir::tensor::ScalarType;

fn empty_graph() -> onnx_ir::onnx::GraphProto {
    onnx_graph(vec![], vec![], vec![], vec![], vec![])
}

#[test]
fn default_model_imports_opset_13() {
    let model = onnx_model(empty_graph());
    assert_eq!(get_opset_version(&model), Ok(Some(13)));
}

#[test]
fn explicit_opset_version_is_reported() {
    let model = onnx_model_with_opset(empty_graph(), 9);
    assert_eq!(get_opset_version(&model), Ok(Some(9)));
}

#[test]
fn model_without_imports_has_no_version() {
    let mut model = onnx_model(empty_graph());
    model.opset_import = vec![];
    assert_eq!(get_opset_version(&model), Ok(None));
}

#[test]
fn conflicting_standard_versions_are_rejected() {
    let mut model = onnx_model_with_opset(empty_graph(), 9);
    model.opset_import.push(OperatorSetIdProto { domain: String::new(), version: 10 });
    assert_eq!(get_opset_version(&model), Err(OpsetError::DuplicateOnnxOpset(9, 10)));
}

#[test]
fn repeated_equal_version_is_accepted() {
    let mut model = onnx_model_with_opset(empty_graph(), 11);
    model.opset_import.push(OperatorSetIdProto { domain: String::new(), version: 11 });
    assert_eq!(get_opset_version(&model), Ok(Some(11)));
}

#[test]
fn non_standard_domain_is_rejected() {
    let mut model = onnx_model_with_opset(empty_graph(), 13);
    model.opset_import.push(OperatorSetIdProto {
        domain: "ai.custom".to_string(),
        version: 1,
    });
    assert_eq!(get_opset_version(&model), Err(OpsetError::UnknownOpset("ai.custom".to_string())));
}

#[test]
fn graph_generates_value_info_for_initializers() {
    let graph = onnx_graph(
        vec![],
        vec![],
        vec![onnx_tensor("A", &[2])],
        vec![onnx_initializer_int64("I", vec![5, 6], vec![2])],
        vec![],
    );
    assert_eq!(graph.value_info.len(), 2);
    assert_eq!(graph.value_info[0].name, "A");
    assert_eq!(graph.value_info[1].name, "I");
    let shape = graph.value_info[1].get_shape().unwrap();
    assert_eq!(shape.data_type, ScalarType::I64);
    assert_eq!(shape.dims, vec![2]);
}

#[test]
fn node_is_named_after_its_first_output() {
    let node = onnx_node(vec!["X"], vec!["y", "z"], "Split", vec![]);
    assert_eq!(node.name, "y");
    assert_eq!(node.op_type, "Split");
    assert_eq!(node.input, vec!["X".to_string()]);
    assert_eq!(node.output, vec!["y".to_string(), "z".to_string()]);
}

#[test]
fn later_attribute_binding_shadows_earlier() {
    let node = onnx_node(
        vec!["X"],
        vec!["y"],
        "Conv",
        vec![
            onnx_attribute("kernel_shape", AttributeProto::from_ints(vec![3, 3])),
            onnx_attribute("kernel_shape", AttributeProto::from_ints(vec![5, 5])),
        ],
    );
    let shapes = vec![Shape::from(ScalarType::F32, &[1])];
    let d = OperatorDefinition::from(&node, shapes).unwrap();
    match d.attributes.get(&"kernel_shape".to_string()) {
        Some(AttributeValue::I64s(v)) => assert_eq!(v, &vec![5, 5]),
        _ => panic!("kernel_shape should be bound to the later value"),
    }
}

#[test]
fn invalid_tensor_attribute_is_rejected() {
    let mut bad = TensorProto::new();
    bad.data_type = 11; // unsupported
    let node = onnx_node(
        vec![],
        vec!["y"],
        "Constant",
        vec![onnx_attribute("value", AttributeProto::from_tensor(bad))],
    );
    let shapes = vec![Shape::from(ScalarType::F32, &[1])];
    match OperatorDefinition::from(&node, shapes) {
        Err(e) => assert_eq!(e, DataTypeError::NotSupported(11)),
        Ok(_) => panic!("an invalid tensor attribute should be rejected"),
    }
}

#[test]
fn name_map_last_binding_wins() {
    let mut m: NameMap<usize> = NameMap::new();
    assert!(!m.contains_key(&"a".to_string()));
    m.insert("a".to_string(), 1);
    m.insert("b".to_string(), 2);
    m.insert("a".to_string(), 3);
    assert_eq!(m.get(&"a".to_string()), Some(&3));
    assert_eq!(m.get(&"b".to_string()), Some(&2));
    assert_eq!(m.get(&"c".to_string()), None);
    assert!(m.contains_key(&"b".to_string()));
}
