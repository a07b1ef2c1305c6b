//! Scalar-type resolution, shapes, raw-data decoding and attribute values.
use onnx_ir::onnx::AttributeProto;
use onnx_ir::onnx::TensorProto;
use onnx_ir::onnx::TensorProto_DataType;
use onnx_ir::onnx::TensorShapeProto_Dimension;
use onnx_ir::onnx::TypeProto;
use onnx_ir::onnx::ValueInfoProto;
use onnx_ir::onnx_model::i32s_from_le_bytes;
use onnx_ir::onnx_model::i64s_from_le_bytes;
use onnx_ir::onnx_model::onnx_initializer;
use onnx_ir::onnx_model::onnx_initializer_int64;
use onnx_ir::onnx_model::onnx_tensor;
use onnx_ir::onnx_model::onnx_tensor_of_type;
use onnx_ir::onnx_model::to_tensor;
use onnx_ir::onnx_model::u32s_from_le_bytes;
use onnx_ir::onnx_model::u64s_from_le_bytes;
use onnx_ir::tensor::DataTypeError;
use onnx_ir::tensor::ScalarType;
use onnx_ir::tensor::Shape;
use onnx_ir::tensor::TensorData;

#[test]
fn scalar_type_from_supported_codes() {
    assert_eq!(ScalarType::from_onnx_i32(1), Ok(ScalarType::F32));
    assert_eq!(ScalarType::from_onnx_i32(2), Ok(ScalarType::U8));
    assert_eq!(ScalarType::from_onnx_i32(6), Ok(ScalarType::I32));
    assert_eq!(ScalarType::from_onnx_i32(7), Ok(ScalarType::I64));
}

#[test]
fn scalar_type_from_unsupported_code() {
    // DOUBLE is a valid interchange code the engine does not support
    assert_eq!(ScalarType::from_onnx_i32(11), Err(DataTypeError::NotSupported(11)));
    // BOOL likewise
    assert_eq!(ScalarType::from_onnx_i32(9), Err(DataTypeError::NotSupported(9)));
}

#[test]
fn scalar_type_from_unrecognized_code() {
    assert_eq!(ScalarType::from_onnx_i32(99), Err(DataTypeError::NotRecognized(99)));
    assert_eq!(ScalarType::from_onnx_i32(-1), Err(DataTypeError::NotRecognized(-1)));
}

#[test]
fn scalar_type_roundtrip_through_datatype() {
    for st in [ScalarType::F32, ScalarType::I32, ScalarType::I64, ScalarType::U8] {
        let dt = st.to_onnx_datatype();
        assert_eq!(ScalarType::from(dt), Ok(st));
        assert_eq!(TensorProto_DataType::from_i32(dt.value()), Some(dt));
    }
}

#[test]
fn get_shape_reads_declared_dimensions() {
    let vi = onnx_tensor("X", &[1, 3, 224, 224]);
    let shape = vi.get_shape().unwrap();
    assert_eq!(shape.data_type, ScalarType::F32);
    assert_eq!(shape.dims, vec![1, 3, 224, 224]);
}

#[test]
fn get_shape_rejects_parametrized_dimension() {
    let mut vi = onnx_tensor_of_type("X", &[2], TensorProto_DataType::INT32);
    if let Some(t) = vi.field_type.tensor_type.as_mut() {
        t.shape.dim.push(TensorShapeProto_Dimension::Param("batch".to_string()));
    }
    assert_eq!(
        vi.get_shape(),
        Err(DataTypeError::ParametrizedDimensionUnsupported("batch".to_string()))
    );
}

#[test]
fn get_shape_rejects_undefined_type() {
    let vi = ValueInfoProto { name: "X".to_string(), field_type: TypeProto { tensor_type: None } };
    assert_eq!(vi.get_shape(), Err(DataTypeError::Undefined));
}

#[test]
fn get_shape_rejects_unsupported_element_type() {
    let vi = onnx_tensor_of_type("X", &[2, 2], TensorProto_DataType::STRING);
    assert_eq!(vi.get_shape(), Err(DataTypeError::NotSupported(8)));
}

#[test]
fn set_shape_roundtrips_through_get_shape() {
    let mut vi = ValueInfoProto { name: "Y".to_string(), field_type: TypeProto { tensor_type: None } };
    let shape = Shape::from(ScalarType::I64, &[4, 5]);
    vi.set_shape(&shape);
    let back = vi.get_shape().unwrap();
    assert_eq!(back.data_type, ScalarType::I64);
    assert_eq!(back.dims, vec![4, 5]);
    assert_eq!(vi.name, "Y");
}

#[test]
fn element_count_multiplies_dimensions() {
    assert_eq!(Shape::from(ScalarType::F32, &[2, 3, 4]).element_count(), Some(24));
    assert_eq!(Shape::from(ScalarType::F32, &[]).element_count(), Some(1));
    assert_eq!(Shape::from(ScalarType::F32, &[7, 0, 9]).element_count(), Some(0));
    assert_eq!(Shape::from(ScalarType::F32, &[usize::MAX, 2]).element_count(), None);
    assert_eq!(Shape::from(ScalarType::F32, &[usize::MAX, 2, 0]).element_count(), Some(0));
}

#[test]
fn tensor_data_reports_type_and_length() {
    let d = TensorData::I32(vec![4, 5, 6]);
    assert_eq!(d.scalar_type(), ScalarType::I32);
    assert_eq!(d.len(), 3);
    let e = TensorData::U8(vec![]);
    assert_eq!(e.scalar_type(), ScalarType::U8);
    assert_eq!(e.len(), 0);
}

#[test]
fn scalar_stride_in_bytes() {
    assert_eq!(ScalarType::F32.stride(), 4);
    assert_eq!(ScalarType::I32.stride(), 4);
    assert_eq!(ScalarType::I64.stride(), 8);
    assert_eq!(ScalarType::U8.stride(), 1);
}

#[test]
fn le_bytes_decode_exact_words() {
    assert_eq!(u32s_from_le_bytes(&vec![0x78, 0x56, 0x34, 0x12]), vec![0x12345678u32]);
    assert_eq!(i32s_from_le_bytes(&vec![0xFF, 0xFF, 0xFF, 0xFF]), vec![-1i32]);
    assert_eq!(
        u64s_from_le_bytes(&vec![1, 0, 0, 0, 0, 0, 0, 0, 0, 1, 0, 0, 0, 0, 0, 0]),
        vec![1u64, 256u64]
    );
    assert_eq!(
        i64s_from_le_bytes(&vec![0xFE, 0xFF, 0xFF, 0xFF, 0xFF, 0xFF, 0xFF, 0xFF]),
        vec![-2i64]
    );
}

#[test]
fn to_tensor_reads_typed_float_array() {
    let data: Vec<u32> = vec![1.0f32.to_bits(), 2.5f32.to_bits()];
    let proto = onnx_initializer("W", data.clone(), vec![2]);
    let tensor = to_tensor(&proto).unwrap();
    assert_eq!(tensor.display_name, "W");
    assert_eq!(tensor.dims, vec![2]);
    assert_eq!(tensor.data, TensorData::F32(data));
}

#[test]
fn to_tensor_reads_raw_little_endian_data() {
    let mut proto = TensorProto::new();
    proto.name = "R".to_string();
    proto.data_type = 6; // 32-bit signed int
    proto.dims = vec![3];
    proto.raw_data = vec![1, 0, 0, 0, 2, 0, 0, 0, 0xFF, 0xFF, 0xFF, 0xFF];
    let tensor = to_tensor(&proto).unwrap();
    assert_eq!(tensor.data, TensorData::I32(vec![1, 2, -1]));
}

#[test]
fn to_tensor_reads_u8_raw_data() {
    let mut proto = TensorProto::new();
    proto.name = "B".to_string();
    proto.data_type = 2; // unsigned byte
    proto.dims = vec![4];
    proto.raw_data = vec![9, 8, 7, 6];
    let tensor = to_tensor(&proto).unwrap();
    assert_eq!(tensor.data, TensorData::U8(vec![9, 8, 7, 6]));
}

#[test]
fn to_tensor_rejects_ragged_raw_data() {
    let mut proto = TensorProto::new();
    proto.data_type = 7; // 64-bit ints need 8 bytes each
    proto.raw_data = vec![1, 2, 3, 4, 5];
    assert_eq!(to_tensor(&proto), Err(DataTypeError::InconsistentByteLength(5)));
}

#[test]
fn to_tensor_rejects_bad_data_type() {
    let mut proto = TensorProto::new();
    proto.data_type = 11;
    assert_eq!(to_tensor(&proto).unwrap_err(), DataTypeError::NotSupported(11));
}

#[test]
fn tensor_proto_from_typed_data() {
    let proto = TensorProto::from(TensorData::I64(vec![10, 20]), vec![2]);
    assert_eq!(proto.data_type, 7);
    assert_eq!(proto.int64_data, vec![10, 20]);
    assert_eq!(proto.dims, vec![2]);
    let back = TensorData::try_from(&proto).unwrap();
    assert_eq!(back, TensorData::I64(vec![10, 20]));
}

#[test]
fn initializer_int64_sets_typed_array() {
    let proto = onnx_initializer_int64("idx", vec![-3, -2, -3, -1], vec![4]);
    assert_eq!(proto.name, "idx");
    assert_eq!(proto.data_type, 7);
    assert_eq!(proto.int64_data, vec![-3, -2, -3, -1]);
    let tensor = to_tensor(&proto).unwrap();
    assert_eq!(tensor.data, TensorData::I64(vec![-3, -2, -3, -1]));
}

#[test]
fn attribute_constructors_tag_the_kind() {
    let a = AttributeProto::from_ints(vec![3, 3]);
    assert_eq!(a.ints, vec![3, 3]);
    let b = AttributeProto::from_i64(7);
    assert_eq!(b.i, 7);
    let c = AttributeProto::from_string("same_upper".to_string());
    assert_eq!(c.s, "same_upper");
    let d = AttributeProto::from_f32_bits(0.5f32.to_bits());
    assert_eq!(f32::from_bits(d.f), 0.5f32);
}
