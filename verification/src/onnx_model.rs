//! Conversion of interchange-format models to the IR: scalar-type and shape
//! resolution, constant-tensor decoding, attribute resolution, and the graph
//! builder that turns an operator list into a deduplicated, acyclic node
//! arena.
use vstd::prelude::*;

use crate::onnx::AttributeProto;
use crate::onnx::AttributeProto_AttributeType;
use crate::onnx::GraphProto;
use crate::onnx::ModelProto;
use crate::onnx::NodeProto;
use crate::onnx::OperatorSetIdProto;
use crate::onnx::TensorProto;
use crate::onnx::TensorProto_DataType;
use crate::onnx::TensorShapeProto;
use crate::onnx::TensorShapeProto_Dimension;
use crate::onnx::TypeProto;
use crate::onnx::TypeProto_Tensor;
use crate::onnx::ValueInfoProto;
use crate::ir::arena_acyclic;
use crate::ir::node_edges_below;
use crate::ir::AttributeValue;
use crate::ir::Input;
use crate::ir::IrError;
use crate::ir::IrGraph;
use crate::ir::Node;
use crate::ir::NodeDefinition;
use crate::ir::OperatorDefinition;
use crate::name_map::NameMap;
use crate::tensor::DataTypeError;
use crate::tensor::ScalarType;
use crate::tensor::Shape;
use crate::tensor::Tensor;
use crate::tensor::TensorData;
use vstd::string::StringExecFns;

verus! {

// ---------------------------------------------------------------------------
// Scalar types and data-type codes
// ---------------------------------------------------------------------------
/// The scalar type the engine uses for a given interchange data type, or the
/// exact error when it supports none.
pub open spec fn spec_scalar_of_datatype(dt: TensorProto_DataType) -> Result<
    ScalarType,
    DataTypeError,
> {
    match dt {
        TensorProto_DataType::FLOAT => Ok(ScalarType::F32),
        TensorProto_DataType::INT64 => Ok(ScalarType::I64),
        TensorProto_DataType::INT32 => Ok(ScalarType::I32),
        TensorProto_DataType::UINT8 => Ok(ScalarType::U8),
        _ => Err(DataTypeError::NotSupported(dt.spec_value())),
    }
}

/// The scalar type for a raw data-type code: unknown codes are not
/// recognized, known but unsupported codes are not supported.
pub open spec fn spec_scalar_of_code(code: i32) -> Result<ScalarType, DataTypeError> {
    match TensorProto_DataType::spec_from_i32(code) {
        Option::None => Err(DataTypeError::NotRecognized(code)),
        Option::Some(dt) => spec_scalar_of_datatype(dt),
    }
}

impl ScalarType {
    /// Resolve a raw data-type code to a supported scalar type.
    pub fn from_onnx_i32(onnx: i32) -> (r: Result<ScalarType, DataTypeError>)
        ensures
            r == spec_scalar_of_code(onnx),
    {
        let onnx_dt = match TensorProto_DataType::from_i32(onnx) {
            Option::Some(dt) => dt,
            Option::None => {
                return Err(DataTypeError::NotRecognized(onnx));
            }
        };
        Self::from(onnx_dt)
    }

    /// Resolve an interchange data type to a supported scalar type.
    pub fn from(onnx: TensorProto_DataType) -> (r: Result<ScalarType, DataTypeError>)
        ensures
            r == spec_scalar_of_datatype(onnx),
    {
        match onnx {
            TensorProto_DataType::FLOAT => Ok(ScalarType::F32),
            TensorProto_DataType::INT64 => Ok(ScalarType::I64),
            TensorProto_DataType::INT32 => Ok(ScalarType::I32),
            TensorProto_DataType::UINT8 => Ok(ScalarType::U8),
            _ => Err(DataTypeError::NotSupported(onnx.value())),
        }
    }

    /// The interchange data type this scalar type maps back to.
    pub open spec fn spec_to_onnx_datatype(self) -> TensorProto_DataType {
        match self {
            ScalarType::F32 => TensorProto_DataType::FLOAT,
            ScalarType::I64 => TensorProto_DataType::INT64,
            ScalarType::I32 => TensorProto_DataType::INT32,
            ScalarType::U8 => TensorProto_DataType::UINT8,
        }
    }

    pub fn to_onnx_datatype(&self) -> (r: TensorProto_DataType)
        ensures
            r == self.spec_to_onnx_datatype(),
            spec_scalar_of_datatype(r) == Ok::<ScalarType, DataTypeError>(*self),
    {
        match self {
            ScalarType::F32 => TensorProto_DataType::FLOAT,
            ScalarType::I64 => TensorProto_DataType::INT64,
            ScalarType::I32 => TensorProto_DataType::INT32,
            ScalarType::U8 => TensorProto_DataType::UINT8,
        }
    }
}

// ---------------------------------------------------------------------------
// Tensor messages and typed data
// ---------------------------------------------------------------------------
impl TensorProto {
    /// Wrap a typed data buffer and its dimensions in a tensor message.
    pub fn from(value: TensorData, dims: Vec<i64>) -> (r: Self)
        ensures
            r.name@ == Seq::<char>::empty(),
            r.dims@ == dims@,
            r.data_type == value.spec_scalar_type().spec_to_onnx_datatype().spec_value(),
            match value {
                TensorData::F32(v) => r.float_data@ == v@ && r.int32_data@.len() == 0
                    && r.int64_data@.len() == 0 && r.raw_data@.len() == 0,
                TensorData::I32(v) => r.int32_data@ == v@ && r.float_data@.len() == 0
                    && r.int64_data@.len() == 0 && r.raw_data@.len() == 0,
                TensorData::I64(v) => r.int64_data@ == v@ && r.float_data@.len() == 0
                    && r.int32_data@.len() == 0 && r.raw_data@.len() == 0,
                TensorData::U8(v) => r.raw_data@ == v@ && r.float_data@.len() == 0
                    && r.int32_data@.len() == 0 && r.int64_data@.len() == 0,
            },
    {
        let mut tensor = TensorProto::new();
        match value {
            TensorData::F32(v) => {
                tensor.data_type = ScalarType::F32.to_onnx_datatype().value();
                tensor.float_data = v;
            }
            TensorData::I32(v) => {
                tensor.data_type = ScalarType::I32.to_onnx_datatype().value();
                tensor.int32_data = v;
            }
            TensorData::I64(v) => {
                tensor.data_type = ScalarType::I64.to_onnx_datatype().value();
                tensor.int64_data = v;
            }
            TensorData::U8(v) => {
                tensor.data_type = ScalarType::U8.to_onnx_datatype().value();
                tensor.raw_data = v;
            }
        }
        tensor.dims = dims;
        tensor
    }
}

/// The typed array of `proto` selected by its data-type code holds exactly
/// the elements of `d`.
pub open spec fn typed_data_matches(d: TensorData, proto: TensorProto) -> bool {
    match d {
        TensorData::F32(v) => spec_scalar_of_code(proto.data_type) == Ok::<_, DataTypeError>(
            ScalarType::F32,
        ) && v@ == proto.float_data@,
        TensorData::I32(v) => spec_scalar_of_code(proto.data_type) == Ok::<_, DataTypeError>(
            ScalarType::I32,
        ) && v@ == proto.int32_data@,
        TensorData::I64(v) => spec_scalar_of_code(proto.data_type) == Ok::<_, DataTypeError>(
            ScalarType::I64,
        ) && v@ == proto.int64_data@,
        TensorData::U8(v) => spec_scalar_of_code(proto.data_type) == Ok::<_, DataTypeError>(
            ScalarType::U8,
        ) && v@ == proto.raw_data@,
    }
}

impl TensorData {
    /// Read a tensor message's typed array as a data buffer.
    pub fn try_from(value: &TensorProto) -> (r: Result<TensorData, DataTypeError>)
        ensures
            r is Ok <==> spec_scalar_of_code(value.data_type) is Ok,
            r matches Ok(d) ==> typed_data_matches(d, *value),
            r matches Err(e) ==> spec_scalar_of_code(value.data_type) == Err::<ScalarType, _>(e),
    {
        match ScalarType::from_onnx_i32(value.data_type) {
            Err(e) => Err(e),
            Ok(ScalarType::F32) => Ok(
                TensorData::F32(vstd::slice::slice_to_vec(value.float_data.as_slice())),
            ),
            Ok(ScalarType::I64) => Ok(
                TensorData::I64(vstd::slice::slice_to_vec(value.int64_data.as_slice())),
            ),
            Ok(ScalarType::I32) => Ok(
                TensorData::I32(vstd::slice::slice_to_vec(value.int32_data.as_slice())),
            ),
            Ok(ScalarType::U8) => Ok(
                TensorData::U8(vstd::slice::slice_to_vec(value.raw_data.as_slice())),
            ),
        }
    }
}

// ---------------------------------------------------------------------------
// Declared value shapes
// ---------------------------------------------------------------------------
/// Every declared dimension is a fixed size, not a symbolic parameter.
pub open spec fn dims_all_fixed(dims: Seq<TensorShapeProto_Dimension>) -> bool {
    forall|k: int| 0 <= k < dims.len() ==> (#[trigger] dims[k]) is Value
}

/// The declared dimension sizes, each narrowed to `usize`.
pub open spec fn fixed_dims(dims: Seq<TensorShapeProto_Dimension>) -> Seq<usize> {
    dims.map_values(
        |d: TensorShapeProto_Dimension|
            match d {
                TensorShapeProto_Dimension::Value(v) => v as usize,
                TensorShapeProto_Dimension::Param(_) => 0,
            },
    )
}

/// The error for the first symbolic dimension in `dims`.
pub open spec fn first_param_error(dims: Seq<TensorShapeProto_Dimension>) -> DataTypeError
    decreases dims.len(),
{
    if dims.len() == 0 {
        DataTypeError::Undefined
    } else {
        match dims.first() {
            TensorShapeProto_Dimension::Param(p) => DataTypeError::ParametrizedDimensionUnsupported(
                p,
            ),
            TensorShapeProto_Dimension::Value(_) => first_param_error(dims.drop_first()),
        }
    }
}

/// A declared value resolves to a shape: it is tensor-typed, its element
/// type is supported, and all its dimensions are fixed.
pub open spec fn shape_ok(vi: ValueInfoProto) -> bool {
    &&& vi.field_type.tensor_type is Some
    &&& spec_scalar_of_code(vi.field_type.tensor_type->0.elem_type) is Ok
    &&& dims_all_fixed(vi.field_type.tensor_type->0.shape.dim@)
}

/// `s` is the shape a declared value resolves to.
#[verifier::opaque]
pub open spec fn shape_matches(s: Shape, vi: ValueInfoProto) -> bool {
    &&& vi.field_type.tensor_type is Some
    &&& Ok::<_, DataTypeError>(s.data_type) == spec_scalar_of_code(
        vi.field_type.tensor_type->0.elem_type,
    )
    &&& s.dims@ == fixed_dims(vi.field_type.tensor_type->0.shape.dim@)
}

/// The exact error raised when a declared value resolves to no shape: an
/// undefined type, then an unusable element type, then the first symbolic
/// dimension.
pub open spec fn shape_error(vi: ValueInfoProto) -> DataTypeError {
    if vi.field_type.tensor_type is None {
        DataTypeError::Undefined
    } else if spec_scalar_of_code(vi.field_type.tensor_type->0.elem_type) is Err {
        spec_scalar_of_code(vi.field_type.tensor_type->0.elem_type)->Err_0
    } else {
        first_param_error(vi.field_type.tensor_type->0.shape.dim@)
    }
}

/// If the first `j` dimensions are fixed and dimension `j` is symbolic, the
/// first-symbolic-dimension error names dimension `j`'s parameter.
proof fn lemma_first_param_error_at(dims: Seq<TensorShapeProto_Dimension>, j: int)
    requires
        0 <= j < dims.len(),
        dims[j] is Param,
        forall|k: int| 0 <= k < j ==> (#[trigger] dims[k]) is Value,
    ensures
        first_param_error(dims) == DataTypeError::ParametrizedDimensionUnsupported(
            dims[j]->Param_0,
        ),
    decreases dims.len(),
{
    if j > 0 {
        lemma_first_param_error_at(dims.drop_first(), j - 1);
    }
}

impl ValueInfoProto {
    /// Resolve this declared value to a shape, or say exactly why it has
    /// none.
    #[verifier::loop_isolation(false)]
    pub fn get_shape(&self) -> (r: Result<Shape, DataTypeError>)
        ensures
            r is Ok <==> shape_ok(*self),
            r matches Ok(s) ==> shape_matches(s, *self),
            r matches Err(e) ==> e == shape_error(*self),
    {
        proof {
            reveal(shape_matches);
        }
        match &self.field_type.tensor_type {
            Option::None => Err(DataTypeError::Undefined),
            Option::Some(t) => {
                let data_type = match ScalarType::from_onnx_i32(t.elem_type) {
                    Ok(st) => st,
                    Err(e) => {
                        return Err(e);
                    }
                };
                let mut dims: Vec<usize> = Vec::new();
                let mut k: usize = 0;
                while k < t.shape.dim.len()
                    invariant
                        0 <= k <= t.shape.dim@.len(),
                        forall|j: int| 0 <= j < k ==> (#[trigger] t.shape.dim@[j]) is Value,
                        dims@ == fixed_dims(t.shape.dim@.take(k as int)),
                    decreases t.shape.dim@.len() - k,
                {
                    match &t.shape.dim[k] {
                        TensorShapeProto_Dimension::Param(p) => {
                            proof {
                                lemma_first_param_error_at(t.shape.dim@, k as int);
                                assert(!(t.shape.dim@[k as int] is Value));
                                assert(!dims_all_fixed(t.shape.dim@));
                            }
                            return Err(
                                DataTypeError::ParametrizedDimensionUnsupported(p.clone()),
                            );
                        }
                        TensorShapeProto_Dimension::Value(v) => {
                            dims.push(#[verifier::truncate] (*v as usize));
                            proof {
                                assert(dims@ =~= fixed_dims(t.shape.dim@.take(k + 1)));
                            }
                        }
                    }
                    k = k + 1;
                }
                proof {
                    assert(t.shape.dim@.take(k as int) =~= t.shape.dim@);
                }
                Ok(Shape { dims, data_type })
            }
        }
    }

    /// Declare this value's type to be a tensor of the given shape.
    pub fn set_shape(&mut self, shape: &Shape)
        ensures
            final(self).name@ == old(self).name@,
            final(self).field_type.tensor_type matches Some(t) && {
                &&& t.elem_type == shape.data_type.spec_to_onnx_datatype().spec_value()
                &&& t.shape.dim@.len() == shape.dims@.len()
                &&& forall|j: int|
                    0 <= j < shape.dims@.len() ==> #[trigger] t.shape.dim@[j]
                        == TensorShapeProto_Dimension::Value(shape.dims@[j] as i64)
            },
    {
        let mut dim: Vec<TensorShapeProto_Dimension> = Vec::new();
        let mut j: usize = 0;
        while j < shape.dims.len()
            invariant
                0 <= j <= shape.dims@.len(),
                dim@.len() == j,
                forall|k: int|
                    0 <= k < j ==> #[trigger] dim@[k] == TensorShapeProto_Dimension::Value(
                        shape.dims@[k] as i64,
                    ),
            decreases shape.dims@.len() - j,
        {
            dim.push(TensorShapeProto_Dimension::Value(
                #[verifier::truncate] (shape.dims[j] as i64),
            ));
            j = j + 1;
        }
        self.field_type = TypeProto {
            tensor_type: Some(
                TypeProto_Tensor {
                    elem_type: shape.data_type.to_onnx_datatype().value(),
                    shape: TensorShapeProto { dim },
                },
            ),
        };
    }
}

// ---------------------------------------------------------------------------
// Operator-set versions
// ---------------------------------------------------------------------------
/// Errors raised while resolving a model's operator-set imports.
#[derive(Debug, PartialEq, Eq)]
pub enum OpsetError {
    /// More than one standard-domain operator-set version was specified.
    DuplicateOnnxOpset(i64, i64),
    /// The model references an operator set outside the standard domain.
    UnknownOpset(String),
}

/// What scanning the imports yields, given the standard-domain version seen
/// so far: the first offending import wins, in order.
pub open spec fn opset_scan(imports: Seq<OperatorSetIdProto>, acc: Option<i64>) -> Result<
    Option<i64>,
    OpsetError,
>
    decreases imports.len(),
{
    if imports.len() == 0 {
        Ok(acc)
    } else if imports.first().domain@ != Seq::<char>::empty() {
        Err(OpsetError::UnknownOpset(imports.first().domain))
    } else if acc is Some && imports.first().version != acc->0 {
        Err(OpsetError::DuplicateOnnxOpset(acc->0, imports.first().version))
    } else if acc is Some {
        opset_scan(imports.drop_first(), acc)
    } else {
        opset_scan(imports.drop_first(), Some(imports.first().version))
    }
}

/// The single operator-set version of the standard domain that the model
/// imports; `None` when it imports none, an error when it references any
/// other domain or two conflicting standard-domain versions.
pub fn get_opset_version(model: &ModelProto) -> (r: Result<Option<i64>, OpsetError>)
    ensures
        r == opset_scan(model.opset_import@, None::<i64>),
{
    let mut onnx_opset_version: Option<i64> = None;
    let mut idx: usize = 0;
    proof {
        assert(model.opset_import@.skip(0) =~= model.opset_import@);
    }
    while idx < model.opset_import.len()
        invariant
            0 <= idx <= model.opset_import@.len(),
            opset_scan(model.opset_import@, None::<i64>) == opset_scan(
                model.opset_import@.skip(idx as int),
                onnx_opset_version,
            ),
        decreases model.opset_import@.len() - idx,
    {
        let opset_import = &model.opset_import[idx];
        proof {
            assert(model.opset_import@.skip(idx as int).first()
                == model.opset_import@[idx as int]);
            assert(model.opset_import@.skip(idx as int).drop_first() =~= model.opset_import@.skip(
                idx + 1,
            ));
        }
        if !opset_import.domain.as_str().is_empty() {
            return Err(OpsetError::UnknownOpset(opset_import.domain.clone()));
        }
        proof {
            assert(opset_import.domain@ =~= Seq::<char>::empty());
        }
        match onnx_opset_version {
            Some(onnx_version) => {
                if opset_import.version != onnx_version {
                    return Err(
                        OpsetError::DuplicateOnnxOpset(onnx_version, opset_import.version),
                    );
                }
            }
            None => {
                onnx_opset_version = Some(opset_import.version);
            }
        }
        idx = idx + 1;
    }
    proof {
        assert(model.opset_import@.skip(idx as int) =~= Seq::<OperatorSetIdProto>::empty());
    }
    Ok(onnx_opset_version)
}

// ---------------------------------------------------------------------------
// Shorthand constructors for models
// ---------------------------------------------------------------------------
/// Define a value named `name` with the given dimensions and 32-bit float
/// elements.
pub fn onnx_tensor(name: &str, dimensions: &[i64]) -> (r: ValueInfoProto)
    ensures
        value_info_describes(r, name@, dimensions@, TensorProto_DataType::FLOAT.spec_value()),
{
    onnx_tensor_of_type(name, dimensions, TensorProto_DataType::FLOAT)
}

/// `vi` declares a tensor value named `name` with the given fixed
/// dimensions and element-type code.
pub open spec fn value_info_describes(
    vi: ValueInfoProto,
    name: Seq<char>,
    dimensions: Seq<i64>,
    elem_type: i32,
) -> bool {
    &&& vi.name@ == name
    &&& vi.field_type.tensor_type matches Some(t) && {
        &&& t.elem_type == elem_type
        &&& t.shape.dim@.len() == dimensions.len()
        &&& forall|j: int|
            0 <= j < dimensions.len() ==> #[trigger] t.shape.dim@[j]
                == TensorShapeProto_Dimension::Value(dimensions[j])
    }
}

/// Define a value named `name` with the given dimensions and element type.
pub fn onnx_tensor_of_type(name: &str, dimensions: &[i64], data_type: TensorProto_DataType) -> (r:
    ValueInfoProto)
    ensures
        value_info_describes(r, name@, dimensions@, data_type.spec_value()),
{
    let mut dim_value: Vec<TensorShapeProto_Dimension> = Vec::new();
    let mut j: usize = 0;
    while j < dimensions.len()
        invariant
            0 <= j <= dimensions@.len(),
            dim_value@.len() == j,
            forall|k: int|
                0 <= k < j ==> #[trigger] dim_value@[k] == TensorShapeProto_Dimension::Value(
                    dimensions@[k],
                ),
        decreases dimensions@.len() - j,
    {
        dim_value.push(TensorShapeProto_Dimension::Value(dimensions[j]));
        j = j + 1;
    }
    ValueInfoProto {
        name: String::from_str(name),
        field_type: TypeProto {
            tensor_type: Some(
                TypeProto_Tensor {
                    elem_type: data_type.value(),
                    shape: TensorShapeProto { dim: dim_value },
                },
            ),
        },
    }
}

/// Product of a sequence of declared (signed) dimension sizes.
pub open spec fn dims_product_i64(dims: Seq<i64>) -> int
    decreases dims.len(),
{
    if dims.len() == 0 {
        1
    } else {
        dims_product_i64(dims.drop_last()) * dims.last()
    }
}

/// Define a constant initializer with 32-bit float elements, given as their
/// IEEE-754 bit patterns.
pub fn onnx_initializer(name: &str, data: Vec<u32>, dimensions: Vec<i64>) -> (r: TensorProto)
    requires
        dims_product_i64(dimensions@) == data@.len(),
    ensures
        r.name@ == name@,
        r.dims@ == dimensions@,
        r.data_type == TensorProto_DataType::FLOAT.spec_value(),
        r.float_data@ == data@,
        r.int32_data@ == Seq::<i32>::empty(),
        r.int64_data@ == Seq::<i64>::empty(),
        r.raw_data@ == Seq::<u8>::empty(),
{
    let mut initializer = TensorProto::new();
    initializer.dims = dimensions;
    initializer.name = String::from_str(name);
    initializer.data_type = TensorProto_DataType::FLOAT.value();
    initializer.float_data = data;
    initializer
}

/// Define a constant initializer with 64-bit integer elements.
pub fn onnx_initializer_int64(name: &str, data: Vec<i64>, dimensions: Vec<i64>) -> (r: TensorProto)
    requires
        dims_product_i64(dimensions@) == data@.len(),
    ensures
        r.name@ == name@,
        r.dims@ == dimensions@,
        r.data_type == TensorProto_DataType::INT64.spec_value(),
        r.int64_data@ == data@,
        r.float_data@ == Seq::<u32>::empty(),
        r.int32_data@ == Seq::<i32>::empty(),
        r.raw_data@ == Seq::<u8>::empty(),
{
    let mut initializer = TensorProto::new();
    initializer.name = String::from_str(name);
    initializer.dims = dimensions;
    initializer.data_type = TensorProto_DataType::INT64.value();
    initializer.int64_data = data;
    initializer
}

/// An attribute message whose every field is at its default, carrying the
/// given kind tag.
fn attribute_defaults(field_type: AttributeProto_AttributeType) -> (r: AttributeProto)
    ensures
        r.name@ == Seq::<char>::empty(),
        r.field_type == field_type,
        r.f == 0,
        r.i == 0,
        r.s@ == Seq::<char>::empty(),
        r.floats@ == Seq::<u32>::empty(),
        r.ints@ == Seq::<i64>::empty(),
{
    AttributeProto {
        name: String::new(),
        field_type,
        f: 0,
        i: 0,
        s: String::new(),
        t: TensorProto::new(),
        floats: Vec::new(),
        ints: Vec::new(),
    }
}

impl AttributeProto {
    /// A 64-bit integer attribute value.
    pub fn from_i64(value: i64) -> (r: AttributeProto)
        ensures
            r.field_type == AttributeProto_AttributeType::INT,
            r.i == value,
            r.name@ == Seq::<char>::empty(),
    {
        let mut attributes = attribute_defaults(AttributeProto_AttributeType::INT);
        attributes.i = value;
        attributes
    }

    /// A 32-bit float attribute value, given as its IEEE-754 bit pattern.
    pub fn from_f32_bits(value: u32) -> (r: AttributeProto)
        ensures
            r.field_type == AttributeProto_AttributeType::FLOAT,
            r.f == value,
            r.name@ == Seq::<char>::empty(),
    {
        let mut attributes = attribute_defaults(AttributeProto_AttributeType::FLOAT);
        attributes.f = value;
        attributes
    }

    /// An integer-sequence attribute value.
    pub fn from_ints(value: Vec<i64>) -> (r: AttributeProto)
        ensures
            r.field_type == AttributeProto_AttributeType::INTS,
            r.ints == value,
            r.name@ == Seq::<char>::empty(),
    {
        let mut attributes = attribute_defaults(AttributeProto_AttributeType::INTS);
        attributes.ints = value;
        attributes
    }

    /// A float-sequence attribute value, given as IEEE-754 bit patterns.
    pub fn from_floats_bits(value: Vec<u32>) -> (r: AttributeProto)
        ensures
            r.field_type == AttributeProto_AttributeType::FLOATS,
            r.floats == value,
            r.name@ == Seq::<char>::empty(),
    {
        let mut attributes = attribute_defaults(AttributeProto_AttributeType::FLOATS);
        attributes.floats = value;
        attributes
    }

    /// A string attribute value.
    pub fn from_string(value: String) -> (r: AttributeProto)
        ensures
            r.field_type == AttributeProto_AttributeType::STRING,
            r.s == value,
            r.name@ == Seq::<char>::empty(),
    {
        let mut attributes = attribute_defaults(AttributeProto_AttributeType::STRING);
        attributes.s = value;
        attributes
    }

    /// An embedded-tensor attribute value.
    pub fn from_tensor(value: TensorProto) -> (r: AttributeProto)
        ensures
            r.field_type == AttributeProto_AttributeType::TENSOR,
            r.t == value,
            r.name@ == Seq::<char>::empty(),
    {
        let mut attributes = attribute_defaults(AttributeProto_AttributeType::TENSOR);
        attributes.t = value;
        attributes
    }
}

/// Name an attribute value.
pub fn onnx_attribute(name: &str, inputs: AttributeProto) -> (r: AttributeProto)
    ensures
        r.name@ == name@,
        r.field_type == inputs.field_type,
        r.f == inputs.f,
        r.i == inputs.i,
        r.s == inputs.s,
        r.t == inputs.t,
        r.floats == inputs.floats,
        r.ints == inputs.ints,
{
    let mut attributes = inputs;
    attributes.name = String::from_str(name);
    attributes
}

/// Define a node: its inputs and outputs by name, its operator type and its
/// attributes. The node's own name is the name of its first output.
pub fn onnx_node(
    inputs: Vec<&str>,
    outputs: Vec<&str>,
    op_type: &str,
    attributes: Vec<AttributeProto>,
) -> (r: NodeProto)
    requires
        outputs@.len() > 0,
    ensures
        r.op_type@ == op_type@,
        r.name@ == outputs@[0]@,
        r.input@.len() == inputs@.len(),
        forall|k: int| 0 <= k < inputs@.len() ==> #[trigger] r.input@[k]@ == inputs@[k]@,
        r.output@.len() == outputs@.len(),
        forall|k: int| 0 <= k < outputs@.len() ==> #[trigger] r.output@[k]@ == outputs@[k]@,
        r.attribute == attributes,
{
    let mut input: Vec<String> = Vec::new();
    let mut k: usize = 0;
    while k < inputs.len()
        invariant
            0 <= k <= inputs@.len(),
            input@.len() == k,
            forall|j: int| 0 <= j < k ==> #[trigger] input@[j]@ == inputs@[j]@,
        decreases inputs@.len() - k,
    {
        input.push(String::from_str(inputs[k]));
        k = k + 1;
    }
    let mut output: Vec<String> = Vec::new();
    let mut k2: usize = 0;
    while k2 < outputs.len()
        invariant
            0 <= k2 <= outputs@.len(),
            output@.len() == k2,
            forall|j: int| 0 <= j < k2 ==> #[trigger] output@[j]@ == outputs@[j]@,
        decreases outputs@.len() - k2,
    {
        output.push(String::from_str(outputs[k2]));
        k2 = k2 + 1;
    }
    NodeProto {
        name: String::from_str(outputs[0]),
        op_type: String::from_str(op_type),
        input,
        output,
        attribute: attributes,
    }
}

/// Assemble a graph. Value information for the initializers is generated
/// automatically, so callers need not declare those.
pub fn onnx_graph(
    inputs: Vec<ValueInfoProto>,
    outputs: Vec<ValueInfoProto>,
    infos: Vec<ValueInfoProto>,
    initializers: Vec<TensorProto>,
    nodes: Vec<NodeProto>,
) -> (r: GraphProto)
    requires
        forall|k: int|
            0 <= k < initializers@.len() ==> TensorProto_DataType::spec_from_i32(
                (#[trigger] initializers@[k]).data_type,
            ) is Some,
    ensures
        r.node == nodes,
        r.input == inputs,
        r.output == outputs,
        r.initializer == initializers,
        r.value_info@.len() == infos@.len() + initializers@.len(),
        forall|k: int| 0 <= k < infos@.len() ==> #[trigger] r.value_info@[k] == infos@[k],
        forall|k: int|
            0 <= k < initializers@.len() ==> value_info_describes(
                #[trigger] r.value_info@[infos@.len() + k],
                initializers@[k].name@,
                initializers@[k].dims@,
                initializers@[k].data_type,
            ),
{
    let mut infos = infos;
    let ghost orig_infos = infos@;
    let ghost n_infos = orig_infos.len();
    let mut k: usize = 0;
    while k < initializers.len()
        invariant
            0 <= k <= initializers@.len(),
            infos@.len() == n_infos + k,
            forall|j: int| 0 <= j < n_infos ==> #[trigger] infos@[j] == orig_infos[j],
            forall|j: int|
                0 <= j < k ==> value_info_describes(
                    #[trigger] infos@[n_infos + j],
                    initializers@[j].name@,
                    initializers@[j].dims@,
                    initializers@[j].data_type,
                ),
            forall|j: int|
                0 <= j < initializers@.len() ==> TensorProto_DataType::spec_from_i32(
                    (#[trigger] initializers@[j]).data_type,
                ) is Some,
        decreases initializers@.len() - k,
    {
        let i = &initializers[k];
        let dt = match TensorProto_DataType::from_i32(i.data_type) {
            Option::Some(dt) => dt,
            Option::None => {
                // unreachable: every initializer's data-type code is
                // recognized by precondition
                proof {
                    assert(false);
                }
                TensorProto_DataType::UNDEFINED
            }
        };
        proof {
            lemma_datatype_code_roundtrip(i.data_type);
        }
        let vi = onnx_tensor_of_type(i.name.as_str(), i.dims.as_slice(), dt);
        infos.push(vi);
        k = k + 1;
    }
    GraphProto { node: nodes, input: inputs, output: outputs, value_info: infos, initializer: initializers }
}

/// A recognized data-type code maps back to itself through its enum value.
proof fn lemma_datatype_code_roundtrip(code: i32)
    requires
        TensorProto_DataType::spec_from_i32(code) is Some,
    ensures
        TensorProto_DataType::spec_from_i32(code)->0.spec_value() == code,
{
}

/// Wrap a graph in a model importing the given standard-domain operator-set
/// version.
pub fn onnx_model_with_opset(graph: GraphProto, opset_version: i64) -> (r: ModelProto)
    ensures
        r.graph == graph,
        r.opset_import@.len() == 1,
        r.opset_import@[0].domain@ == Seq::<char>::empty(),
        r.opset_import@[0].version == opset_version,
{
    let onnx_opset_import = OperatorSetIdProto { domain: String::new(), version: opset_version };
    let mut opset_import: Vec<OperatorSetIdProto> = Vec::new();
    opset_import.push(onnx_opset_import);
    ModelProto { graph, opset_import }
}

// ---------------------------------------------------------------------------
// Raw little-endian tensor data
// ---------------------------------------------------------------------------
/// The 32-bit word at index `k` of a little-endian byte buffer.
pub open spec fn le_word32(b: Seq<u8>, k: int) -> u32 {
    (b[4 * k] + b[4 * k + 1] * 0x100 + b[4 * k + 2] * 0x10000 + b[4 * k + 3] * 0x1000000) as u32
}

/// A little-endian byte buffer read as 32-bit words.
pub open spec fn le_words32(b: Seq<u8>) -> Seq<u32> {
    Seq::new(b.len() / 4, |k: int| le_word32(b, k))
}

/// The 64-bit word at index `k` of a little-endian byte buffer.
pub open spec fn le_word64(b: Seq<u8>, k: int) -> u64 {
    (b[8 * k] + b[8 * k + 1] * 0x100 + b[8 * k + 2] * 0x10000 + b[8 * k + 3] * 0x1000000 + b[8 * k
        + 4] * 0x100000000 + b[8 * k + 5] * 0x10000000000 + b[8 * k + 6] * 0x1000000000000 + b[8 * k
        + 7] * 0x100000000000000) as u64
}

/// A little-endian byte buffer read as 64-bit words.
pub open spec fn le_words64(b: Seq<u8>) -> Seq<u64> {
    Seq::new(b.len() / 8, |k: int| le_word64(b, k))
}

/// A little-endian byte buffer read as 32-bit signed integers.
pub open spec fn le_words_i32(b: Seq<u8>) -> Seq<i32> {
    le_words32(b).map_values(|w: u32| w as i32)
}

/// A little-endian byte buffer read as 64-bit signed integers.
pub open spec fn le_words_i64(b: Seq<u8>) -> Seq<i64> {
    le_words64(b).map_values(|w: u64| w as i64)
}

/// Decode a little-endian byte buffer into 32-bit words.
#[verifier::loop_isolation(false)]
pub fn u32s_from_le_bytes(b: &Vec<u8>) -> (r: Vec<u32>)
    requires
        b@.len() % 4 == 0,
    ensures
        r@ == le_words32(b@),
{
    let n = b.len() / 4;
    let mut r: Vec<u32> = Vec::new();
    let mut k: usize = 0;
    while k < n
        invariant
            0 <= k <= n,
            r@.len() == k,
            forall|j: int| 0 <= j < k ==> #[trigger] r@[j] == le_word32(b@, j),
        decreases n - k,
    {
        let w: u32 = b[4 * k] as u32 + (b[4 * k + 1] as u32) * 0x100 + (b[4 * k + 2] as u32)
            * 0x10000 + (b[4 * k + 3] as u32) * 0x1000000;
        r.push(w);
        k = k + 1;
    }
    proof {
        assert(r@ =~= le_words32(b@));
    }
    r
}

/// Decode a little-endian byte buffer into 64-bit words.
#[verifier::loop_isolation(false)]
pub fn u64s_from_le_bytes(b: &Vec<u8>) -> (r: Vec<u64>)
    requires
        b@.len() % 8 == 0,
    ensures
        r@ == le_words64(b@),
{
    let n = b.len() / 8;
    let mut r: Vec<u64> = Vec::new();
    let mut k: usize = 0;
    while k < n
        invariant
            0 <= k <= n,
            r@.len() == k,
            forall|j: int| 0 <= j < k ==> #[trigger] r@[j] == le_word64(b@, j),
        decreases n - k,
    {
        let w: u64 = b[8 * k] as u64 + (b[8 * k + 1] as u64) * 0x100 + (b[8 * k + 2] as u64)
            * 0x10000 + (b[8 * k + 3] as u64) * 0x1000000 + (b[8 * k + 4] as u64) * 0x100000000 + (
        b[8 * k + 5] as u64) * 0x10000000000 + (b[8 * k + 6] as u64) * 0x1000000000000 + (b[8 * k
            + 7] as u64) * 0x100000000000000;
        r.push(w);
        k = k + 1;
    }
    proof {
        assert(r@ =~= le_words64(b@));
    }
    r
}

/// Decode a little-endian byte buffer into 32-bit signed integers.
#[verifier::loop_isolation(false)]
pub fn i32s_from_le_bytes(b: &Vec<u8>) -> (r: Vec<i32>)
    requires
        b@.len() % 4 == 0,
    ensures
        r@ == le_words_i32(b@),
{
    let words = u32s_from_le_bytes(b);
    let mut r: Vec<i32> = Vec::new();
    let mut k: usize = 0;
    while k < words.len()
        invariant
            0 <= k <= words@.len(),
            r@.len() == k,
            forall|j: int| 0 <= j < k ==> #[trigger] r@[j] == words@[j] as i32,
        decreases words@.len() - k,
    {
        r.push(#[verifier::truncate] (words[k] as i32));
        k = k + 1;
    }
    proof {
        assert(r@ =~= le_words_i32(b@));
    }
    r
}

/// Decode a little-endian byte buffer into 64-bit signed integers.
#[verifier::loop_isolation(false)]
pub fn i64s_from_le_bytes(b: &Vec<u8>) -> (r: Vec<i64>)
    requires
        b@.len() % 8 == 0,
    ensures
        r@ == le_words_i64(b@),
{
    let words = u64s_from_le_bytes(b);
    let mut r: Vec<i64> = Vec::new();
    let mut k: usize = 0;
    while k < words.len()
        invariant
            0 <= k <= words@.len(),
            r@.len() == k,
            forall|j: int| 0 <= j < k ==> #[trigger] r@[j] == words@[j] as i64,
        decreases words@.len() - k,
    {
        r.push(#[verifier::truncate] (words[k] as i64));
        k = k + 1;
    }
    proof {
        assert(r@ =~= le_words_i64(b@));
    }
    r
}

// ---------------------------------------------------------------------------
// Decoding constant tensors
// ---------------------------------------------------------------------------
/// A constant-tensor message decodes: its data type is supported and, where
/// the raw byte buffer stands in for an empty typed array, the buffer holds
/// a whole number of elements.
pub open spec fn tensor_ok(proto: TensorProto) -> bool {
    match spec_scalar_of_code(proto.data_type) {
        Ok(ScalarType::F32) => proto.float_data@.len() > 0 || proto.raw_data@.len() % 4 == 0,
        Ok(ScalarType::I32) => proto.int32_data@.len() > 0 || proto.raw_data@.len() % 4 == 0,
        Ok(ScalarType::I64) => proto.int64_data@.len() > 0 || proto.raw_data@.len() % 8 == 0,
        Ok(ScalarType::U8) => true,
        Err(_) => false,
    }
}

/// `t` is the tensor a constant-tensor message decodes to: same name, the
/// dimensions narrowed to `usize`, and the data taken from the typed array
/// or, where that is empty, from the raw little-endian buffer.
#[verifier::opaque]
pub open spec fn tensor_matches(t: Tensor, proto: TensorProto) -> bool {
    &&& t.display_name@ == proto.name@
    &&& t.dims@ == proto.dims@.map_values(|d: i64| d as usize)
    &&& match spec_scalar_of_code(proto.data_type) {
        Ok(ScalarType::F32) => t.data matches TensorData::F32(v) && (if proto.float_data@.len()
            > 0 {
            v@ == proto.float_data@
        } else {
            v@ == le_words32(proto.raw_data@)
        }),
        Ok(ScalarType::I32) => t.data matches TensorData::I32(v) && (if proto.int32_data@.len()
            > 0 {
            v@ == proto.int32_data@
        } else {
            v@ == le_words_i32(proto.raw_data@)
        }),
        Ok(ScalarType::I64) => t.data matches TensorData::I64(v) && (if proto.int64_data@.len()
            > 0 {
            v@ == proto.int64_data@
        } else {
            v@ == le_words_i64(proto.raw_data@)
        }),
        Ok(ScalarType::U8) => t.data matches TensorData::U8(v) && v@ == proto.raw_data@,
        Err(_) => false,
    }
}

/// The exact error when a constant-tensor message does not decode: an
/// unusable data type, else a raw buffer of the wrong byte length.
pub open spec fn tensor_error(proto: TensorProto) -> DataTypeError {
    match spec_scalar_of_code(proto.data_type) {
        Err(e) => e,
        Ok(_) => DataTypeError::InconsistentByteLength(proto.raw_data@.len() as usize),
    }
}

/// Decode a constant-tensor message into a typed tensor.
#[verifier::loop_isolation(false)]
pub fn to_tensor(proto: &TensorProto) -> (r: Result<Tensor, DataTypeError>)
    ensures
        r is Ok <==> tensor_ok(*proto),
        r matches Ok(t) ==> tensor_matches(t, *proto),
        r matches Err(e) ==> e == tensor_error(*proto),
{
    proof {
        reveal(tensor_matches);
    }
    let scalar_type = match ScalarType::from_onnx_i32(proto.data_type) {
        Ok(st) => st,
        Err(e) => {
            return Err(e);
        }
    };
    let mut dims: Vec<usize> = Vec::new();
    let mut k: usize = 0;
    while k < proto.dims.len()
        invariant
            0 <= k <= proto.dims@.len(),
            dims@.len() == k,
            forall|j: int| 0 <= j < k ==> #[trigger] dims@[j] == proto.dims@[j] as usize,
        decreases proto.dims@.len() - k,
    {
        dims.push(#[verifier::truncate] (proto.dims[k] as usize));
        k = k + 1;
    }
    proof {
        assert(dims@ =~= proto.dims@.map_values(|d: i64| d as usize));
    }
    let tensor_data: TensorData = match scalar_type {
        ScalarType::F32 => {
            if proto.float_data.len() == 0 {
                if proto.raw_data.len() % 4 != 0 {
                    return Err(DataTypeError::InconsistentByteLength(proto.raw_data.len()));
                }
                TensorData::F32(u32s_from_le_bytes(&proto.raw_data))
            } else {
                TensorData::F32(vstd::slice::slice_to_vec(proto.float_data.as_slice()))
            }
        }
        ScalarType::I32 => {
            if proto.int32_data.len() == 0 {
                if proto.raw_data.len() % 4 != 0 {
                    return Err(DataTypeError::InconsistentByteLength(proto.raw_data.len()));
                }
                TensorData::I32(i32s_from_le_bytes(&proto.raw_data))
            } else {
                TensorData::I32(vstd::slice::slice_to_vec(proto.int32_data.as_slice()))
            }
        }
        ScalarType::I64 => {
            if proto.int64_data.len() == 0 {
                if proto.raw_data.len() % 8 != 0 {
                    return Err(DataTypeError::InconsistentByteLength(proto.raw_data.len()));
                }
                TensorData::I64(i64s_from_le_bytes(&proto.raw_data))
            } else {
                TensorData::I64(vstd::slice::slice_to_vec(proto.int64_data.as_slice()))
            }
        }
        ScalarType::U8 => TensorData::U8(vstd::slice::slice_to_vec(proto.raw_data.as_slice())),
    };
    Ok(Tensor { data: tensor_data, dims, display_name: proto.name.clone() })
}

// ---------------------------------------------------------------------------
// Resolving attributes
// ---------------------------------------------------------------------------
/// An attribute's value is usable: a tensor attribute must decode, any other
/// kind always is.
pub open spec fn attr_ok(a: AttributeProto) -> bool {
    match a.field_type {
        AttributeProto_AttributeType::TENSOR => tensor_ok(a.t),
        _ => true,
    }
}

/// `v` is the value attribute `a` carries, per its declared kind.
pub open spec fn attr_matches(v: AttributeValue, a: AttributeProto) -> bool {
    match a.field_type {
        AttributeProto_AttributeType::INT => v == AttributeValue::I64(a.i),
        AttributeProto_AttributeType::FLOAT => v == AttributeValue::F32(a.f),
        AttributeProto_AttributeType::INTS => v matches AttributeValue::I64s(ints) && ints@
            == a.ints@,
        AttributeProto_AttributeType::FLOATS => v matches AttributeValue::F32s(fs) && fs@
            == a.floats@,
        AttributeProto_AttributeType::STRING => v matches AttributeValue::Text(s) && s@ == a.s@,
        AttributeProto_AttributeType::TENSOR => v matches AttributeValue::Tensor(t)
            && tensor_matches(t, a.t),
    }
}

impl AttributeValue {
    /// Resolve an attribute to its value.
    pub fn from(value: &AttributeProto) -> (r: Result<AttributeValue, DataTypeError>)
        ensures
            r is Ok <==> attr_ok(*value),
            r matches Ok(v) ==> attr_matches(v, *value),
            r matches Err(e) ==> value.field_type is TENSOR && e == tensor_error(value.t),
    {
        match value.field_type {
            AttributeProto_AttributeType::INT => Ok(AttributeValue::I64(value.i)),
            AttributeProto_AttributeType::FLOAT => Ok(AttributeValue::F32(value.f)),
            AttributeProto_AttributeType::INTS => Ok(
                AttributeValue::I64s(vstd::slice::slice_to_vec(value.ints.as_slice())),
            ),
            AttributeProto_AttributeType::FLOATS => Ok(
                AttributeValue::F32s(vstd::slice::slice_to_vec(value.floats.as_slice())),
            ),
            AttributeProto_AttributeType::STRING => Ok(AttributeValue::Text(value.s.clone())),
            AttributeProto_AttributeType::TENSOR => match to_tensor(&value.t) {
                Ok(t) => Ok(AttributeValue::Tensor(t)),
                Err(e) => Err(e),
            },
        }
    }
}

// ---------------------------------------------------------------------------
// Operator definitions
// ---------------------------------------------------------------------------
/// Attribute `j` is the last binding of its name in `attrs`.
pub open spec fn is_last_binding(attrs: Seq<AttributeProto>, j: int) -> bool {
    &&& 0 <= j < attrs.len()
    &&& forall|l: int| j < l < attrs.len() ==> (#[trigger] attrs[l]).name@ != attrs[j].name@
}

/// `m` collects the attributes by name, later bindings shadowing earlier
/// ones, and binds nothing else.
pub open spec fn attrs_match(m: Map<Seq<char>, AttributeValue>, attrs: Seq<AttributeProto>) -> bool {
    &&& forall|n: Seq<char>| #[trigger]
        m.contains_key(n) ==> exists|j: int| 0 <= j < attrs.len() && (#[trigger] attrs[j]).name@
            == n
    &&& forall|j: int| #[trigger]
        is_last_binding(attrs, j) ==> m.contains_key(attrs[j].name@) && attr_matches(
            m[attrs[j].name@],
            attrs[j],
        )
}

/// All attributes in `attrs` are usable.
pub open spec fn attrs_all_ok(attrs: Seq<AttributeProto>) -> bool {
    forall|j: int| 0 <= j < attrs.len() ==> attr_ok(#[trigger] attrs[j])
}

/// The error for the first unusable attribute in `attrs`.
pub open spec fn first_attr_error(attrs: Seq<AttributeProto>) -> DataTypeError
    decreases attrs.len(),
{
    if attrs.len() == 0 {
        DataTypeError::Undefined
    } else if !attr_ok(attrs.first()) {
        tensor_error(attrs.first().t)
    } else {
        first_attr_error(attrs.drop_first())
    }
}

/// If the first `j` attributes are usable and attribute `j` is not, the
/// first-unusable-attribute error is attribute `j`'s.
proof fn lemma_first_attr_error_at(attrs: Seq<AttributeProto>, j: int)
    requires
        0 <= j < attrs.len(),
        !attr_ok(attrs[j]),
        forall|k: int| 0 <= k < j ==> attr_ok(#[trigger] attrs[k]),
    ensures
        first_attr_error(attrs) == tensor_error(attrs[j].t),
    decreases attrs.len(),
{
    if j > 0 {
        lemma_first_attr_error_at(attrs.drop_first(), j - 1);
    }
}

/// `d` is the operator definition for proto node `p` with the given
/// resolved output shapes.
pub open spec fn op_def_matches(d: OperatorDefinition, p: NodeProto, shapes: Seq<Shape>) -> bool {
    &&& d.op_type@ == p.op_type@
    &&& p.output@.len() > 0 && d.display_name@ == p.output@[0]@
    &&& d.output_shapes@ == shapes
    &&& attrs_match(d.attributes@, p.attribute@)
}

impl OperatorDefinition {
    /// Build an operator definition from a proto node and its resolved
    /// output shapes.
    #[verifier::loop_isolation(false)]
    pub fn from(node: &NodeProto, output_shapes: Vec<Shape>) -> (r: Result<
        OperatorDefinition,
        DataTypeError,
    >)
        requires
            node.output@.len() == output_shapes@.len(),
            node.output@.len() > 0,
        ensures
            r is Ok <==> attrs_all_ok(node.attribute@),
            r matches Ok(d) ==> op_def_matches(d, *node, output_shapes@),
            r matches Err(e) ==> e == first_attr_error(node.attribute@),
    {
        let mut attributes: NameMap<AttributeValue> = NameMap::new();
        let mut k: usize = 0;
        while k < node.attribute.len()
            invariant
                0 <= k <= node.attribute@.len(),
                forall|j: int| 0 <= j < k ==> attr_ok(#[trigger] node.attribute@[j]),
                attrs_match(attributes@, node.attribute@.take(k as int)),
            decreases node.attribute@.len() - k,
        {
            let attr = &node.attribute[k];
            let v = match AttributeValue::from(attr) {
                Ok(v) => v,
                Err(e) => {
                    proof {
                        lemma_first_attr_error_at(node.attribute@, k as int);
                    }
                    return Err(e);
                }
            };
            let ghost before = attributes@;
            attributes.insert(attr.name.clone(), v);
            proof {
                lemma_attrs_match_extend(before, node.attribute@, k as int, v);
            }
            k = k + 1;
        }
        proof {
            assert(node.attribute@.take(k as int) =~= node.attribute@);
        }
        Ok(
            OperatorDefinition {
                op_type: node.op_type.clone(),
                attributes,
                output_shapes,
                display_name: node.output[0].clone(),
            },
        )
    }
}

/// Inserting attribute `k`'s value into a map that collects the first `k`
/// attributes yields a map that collects the first `k + 1`.
proof fn lemma_attrs_match_extend(
    m: Map<Seq<char>, AttributeValue>,
    attrs: Seq<AttributeProto>,
    k: int,
    v: AttributeValue,
)
    requires
        0 <= k < attrs.len(),
        attrs_match(m, attrs.take(k)),
        attr_matches(v, attrs[k]),
    ensures
        attrs_match(m.insert(attrs[k].name@, v), attrs.take(k + 1)),
{
    let m2 = m.insert(attrs[k].name@, v);
    let pre = attrs.take(k);
    let post = attrs.take(k + 1);
    assert forall|n: Seq<char>| #[trigger] m2.contains_key(n) implies exists|j: int|
        0 <= j < post.len() && (#[trigger] post[j]).name@ == n by {
        if n == attrs[k].name@ {
            assert(post[k].name@ == n);
        } else {
            assert(m.contains_key(n));
            let j = choose|j: int| 0 <= j < pre.len() && (#[trigger] pre[j]).name@ == n;
            assert(post[j].name@ == n);
        }
    };
    assert forall|j: int| #[trigger] is_last_binding(post, j) implies m2.contains_key(
        post[j].name@,
    ) && attr_matches(m2[post[j].name@], post[j]) by {
        if j == k {
            assert(post[k].name@ == attrs[k].name@);
        } else {
            assert(post[k].name@ != post[j].name@);
            assert(forall|l: int| j < l < pre.len() ==> (#[trigger] pre[l]).name@ != pre[j].name@);
            assert(is_last_binding(pre, j));
            assert(m.contains_key(pre[j].name@) && attr_matches(m[pre[j].name@], pre[j]));
            assert(post[j].name@ != attrs[k].name@);
        }
    };
}

/// Wrap a graph in a model importing the default operator-set version.
pub fn onnx_model(graph: GraphProto) -> (r: ModelProto)
    ensures
        r.graph == graph,
        r.opset_import@.len() == 1,
        r.opset_import@[0].domain@ == Seq::<char>::empty(),
        r.opset_import@[0].version == 13,
{
    onnx_model_with_opset(graph, 13)
}

// ---------------------------------------------------------------------------
// Producers, consumption edges and cycles in the proto graph
// ---------------------------------------------------------------------------
/// Proto node `i` produces the non-empty value name `n` at output slot `j`.
pub open spec fn produces(nodes: Seq<NodeProto>, i: int, j: int, n: Seq<char>) -> bool {
    &&& 0 <= i < nodes.len()
    &&& 0 <= j < nodes[i].output@.len()
    &&& nodes[i].output@[j]@ == n
    &&& n.len() > 0
}

/// Some proto node produces the non-empty value name `n`.
pub open spec fn has_producer(nodes: Seq<NodeProto>, n: Seq<char>) -> bool {
    exists|i: int, j: int| produces(nodes, i, j, n)
}

/// The node producing `n` (meaningful once producers are unique).
pub open spec fn producer_of(nodes: Seq<NodeProto>, n: Seq<char>) -> int {
    (choose|ij: (int, int)| produces(nodes, ij.0, ij.1, n)).0
}

/// Every non-empty output name, bound to its producing node.
pub open spec fn producers_map(nodes: Seq<NodeProto>) -> Map<Seq<char>, usize> {
    Map::new(
        |n: Seq<char>| has_producer(nodes, n),
        |n: Seq<char>| producer_of(nodes, n) as usize,
    )
}

/// `defs` binds each non-empty output name of each proto node to that node,
/// and binds nothing else — so every such name has exactly one producer.
pub open spec fn defs_wf(nodes: Seq<NodeProto>, defs: Map<Seq<char>, usize>) -> bool {
    &&& forall|i: int, j: int|
        0 <= i < nodes.len() && 0 <= j < nodes[i].output@.len() && (#[trigger] nodes[i].output@[j])@.len()
            > 0 ==> defs.contains_key(nodes[i].output@[j]@) && defs[nodes[i].output@[j]@] == i
    &&& forall|n: Seq<char>| #[trigger]
        defs.contains_key(n) ==> defs[n] < nodes.len() && n.len() > 0 && exists|j: int|
            produces(nodes, defs[n] as int, j, n)
}

/// Proto node `i` consumes (through a non-empty input name) an output of
/// proto node `ip`.
pub open spec fn consumes(nodes: Seq<NodeProto>, i: int, ip: int) -> bool {
    &&& 0 <= i < nodes.len()
    &&& 0 <= ip < nodes.len()
    &&& exists|k: int, j: int|
        0 <= k < nodes[i].input@.len() && 0 <= j < nodes[ip].output@.len() && (#[trigger] nodes[i].input@[k])@
            == (#[trigger] nodes[ip].output@[j])@ && nodes[i].input@[k]@.len() > 0
}

/// Each node in `s` consumes an output of the next.
pub open spec fn consume_chain(nodes: Seq<NodeProto>, s: Seq<usize>) -> bool {
    forall|t: int|
        0 <= t < s.len() - 1 ==> consumes(nodes, (#[trigger] s[t]) as int, s[t + 1] as int)
}

/// The proto nodes consume each other in a cycle.
pub open spec fn has_cycle(nodes: Seq<NodeProto>) -> bool {
    exists|s: Seq<usize>|
        {
            &&& s.len() >= 1
            &&& #[trigger] consume_chain(nodes, s)
            &&& consumes(nodes, s.last() as int, s.first() as int)
        }
}

/// A consumption chain that returns to one of its own nodes closes a cycle.
proof fn lemma_cycle_found(nodes: Seq<NodeProto>, c: Seq<usize>, t0: int)
    requires
        consume_chain(nodes, c),
        0 <= t0 < c.len(),
        consumes(nodes, c.last() as int, c[t0] as int),
    ensures
        has_cycle(nodes),
{
    let s = c.subrange(t0, c.len() as int);
    assert forall|t: int| 0 <= t < s.len() - 1 implies consumes(
        nodes,
        (#[trigger] s[t]) as int,
        s[t + 1] as int,
    ) by {
        assert(s[t] == c[t0 + t]);
        assert(s[t + 1] == c[t0 + t + 1]);
    }
    assert(consume_chain(nodes, s));
    assert(s.last() == c.last());
    assert(s.first() == c[t0]);
}

/// A duplicate-free family of indices below `n` that leaves out `extra`
/// (itself below `n`) has fewer than `n` members.
proof fn lemma_distinct_indices_bound(s: Seq<usize>, extra: usize, n: nat)
    requires
        s.no_duplicates(),
        forall|t: int| 0 <= t < s.len() ==> (#[trigger] s[t]) < n,
        extra < n,
        !s.contains(extra),
    ensures
        s.len() < n,
{
    let s2 = s.push(extra);
    assert forall|i: int, j: int|
        0 <= i < s2.len() && 0 <= j < s2.len() && i != j implies s2[i] != s2[j] by {
        if i < s.len() && j < s.len() {
        } else if i == s.len() {
            assert(s2[j] == s[j]);
            if s2[j] == extra {
                assert(s.contains(extra));
            }
        } else {
            assert(s2[i] == s[i]);
            if s2[i] == extra {
                assert(s.contains(extra));
            }
        }
    }
    assert(s2.no_duplicates());
    let f = |x: usize| x as int;
    assert(vstd::relations::injective(f)) by {
        assert forall|a: usize, b: usize| #[trigger] f(a) == #[trigger] f(b) implies a == b by {}
    }
    s2.lemma_no_duplicates_injective(f);
    let si = s2.map_values(f);
    si.unique_seq_to_set();
    let range = vstd::set_lib::set_int_range(0, n as int);
    vstd::set_lib::lemma_int_range(0, n as int);
    assert forall|x: int| si.to_set().contains(x) implies range.contains(x) by {
        let t = choose|t: int| 0 <= t < si.len() && si[t] == x;
        if t < s.len() {
            assert(s2[t] == s[t]);
        } else {
            assert(s2[t] == extra);
        }
    }
    vstd::set_lib::lemma_len_subset(si.to_set(), range);
}

// ---------------------------------------------------------------------------
// Translation correctness of the node arena
// ---------------------------------------------------------------------------
/// The first position of `name` in `names`, or -1 when it is absent.
pub open spec fn position_of(names: Seq<String>, name: Seq<char>) -> int
    decreases names.len(),
{
    if names.len() == 0 {
        -1
    } else if names.first()@ == name {
        0
    } else if position_of(names.drop_first(), name) < 0 {
        -1
    } else {
        1 + position_of(names.drop_first(), name)
    }
}

/// If the first `j` names miss `name` and name `j` hits it, the first
/// position of `name` is `j`.
proof fn lemma_position_of_at(names: Seq<String>, name: Seq<char>, j: int)
    requires
        0 <= j < names.len(),
        names[j]@ == name,
        forall|k: int| 0 <= k < j ==> (#[trigger] names[k])@ != name,
    ensures
        position_of(names, name) == j,
    decreases names.len(),
{
    if j > 0 {
        lemma_position_of_at(names.drop_first(), name, j - 1);
    }
}

/// The placeholder node for an omitted optional operand.
pub open spec fn missing_node(nd: Node) -> bool {
    nd.definition is Missing && nd.inputs@.len() == 0
}

/// A zero-input leaf: a constant tensor or a graph input.
pub open spec fn leaf_node(nd: Node) -> bool {
    (nd.definition is Tensor || nd.definition is Input) && nd.inputs@.len() == 0
}

/// Edge `e` stands for the declared input name `name`: an empty name is an
/// explicitly omitted operand and points at a placeholder node; a non-empty
/// name points at the one node built for that name, at the output slot the
/// producer declares it on (slot 0 for leaves).
pub open spec fn edge_matches(
    e: Input,
    name: Seq<char>,
    ir: Seq<Node>,
    by: Map<Seq<char>, usize>,
    nodes: Seq<NodeProto>,
    defs: Map<Seq<char>, usize>,
) -> bool {
    if name.len() == 0 {
        &&& e.source_node < ir.len()
        &&& missing_node(ir[e.source_node as int])
        &&& e.output_index == 0
    } else {
        &&& by.contains_key(name)
        &&& e.source_node == by[name]
        &&& e.output_index == (if defs.contains_key(name) {
            position_of(nodes[defs[name] as int].output@, name)
        } else {
            0
        })
    }
}

/// Arena node `nd` is the translation of proto node `p`: an operator
/// definition with `p`'s type, attributes and declared output shapes, and
/// one matching edge per declared input.
#[verifier::opaque]
pub open spec fn op_node_matches(
    nd: Node,
    p: NodeProto,
    ir: Seq<Node>,
    by: Map<Seq<char>, usize>,
    nodes: Seq<NodeProto>,
    defs: Map<Seq<char>, usize>,
    shapes: Map<Seq<char>, Shape>,
) -> bool {
    &&& nd.definition matches NodeDefinition::Operator(d) && {
        &&& d.op_type@ == p.op_type@
        &&& p.output@.len() > 0 && d.display_name@ == p.output@[0]@
        &&& attrs_match(d.attributes@, p.attribute@)
        &&& d.output_shapes@.len() == p.output@.len()
        &&& forall|j: int|
            0 <= j < p.output@.len() ==> shapes.contains_key((#[trigger] p.output@[j])@)
                && d.output_shapes@[j].eqv(shapes[p.output@[j]@])
    }
    &&& nd.inputs@.len() == p.input@.len()
    &&& forall|k: int|
        0 <= k < p.input@.len() ==> edge_matches(
            #[trigger] nd.inputs@[k],
            p.input@[k]@,
            ir,
            by,
            nodes,
            defs,
        )
}

/// The core arena invariant: the arena is acyclic, and every name binding
/// points at the translation of that name's producer, or at a leaf for
/// names produced by initializers and graph inputs.
pub open spec fn arena_inv_core(
    ir: Seq<Node>,
    by: Map<Seq<char>, usize>,
    nodes: Seq<NodeProto>,
    defs: Map<Seq<char>, usize>,
    shapes: Map<Seq<char>, Shape>,
) -> bool {
    &&& arena_acyclic(ir)
    &&& forall|n: Seq<char>| #[trigger] by.contains_key(n) ==> by[n] < ir.len()
    &&& forall|n: Seq<char>|
        #[trigger] by.contains_key(n) && defs.contains_key(n) ==> op_node_matches(
            ir[by[n] as int],
            nodes[defs[n] as int],
            ir,
            by,
            nodes,
            defs,
            shapes,
        )
    &&& forall|n: Seq<char>|
        #[trigger] by.contains_key(n) && !defs.contains_key(n) ==> leaf_node(ir[by[n] as int])
}

/// All non-empty output names of proto node `i` are bound to arena index
/// `idx`.
pub open spec fn all_outputs_registered(
    by: Map<Seq<char>, usize>,
    nodes: Seq<NodeProto>,
    i: int,
    idx: usize,
) -> bool {
    forall|j: int|
        0 <= j < nodes[i].output@.len() && (#[trigger] nodes[i].output@[j])@.len() > 0
            ==> by.contains_key(nodes[i].output@[j]@) && by[nodes[i].output@[j]@] == idx
}

/// A translated node is registered under every one of its non-empty output
/// names at once.
pub open spec fn siblings_registered(
    by: Map<Seq<char>, usize>,
    nodes: Seq<NodeProto>,
    defs: Map<Seq<char>, usize>,
) -> bool {
    forall|n: Seq<char>|
        #[trigger] by.contains_key(n) && defs.contains_key(n) ==> all_outputs_registered(
            by,
            nodes,
            defs[n] as int,
            by[n],
        )
}

/// The full arena invariant.
#[verifier::opaque]
pub open spec fn arena_inv(
    ir: Seq<Node>,
    by: Map<Seq<char>, usize>,
    nodes: Seq<NodeProto>,
    defs: Map<Seq<char>, usize>,
    shapes: Map<Seq<char>, Shape>,
) -> bool {
    arena_inv_core(ir, by, nodes, defs, shapes) && siblings_registered(by, nodes, defs)
}

/// The arena invariant bounds every binding and keeps the arena acyclic.
proof fn lemma_arena_inv_unpack(
    ir: Seq<Node>,
    by: Map<Seq<char>, usize>,
    nodes: Seq<NodeProto>,
    defs: Map<Seq<char>, usize>,
    shapes: Map<Seq<char>, Shape>,
)
    requires
        arena_inv(ir, by, nodes, defs, shapes),
    ensures
        arena_acyclic(ir),
        forall|n: Seq<char>| #[trigger] by.contains_key(n) ==> by[n] < ir.len(),
{
    reveal(arena_inv);
}

/// An edge stays valid when the arena grows at the end and bindings are
/// added for new names.
proof fn lemma_edge_matches_mono(
    e: Input,
    name: Seq<char>,
    ir1: Seq<Node>,
    by1: Map<Seq<char>, usize>,
    ir2: Seq<Node>,
    by2: Map<Seq<char>, usize>,
    nodes: Seq<NodeProto>,
    defs: Map<Seq<char>, usize>,
)
    requires
        edge_matches(e, name, ir1, by1, nodes, defs),
        ir1.is_prefix_of(ir2),
        by1.submap_of(by2),
    ensures
        edge_matches(e, name, ir2, by2, nodes, defs),
{
    if name.len() == 0 {
        assert(ir2[e.source_node as int] == ir1[e.source_node as int]);
    }
}

/// A node translation stays valid when the arena grows at the end and
/// bindings are added for new names.
proof fn lemma_op_node_matches_mono(
    nd: Node,
    p: NodeProto,
    ir1: Seq<Node>,
    by1: Map<Seq<char>, usize>,
    ir2: Seq<Node>,
    by2: Map<Seq<char>, usize>,
    nodes: Seq<NodeProto>,
    defs: Map<Seq<char>, usize>,
    shapes: Map<Seq<char>, Shape>,
)
    requires
        op_node_matches(nd, p, ir1, by1, nodes, defs, shapes),
        ir1.is_prefix_of(ir2),
        by1.submap_of(by2),
    ensures
        op_node_matches(nd, p, ir2, by2, nodes, defs, shapes),
{
    reveal(op_node_matches);
    assert forall|k: int| 0 <= k < p.input@.len() implies edge_matches(
        #[trigger] nd.inputs@[k],
        p.input@[k]@,
        ir2,
        by2,
        nodes,
        defs,
    ) by {
        lemma_edge_matches_mono(nd.inputs@[k], p.input@[k]@, ir1, by1, ir2, by2, nodes, defs);
    }
}

/// Appending a node whose edges stay inside the old arena preserves
/// acyclicity.
proof fn lemma_acyclic_push(ir: Seq<Node>, nd: Node)
    requires
        arena_acyclic(ir),
        node_edges_below(nd, ir.len() as int),
    ensures
        arena_acyclic(ir.push(nd)),
{
    let ir2 = ir.push(nd);
    assert forall|i: int| 0 <= i < ir2.len() implies node_edges_below(#[trigger] ir2[i], i) by {
        if i < ir.len() {
            assert(ir2[i] == ir[i]);
        } else {
            assert(ir2[i] == nd);
        }
    }
}

/// Appending an unbound node preserves the arena invariant.
proof fn lemma_arena_inv_push(
    ir: Seq<Node>,
    by: Map<Seq<char>, usize>,
    nd: Node,
    nodes: Seq<NodeProto>,
    defs: Map<Seq<char>, usize>,
    shapes: Map<Seq<char>, Shape>,
)
    requires
        arena_inv(ir, by, nodes, defs, shapes),
        node_edges_below(nd, ir.len() as int),
    ensures
        arena_inv(ir.push(nd), by, nodes, defs, shapes),
{
    reveal(arena_inv);
    let ir2 = ir.push(nd);
    lemma_acyclic_push(ir, nd);
    assert(ir.is_prefix_of(ir2));
    assert forall|n: Seq<char>|
        #[trigger] by.contains_key(n) && defs.contains_key(n) implies op_node_matches(
        ir2[by[n] as int],
        nodes[defs[n] as int],
        ir2,
        by,
        nodes,
        defs,
        shapes,
    ) by {
        assert(ir2[by[n] as int] == ir[by[n] as int]);
        lemma_op_node_matches_mono(
            ir[by[n] as int],
            nodes[defs[n] as int],
            ir,
            by,
            ir2,
            by,
            nodes,
            defs,
            shapes,
        );
    }
    assert forall|n: Seq<char>|
        #[trigger] by.contains_key(n) && !defs.contains_key(n) implies leaf_node(
        ir2[by[n] as int],
    ) by {
        assert(ir2[by[n] as int] == ir[by[n] as int]);
    }
}

/// Binding one more translated name preserves the core invariant.
proof fn lemma_arena_inv_insert_op(
    ir: Seq<Node>,
    by: Map<Seq<char>, usize>,
    nodes: Seq<NodeProto>,
    defs: Map<Seq<char>, usize>,
    shapes: Map<Seq<char>, Shape>,
    n: Seq<char>,
    idx: usize,
)
    requires
        arena_inv_core(ir, by, nodes, defs, shapes),
        defs.contains_key(n),
        !by.contains_key(n),
        idx < ir.len(),
        op_node_matches(ir[idx as int], nodes[defs[n] as int], ir, by, nodes, defs, shapes),
    ensures
        arena_inv_core(ir, by.insert(n, idx), nodes, defs, shapes),
{
    reveal(arena_inv);
    let by2 = by.insert(n, idx);
    assert(by.submap_of(by2));
    assert forall|m: Seq<char>|
        #[trigger] by2.contains_key(m) && defs.contains_key(m) implies op_node_matches(
        ir[by2[m] as int],
        nodes[defs[m] as int],
        ir,
        by2,
        nodes,
        defs,
        shapes,
    ) by {
        if m == n {
            lemma_op_node_matches_mono(
                ir[idx as int],
                nodes[defs[n] as int],
                ir,
                by,
                ir,
                by2,
                nodes,
                defs,
                shapes,
            );
        } else {
            assert(by.contains_key(m) && by2[m] == by[m]);
            lemma_op_node_matches_mono(
                ir[by[m] as int],
                nodes[defs[m] as int],
                ir,
                by,
                ir,
                by2,
                nodes,
                defs,
                shapes,
            );
        }
    }
    assert forall|m: Seq<char>|
        #[trigger] by2.contains_key(m) && !defs.contains_key(m) implies leaf_node(
        ir[by2[m] as int],
    ) by {
        assert(m != n);
    }
}

// ---------------------------------------------------------------------------
// Small executable helpers for the builder
// ---------------------------------------------------------------------------
/// Whether `v` holds `x`.
#[verifier::loop_isolation(false)]
fn contains_index(v: &Vec<usize>, x: usize) -> (r: bool)
    ensures
        r == v@.contains(x),
{
    let mut i: usize = 0;
    while i < v.len()
        invariant
            0 <= i <= v@.len(),
            forall|k: int| 0 <= k < i ==> v@[k] != x,
        decreases v@.len() - i,
    {
        if v[i] == x {
            assert(v@.contains(x)) by {
                assert(v@[i as int] == x);
            }
            return true;
        }
        i = i + 1;
    }
    assert(!v@.contains(x));
    false
}

/// The first position of `name` in `names`, if any.
#[verifier::loop_isolation(false)]
fn position_in_names(names: &Vec<String>, name: &String) -> (r: Option<usize>)
    ensures
        match r {
            Some(p) => p < names@.len() && names@[p as int]@ == name@ && position_of(names@, name@)
                == p,
            None => forall|k: int| 0 <= k < names@.len() ==> (#[trigger] names@[k])@ != name@,
        },
{
    let mut i: usize = 0;
    while i < names.len()
        invariant
            0 <= i <= names@.len(),
            forall|k: int| 0 <= k < i ==> (#[trigger] names@[k])@ != name@,
        decreases names@.len() - i,
    {
        if names[i] == *name {
            proof {
                lemma_position_of_at(names@, name@, i as int);
            }
            return Some(i);
        }
        i = i + 1;
    }
    None
}

// ---------------------------------------------------------------------------
// Building IR nodes from proto nodes
// ---------------------------------------------------------------------------
/// What each builder error says about the model: every error names a real
/// defect.
pub open spec fn build_error(
    e: IrError,
    nodes: Seq<NodeProto>,
    defs: Map<Seq<char>, usize>,
    shapes: Map<Seq<char>, Shape>,
    by: Map<Seq<char>, usize>,
) -> bool {
    match e {
        IrError::OutputNodeNotFound(n) => exists|i: int, j: int|
            0 <= i < nodes.len() && 0 <= j < nodes[i].output@.len() && (
            #[trigger] nodes[i].output@[j])@ == n@ && !shapes.contains_key(n@),
        IrError::InputNodeNotFound { target_node_name, input_name } => exists|i: int, k: int|
            0 <= i < nodes.len() && 0 <= k < nodes[i].input@.len() && (
            #[trigger] nodes[i].input@[k])@ == input_name@ && input_name@.len() > 0
                && !defs.contains_key(input_name@) && !by.contains_key(input_name@)
                && target_node_name@ == nodes[i].name@,
        IrError::DuplicateOutputName(_) => false,
        IrError::Cyclic(_) => has_cycle(nodes),
        IrError::Type(e2) => exists|i: int|
            0 <= i < nodes.len() && !attrs_all_ok((#[trigger] nodes[i]).attribute@) && e2
                == first_attr_error(nodes[i].attribute@),
    }
}

impl Node {
    /// Translate the proto node at `node_index` — and, recursively, the
    /// producers of its inputs — into the node arena, reusing any node
    /// already built for one of its output names. `visiting` holds the
    /// chain of proto nodes currently being translated, so a model whose
    /// nodes consume each other in a cycle is rejected instead of recursed
    /// into forever; `fuel` bounds the recursion depth for the termination
    /// argument and never runs out when the other preconditions hold.
        #[verifier::loop_isolation(false)]
    #[verifier::rlimit(60)]
    pub fn from_node(
        nodes: &Vec<NodeProto>,
        node_index: usize,
        value_shapes: &NameMap<Shape>,
        node_definitions_by_output: &NameMap<usize>,
        ir_nodes: &mut Vec<Node>,
        nodes_by_output_names: &mut NameMap<usize>,
        visiting: &mut Vec<usize>,
        fuel: usize,
    ) -> (r: Result<usize, IrError>)
        requires
            node_index < nodes@.len(),
            nodes@[node_index as int].output@.len() > 0,
            defs_wf(nodes@, node_definitions_by_output@),
            arena_inv(
                old(ir_nodes)@,
                old(nodes_by_output_names)@,
                nodes@,
                node_definitions_by_output@,
                value_shapes@,
            ),
            old(visiting)@.no_duplicates(),
            forall|t: int|
                0 <= t < old(visiting)@.len() ==> (#[trigger] old(visiting)@[t]) < nodes@.len(),
            !old(visiting)@.contains(node_index),
            consume_chain(nodes@, old(visiting)@.push(node_index)),
            fuel >= nodes@.len() - old(visiting)@.len(),
        ensures
            final(visiting)@ == old(visiting)@,
            old(ir_nodes)@.is_prefix_of(final(ir_nodes)@),
            old(nodes_by_output_names)@.submap_of(final(nodes_by_output_names)@),
            arena_inv(
                final(ir_nodes)@,
                final(nodes_by_output_names)@,
                nodes@,
                node_definitions_by_output@,
                value_shapes@,
            ),
            forall|n: Seq<char>|
                #[trigger] final(nodes_by_output_names)@.contains_key(n) && !old(
                    nodes_by_output_names,
                )@.contains_key(n) ==> node_definitions_by_output@.contains_key(n) && !old(
                    visiting,
                )@.contains(node_definitions_by_output@[n]),
            r matches Ok(idx) ==> {
                &&& (idx as int) < final(ir_nodes)@.len()
                &&& op_node_matches(
                    final(ir_nodes)@[idx as int],
                    nodes@[node_index as int],
                    final(ir_nodes)@,
                    final(nodes_by_output_names)@,
                    nodes@,
                    node_definitions_by_output@,
                    value_shapes@,
                )
                &&& all_outputs_registered(
                    final(nodes_by_output_names)@,
                    nodes@,
                    node_index as int,
                    idx,
                )
            },
            r matches Err(e) ==> build_error(
                e,
                nodes@,
                node_definitions_by_output@,
                value_shapes@,
                final(nodes_by_output_names)@,
            ),
        decreases fuel,
    {
        proof {
            reveal(arena_inv);
        }
        let node = &nodes[node_index];
        // Reuse a node already built and registered under one of this
        // node's output names.
        let mut oi: usize = 0;
        while oi < node.output.len()
            invariant
                0 <= oi <= node.output@.len(),
                forall|j: int|
                    0 <= j < oi && (#[trigger] node.output@[j])@.len() > 0 ==> !nodes_by_output_names@.contains_key(
                        node.output@[j]@,
                    ),
            decreases node.output@.len() - oi,
        {
            let output_name = &node.output[oi];
            if !output_name.as_str().is_empty() {
                let found = nodes_by_output_names.get(output_name);
                match found {
                    Some(existing) => {
                        let idx = *existing;
                        proof {
                            let n = output_name@;
                            assert(nodes@[node_index as int].output@[oi as int]@.len() > 0);
                            assert(node_definitions_by_output@.contains_key(n)
                                && node_definitions_by_output@[n] == node_index);
                            assert(old(ir_nodes)@.is_prefix_of(ir_nodes@));
                            assert(old(nodes_by_output_names)@.submap_of(nodes_by_output_names@));
                        }
                        return Ok(idx);
                    }
                    None => {}
                }
            }
            oi = oi + 1;
        }
        // Build one edge per declared input, translating producers first.
        let mut inputs: Vec<Input> = Vec::new();
        let mut k: usize = 0;
        while k < node.input.len()
            invariant
                0 <= k <= node.input@.len(),
                inputs@.len() == k,
                visiting@ == old(visiting)@,
                old(ir_nodes)@.is_prefix_of(ir_nodes@),
                old(nodes_by_output_names)@.submap_of(nodes_by_output_names@),
                arena_inv(
                    ir_nodes@,
                    nodes_by_output_names@,
                    nodes@,
                    node_definitions_by_output@,
                    value_shapes@,
                ),
                forall|n: Seq<char>|
                    #[trigger] nodes_by_output_names@.contains_key(n) && !old(
                        nodes_by_output_names,
                    )@.contains_key(n) ==> node_definitions_by_output@.contains_key(n) && !old(
                        visiting,
                    )@.contains(node_definitions_by_output@[n]) && node_definitions_by_output@[n]
                        != node_index,
                forall|j: int|
                    0 <= j < node.output@.len() && (#[trigger] node.output@[j])@.len() > 0
                        ==> !nodes_by_output_names@.contains_key(node.output@[j]@),
                forall|j: int|
                    0 <= j < k ==> edge_matches(
                        #[trigger] inputs@[j],
                        node.input@[j]@,
                        ir_nodes@,
                        nodes_by_output_names@,
                        nodes@,
                        node_definitions_by_output@,
                    ),
            decreases node.input@.len() - k,
        {
            let input_name = &node.input[k];
            let ghost iter_ir = ir_nodes@;
            let ghost iter_by = nodes_by_output_names@;
            if input_name.as_str().is_empty() {
                // An empty input name denotes an intentionally omitted
                // optional operand: bind a fresh placeholder node.
                let missing_idx = ir_nodes.len();
                let placeholder = Node { definition: NodeDefinition::Missing, inputs: Vec::new() };
                proof {
                    assert(node_edges_below(placeholder, iter_ir.len() as int));
                    lemma_arena_inv_push(
                        iter_ir,
                        nodes_by_output_names@,
                        placeholder,
                        nodes@,
                        node_definitions_by_output@,
                        value_shapes@,
                    );
                }
                ir_nodes.push(placeholder);
                inputs.push(Input { source_node: missing_idx, output_index: 0 });
                proof {
                    assert(ir_nodes@[missing_idx as int] == placeholder);
                    assert forall|j: int| 0 <= j < k implies edge_matches(
                        #[trigger] inputs@[j],
                        node.input@[j]@,
                        ir_nodes@,
                        nodes_by_output_names@,
                        nodes@,
                        node_definitions_by_output@,
                    ) by {
                        lemma_edge_matches_mono(
                            inputs@[j],
                            node.input@[j]@,
                            iter_ir,
                            iter_by,
                            ir_nodes@,
                            nodes_by_output_names@,
                            nodes@,
                            node_definitions_by_output@,
                        );
                    }
                    lemma_prefix_trans(old(ir_nodes)@, iter_ir, ir_nodes@);
                }
            } else {
                let defs_hit = node_definitions_by_output.get(input_name);
                match defs_hit {
                    Some(src_ref) => {
                        // The input is another operator's output: translate
                        // that operator first.
                        let source_index = *src_ref;
                        proof {
                            assert(consumes(nodes@, node_index as int, source_index as int)) by {
                                let j = choose|j: int|
                                    produces(nodes@, source_index as int, j, input_name@);
                                assert(nodes@[node_index as int].input@[k as int]@
                                    == nodes@[source_index as int].output@[j]@);
                            }
                        }
                        if source_index == node_index || contains_index(visiting, source_index) {
                            proof {
                                let c = old(visiting)@.push(node_index);
                                if source_index == node_index {
                                    lemma_cycle_found(nodes@, c, c.len() - 1);
                                } else {
                                    let t0 = choose|t: int|
                                        0 <= t < old(visiting)@.len() && old(visiting)@[t]
                                            == source_index;
                                    assert(c[t0] == source_index);
                                    lemma_cycle_found(nodes@, c, t0);
                                }
                            }
                            return Err(IrError::Cyclic(node.name.clone()));
                        }
                        proof {
                            lemma_distinct_indices_bound(
                                old(visiting)@,
                                node_index,
                                nodes@.len(),
                            );
                            assert(old(visiting)@.push(node_index).no_duplicates());
                            assert(consume_chain(
                                nodes@,
                                old(visiting)@.push(node_index).push(source_index),
                            )) by {
                                let c2 = old(visiting)@.push(node_index).push(source_index);
                                assert forall|t: int| 0 <= t < c2.len() - 1 implies consumes(
                                    nodes@,
                                    (#[trigger] c2[t]) as int,
                                    c2[t + 1] as int,
                                ) by {
                                    let c1 = old(visiting)@.push(node_index);
                                    if t < c1.len() - 1 {
                                        assert(c2[t] == c1[t] && c2[t + 1] == c1[t + 1]);
                                    } else {
                                        assert(c2[t] == node_index && c2[t + 1] == source_index);
                                    }
                                }
                            }
                        }
                        visiting.push(node_index);
                        let result = Node::from_node(
                            nodes,
                            source_index,
                            value_shapes,
                            node_definitions_by_output,
                            ir_nodes,
                            nodes_by_output_names,
                            visiting,
                            fuel - 1,
                        );
                        let _restored = visiting.pop();
                        proof {
                            assert(visiting@ =~= old(visiting)@);
                        }
                        match result {
                            Ok(idx) => {
                                let producer = &nodes[source_index];
                                let oi_pos = match position_in_names(&producer.output, input_name) {
                                    Some(p) => p,
                                    None => {
                                        // unreachable: the producer index
                                        // came from the output-name index
                                        proof {
                                            let j = choose|j: int|
                                                produces(
                                                    nodes@,
                                                    source_index as int,
                                                    j,
                                                    input_name@,
                                                );
                                            assert(false);
                                        }
                                        return Err(IrError::OutputNodeNotFound(input_name.clone()));
                                    }
                                };
                                inputs.push(Input { source_node: idx, output_index: oi_pos });
                                proof {
                                    let j = choose|j: int|
                                        produces(nodes@, source_index as int, j, input_name@);
                                    assert(nodes_by_output_names@.contains_key(input_name@)
                                        && nodes_by_output_names@[input_name@] == idx);
                                    assert(edge_matches(
                                        inputs@[k as int],
                                        node.input@[k as int]@,
                                        ir_nodes@,
                                        nodes_by_output_names@,
                                        nodes@,
                                        node_definitions_by_output@,
                                    ));
                                    assert forall|j2: int| 0 <= j2 < k implies edge_matches(
                                        #[trigger] inputs@[j2],
                                        node.input@[j2]@,
                                        ir_nodes@,
                                        nodes_by_output_names@,
                                        nodes@,
                                        node_definitions_by_output@,
                                    ) by {
                                        lemma_edge_matches_mono(
                                            inputs@[j2],
                                            node.input@[j2]@,
                                            iter_ir,
                                            iter_by,
                                            ir_nodes@,
                                            nodes_by_output_names@,
                                            nodes@,
                                            node_definitions_by_output@,
                                        );
                                    }
                                    lemma_prefix_trans(old(ir_nodes)@, iter_ir, ir_nodes@);
                                    lemma_submap_trans(
                                        old(nodes_by_output_names)@,
                                        iter_by,
                                        nodes_by_output_names@,
                                    );
                                }
                            }
                            Err(e) => {
                                proof {
                                    lemma_prefix_trans(old(ir_nodes)@, iter_ir, ir_nodes@);
                                    lemma_submap_trans(
                                        old(nodes_by_output_names)@,
                                        iter_by,
                                        nodes_by_output_names@,
                                    );
                                }
                                return Err(e);
                            }
                        }
                    }
                    None => {
                        // The input must already be a registered leaf: an
                        // initializer or a graph input.
                        let leaf_hit = nodes_by_output_names.get(input_name);
                        match leaf_hit {
                            Some(leaf_ref) => {
                                let leaf_idx = *leaf_ref;
                                inputs.push(Input { source_node: leaf_idx, output_index: 0 });
                            }
                            None => {
                                return Err(
                                    IrError::InputNodeNotFound {
                                        target_node_name: node.name.clone(),
                                        input_name: input_name.clone(),
                                    },
                                );
                            }
                        }
                    }
                }
            }
            k = k + 1;
        }
        // Resolve the declared shape of every output.
        let mut output_shapes: Vec<Shape> = Vec::new();
        let mut oj: usize = 0;
        while oj < node.output.len()
            invariant
                0 <= oj <= node.output@.len(),
                output_shapes@.len() == oj,
                forall|j: int|
                    0 <= j < oj ==> value_shapes@.contains_key((#[trigger] node.output@[j])@)
                        && output_shapes@[j].eqv(value_shapes@[node.output@[j]@]),
            decreases node.output@.len() - oj,
        {
            let output_name = &node.output[oj];
            let shape_hit = value_shapes.get(output_name);
            match shape_hit {
                Some(shape) => {
                    output_shapes.push(shape.clone());
                }
                None => {
                    return Err(IrError::OutputNodeNotFound(output_name.clone()));
                }
            }
            oj = oj + 1;
        }
        let definition = match OperatorDefinition::from(node, output_shapes) {
            Ok(d) => d,
            Err(e) => {
                return Err(IrError::Type(e));
            }
        };
        let translated_idx = ir_nodes.len();
        let ghost pushed_ir = ir_nodes@;
        let translated = Node { definition: NodeDefinition::Operator(definition), inputs };
        proof {
            assert(node_edges_below(translated, pushed_ir.len() as int)) by {
                assert forall|e: int| 0 <= e < translated.inputs@.len() implies (
                #[trigger] translated.inputs@[e]).source_node < pushed_ir.len() by {
                    assert(edge_matches(
                        translated.inputs@[e],
                        node.input@[e]@,
                        ir_nodes@,
                        nodes_by_output_names@,
                        nodes@,
                        node_definitions_by_output@,
                    ));
                }
            }
            lemma_arena_inv_push(
                pushed_ir,
                nodes_by_output_names@,
                translated,
                nodes@,
                node_definitions_by_output@,
                value_shapes@,
            );
        }
        ir_nodes.push(translated);
        proof {
            assert(ir_nodes@[translated_idx as int] == translated);
            assert(op_node_matches(
                translated,
                nodes@[node_index as int],
                ir_nodes@,
                nodes_by_output_names@,
                nodes@,
                node_definitions_by_output@,
                value_shapes@,
            )) by {
                reveal(op_node_matches);
                assert forall|e: int|
                    0 <= e < nodes@[node_index as int].input@.len() implies edge_matches(
                    #[trigger] translated.inputs@[e],
                    nodes@[node_index as int].input@[e]@,
                    ir_nodes@,
                    nodes_by_output_names@,
                    nodes@,
                    node_definitions_by_output@,
                ) by {
                    lemma_edge_matches_mono(
                        translated.inputs@[e],
                        node.input@[e]@,
                        pushed_ir,
                        nodes_by_output_names@,
                        ir_nodes@,
                        nodes_by_output_names@,
                        nodes@,
                        node_definitions_by_output@,
                    );
                }
            }
            lemma_prefix_trans(old(ir_nodes)@, pushed_ir, ir_nodes@);
        }
        // Register the node under each of its non-empty output names, so
        // every later consumer of any of them reuses it.
        let ghost reg_ir = ir_nodes@;
        let ghost reg_by = nodes_by_output_names@;
        let mut oreg: usize = 0;
        while oreg < node.output.len()
            invariant
                0 <= oreg <= node.output@.len(),
                ir_nodes@ == reg_ir,
                reg_by.submap_of(nodes_by_output_names@),
                forall|n: Seq<char>|
                    #[trigger] nodes_by_output_names@.contains_key(n) && !reg_by.contains_key(n)
                        ==> exists|j: int|
                        0 <= j < oreg && (#[trigger] node.output@[j])@ == n
                            && nodes_by_output_names@[n] == translated_idx,
                forall|j: int|
                    0 <= j < oreg && (#[trigger] node.output@[j])@.len() > 0
                        ==> nodes_by_output_names@.contains_key(node.output@[j]@)
                        && nodes_by_output_names@[node.output@[j]@] == translated_idx,
                arena_inv_core(
                    ir_nodes@,
                    nodes_by_output_names@,
                    nodes@,
                    node_definitions_by_output@,
                    value_shapes@,
                ),
                op_node_matches(
                    ir_nodes@[translated_idx as int],
                    nodes@[node_index as int],
                    ir_nodes@,
                    nodes_by_output_names@,
                    nodes@,
                    node_definitions_by_output@,
                    value_shapes@,
                ),
            decreases node.output@.len() - oreg,
        {
            let oname = &node.output[oreg];
            if !oname.as_str().is_empty() {
                let ghost by_before = nodes_by_output_names@;
                proof {
                    assert(nodes@[node_index as int].output@[oreg as int]@.len() > 0);
                    assert(node_definitions_by_output@.contains_key(oname@)
                        && node_definitions_by_output@[oname@] == node_index);
                    if by_before.contains_key(oname@) {
                        assert(by_before[oname@] == translated_idx);
                    } else {
                        lemma_arena_inv_insert_op(
                            ir_nodes@,
                            by_before,
                            nodes@,
                            node_definitions_by_output@,
                            value_shapes@,
                            oname@,
                            translated_idx,
                        );
                    }
                }
                nodes_by_output_names.insert(oname.clone(), translated_idx);
                proof {
                    if by_before.contains_key(oname@) {
                        assert(nodes_by_output_names@ =~= by_before);
                    } else {
                        assert(by_before.submap_of(nodes_by_output_names@));
                    }
                    lemma_submap_trans(reg_by, by_before, nodes_by_output_names@);
                    assert(op_node_matches(
                        ir_nodes@[translated_idx as int],
                        nodes@[node_index as int],
                        ir_nodes@,
                        nodes_by_output_names@,
                        nodes@,
                        node_definitions_by_output@,
                        value_shapes@,
                    )) by {
                        lemma_op_node_matches_mono(
                            ir_nodes@[translated_idx as int],
                            nodes@[node_index as int],
                            ir_nodes@,
                            by_before,
                            ir_nodes@,
                            nodes_by_output_names@,
                            nodes@,
                            node_definitions_by_output@,
                            value_shapes@,
                        );
                    }
                }
            }
            oreg = oreg + 1;
        }
        proof {
            // Old bindings are untouched, so every previously registered
            // node keeps all its output names; the new node now has all of
            // its own registered.
            assert(siblings_registered(
                nodes_by_output_names@,
                nodes@,
                node_definitions_by_output@,
            )) by {
                assert forall|n: Seq<char>|
                    #[trigger] nodes_by_output_names@.contains_key(n)
                        && node_definitions_by_output@.contains_key(n) implies all_outputs_registered(
                    nodes_by_output_names@,
                    nodes@,
                    node_definitions_by_output@[n] as int,
                    nodes_by_output_names@[n],
                ) by {
                    let i = node_definitions_by_output@[n] as int;
                    if i == node_index as int {
                        assert(nodes_by_output_names@[n] == translated_idx);
                    } else {
                        assert(reg_by.contains_key(n));
                        assert(all_outputs_registered(reg_by, nodes@, i, reg_by[n]));
                        assert(nodes_by_output_names@[n] == reg_by[n]);
                        assert forall|j: int|
                            0 <= j < nodes@[i].output@.len() && (#[trigger] nodes@[i].output@[j])@.len()
                                > 0 implies nodes_by_output_names@.contains_key(
                            nodes@[i].output@[j]@,
                        ) && nodes_by_output_names@[nodes@[i].output@[j]@] == reg_by[n] by {
                            let m = nodes@[i].output@[j]@;
                            assert(reg_by.contains_key(m) && reg_by[m] == reg_by[n]);
                            assert(reg_by.dom().contains(m));
                            assert(nodes_by_output_names@.contains_key(m)
                                && nodes_by_output_names@[m] == reg_by[m]);
                        }
                    }
                }
            }
            lemma_prefix_trans(old(ir_nodes)@, pushed_ir, ir_nodes@);
            lemma_submap_trans(old(nodes_by_output_names)@, reg_by, nodes_by_output_names@);
        }
        Ok(translated_idx)
    }
}

// ---------------------------------------------------------------------------
// Building the whole graph from a model
// ---------------------------------------------------------------------------
/// The output names a construction request asks the graph to realize: the
/// requested ones, or all of the model's declared outputs.
pub open spec fn requested_names(model: ModelProto, outputs: Option<&Vec<String>>) -> Seq<
    Seq<char>,
> {
    match outputs {
        Option::Some(v) => v@.map_values(|s: String| s@),
        Option::None => model.graph.output@.map_values(|vi: ValueInfoProto| vi.name@),
    }
}

/// `n` names a constant initializer of the model.
pub open spec fn is_initializer_name(model: ModelProto, n: Seq<char>) -> bool {
    exists|i: int|
        0 <= i < model.graph.initializer@.len() && (#[trigger] model.graph.initializer@[i]).name@
            == n
}

/// `n` names a declared graph input of the model.
pub open spec fn is_input_name(model: ModelProto, n: Seq<char>) -> bool {
    exists|i: int|
        0 <= i < model.graph.input@.len() && (#[trigger] model.graph.input@[i]).name@ == n
}

/// The model declares a shape for `n`: a value-info entry or a (non-empty)
/// declared output carries that name.
pub open spec fn declares_shape_of(model: ModelProto, n: Seq<char>) -> bool {
    ||| exists|i: int|
        0 <= i < model.graph.value_info@.len() && (#[trigger] model.graph.value_info@[i]).name@
            == n
    ||| exists|i: int|
        0 <= i < model.graph.output@.len() && (#[trigger] model.graph.output@[i]).name@ == n
            && n.len() > 0
}

/// `s` is the resolved shape of some declaration of `n` in the model.
pub open spec fn shape_of_some_declaration(model: ModelProto, n: Seq<char>, s: Shape) -> bool {
    ||| exists|i: int|
        0 <= i < model.graph.value_info@.len() && (#[trigger] model.graph.value_info@[i]).name@
            == n && shape_matches(s, model.graph.value_info@[i])
    ||| exists|i: int|
        0 <= i < model.graph.output@.len() && (#[trigger] model.graph.output@[i]).name@ == n
            && n.len() > 0 && shape_matches(s, model.graph.output@[i])
}

/// `shapes` indexes the model's declared value shapes: it binds exactly the
/// declared names, each to the resolved shape of a declaration of that name.
pub open spec fn shapes_collected(shapes: Map<Seq<char>, Shape>, model: ModelProto) -> bool {
    &&& forall|n: Seq<char>| #[trigger]
        shapes.contains_key(n) ==> declares_shape_of(model, n) && shape_of_some_declaration(
            model,
            n,
            shapes[n],
        )
    &&& forall|i: int|
        0 <= i < model.graph.value_info@.len() ==> shapes.contains_key(
            (#[trigger] model.graph.value_info@[i]).name@,
        )
    &&& forall|i: int|
        0 <= i < model.graph.output@.len() && (#[trigger] model.graph.output@[i]).name@.len() > 0
            ==> shapes.contains_key(model.graph.output@[i].name@)
}

/// Two distinct output slots of the model's nodes declare the same name.
pub open spec fn duplicate_node_output(nodes: Seq<NodeProto>, n: Seq<char>) -> bool {
    exists|i: int, j: int, i2: int, j2: int|
        produces(nodes, i, j, n) && produces(nodes, i2, j2, n) && !(i == i2 && j == j2)
}

/// The value name `n` has two producers in the model.
#[verifier::opaque]
pub open spec fn duplicate_producer(model: ModelProto, n: Seq<char>) -> bool {
    let nodes = model.graph.node@;
    ||| duplicate_node_output(nodes, n)
    ||| (has_producer(nodes, n) && is_initializer_name(model, n))
    ||| (has_producer(nodes, n) && is_input_name(model, n))
    ||| exists|i: int, i2: int|
        0 <= i < i2 < model.graph.initializer@.len() && (
        #[trigger] model.graph.initializer@[i]).name@ == n && (
        #[trigger] model.graph.initializer@[i2]).name@ == n
}

/// A value-info entry, declared output, initializer, graph input or node of
/// the model is invalid with exactly this error.
#[verifier::opaque]
pub open spec fn model_type_error(model: ModelProto, e2: DataTypeError) -> bool {
    ||| exists|i: int|
        0 <= i < model.graph.value_info@.len() && !shape_ok(#[trigger] model.graph.value_info@[i])
            && e2 == shape_error(model.graph.value_info@[i])
    ||| exists|i: int|
        0 <= i < model.graph.output@.len() && (#[trigger] model.graph.output@[i]).name@.len() > 0
            && !shape_ok(model.graph.output@[i]) && e2 == shape_error(model.graph.output@[i])
    ||| exists|i: int|
        0 <= i < model.graph.initializer@.len() && !tensor_ok(
            #[trigger] model.graph.initializer@[i],
        ) && e2 == tensor_error(model.graph.initializer@[i])
    ||| exists|i: int|
        0 <= i < model.graph.input@.len() && !shape_ok(#[trigger] model.graph.input@[i]) && e2
            == shape_error(model.graph.input@[i])
    ||| exists|i: int|
        0 <= i < model.graph.node@.len() && !attrs_all_ok((#[trigger] model.graph.node@[i]).attribute@)
            && e2 == first_attr_error(model.graph.node@[i].attribute@)
}

/// What each graph-construction error says about the model: every error
/// names a real defect.
#[verifier::opaque]
pub open spec fn model_build_error(e: IrError, model: ModelProto, req: Seq<Seq<char>>) -> bool {
    let nodes = model.graph.node@;
    match e {
        IrError::DuplicateOutputName(n) => duplicate_producer(model, n@),
        IrError::Cyclic(_) => has_cycle(nodes),
        IrError::OutputNodeNotFound(n) => {
            ||| (req.contains(n@) && !has_producer(nodes, n@))
            ||| exists|i: int, j: int|
                0 <= i < nodes.len() && 0 <= j < nodes[i].output@.len() && (
                #[trigger] nodes[i].output@[j])@ == n@ && !declares_shape_of(model, n@)
        },
        IrError::InputNodeNotFound { target_node_name, input_name } => exists|i: int, k: int|
            0 <= i < nodes.len() && 0 <= k < nodes[i].input@.len() && (
            #[trigger] nodes[i].input@[k])@ == input_name@ && input_name@.len() > 0
                && !has_producer(nodes, input_name@) && !is_initializer_name(model, input_name@)
                && !is_input_name(model, input_name@) && target_node_name@ == nodes[i].name@,
        IrError::Type(e2) => model_type_error(model, e2),
    }
}

/// The arena binds an initializer's name to a zero-input node holding that
/// constant, decoded.
pub open spec fn initializer_leaf(ir: Seq<Node>, by: Map<Seq<char>, usize>, t: TensorProto) -> bool {
    &&& by.contains_key(t.name@)
    &&& by[t.name@] < ir.len()
    &&& ir[by[t.name@] as int].inputs@.len() == 0
    &&& ir[by[t.name@] as int].definition matches NodeDefinition::Tensor(data) && tensor_matches(
        data,
        t,
    )
}

/// The arena binds a declared input's name to a zero-input node carrying
/// that name and its declared shape.
pub open spec fn input_leaf(ir: Seq<Node>, by: Map<Seq<char>, usize>, vi: ValueInfoProto) -> bool {
    &&& by.contains_key(vi.name@)
    &&& by[vi.name@] < ir.len()
    &&& ir[by[vi.name@] as int].inputs@.len() == 0
    &&& ir[by[vi.name@] as int].definition matches NodeDefinition::Input { name, shape } && name@
        == vi.name@ && shape_matches(shape, vi)
}

/// Every initializer and every declared input of the model is bound in
/// the arena: initializers to their decoded constants, and inputs — where
/// no initializer and no earlier input claims the name — to declared-input
/// leaves.
#[verifier::opaque]
pub open spec fn leaves_bound(ir: Seq<Node>, by: Map<Seq<char>, usize>, model: ModelProto) -> bool {
    &&& forall|j: int|
        0 <= j < model.graph.initializer@.len() ==> initializer_leaf(
            ir,
            by,
            #[trigger] model.graph.initializer@[j],
        )
    &&& forall|j: int|
        0 <= j < model.graph.input@.len() ==> by.contains_key(
            (#[trigger] model.graph.input@[j]).name@,
        )
    &&& forall|j: int|
        0 <= j < model.graph.input@.len() && !is_initializer_name(
            model,
            (#[trigger] model.graph.input@[j]).name@,
        ) && (forall|j2: int|
            0 <= j2 < j ==> (#[trigger] model.graph.input@[j2]).name@
                != model.graph.input@[j].name@) ==> input_leaf(ir, by, model.graph.input@[j])
}

/// Every bound name is accounted for: produced by a node, an initializer
/// or a declared input.
#[verifier::opaque]
pub open spec fn names_accounted(
    by: Map<Seq<char>, usize>,
    nodes: Seq<NodeProto>,
    model: ModelProto,
) -> bool {
    forall|n: Seq<char>| #[trigger]
        by.contains_key(n) ==> has_producer(nodes, n) || is_initializer_name(model, n)
            || is_input_name(model, n)
}

/// The leaf bindings survive arena growth and new bindings.
proof fn lemma_leaves_bound_mono(
    ir1: Seq<Node>,
    by1: Map<Seq<char>, usize>,
    ir2: Seq<Node>,
    by2: Map<Seq<char>, usize>,
    model: ModelProto,
)
    requires
        leaves_bound(ir1, by1, model),
        ir1.is_prefix_of(ir2),
        by1.submap_of(by2),
    ensures
        leaves_bound(ir2, by2, model),
{
    reveal(leaves_bound);
    assert forall|j: int| 0 <= j < model.graph.initializer@.len() implies initializer_leaf(
        ir2,
        by2,
        #[trigger] model.graph.initializer@[j],
    ) by {
        lemma_initializer_leaf_mono(ir1, by1, ir2, by2, model.graph.initializer@[j]);
    }
    assert forall|j: int| 0 <= j < model.graph.input@.len() implies by2.contains_key(
        (#[trigger] model.graph.input@[j]).name@,
    ) by {
        assert(by1.dom().contains(model.graph.input@[j].name@));
        assert(by2.dom().contains(model.graph.input@[j].name@));
    }
    assert forall|j: int|
        0 <= j < model.graph.input@.len() && !is_initializer_name(
            model,
            (#[trigger] model.graph.input@[j]).name@,
        ) && (forall|j2: int|
            0 <= j2 < j ==> (#[trigger] model.graph.input@[j2]).name@
                != model.graph.input@[j].name@) implies input_leaf(
        ir2,
        by2,
        model.graph.input@[j],
    ) by {
        lemma_input_leaf_mono(ir1, by1, ir2, by2, model.graph.input@[j]);
    }
}

/// Accounting survives new bindings whose names are produced by nodes.
proof fn lemma_names_accounted_grow(
    by1: Map<Seq<char>, usize>,
    by2: Map<Seq<char>, usize>,
    nodes: Seq<NodeProto>,
    defs: Map<Seq<char>, usize>,
    model: ModelProto,
)
    requires
        names_accounted(by1, nodes, model),
        defs_wf(nodes, defs),
        forall|n: Seq<char>| #[trigger]
            by2.contains_key(n) ==> by1.contains_key(n) || defs.contains_key(n),
    ensures
        names_accounted(by2, nodes, model),
{
    reveal(names_accounted);
    assert forall|n: Seq<char>| #[trigger] by2.contains_key(n) implies has_producer(nodes, n)
        || is_initializer_name(model, n) || is_input_name(model, n) by {
        if !by1.contains_key(n) {
            let j = choose|j: int| produces(nodes, defs[n] as int, j, n);
            assert(produces(nodes, defs[n] as int, j, n));
        }
    }
}

/// A leaf binding survives arena growth and new bindings.
proof fn lemma_initializer_leaf_mono(
    ir1: Seq<Node>,
    by1: Map<Seq<char>, usize>,
    ir2: Seq<Node>,
    by2: Map<Seq<char>, usize>,
    t: TensorProto,
)
    requires
        initializer_leaf(ir1, by1, t),
        ir1.is_prefix_of(ir2),
        by1.submap_of(by2),
    ensures
        initializer_leaf(ir2, by2, t),
{
    assert(by1.dom().contains(t.name@));
    assert(by2.dom().contains(t.name@));
    assert(by2[t.name@] == by1[t.name@]);
    assert(ir2[by1[t.name@] as int] == ir1[by1[t.name@] as int]);
}

/// A declared-input binding survives arena growth and new bindings.
proof fn lemma_input_leaf_mono(
    ir1: Seq<Node>,
    by1: Map<Seq<char>, usize>,
    ir2: Seq<Node>,
    by2: Map<Seq<char>, usize>,
    vi: ValueInfoProto,
)
    requires
        input_leaf(ir1, by1, vi),
        ir1.is_prefix_of(ir2),
        by1.submap_of(by2),
    ensures
        input_leaf(ir2, by2, vi),
{
    assert(by1.dom().contains(vi.name@));
    assert(by2.dom().contains(vi.name@));
    assert(by2[vi.name@] == by1[vi.name@]);
    assert(ir2[by1[vi.name@] as int] == ir1[by1[vi.name@] as int]);
}

/// Binding a fresh name to a leaf node preserves the arena invariant.
proof fn lemma_arena_inv_insert_leaf(
    ir: Seq<Node>,
    by: Map<Seq<char>, usize>,
    nodes: Seq<NodeProto>,
    defs: Map<Seq<char>, usize>,
    shapes: Map<Seq<char>, Shape>,
    n: Seq<char>,
    idx: usize,
)
    requires
        arena_inv(ir, by, nodes, defs, shapes),
        !defs.contains_key(n),
        !by.contains_key(n),
        idx < ir.len(),
        leaf_node(ir[idx as int]),
    ensures
        arena_inv(ir, by.insert(n, idx), nodes, defs, shapes),
{
    reveal(arena_inv);
    let by2 = by.insert(n, idx);
    assert(by.submap_of(by2));
    assert forall|m: Seq<char>|
        #[trigger] by2.contains_key(m) && defs.contains_key(m) implies op_node_matches(
        ir[by2[m] as int],
        nodes[defs[m] as int],
        ir,
        by2,
        nodes,
        defs,
        shapes,
    ) by {
        assert(m != n);
        lemma_op_node_matches_mono(
            ir[by[m] as int],
            nodes[defs[m] as int],
            ir,
            by,
            ir,
            by2,
            nodes,
            defs,
            shapes,
        );
    }
    assert forall|m: Seq<char>|
        #[trigger] by2.contains_key(m) && defs.contains_key(m) implies all_outputs_registered(
        by2,
        nodes,
        defs[m] as int,
        by2[m],
    ) by {
        assert(m != n);
        assert(all_outputs_registered(by, nodes, defs[m] as int, by[m]));
        assert forall|j: int|
            0 <= j < nodes[defs[m] as int].output@.len() && (
            #[trigger] nodes[defs[m] as int].output@[j])@.len() > 0 implies by2.contains_key(
            nodes[defs[m] as int].output@[j]@,
        ) && by2[nodes[defs[m] as int].output@[j]@] == by2[m] by {
            let m2 = nodes[defs[m] as int].output@[j]@;
            assert(by.contains_key(m2) && by[m2] == by[m]);
            assert(m2 != n);
        }
    }
}

/// The root's edge for requested output `t` points at the one node built
/// for that name, on the output slot its producer declares it at.
pub open spec fn requested_edge_ok(
    g: IrGraph,
    model: ModelProto,
    req: Seq<Seq<char>>,
    t: int,
) -> bool {
    let nodes = model.graph.node@;
    let e = g.nodes@[g.root as int].inputs@[t];
    let n = req[t];
    &&& has_producer(nodes, n)
    &&& g.by_name@.contains_key(n) && g.by_name@[n] == e.source_node
    &&& (e.source_node as int) < g.root
    &&& e.output_index == position_of(nodes[producer_of(nodes, n)].output@, n)
}

/// `g` is the IR built from `model` for the requested output names `req`,
/// with `shapes` indexing the model's declared value shapes: the root is an
/// output-collection node wired to the requested outputs' producers; every
/// name binding points at the translation of its producer (operator nodes
/// with matching attributes, shapes and edges; decoded constants for
/// initializer names; declared inputs for input names); and producers are
/// unique.
#[verifier::opaque]
pub open spec fn ir_built(
    g: IrGraph,
    model: ModelProto,
    req: Seq<Seq<char>>,
    shapes: Map<Seq<char>, Shape>,
) -> bool {
    let nodes = model.graph.node@;
    let by = g.by_name@;
    let defs = producers_map(nodes);
    &&& g.wf()
    &&& defs_wf(nodes, defs)
    &&& shapes_collected(shapes, model)
    &&& arena_inv(g.nodes@, by, nodes, defs, shapes)
    &&& g.nodes@[g.root as int].definition matches NodeDefinition::Outputs { names } && {
        &&& names@.len() == req.len()
        &&& forall|t: int| 0 <= t < req.len() ==> (#[trigger] names@[t])@ == req[t]
    }
    &&& g.nodes@[g.root as int].inputs@.len() == req.len()
    &&& forall|t: int| 0 <= t < req.len() ==> requested_edge_ok(g, model, req, t)
    &&& names_accounted(by, nodes, model)
    &&& leaves_bound(g.nodes@, by, model)
}

/// Some shape index witnesses that `g` is the IR built from `model`.
pub open spec fn ir_ok(g: IrGraph, model: ModelProto, req: Seq<Seq<char>>) -> bool {
    exists|shapes: Map<Seq<char>, Shape>| ir_built(g, model, req, shapes)
}

/// Index every declared value's shape, value-info entries first, then the
/// declared outputs.
#[verifier::loop_isolation(false)]
fn collect_value_shapes(model: &ModelProto) -> (r: Result<NameMap<Shape>, IrError>)
    ensures
        r matches Ok(vs) ==> shapes_collected(vs@, *model),
        r matches Err(e) ==> e matches IrError::Type(e2) && model_type_error(*model, e2),
{
    let graph = &model.graph;
    let mut value_shapes: NameMap<Shape> = NameMap::new();
    proof {
        reveal(model_type_error);
    }
    let mut i: usize = 0;
    while i < graph.value_info.len()
        invariant
            0 <= i <= graph.value_info@.len(),
            forall|n: Seq<char>| #[trigger]
                value_shapes@.contains_key(n) ==> declares_shape_of(*model, n)
                    && shape_of_some_declaration(*model, n, value_shapes@[n]),
            forall|j: int|
                0 <= j < i ==> value_shapes@.contains_key(
                    (#[trigger] graph.value_info@[j]).name@,
                ),
        decreases graph.value_info@.len() - i,
    {
        let vi = &graph.value_info[i];
        let shape = match vi.get_shape() {
            Ok(s) => s,
            Err(e) => {
                return Err(IrError::Type(e));
            }
        };
        value_shapes.insert(vi.name.clone(), shape);
        i = i + 1;
    }
    let mut i2: usize = 0;
    while i2 < graph.output.len()
        invariant
            0 <= i2 <= graph.output@.len(),
            forall|n: Seq<char>| #[trigger]
                value_shapes@.contains_key(n) ==> declares_shape_of(*model, n)
                    && shape_of_some_declaration(*model, n, value_shapes@[n]),
            forall|j: int|
                0 <= j < graph.value_info@.len() ==> value_shapes@.contains_key(
                    (#[trigger] graph.value_info@[j]).name@,
                ),
            forall|j: int|
                0 <= j < i2 && (#[trigger] graph.output@[j]).name@.len() > 0
                    ==> value_shapes@.contains_key(graph.output@[j].name@),
        decreases graph.output@.len() - i2,
    {
        let vi = &graph.output[i2];
        if !vi.name.as_str().is_empty() {
            let shape = match vi.get_shape() {
                Ok(s) => s,
                Err(e) => {
                    return Err(IrError::Type(e));
                }
            };
            value_shapes.insert(vi.name.clone(), shape);
        }
        i2 = i2 + 1;
    }
    Ok(value_shapes)
}

/// Index every operator node by each of its non-empty output names,
/// rejecting a name that two output slots declare.
#[verifier::loop_isolation(false)]
fn collect_definitions(graph: &GraphProto) -> (r: Result<NameMap<usize>, IrError>)
    ensures
        r matches Ok(defs) ==> defs_wf(graph.node@, defs@),
        r matches Err(e) ==> e matches IrError::DuplicateOutputName(n) && duplicate_node_output(
            graph.node@,
            n@,
        ),
{
    let nodes = &graph.node;
    let mut defs: NameMap<usize> = NameMap::new();
    let mut ni: usize = 0;
    while ni < nodes.len()
        invariant
            0 <= ni <= nodes@.len(),
            forall|i: int, j: int|
                0 <= i < ni && 0 <= j < nodes@[i].output@.len() && (
                #[trigger] nodes@[i].output@[j])@.len() > 0 ==> defs@.contains_key(
                    nodes@[i].output@[j]@,
                ) && defs@[nodes@[i].output@[j]@] == i,
            forall|n: Seq<char>| #[trigger]
                defs@.contains_key(n) ==> defs@[n] < nodes@.len() && n.len() > 0 && exists|j: int|
                    produces(nodes@, defs@[n] as int, j, n),
            forall|n: Seq<char>| #[trigger]
                defs@.contains_key(n) ==> exists|i: int, j: int|
                    0 <= i < ni && produces(nodes@, i, j, n),
        decreases nodes@.len() - ni,
    {
        let node = &nodes[ni];
        let mut oj: usize = 0;
        while oj < node.output.len()
            invariant
                0 <= oj <= node.output@.len(),
                forall|i: int, j: int|
                    0 <= i < ni && 0 <= j < nodes@[i].output@.len() && (
                    #[trigger] nodes@[i].output@[j])@.len() > 0 ==> defs@.contains_key(
                        nodes@[i].output@[j]@,
                    ) && defs@[nodes@[i].output@[j]@] == i,
                forall|j: int|
                    0 <= j < oj && (#[trigger] node.output@[j])@.len() > 0 ==> defs@.contains_key(
                        node.output@[j]@,
                    ) && defs@[node.output@[j]@] == ni,
                forall|n: Seq<char>| #[trigger]
                    defs@.contains_key(n) ==> defs@[n] < nodes@.len() && n.len() > 0 && exists|
                        j: int,
                    |
                        produces(nodes@, defs@[n] as int, j, n),
                forall|n: Seq<char>| #[trigger]
                    defs@.contains_key(n) ==> (exists|i: int, j: int|
                        0 <= i < ni && produces(nodes@, i, j, n)) || (exists|j: int|
                        0 <= j < oj && produces(nodes@, ni as int, j, n)),
            decreases node.output@.len() - oj,
        {
            let oname = &node.output[oj];
            if !oname.as_str().is_empty() {
                proof {
                    assert(produces(nodes@, ni as int, oj as int, oname@));
                }
                if defs.contains_key(oname) {
                    proof {
                        if exists|i: int, j: int|
                            0 <= i < ni && produces(nodes@, i, j, oname@) {
                            let (i, j) = choose|i: int, j: int|
                                0 <= i < ni && produces(nodes@, i, j, oname@);
                            assert(!(i == ni as int && j == oj as int));
                        } else {
                            let j = choose|j: int| 0 <= j < oj && produces(nodes@, ni as int, j, oname@);
                            assert(!(ni as int == ni as int && j == oj as int));
                        }
                    }
                    return Err(IrError::DuplicateOutputName(oname.clone()));
                }
                defs.insert(oname.clone(), ni);
            }
            oj = oj + 1;
        }
        ni = ni + 1;
    }
    Ok(defs)
}

/// A map that is `defs_wf` is exactly the producers map.
proof fn lemma_defs_is_producers_map(nodes: Seq<NodeProto>, defs: Map<Seq<char>, usize>)
    requires
        defs_wf(nodes, defs),
    ensures
        defs == producers_map(nodes),
        forall|n: Seq<char>| #[trigger]
            defs.contains_key(n) ==> producer_of(nodes, n) == defs[n] as int,
{
    let pm = producers_map(nodes);
    assert forall|n: Seq<char>| #[trigger] defs.contains_key(n) implies pm.contains_key(n)
        && pm[n] == defs[n] && producer_of(nodes, n) == defs[n] as int by {
        let j = choose|j: int| produces(nodes, defs[n] as int, j, n);
        assert(exists|ij: (int, int)| produces(nodes, ij.0, ij.1, n)) by {
            assert(produces(nodes, ((defs[n] as int), j).0, ((defs[n] as int), j).1, n));
        }
        let cij = choose|ij: (int, int)| produces(nodes, ij.0, ij.1, n);
        assert(produces(nodes, cij.0, cij.1, n));
        assert(producer_of(nodes, n) == cij.0);
        assert(cij.0 == defs[n] as int);
        assert(exists|i: int, j2: int| produces(nodes, i, j2, n)) by {
            assert(produces(nodes, defs[n] as int, j, n));
        }
    }
    assert forall|n: Seq<char>| #[trigger] pm.contains_key(n) implies defs.contains_key(n) by {
        let (i, j) = choose|i: int, j: int| produces(nodes, i, j, n);
        assert(defs.contains_key(nodes[i].output@[j]@));
    }
    assert(defs =~= pm);
}

/// Register every constant initializer as a zero-input constant node,
/// rejecting a name that a node or an earlier initializer already produces.
#[verifier::loop_isolation(false)]
fn register_initializers(
    model: &ModelProto,
    node_definitions_by_output: &NameMap<usize>,
    value_shapes: &NameMap<Shape>,
    ir_nodes: &mut Vec<Node>,
    nodes_by_output_names: &mut NameMap<usize>,
) -> (r: Result<(), IrError>)
    requires
        defs_wf(model.graph.node@, node_definitions_by_output@),
        old(ir_nodes)@ == Seq::<Node>::empty(),
        old(nodes_by_output_names)@ == Map::<Seq<char>, usize>::empty(),
    ensures
        r matches Ok(u) ==> {
            &&& arena_inv(
                final(ir_nodes)@,
                final(nodes_by_output_names)@,
                model.graph.node@,
                node_definitions_by_output@,
                value_shapes@,
            )
            &&& forall|n: Seq<char>| #[trigger]
                final(nodes_by_output_names)@.contains_key(n)
                    ==> !node_definitions_by_output@.contains_key(n) && is_initializer_name(
                    *model,
                    n,
                )
            &&& forall|j: int|
                0 <= j < model.graph.initializer@.len() ==> initializer_leaf(
                    final(ir_nodes)@,
                    final(nodes_by_output_names)@,
                    #[trigger] model.graph.initializer@[j],
                )
        },
        r matches Err(e) ==> match e {
            IrError::DuplicateOutputName(n) => duplicate_producer(*model, n@),
            IrError::Type(e2) => model_type_error(*model, e2),
            _ => false,
        },
{
    let graph = &model.graph;
    let ghost nodes_s = graph.node@;
    let ghost defs = node_definitions_by_output@;
    let mut ii: usize = 0;
    proof {
        reveal(model_type_error);
        reveal(duplicate_producer);
        assert(arena_inv(ir_nodes@, nodes_by_output_names@, nodes_s, defs, value_shapes@)) by {
            reveal(arena_inv);
        }
    }
    while ii < graph.initializer.len()
        invariant
            0 <= ii <= graph.initializer@.len(),
            arena_inv(ir_nodes@, nodes_by_output_names@, nodes_s, defs, value_shapes@),
            forall|n: Seq<char>| #[trigger]
                nodes_by_output_names@.contains_key(n) ==> !defs.contains_key(n)
                    && is_initializer_name(*model, n) && (exists|j: int|
                    0 <= j < ii && (#[trigger] graph.initializer@[j]).name@ == n),
            forall|j: int|
                0 <= j < ii ==> initializer_leaf(
                    ir_nodes@,
                    nodes_by_output_names@,
                    #[trigger] graph.initializer@[j],
                ),
        decreases graph.initializer@.len() - ii,
    {
        let init = &graph.initializer[ii];
        if nodes_by_output_names.contains_key(&init.name)
            || node_definitions_by_output.contains_key(&init.name) {
            proof {
                assert(graph.initializer@[ii as int].name@ == init.name@);
                if defs.contains_key(init.name@) {
                    let j = choose|j: int| produces(nodes_s, defs[init.name@] as int, j, init.name@);
                    assert(has_producer(nodes_s, init.name@)) by {
                        assert(produces(nodes_s, defs[init.name@] as int, j, init.name@));
                    }
                } else {
                    let j2 = choose|j2: int|
                        0 <= j2 < ii && (#[trigger] graph.initializer@[j2]).name@ == init.name@;
                    assert(j2 < ii as int);
                }
            }
            return Err(IrError::DuplicateOutputName(init.name.clone()));
        }
        let tensor = match to_tensor(init) {
            Ok(t) => t,
            Err(e) => {
                return Err(IrError::Type(e));
            }
        };
        let idx = ir_nodes.len();
        let ghost pre_ir = ir_nodes@;
        let ghost pre_by = nodes_by_output_names@;
        let leaf = Node::new(NodeDefinition::Tensor(tensor), Vec::new());
        proof {
            assert(node_edges_below(leaf, pre_ir.len() as int));
            lemma_arena_inv_push(pre_ir, pre_by, leaf, nodes_s, defs, value_shapes@);
        }
        ir_nodes.push(leaf);
        proof {
            assert(ir_nodes@[idx as int] == leaf);
            lemma_arena_inv_insert_leaf(
                ir_nodes@,
                pre_by,
                nodes_s,
                defs,
                value_shapes@,
                init.name@,
                idx,
            );
        }
        nodes_by_output_names.insert(init.name.clone(), idx);
        proof {
            assert forall|j: int| 0 <= j < ii + 1 implies initializer_leaf(
                ir_nodes@,
                nodes_by_output_names@,
                #[trigger] graph.initializer@[j],
            ) by {
                if j < ii {
                    lemma_initializer_leaf_mono(
                        pre_ir,
                        pre_by,
                        ir_nodes@,
                        nodes_by_output_names@,
                        graph.initializer@[j],
                    );
                }
            }
        }
        ii = ii + 1;
    }
    Ok(())
}

/// Register every declared graph input not already provided by an
/// initializer as a zero-input leaf node, rejecting a name that an operator
/// also produces.
#[verifier::loop_isolation(false)]
fn register_inputs(
    model: &ModelProto,
    node_definitions_by_output: &NameMap<usize>,
    value_shapes: &NameMap<Shape>,
    ir_nodes: &mut Vec<Node>,
    nodes_by_output_names: &mut NameMap<usize>,
) -> (r: Result<(), IrError>)
    requires
        defs_wf(model.graph.node@, node_definitions_by_output@),
        arena_inv(
            old(ir_nodes)@,
            old(nodes_by_output_names)@,
            model.graph.node@,
            node_definitions_by_output@,
            value_shapes@,
        ),
        forall|n: Seq<char>| #[trigger]
            old(nodes_by_output_names)@.contains_key(n)
                ==> !node_definitions_by_output@.contains_key(n) && is_initializer_name(*model, n),
        forall|j: int|
            0 <= j < model.graph.initializer@.len() ==> initializer_leaf(
                old(ir_nodes)@,
                old(nodes_by_output_names)@,
                #[trigger] model.graph.initializer@[j],
            ),
    ensures
        r matches Ok(u) ==> {
            &&& arena_inv(
                final(ir_nodes)@,
                final(nodes_by_output_names)@,
                model.graph.node@,
                node_definitions_by_output@,
                value_shapes@,
            )
            &&& leaves_bound(final(ir_nodes)@, final(nodes_by_output_names)@, *model)
            &&& names_accounted(final(nodes_by_output_names)@, model.graph.node@, *model)
        },
        r matches Err(e) ==> match e {
            IrError::DuplicateOutputName(n) => duplicate_producer(*model, n@),
            IrError::Type(e2) => model_type_error(*model, e2),
            _ => false,
        },
{
    let graph = &model.graph;
    let ghost nodes_s = graph.node@;
    let ghost defs = node_definitions_by_output@;
    let mut gi: usize = 0;
    proof {
        reveal(model_type_error);
        reveal(duplicate_producer);
    }
    while gi < graph.input.len()
        invariant
            0 <= gi <= graph.input@.len(),
            arena_inv(ir_nodes@, nodes_by_output_names@, nodes_s, defs, value_shapes@),
            forall|n: Seq<char>| #[trigger]
                nodes_by_output_names@.contains_key(n) ==> !defs.contains_key(n) && (
                is_initializer_name(*model, n) || (exists|j2: int|
                    0 <= j2 < gi && (#[trigger] graph.input@[j2]).name@ == n)),
            forall|j: int|
                0 <= j < graph.initializer@.len() ==> initializer_leaf(
                    ir_nodes@,
                    nodes_by_output_names@,
                    #[trigger] graph.initializer@[j],
                ),
            forall|j: int|
                0 <= j < gi ==> nodes_by_output_names@.contains_key(
                    (#[trigger] graph.input@[j]).name@,
                ),
            forall|j: int|
                0 <= j < gi && !is_initializer_name(*model, (#[trigger] graph.input@[j]).name@)
                    && (forall|j2: int|
                    0 <= j2 < j ==> (#[trigger] graph.input@[j2]).name@ != graph.input@[j].name@)
                    ==> input_leaf(ir_nodes@, nodes_by_output_names@, graph.input@[j]),
        decreases graph.input@.len() - gi,
    {
        let inp = &graph.input[gi];
        if !nodes_by_output_names.contains_key(&inp.name) {
            if node_definitions_by_output.contains_key(&inp.name) {
                proof {
                    let j = choose|j: int| produces(nodes_s, defs[inp.name@] as int, j, inp.name@);
                    assert(has_producer(nodes_s, inp.name@)) by {
                        assert(produces(nodes_s, defs[inp.name@] as int, j, inp.name@));
                    }
                    assert(is_input_name(*model, inp.name@)) by {
                        assert(graph.input@[gi as int].name@ == inp.name@);
                    }
                }
                return Err(IrError::DuplicateOutputName(inp.name.clone()));
            }
            let shape = match inp.get_shape() {
                Ok(s) => s,
                Err(e) => {
                    return Err(IrError::Type(e));
                }
            };
            let idx = ir_nodes.len();
            let ghost pre_ir = ir_nodes@;
            let ghost pre_by = nodes_by_output_names@;
            let leaf = Node::new(
                NodeDefinition::Input { name: inp.name.clone(), shape },
                Vec::new(),
            );
            proof {
                assert(node_edges_below(leaf, pre_ir.len() as int));
                lemma_arena_inv_push(pre_ir, pre_by, leaf, nodes_s, defs, value_shapes@);
            }
            ir_nodes.push(leaf);
            proof {
                assert(ir_nodes@[idx as int] == leaf);
                lemma_arena_inv_insert_leaf(
                    ir_nodes@,
                    pre_by,
                    nodes_s,
                    defs,
                    value_shapes@,
                    inp.name@,
                    idx,
                );
            }
            nodes_by_output_names.insert(inp.name.clone(), idx);
            proof {
                assert(graph.input@[gi as int].name@ == inp.name@);
                assert forall|j: int| 0 <= j < graph.initializer@.len() implies initializer_leaf(
                    ir_nodes@,
                    nodes_by_output_names@,
                    #[trigger] graph.initializer@[j],
                ) by {
                    lemma_initializer_leaf_mono(
                        pre_ir,
                        pre_by,
                        ir_nodes@,
                        nodes_by_output_names@,
                        graph.initializer@[j],
                    );
                }
                assert forall|j: int|
                    0 <= j < gi + 1 && !is_initializer_name(
                        *model,
                        (#[trigger] graph.input@[j]).name@,
                    ) && (forall|j2: int|
                        0 <= j2 < j ==> (#[trigger] graph.input@[j2]).name@
                            != graph.input@[j].name@) implies input_leaf(
                    ir_nodes@,
                    nodes_by_output_names@,
                    graph.input@[j],
                ) by {
                    if j < gi {
                        lemma_input_leaf_mono(
                            pre_ir,
                            pre_by,
                            ir_nodes@,
                            nodes_by_output_names@,
                            graph.input@[j],
                        );
                    } else {
                        assert(input_leaf(ir_nodes@, nodes_by_output_names@, graph.input@[gi as int]));
                    }
                }
            }
        } else {
            proof {
                assert(nodes_by_output_names@.contains_key(graph.input@[gi as int].name@));
            }
        }
        gi = gi + 1;
    }
    proof {
        assert(leaves_bound(ir_nodes@, nodes_by_output_names@, *model)) by {
            reveal(leaves_bound);
        }
        assert(names_accounted(nodes_by_output_names@, nodes_s, *model)) by {
            reveal(names_accounted);
            assert forall|n: Seq<char>| #[trigger]
                nodes_by_output_names@.contains_key(n) implies has_producer(nodes_s, n)
                || is_initializer_name(*model, n) || is_input_name(*model, n) by {
                if !is_initializer_name(*model, n) {
                    let j2 = choose|j2: int|
                        0 <= j2 < gi && (#[trigger] graph.input@[j2]).name@ == n;
                    assert(graph.input@[j2].name@ == n);
                }
            }
        }
    }
    Ok(())
}

/// Edge `e` points at the single node built for the requested name `n`, on
/// the output slot its producer declares the name at.
pub open spec fn root_edge_ok(
    e: Input,
    n: Seq<char>,
    by: Map<Seq<char>, usize>,
    ir_len: int,
    nodes: Seq<NodeProto>,
    defs: Map<Seq<char>, usize>,
) -> bool {
    &&& has_producer(nodes, n)
    &&& defs.contains_key(n)
    &&& by.contains_key(n)
    &&& by[n] == e.source_node
    &&& (e.source_node as int) < ir_len
    &&& e.output_index == position_of(nodes[defs[n] as int].output@, n)
}

/// The first `t` root edges are each valid for their requested name.
#[verifier::opaque]
pub open spec fn root_edges_ok(
    edges: Seq<Input>,
    names: Seq<String>,
    by: Map<Seq<char>, usize>,
    ir_len: int,
    nodes: Seq<NodeProto>,
    defs: Map<Seq<char>, usize>,
    t: int,
) -> bool {
    forall|u: int|
        0 <= u < t ==> root_edge_ok(#[trigger] edges[u], names[u]@, by, ir_len, nodes, defs)
}

/// Appending one more valid root edge keeps the root edges valid, also
/// after the arena grows and new names are bound.
proof fn lemma_root_edges_extend(
    edges: Seq<Input>,
    names: Seq<String>,
    by1: Map<Seq<char>, usize>,
    by2: Map<Seq<char>, usize>,
    len1: int,
    len2: int,
    nodes: Seq<NodeProto>,
    defs: Map<Seq<char>, usize>,
    t: int,
    e: Input,
)
    requires
        root_edges_ok(edges, names, by1, len1, nodes, defs, t),
        0 <= t,
        t + 1 <= names.len(),
        edges.len() == t,
        by1.submap_of(by2),
        len1 <= len2,
        has_producer(nodes, names[t]@),
        defs.contains_key(names[t]@),
        by2.contains_key(names[t]@),
        by2[names[t]@] == e.source_node,
        (e.source_node as int) < len2,
        e.output_index == position_of(nodes[defs[names[t]@] as int].output@, names[t]@),
    ensures
        root_edges_ok(edges.push(e), names, by2, len2, nodes, defs, t + 1),
{
    reveal(root_edges_ok);
    let edges2 = edges.push(e);
    assert forall|u: int| 0 <= u < t + 1 implies root_edge_ok(
        #[trigger] edges2[u],
        names[u]@,
        by2,
        len2,
        nodes,
        defs,
    ) by {
        if u < t {
            assert(edges2[u] == edges[u]);
            assert(root_edge_ok(edges[u], names[u]@, by1, len1, nodes, defs));
            assert(by1.dom().contains(names[u]@));
            assert(by2.dom().contains(names[u]@));
        } else {
            assert(edges2[u] == e);
        }
    }
}

/// Build the producer of each requested output and return the root's
/// edges, one per requested name, each wired to the single node built for
/// that name.
#[verifier::loop_isolation(false)]
#[verifier::rlimit(100)]
fn build_output_edges(
    model: &ModelProto,
    output_names: &Vec<String>,
    value_shapes: &NameMap<Shape>,
    node_definitions_by_output: &NameMap<usize>,
    ir_nodes: &mut Vec<Node>,
    nodes_by_output_names: &mut NameMap<usize>,
) -> (r: Result<Vec<Input>, IrError>)
    requires
        defs_wf(model.graph.node@, node_definitions_by_output@),
        shapes_collected(value_shapes@, *model),
        arena_inv(
            old(ir_nodes)@,
            old(nodes_by_output_names)@,
            model.graph.node@,
            node_definitions_by_output@,
            value_shapes@,
        ),
        leaves_bound(old(ir_nodes)@, old(nodes_by_output_names)@, *model),
        names_accounted(old(nodes_by_output_names)@, model.graph.node@, *model),
    ensures
        r matches Ok(edges) ==> {
            &&& edges@.len() == output_names@.len()
            &&& arena_inv(
                final(ir_nodes)@,
                final(nodes_by_output_names)@,
                model.graph.node@,
                node_definitions_by_output@,
                value_shapes@,
            )
            &&& leaves_bound(final(ir_nodes)@, final(nodes_by_output_names)@, *model)
            &&& names_accounted(final(nodes_by_output_names)@, model.graph.node@, *model)
            &&& root_edges_ok(
                edges@,
                output_names@,
                final(nodes_by_output_names)@,
                final(ir_nodes)@.len() as int,
                model.graph.node@,
                node_definitions_by_output@,
                output_names@.len() as int,
            )
        },
        r matches Err(e) ==> model_build_error(
            e,
            *model,
            output_names@.map_values(|s: String| s@),
        ),
{
    let graph = &model.graph;
    let ghost nodes_s = graph.node@;
    let ghost defs = node_definitions_by_output@;
    let ghost req = output_names@.map_values(|s: String| s@);
    let mut root_inputs: Vec<Input> = Vec::new();
    let mut visiting: Vec<usize> = Vec::new();
    let fuel = graph.node.len();
    let mut t: usize = 0;
    proof {
        assert(root_edges_ok(
            root_inputs@,
            output_names@,
            nodes_by_output_names@,
            ir_nodes@.len() as int,
            nodes_s,
            defs,
            0,
        )) by {
            reveal(root_edges_ok);
        }
    }
    while t < output_names.len()
        invariant
            0 <= t <= output_names@.len(),
            root_inputs@.len() == t,
            visiting@ == Seq::<usize>::empty(),
            arena_inv(ir_nodes@, nodes_by_output_names@, nodes_s, defs, value_shapes@),
            leaves_bound(ir_nodes@, nodes_by_output_names@, *model),
            names_accounted(nodes_by_output_names@, nodes_s, *model),
            root_edges_ok(
                root_inputs@,
                output_names@,
                nodes_by_output_names@,
                ir_nodes@.len() as int,
                nodes_s,
                defs,
                t as int,
            ),
        decreases output_names@.len() - t,
    {
        let output_name = &output_names[t];
        let found = node_definitions_by_output.get(output_name);
        let source_index = match found {
            Some(s) => *s,
            None => {
                let err = IrError::OutputNodeNotFound(output_name.clone());
                proof {
                    assert(req[t as int] == output_name@);
                    assert(req.contains(output_name@));
                    if has_producer(nodes_s, output_name@) {
                        let (i, j) = choose|i: int, j: int| produces(nodes_s, i, j, output_name@);
                        assert(defs.contains_key(nodes_s[i].output@[j]@));
                    }
                    assert(model_build_error(err, *model, req)) by {
                        reveal(model_build_error);
                    }
                }
                return Err(err);
            }
        };
        let ghost pre_ir = ir_nodes@;
        let ghost pre_by = nodes_by_output_names@;
        proof {
            let j = choose|j: int| produces(nodes_s, source_index as int, j, output_name@);
            assert(nodes_s[source_index as int].output@.len() > 0);
            assert(consume_chain(nodes_s, visiting@.push(source_index)));
        }
        let result = Node::from_node(
            &graph.node,
            source_index,
            value_shapes,
            node_definitions_by_output,
            ir_nodes,
            nodes_by_output_names,
            &mut visiting,
            fuel,
        );
        let src = match result {
            Ok(s) => s,
            Err(e) => {
                proof {
                    assert(model_build_error(e, *model, req)) by {
                        reveal(model_build_error);
                        reveal(model_type_error);
                        match &e {
                            IrError::OutputNodeNotFound(n) => {
                                let (i, j) = choose|i: int, j: int|
                                    0 <= i < nodes_s.len() && 0 <= j < nodes_s[i].output@.len() && (
                                    #[trigger] nodes_s[i].output@[j])@ == n@
                                        && !value_shapes@.contains_key(n@);
                                assert(!declares_shape_of(*model, n@));
                            }
                            IrError::InputNodeNotFound { target_node_name, input_name } => {
                                let (i, k) = choose|i: int, k: int|
                                    0 <= i < nodes_s.len() && 0 <= k < nodes_s[i].input@.len() && (
                                    #[trigger] nodes_s[i].input@[k])@ == input_name@
                                        && input_name@.len() > 0 && !defs.contains_key(input_name@)
                                        && !nodes_by_output_names@.contains_key(input_name@)
                                        && target_node_name@ == nodes_s[i].name@;
                                assert(!has_producer(nodes_s, input_name@)) by {
                                    if has_producer(nodes_s, input_name@) {
                                        let (i2, j2) = choose|i2: int, j2: int|
                                            produces(nodes_s, i2, j2, input_name@);
                                        assert(defs.contains_key(nodes_s[i2].output@[j2]@));
                                    }
                                }
                                assert(!is_initializer_name(*model, input_name@)
                                    && !is_input_name(*model, input_name@)) by {
                                    reveal(leaves_bound);
                                    if is_initializer_name(*model, input_name@) {
                                        let j2 = choose|j2: int|
                                            0 <= j2 < graph.initializer@.len() && (
                                            #[trigger] graph.initializer@[j2]).name@ == input_name@;
                                        assert(initializer_leaf(
                                            pre_ir,
                                            pre_by,
                                            graph.initializer@[j2],
                                        ));
                                        assert(pre_by.dom().contains(input_name@));
                                        assert(nodes_by_output_names@.dom().contains(input_name@));
                                    }
                                    if is_input_name(*model, input_name@) {
                                        let j2 = choose|j2: int|
                                            0 <= j2 < graph.input@.len() && (
                                            #[trigger] graph.input@[j2]).name@ == input_name@;
                                        assert(pre_by.contains_key(graph.input@[j2].name@));
                                        assert(pre_by.dom().contains(input_name@));
                                        assert(nodes_by_output_names@.dom().contains(input_name@));
                                    }
                                }
                            }
                            _ => {}
                        }
                    }
                }
                return Err(e);
            }
        };
        let producer = &graph.node[source_index];
        let oi_pos = match position_in_names(&producer.output, output_name) {
            Some(p) => p,
            None => {
                // unreachable: the producer index came from the output-name
                // index
                proof {
                    let j = choose|j: int| produces(nodes_s, source_index as int, j, output_name@);
                    assert(false);
                }
                return Err(IrError::OutputNodeNotFound(output_name.clone()));
            }
        };
        let ghost pre_edges = root_inputs@;
        root_inputs.push(Input { source_node: src, output_index: oi_pos });
        proof {
            let j = choose|j: int| produces(nodes_s, source_index as int, j, output_name@);
            assert(nodes_by_output_names@.contains_key(output_name@)
                && nodes_by_output_names@[output_name@] == src);
            assert(has_producer(nodes_s, output_name@)) by {
                assert(produces(nodes_s, source_index as int, j, output_name@));
            }
            lemma_leaves_bound_mono(pre_ir, pre_by, ir_nodes@, nodes_by_output_names@, *model);
            lemma_names_accounted_grow(
                pre_by,
                nodes_by_output_names@,
                nodes_s,
                defs,
                *model,
            );
            lemma_root_edges_extend(
                pre_edges,
                output_names@,
                pre_by,
                nodes_by_output_names@,
                pre_ir.len() as int,
                ir_nodes@.len() as int,
                nodes_s,
                defs,
                t as int,
                Input { source_node: src, output_index: oi_pos },
            );
            assert(root_inputs@ == pre_edges.push(Input { source_node: src, output_index: oi_pos }));
        }
        t = t + 1;
    }
    Ok(root_inputs)
}

impl Node {
    /// Construct the intermediate representation graph that computes the
    /// requested outputs — all of the model's declared outputs when
    /// `outputs` is `None`. Only nodes reachable from the requested outputs
    /// are visited or allocated, every value name gets exactly one node,
    /// and a model with a duplicate producer, a dangling input, a
    /// consumption cycle or an invalid declaration is rejected with an
    /// error naming the defect.
        #[verifier::loop_isolation(false)]
    #[verifier::rlimit(100)]
    pub fn from_model(model: &ModelProto, outputs: Option<&Vec<String>>) -> (r: Result<
        IrGraph,
        IrError,
    >)
        ensures
            r matches Ok(g) ==> ir_ok(g, *model, requested_names(*model, outputs)),
            r matches Err(e) ==> model_build_error(e, *model, requested_names(*model, outputs)),
    {
        let graph = &model.graph;
        let ghost nodes_s = graph.node@;
        let ghost req = requested_names(*model, outputs);

        // Index every declared value's shape.
        let value_shapes = match collect_value_shapes(model) {
            Ok(vs) => vs,
            Err(e) => {
                proof {
                    assert(model_build_error(e, *model, req)) by {
                        reveal(model_build_error);
                    }
                }
                return Err(e);
            }
        };

        // Index every operator by each of its output names, enforcing one
        // producer per name.
        let node_definitions_by_output = match collect_definitions(graph) {
            Ok(d) => d,
            Err(e) => {
                proof {
                    assert(model_build_error(e, *model, req)) by {
                        reveal(model_build_error);
                        reveal(duplicate_producer);
                    }
                }
                return Err(e);
            }
        };
        let ghost defs = node_definitions_by_output@;

        // Translate initializers and inputs into leaf nodes.
        let mut ir_nodes: Vec<Node> = Vec::new();
        let mut nodes_by_output_names: NameMap<usize> = NameMap::new();
        match register_initializers(
            model,
            &node_definitions_by_output,
            &value_shapes,
            &mut ir_nodes,
            &mut nodes_by_output_names,
        ) {
            Ok(_) => {}
            Err(e) => {
                proof {
                    assert(model_build_error(e, *model, req)) by {
                        reveal(model_build_error);
                    }
                }
                return Err(e);
            }
        }
        match register_inputs(
            model,
            &node_definitions_by_output,
            &value_shapes,
            &mut ir_nodes,
            &mut nodes_by_output_names,
        ) {
            Ok(_) => {}
            Err(e) => {
                proof {
                    assert(model_build_error(e, *model, req)) by {
                        reveal(model_build_error);
                    }
                }
                return Err(e);
            }
        }

        // The names of the outputs to realize.
        let output_names: Vec<String> = match outputs {
            Option::Some(v) => clone_strings(v),
            Option::None => {
                let mut names: Vec<String> = Vec::new();
                let mut c: usize = 0;
                while c < graph.output.len()
                    invariant
                        0 <= c <= graph.output@.len(),
                        names@.len() == c,
                        forall|u: int|
                            0 <= u < c ==> (#[trigger] names@[u])@ == graph.output@[u].name@,
                    decreases graph.output@.len() - c,
                {
                    names.push(graph.output[c].name.clone());
                    c = c + 1;
                }
                names
            }
        };
        proof {
            assert(output_names@.len() == req.len());
            assert(output_names@.map_values(|s: String| s@) =~= req);
        }

        // Build each requested output's producer and wire the root edges.
        let root_inputs = match build_output_edges(
            model,
            &output_names,
            &value_shapes,
            &node_definitions_by_output,
            &mut ir_nodes,
            &mut nodes_by_output_names,
        ) {
            Ok(edges) => edges,
            Err(e) => {
                proof {
                    assert(output_names@.map_values(|s: String| s@) == req);
                }
                return Err(e);
            }
        };

        // The synthetic root collects the requested outputs.
        let root = ir_nodes.len();
        let ghost names_v = output_names@;
        let ghost edges_v = root_inputs@;
        let root_node = Node::new(NodeDefinition::Outputs { names: output_names }, root_inputs);
        let ghost pre_ir = ir_nodes@;
        proof {
            assert(node_edges_below(root_node, pre_ir.len() as int)) by {
                reveal(root_edges_ok);
            }
            lemma_arena_inv_push(
                pre_ir,
                nodes_by_output_names@,
                root_node,
                nodes_s,
                defs,
                value_shapes@,
            );
        }
        ir_nodes.push(root_node);
        let g = IrGraph { nodes: ir_nodes, by_name: nodes_by_output_names, root };
        proof {
            assert(g.nodes@[g.root as int] == root_node);
            lemma_arena_inv_unpack(g.nodes@, g.by_name@, nodes_s, defs, value_shapes@);
            assert(g.wf());
            assert forall|u: int| 0 <= u < req.len() implies requested_edge_ok(
                g,
                *model,
                req,
                u,
            ) by {
                reveal(root_edges_ok);
                lemma_defs_is_producers_map(nodes_s, defs);
                assert(g.nodes@[g.root as int].inputs@[u] == edges_v[u]);
                assert(names_v[u]@ == req[u]);
                assert(defs.contains_key(names_v[u]@));
                assert(producer_of(nodes_s, names_v[u]@) == defs[names_v[u]@] as int);
            }
            assert(g.by_name@.submap_of(g.by_name@));
            lemma_leaves_bound_mono(pre_ir, g.by_name@, g.nodes@, g.by_name@, *model);
            assert(ir_built(g, *model, req, value_shapes@)) by {
                reveal(ir_built);
                lemma_defs_is_producers_map(nodes_s, defs);
            }
        }
        Ok(g)
    }
}

/// The producer a name resolves to lies inside the node list and really
/// produces the name.
proof fn lemma_producer_of_in_range(nodes: Seq<NodeProto>, n: Seq<char>)
    requires
        has_producer(nodes, n),
    ensures
        0 <= producer_of(nodes, n) < nodes.len(),
        exists|j: int| produces(nodes, producer_of(nodes, n), j, n),
{
    let (i, j) = choose|i: int, j: int| produces(nodes, i, j, n);
    assert(exists|ij: (int, int)| produces(nodes, ij.0, ij.1, n)) by {
        assert(produces(nodes, (i, j).0, (i, j).1, n));
    }
    let cij = choose|ij: (int, int)| produces(nodes, ij.0, ij.1, n);
    assert(produces(nodes, cij.0, cij.1, n));
}

/// In a built graph, every consumer of a given non-empty value name is
/// wired to one and the same node: the builder allocates exactly one node
/// per output name and shares it across all consumers. Here the two
/// consumers are the (translated) producers of the names `o1` and `o2`,
/// consuming the shared name `n` at input slots `a1` and `a2`.
pub proof fn lemma_shared_input_single_node(
    g: IrGraph,
    model: ModelProto,
    req: Seq<Seq<char>>,
    shapes: Map<Seq<char>, Shape>,
    o1: Seq<char>,
    o2: Seq<char>,
    a1: int,
    a2: int,
    n: Seq<char>,
)
    requires
        ir_built(g, model, req, shapes),
        g.by_name@.contains_key(o1),
        has_producer(model.graph.node@, o1),
        g.by_name@.contains_key(o2),
        has_producer(model.graph.node@, o2),
        0 <= a1 < model.graph.node@[producer_of(model.graph.node@, o1)].input@.len(),
        model.graph.node@[producer_of(model.graph.node@, o1)].input@[a1]@ == n,
        0 <= a2 < model.graph.node@[producer_of(model.graph.node@, o2)].input@.len(),
        model.graph.node@[producer_of(model.graph.node@, o2)].input@[a2]@ == n,
        n.len() > 0,
    ensures
        g.nodes@[g.by_name@[o1] as int].inputs@[a1].source_node == g.nodes@[g.by_name@[o2] as int].inputs@[a2].source_node,
        g.by_name@.contains_key(n),
        g.nodes@[g.by_name@[o1] as int].inputs@[a1].source_node == g.by_name@[n],
{
    reveal(ir_built);
    reveal(arena_inv);
    reveal(op_node_matches);
    let nodes = model.graph.node@;
    let defs = producers_map(nodes);
    let by = g.by_name@;
    lemma_producer_of_in_range(nodes, o1);
    lemma_producer_of_in_range(nodes, o2);
    assert(defs.contains_key(o1) && defs[o1] as int == producer_of(nodes, o1));
    assert(defs.contains_key(o2) && defs[o2] as int == producer_of(nodes, o2));
    assert(op_node_matches(
        g.nodes@[by[o1] as int],
        nodes[defs[o1] as int],
        g.nodes@,
        by,
        nodes,
        defs,
        shapes,
    ));
    assert(op_node_matches(
        g.nodes@[by[o2] as int],
        nodes[defs[o2] as int],
        g.nodes@,
        by,
        nodes,
        defs,
        shapes,
    ));
    assert(edge_matches(g.nodes@[by[o1] as int].inputs@[a1], n, g.nodes@, by, nodes, defs));
    assert(edge_matches(g.nodes@[by[o2] as int].inputs@[a2], n, g.nodes@, by, nodes, defs));
}

/// Proto node `path[0]` produces one of the requested outputs, and each
/// node of `path` consumes — through a non-empty input name — an output of
/// the next, so every node of `path` is reachable from the requested
/// outputs.
pub open spec fn reachable_chain(model: ModelProto, req: Seq<Seq<char>>, path: Seq<usize>) -> bool {
    let nodes = model.graph.node@;
    &&& path.len() >= 1
    &&& forall|k: int| 0 <= k < path.len() ==> (#[trigger] path[k]) < nodes.len()
    &&& exists|u: int|
        0 <= u < req.len() && has_producer(nodes, #[trigger] req[u]) && producer_of(
            nodes,
            req[u],
        ) == path[0]
    &&& consume_chain(nodes, path)
}

/// Every node on a reachable chain of a built graph has been translated:
/// some name it is the producer of is bound in the arena.
proof fn lemma_chain_node_translated(
    g: IrGraph,
    model: ModelProto,
    req: Seq<Seq<char>>,
    shapes: Map<Seq<char>, Shape>,
    path: Seq<usize>,
    t: int,
)
    requires
        ir_built(g, model, req, shapes),
        reachable_chain(model, req, path),
        0 <= t < path.len(),
    ensures
        exists|o: Seq<char>|
            #[trigger] g.by_name@.contains_key(o) && has_producer(model.graph.node@, o)
                && producer_of(model.graph.node@, o) == path[t],
    decreases t,
{
    let nodes = model.graph.node@;
    let defs = producers_map(nodes);
    let by = g.by_name@;
    if t == 0 {
        reveal(ir_built);
        let u = choose|u: int|
            0 <= u < req.len() && has_producer(nodes, #[trigger] req[u]) && producer_of(
                nodes,
                req[u],
            ) == path[0];
        assert(requested_edge_ok(g, model, req, u));
        assert(by.contains_key(req[u]));
    } else {
        lemma_chain_node_translated(g, model, req, shapes, path, t - 1);
        let o = choose|o: Seq<char>|
            #[trigger] by.contains_key(o) && has_producer(nodes, o) && producer_of(nodes, o)
                == path[t - 1];
        reveal(ir_built);
        reveal(arena_inv);
        reveal(op_node_matches);
        lemma_producer_of_in_range(nodes, o);
        assert(defs.contains_key(o) && defs[o] as int == path[t - 1]);
        let nd = g.nodes@[by[o] as int];
        assert(op_node_matches(nd, nodes[path[t - 1] as int], g.nodes@, by, nodes, defs, shapes));
        // the consumed edge between path[t - 1] and path[t]
        assert(consumes(nodes, path[t - 1] as int, path[t] as int));
        let (k, j) = choose|k: int, j: int|
            0 <= k < nodes[path[t - 1] as int].input@.len() && 0 <= j < nodes[path[t] as int].output@.len()
                && (#[trigger] nodes[path[t - 1] as int].input@[k])@ == (
            #[trigger] nodes[path[t] as int].output@[j])@ && nodes[path[t - 1] as int].input@[k]@.len()
                > 0;
        let m = nodes[path[t - 1] as int].input@[k]@;
        assert(edge_matches(nd.inputs@[k], m, g.nodes@, by, nodes, defs));
        assert(by.contains_key(m));
        assert(produces(nodes, path[t] as int, j, m));
        assert(has_producer(nodes, m)) by {
            assert(produces(nodes, path[t] as int, j, m));
        }
        assert(defs.contains_key(m) && defs[m] == path[t]);
        lemma_producer_of_in_range(nodes, m);
        assert(producer_of(nodes, m) == path[t] as int) by {
            let j2 = choose|j2: int| produces(nodes, producer_of(nodes, m), j2, m);
            assert(defs[m] as int == producer_of(nodes, m));
        }
    }
}

/// A graph whose reachable operator references a non-existent, non-empty
/// input name is never built: no built IR exists for such a model, so
/// construction must fail — the name is never treated as optional.
pub proof fn lemma_dangling_input_never_built(
    g: IrGraph,
    model: ModelProto,
    req: Seq<Seq<char>>,
    shapes: Map<Seq<char>, Shape>,
    path: Seq<usize>,
    k: int,
)
    requires
        reachable_chain(model, req, path),
        0 <= k < model.graph.node@[path.last() as int].input@.len(),
        model.graph.node@[path.last() as int].input@[k]@.len() > 0,
        !has_producer(model.graph.node@, model.graph.node@[path.last() as int].input@[k]@),
        !is_initializer_name(model, model.graph.node@[path.last() as int].input@[k]@),
        !is_input_name(model, model.graph.node@[path.last() as int].input@[k]@),
    ensures
        !ir_built(g, model, req, shapes),
{
    if ir_built(g, model, req, shapes) {
        let nodes = model.graph.node@;
        let defs = producers_map(nodes);
        let by = g.by_name@;
        let n = nodes[path.last() as int].input@[k]@;
        lemma_chain_node_translated(g, model, req, shapes, path, path.len() - 1);
        let o = choose|o: Seq<char>|
            #[trigger] by.contains_key(o) && has_producer(nodes, o) && producer_of(nodes, o)
                == path.last();
        reveal(ir_built);
        reveal(arena_inv);
        reveal(op_node_matches);
        lemma_producer_of_in_range(nodes, o);
        assert(defs.contains_key(o) && defs[o] as int == path.last());
        let nd = g.nodes@[by[o] as int];
        assert(op_node_matches(nd, nodes[path.last() as int], g.nodes@, by, nodes, defs, shapes));
        assert(edge_matches(nd.inputs@[k], n, g.nodes@, by, nodes, defs));
        assert(by.contains_key(n));
        assert(has_producer(nodes, n) || is_initializer_name(model, n) || is_input_name(model, n))
            by {
            reveal(names_accounted);
        }
    }
}

/// Prefixes compose.
proof fn lemma_prefix_trans(a: Seq<Node>, b: Seq<Node>, c: Seq<Node>)
    requires
        a.is_prefix_of(b),
        b.is_prefix_of(c),
    ensures
        a.is_prefix_of(c),
{
    assert(a =~= c.subrange(0, a.len() as int));
}

/// Submaps compose.
proof fn lemma_submap_trans(
    a: Map<Seq<char>, usize>,
    b: Map<Seq<char>, usize>,
    c: Map<Seq<char>, usize>,
)
    requires
        a.submap_of(b),
        b.submap_of(c),
    ensures
        a.submap_of(c),
{
    vstd::map_lib::lemma_submap_of_trans(a, b, c);
}

/// Copy a vector of names.
#[verifier::loop_isolation(false)]
fn clone_strings(v: &Vec<String>) -> (r: Vec<String>)
    ensures
        r@ == v@,
{
    let mut r: Vec<String> = Vec::new();
    let mut i: usize = 0;
    while i < v.len()
        invariant
            0 <= i <= v@.len(),
            r@.len() == i,
            forall|k: int| 0 <= k < i ==> #[trigger] r@[k] == v@[k],
        decreases v@.len() - i,
    {
        r.push(v[i].clone());
        i = i + 1;
    }
    proof {
        assert(r@ =~= v@);
    }
    r
}

} // verus!
