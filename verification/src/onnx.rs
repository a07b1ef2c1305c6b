//! A plain-value model of the interchange format's graph messages: operator
//! nodes, constant initializers, declared value types and shapes, attributes
//! and the operator-set imports. Decoding the byte format itself is an
//! external collaborator's job; this crate works on the decoded values.
//!
//! Names mirror the interchange schema's message names so that code handling
//! them reads like the schema.
#![allow(non_camel_case_types)]
use vstd::prelude::*;

verus! {

/// The interchange format's scalar data-type codes.
#[derive(Clone, Copy, PartialEq, Eq, Structural, Debug)]
pub enum TensorProto_DataType {
    UNDEFINED,
    FLOAT,
    UINT8,
    INT8,
    UINT16,
    INT16,
    INT32,
    INT64,
    STRING,
    BOOL,
    FLOAT16,
    DOUBLE,
    UINT32,
    UINT64,
    COMPLEX64,
    COMPLEX128,
    BFLOAT16,
}

impl TensorProto_DataType {
    /// The wire code of this data type.
    pub open spec fn spec_value(self) -> i32 {
        match self {
            TensorProto_DataType::UNDEFINED => 0,
            TensorProto_DataType::FLOAT => 1,
            TensorProto_DataType::UINT8 => 2,
            TensorProto_DataType::INT8 => 3,
            TensorProto_DataType::UINT16 => 4,
            TensorProto_DataType::INT16 => 5,
            TensorProto_DataType::INT32 => 6,
            TensorProto_DataType::INT64 => 7,
            TensorProto_DataType::STRING => 8,
            TensorProto_DataType::BOOL => 9,
            TensorProto_DataType::FLOAT16 => 10,
            TensorProto_DataType::DOUBLE => 11,
            TensorProto_DataType::UINT32 => 12,
            TensorProto_DataType::UINT64 => 13,
            TensorProto_DataType::COMPLEX64 => 14,
            TensorProto_DataType::COMPLEX128 => 15,
            TensorProto_DataType::BFLOAT16 => 16,
        }
    }

    pub fn value(&self) -> (r: i32)
        ensures
            r == self.spec_value(),
    {
        match self {
            TensorProto_DataType::UNDEFINED => 0,
            TensorProto_DataType::FLOAT => 1,
            TensorProto_DataType::UINT8 => 2,
            TensorProto_DataType::INT8 => 3,
            TensorProto_DataType::UINT16 => 4,
            TensorProto_DataType::INT16 => 5,
            TensorProto_DataType::INT32 => 6,
            TensorProto_DataType::INT64 => 7,
            TensorProto_DataType::STRING => 8,
            TensorProto_DataType::BOOL => 9,
            TensorProto_DataType::FLOAT16 => 10,
            TensorProto_DataType::DOUBLE => 11,
            TensorProto_DataType::UINT32 => 12,
            TensorProto_DataType::UINT64 => 13,
            TensorProto_DataType::COMPLEX64 => 14,
            TensorProto_DataType::COMPLEX128 => 15,
            TensorProto_DataType::BFLOAT16 => 16,
        }
    }

    /// The data type a wire code denotes, if any.
    pub open spec fn spec_from_i32(value: i32) -> Option<TensorProto_DataType> {
        if value == 0 {
            Some(TensorProto_DataType::UNDEFINED)
        } else if value == 1 {
            Some(TensorProto_DataType::FLOAT)
        } else if value == 2 {
            Some(TensorProto_DataType::UINT8)
        } else if value == 3 {
            Some(TensorProto_DataType::INT8)
        } else if value == 4 {
            Some(TensorProto_DataType::UINT16)
        } else if value == 5 {
            Some(TensorProto_DataType::INT16)
        } else if value == 6 {
            Some(TensorProto_DataType::INT32)
        } else if value == 7 {
            Some(TensorProto_DataType::INT64)
        } else if value == 8 {
            Some(TensorProto_DataType::STRING)
        } else if value == 9 {
            Some(TensorProto_DataType::BOOL)
        } else if value == 10 {
            Some(TensorProto_DataType::FLOAT16)
        } else if value == 11 {
            Some(TensorProto_DataType::DOUBLE)
        } else if value == 12 {
            Some(TensorProto_DataType::UINT32)
        } else if value == 13 {
            Some(TensorProto_DataType::UINT64)
        } else if value == 14 {
            Some(TensorProto_DataType::COMPLEX64)
        } else if value == 15 {
            Some(TensorProto_DataType::COMPLEX128)
        } else if value == 16 {
            Some(TensorProto_DataType::BFLOAT16)
        } else {
            None
        }
    }

    pub fn from_i32(value: i32) -> (r: Option<TensorProto_DataType>)
        ensures
            r == TensorProto_DataType::spec_from_i32(value),
    {
        match value {
            0 => Some(TensorProto_DataType::UNDEFINED),
            1 => Some(TensorProto_DataType::FLOAT),
            2 => Some(TensorProto_DataType::UINT8),
            3 => Some(TensorProto_DataType::INT8),
            4 => Some(TensorProto_DataType::UINT16),
            5 => Some(TensorProto_DataType::INT16),
            6 => Some(TensorProto_DataType::INT32),
            7 => Some(TensorProto_DataType::INT64),
            8 => Some(TensorProto_DataType::STRING),
            9 => Some(TensorProto_DataType::BOOL),
            10 => Some(TensorProto_DataType::FLOAT16),
            11 => Some(TensorProto_DataType::DOUBLE),
            12 => Some(TensorProto_DataType::UINT32),
            13 => Some(TensorProto_DataType::UINT64),
            14 => Some(TensorProto_DataType::COMPLEX64),
            15 => Some(TensorProto_DataType::COMPLEX128),
            16 => Some(TensorProto_DataType::BFLOAT16),
            _ => None,
        }
    }
}

/// A constant tensor: a name, a data-type code, dimensions, and the data in
/// either a typed array or a raw little-endian byte buffer. Float elements
/// are carried as IEEE-754 bit patterns.
pub struct TensorProto {
    pub name: String,
    pub data_type: i32,
    pub dims: Vec<i64>,
    pub float_data: Vec<u32>,
    pub int32_data: Vec<i32>,
    pub int64_data: Vec<i64>,
    pub raw_data: Vec<u8>,
}

impl TensorProto {
    /// An empty tensor message with every field at its default.
    pub fn new() -> (r: TensorProto)
        ensures
            r.name@ == Seq::<char>::empty(),
            r.data_type == 0,
            r.dims@ == Seq::<i64>::empty(),
            r.float_data@ == Seq::<u32>::empty(),
            r.int32_data@ == Seq::<i32>::empty(),
            r.int64_data@ == Seq::<i64>::empty(),
            r.raw_data@ == Seq::<u8>::empty(),
    {
        TensorProto {
            name: String::new(),
            data_type: 0,
            dims: Vec::new(),
            float_data: Vec::new(),
            int32_data: Vec::new(),
            int64_data: Vec::new(),
            raw_data: Vec::new(),
        }
    }
}

/// One dimension of a declared tensor shape: a fixed size or a symbolic
/// parameter name.
pub enum TensorShapeProto_Dimension {
    Value(i64),
    Param(String),
}

/// A declared tensor shape: an ordered list of dimensions.
pub struct TensorShapeProto {
    pub dim: Vec<TensorShapeProto_Dimension>,
}

/// A declared tensor type: an element-type code plus a shape.
pub struct TypeProto_Tensor {
    pub elem_type: i32,
    pub shape: TensorShapeProto,
}

/// A declared value type. Only tensor types are modeled; a missing value
/// means the type was left undefined.
pub struct TypeProto {
    pub tensor_type: Option<TypeProto_Tensor>,
}

/// A named value together with its declared type.
pub struct ValueInfoProto {
    pub name: String,
    pub field_type: TypeProto,
}

/// The attribute kinds the engine understands.
#[derive(Clone, Copy, PartialEq, Eq, Structural, Debug)]
pub enum AttributeProto_AttributeType {
    FLOAT,
    INT,
    STRING,
    TENSOR,
    FLOATS,
    INTS,
}

/// A named operator attribute. As in the wire format, one field per kind is
/// populated and `field_type` says which one is meant; floats are carried as
/// IEEE-754 bit patterns.
pub struct AttributeProto {
    pub name: String,
    pub field_type: AttributeProto_AttributeType,
    pub f: u32,
    pub i: i64,
    pub s: String,
    pub t: TensorProto,
    pub floats: Vec<u32>,
    pub ints: Vec<i64>,
}

/// An operator application: its type tag, its named inputs and outputs, and
/// its attributes.
pub struct NodeProto {
    pub name: String,
    pub op_type: String,
    pub input: Vec<String>,
    pub output: Vec<String>,
    pub attribute: Vec<AttributeProto>,
}

/// A computation graph: operator nodes, graph inputs and outputs, declared
/// value shapes, and constant initializers.
pub struct GraphProto {
    pub node: Vec<NodeProto>,
    pub input: Vec<ValueInfoProto>,
    pub output: Vec<ValueInfoProto>,
    pub value_info: Vec<ValueInfoProto>,
    pub initializer: Vec<TensorProto>,
}

/// A reference to an operator set: a domain and a version within it.
pub struct OperatorSetIdProto {
    pub domain: String,
    pub version: i64,
}

/// A model: a graph plus the operator sets it imports.
pub struct ModelProto {
    pub graph: GraphProto,
    pub opset_import: Vec<OperatorSetIdProto>,
}

} // verus!
