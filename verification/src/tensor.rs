//! The tensor/type model: scalar types, shapes, and typed data buffers.
//!
//! 32-bit float payloads are carried as their IEEE-754 bit patterns (`u32`);
//! the engine never computes with them, it only moves them around.
use vstd::prelude::*;

verus! {

/// The scalar element types the engine supports.
#[derive(Clone, Copy, PartialEq, Eq, Structural, Debug)]
pub enum ScalarType {
    F32,
    I32,
    I64,
    U8,
}

impl ScalarType {
    /// Size in bytes of one element of this type.
    pub open spec fn spec_stride(self) -> nat {
        match self {
            ScalarType::F32 => 4,
            ScalarType::I32 => 4,
            ScalarType::I64 => 8,
            ScalarType::U8 => 1,
        }
    }

    /// Size in bytes of one element of this type.
    pub fn stride(&self) -> (r: usize)
        ensures
            r == self.spec_stride(),
    {
        match self {
            ScalarType::F32 => 4,
            ScalarType::I32 => 4,
            ScalarType::I64 => 8,
            ScalarType::U8 => 1,
        }
    }
}

/// Errors raised while interpreting declared types, shapes and data buffers.
#[derive(PartialEq, Eq, Debug)]
pub enum DataTypeError {
    /// The data-type code is not a code of the interchange format at all.
    NotRecognized(i32),
    /// The data-type code is valid in the interchange format, but the engine
    /// does not support it.
    NotSupported(i32),
    /// A dimension is given symbolically instead of as a fixed size.
    ParametrizedDimensionUnsupported(String),
    /// No type was declared for a value.
    Undefined,
    /// A raw data buffer's byte length is not a multiple of the element size
    /// of its declared scalar type.
    InconsistentByteLength(usize),
}

/// An ordered list of dimension sizes together with an element type.
#[derive(PartialEq, Eq, Debug)]
pub struct Shape {
    pub dims: Vec<usize>,
    pub data_type: ScalarType,
}

/// Product of a sequence of dimension sizes.
pub open spec fn dims_product(dims: Seq<usize>) -> int
    decreases dims.len(),
{
    if dims.len() == 0 {
        1
    } else {
        dims_product(dims.drop_last()) * dims.last()
    }
}

impl Shape {
    /// Two shapes are equivalent when they list the same dimension sizes for
    /// the same scalar type.
    pub open spec fn eqv(self, other: Shape) -> bool {
        self.dims@ == other.dims@ && self.data_type == other.data_type
    }

    pub fn from(data_type: ScalarType, dims: &[usize]) -> (r: Shape)
        ensures
            r.data_type == data_type,
            r.dims@ == dims@,
    {
        Shape { dims: vstd::slice::slice_to_vec(dims), data_type }
    }

    /// Total number of elements: the product of all dimension sizes.
    /// `None` when the product does not fit in `usize`.
    pub fn element_count(&self) -> (r: Option<usize>)
        ensures
            match r {
                Some(n) => n == dims_product(self.dims@),
                None => dims_product(self.dims@) > usize::MAX,
            },
    {
        let mut product: usize = 1;
        let mut i: usize = 0;
        while i < self.dims.len()
            invariant
                0 <= i <= self.dims@.len(),
                product == dims_product(self.dims@.take(i as int)),
            decreases self.dims@.len() - i,
        {
            proof {
                assert(self.dims@.take(i + 1).drop_last() =~= self.dims@.take(i as int));
                assert(self.dims@.take(i + 1).last() == self.dims@[i as int]);
            }
            if self.dims[i] == 0 {
                proof {
                    lemma_dims_product_zero(self.dims@, i as int);
                }
                return Some(0);
            }
            let next = product.checked_mul(self.dims[i]);
            match next {
                Some(p) => {
                    product = p;
                }
                None => {
                    // The prefix product already overflowed; unless a later
                    // dimension is zero, the whole product overflows too.
                    let mut j: usize = i + 1;
                    while j < self.dims.len()
                        invariant
                            i + 1 <= j <= self.dims@.len(),
                            forall|k: int| i < k < j ==> self.dims@[k] != 0,
                        decreases self.dims@.len() - j,
                    {
                        if self.dims[j] == 0 {
                            proof {
                                lemma_dims_product_zero(self.dims@, j as int);
                            }
                            return Some(0);
                        }
                        j = j + 1;
                    }
                    proof {
                        lemma_dims_product_grows(self.dims@, i + 1);
                    }
                    return None;
                }
            }
            i = i + 1;
        }
        proof {
            assert(self.dims@.take(i as int) =~= self.dims@);
        }
        Some(product)
    }
}

impl Clone for Shape {
    fn clone(&self) -> (r: Self)
        ensures
            r.eqv(*self),
    {
        Shape { dims: vstd::slice::slice_to_vec(self.dims.as_slice()), data_type: self.data_type }
    }
}

/// A zero dimension anywhere makes the whole product zero.
proof fn lemma_dims_product_zero(dims: Seq<usize>, j: int)
    requires
        0 <= j < dims.len(),
        dims[j] == 0,
    ensures
        dims_product(dims) == 0,
    decreases dims.len(),
{
    if j == dims.len() - 1 {
        assert(dims.last() == 0);
    } else {
        lemma_dims_product_zero(dims.drop_last(), j);
    }
}

/// Once a prefix product exceeds `usize::MAX` and every later dimension is
/// positive, the whole product exceeds `usize::MAX` as well.
proof fn lemma_dims_product_grows(dims: Seq<usize>, i: int)
    requires
        0 < i <= dims.len(),
        dims_product(dims.take(i)) > usize::MAX,
        forall|j: int| i <= j < dims.len() ==> dims[j] != 0,
    ensures
        dims_product(dims) > usize::MAX,
    decreases dims.len() - i,
{
    if i == dims.len() {
        assert(dims.take(i) =~= dims);
    } else {
        assert(dims.take(i + 1).drop_last() =~= dims.take(i));
        assert(dims.take(i + 1).last() == dims[i]);
        assert(dims_product(dims.take(i + 1)) == dims_product(dims.take(i)) * dims[i]);
        assert(dims_product(dims.take(i)) * dims[i] >= dims_product(dims.take(i))) by (nonlinear_arith)
            requires
                dims[i] >= 1,
                dims_product(dims.take(i)) > 0,
        ;
        lemma_dims_product_grows(dims, i + 1);
    }
}

/// A typed, owned data buffer. Float elements are stored as bit patterns.
#[derive(PartialEq, Eq, Debug)]
pub enum TensorData {
    F32(Vec<u32>),
    I32(Vec<i32>),
    I64(Vec<i64>),
    U8(Vec<u8>),
}

impl TensorData {
    /// The scalar type this buffer holds.
    pub open spec fn spec_scalar_type(&self) -> ScalarType {
        match self {
            TensorData::F32(_) => ScalarType::F32,
            TensorData::I32(_) => ScalarType::I32,
            TensorData::I64(_) => ScalarType::I64,
            TensorData::U8(_) => ScalarType::U8,
        }
    }

    pub fn scalar_type(&self) -> (r: ScalarType)
        ensures
            r == self.spec_scalar_type(),
    {
        match self {
            TensorData::F32(_) => ScalarType::F32,
            TensorData::I32(_) => ScalarType::I32,
            TensorData::I64(_) => ScalarType::I64,
            TensorData::U8(_) => ScalarType::U8,
        }
    }

    /// Number of elements in the buffer.
    pub open spec fn spec_len(&self) -> nat {
        match self {
            TensorData::F32(v) => v@.len(),
            TensorData::I32(v) => v@.len(),
            TensorData::I64(v) => v@.len(),
            TensorData::U8(v) => v@.len(),
        }
    }

    pub fn len(&self) -> (r: usize)
        ensures
            r == self.spec_len(),
    {
        match self {
            TensorData::F32(v) => v.len(),
            TensorData::I32(v) => v.len(),
            TensorData::I64(v) => v.len(),
            TensorData::U8(v) => v.len(),
        }
    }
}

/// A typed buffer plus its dimensions and a display name.
#[derive(PartialEq, Eq, Debug)]
pub struct Tensor {
    pub data: TensorData,
    pub dims: Vec<usize>,
    pub display_name: String,
}

} // verus!
