//! Logical data types.

use std::sync::Arc;

use vstd::prelude::*;

verus! {

/// Whether values of a type may be null.
#[derive(Clone, Copy, Debug, PartialEq, Eq, Structural)]
pub enum Nullability {
    NonNullable,
    Nullable,
}

/// The primitive types.
#[derive(Clone, Copy, Debug, PartialEq, Eq, Structural)]
pub enum PType {
    U8,
    U16,
    U32,
    U64,
    I8,
    I16,
    I32,
    I64,
    F16,
    F32,
    F64,
}

impl PType {
    /// Whether this is a floating-point type.
    pub open spec fn float(self) -> bool {
        self == PType::F16 || self == PType::F32 || self == PType::F64
    }

    /// Whether this is a floating-point type.
    pub fn is_float(&self) -> (r: bool)
        ensures
            r == self.float(),
            r <==> *self is F16 || *self is F32 || *self is F64,
    {
        match *self {
            PType::F16 | PType::F32 | PType::F64 => true,
            _ => false,
        }
    }
}

/// A logical type.
#[derive(Debug, PartialEq)]
pub enum DType {
    Null,
    Bool(Nullability),
    Primitive(PType, Nullability),
    /// A decimal with its precision and scale.
    Decimal(u8, i8, Nullability),
    Utf8(Nullability),
    Binary(Nullability),
    Struct(Vec<NamedField>, Nullability),
    List(Arc<DType>, Nullability),
    FixedSizeList(Arc<DType>, u32, Nullability),
    /// A map with its key and value types.
    Mapping(Arc<DType>, Arc<DType>, Nullability),
    Union(Vec<NamedField>, Nullability),
    Variant(Nullability),
    Extension(ExtDType),
}

/// A field of a struct type.
#[derive(Debug, PartialEq)]
pub struct NamedField {
    pub name: String,
    pub dtype: Arc<DType>,
}

/// An extension type: an id, its serialized metadata, and the type its values are stored as.
#[derive(Debug, PartialEq)]
pub struct ExtDType {
    pub id: String,
    pub metadata: Vec<u8>,
    pub storage: Arc<DType>,
}

/// The type behind a pointer.
pub open spec fn pointee(dtype: Arc<DType>) -> DType {
    *dtype
}

/// `Arc::clone`: another pointer to the same value.
#[verifier::external_body]
pub(crate) fn share(dtype: &Arc<DType>) -> (r: Arc<DType>)
    ensures
        r == *dtype,
{
    Arc::clone(dtype)
}

} // verus!
