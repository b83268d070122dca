//! Extension types for database types that have no counterpart among the logical types.
//!
//! They are told apart by their ids, which is all that is left of them where they are read
//! without the extension being registered.

use std::sync::Arc;

use vstd::prelude::*;

use crate::dtype::DType;
use crate::dtype::ExtDType;
use crate::dtype::NamedField;
use crate::dtype::Nullability;
use crate::dtype::PType;
use crate::duckdb::enum_metadata::decoded;
use crate::duckdb::enum_metadata::encoded;
use crate::duckdb::enum_metadata::EnumMetadata;
use crate::duckdb::enum_metadata::EnumMetadataError;
use crate::order::str_equal;
use crate::stats::ScalarValue;

verus! {

pub const INTERVAL_EXT_ID: &'static str = "vortex.interval";

pub const ENUM_EXT_ID: &'static str = "vortex.enum";

pub const BIT_EXT_ID: &'static str = "vortex.bit";

pub const BIGNUM_EXT_ID: &'static str = "vortex.bignum";

pub const HUGEINT_EXT_ID: &'static str = "vortex.hugeint";

pub const UHUGEINT_EXT_ID: &'static str = "vortex.uhugeint";

pub const VARIANT_EXT_ID: &'static str = "vortex.duckdb.variant";

pub const TIME_TZ_EXT_ID: &'static str = "vortex.duckdb.time_tz";

/// Metadata that holds nothing.
#[derive(Clone, Debug, Default, PartialEq, Eq, Hash)]
pub struct EmptyExtMetadata;

impl EmptyExtMetadata {
    /// The metadata in words: none.
    pub fn display(&self) -> (r: String)
        ensures
            r@ == Seq::<char>::empty(),
    {
        String::new()
    }
}

/// A span of months, days and microseconds.
#[derive(Clone, Debug, Default, PartialEq, Eq, Hash)]
pub struct DuckInterval;

/// A string of bits.
#[derive(Clone, Debug, Default, PartialEq, Eq, Hash)]
pub struct DuckBit;

/// An integer of any size.
#[derive(Clone, Debug, Default, PartialEq, Eq, Hash)]
pub struct DuckBignum;

/// One of a list of names.
#[derive(Clone, Debug, Default, PartialEq, Eq, Hash)]
pub struct DuckEnum;

/// A signed integer of 128 bits.
#[derive(Clone, Debug, Default, PartialEq, Eq, Hash)]
pub struct DuckHugeInt;

/// An unsigned integer of 128 bits.
#[derive(Clone, Debug, Default, PartialEq, Eq, Hash)]
pub struct DuckUHugeInt;

/// A value of any type.
#[derive(Clone, Debug, Default, PartialEq, Eq, Hash)]
pub struct DuckVariant;

/// A time of day with a time zone.
#[derive(Clone, Debug, Default, PartialEq, Eq, Hash)]
pub struct DuckTimeTz;

/// A storage type that an extension cannot have.
#[derive(Clone, Copy, Debug, PartialEq, Eq, Structural)]
pub struct InvalidStorage;

/// What makes an extension type.
pub trait ExtVTable: Sized {
    /// What the extension keeps besides its storage type.
    type Metadata;

    /// The extension's id.
    spec fn ext_id() -> Seq<char>;

    /// Whether values can be stored as this type.
    spec fn stores(storage: DType) -> bool;

    /// The metadata as bytes.
    spec fn metadata_bytes(metadata: Self::Metadata) -> Seq<u8>;

    /// Why bytes hold no metadata, if they do not.
    spec fn metadata_fault(data: Seq<u8>) -> Option<EnumMetadataError>;

    /// Whether bytes hold this metadata.
    spec fn metadata_is(metadata: Self::Metadata, data: Seq<u8>) -> bool;

    /// The extension's id.
    fn id(&self) -> (r: &'static str)
        ensures
            r@ == Self::ext_id(),
    ;

    /// The metadata as bytes.
    fn serialize_metadata(&self, metadata: &Self::Metadata) -> (r: Vec<u8>)
        ensures
            r@ == Self::metadata_bytes(*metadata),
    ;

    /// The metadata that bytes hold.
    fn deserialize_metadata(&self, data: &[u8]) -> (r: Result<Self::Metadata, EnumMetadataError>)
        ensures
            match Self::metadata_fault(data@) {
                Some(e) => r == Err::<Self::Metadata, _>(e),
                None => r matches Ok(metadata) && Self::metadata_is(metadata, data@),
            },
    ;

    /// Checks that values can be stored as this type.
    fn validate_dtype(&self, storage: &DType) -> (r: Result<(), InvalidStorage>)
        ensures
            r is Ok <==> Self::stores(*storage),
    ;

    /// The value that stands for an extension value: the stored one.
    fn unpack_native<'a>(&self, storage_value: &'a ScalarValue) -> (r: &'a ScalarValue)
        ensures
            r == storage_value,
    {
        storage_value
    }
}

impl ExtVTable for DuckTimeTz {
    type Metadata = EmptyExtMetadata;

    open spec fn ext_id() -> Seq<char> {
        TIME_TZ_EXT_ID@
    }

    open spec fn stores(storage: DType) -> bool {
        storage matches DType::Primitive(ptype, _) && ptype == PType::U64
    }

    open spec fn metadata_bytes(metadata: EmptyExtMetadata) -> Seq<u8> {
        seq![]
    }

    open spec fn metadata_fault(data: Seq<u8>) -> Option<EnumMetadataError> {
        None
    }

    open spec fn metadata_is(metadata: EmptyExtMetadata, data: Seq<u8>) -> bool {
        true
    }

    fn id(&self) -> (r: &'static str) {
        TIME_TZ_EXT_ID
    }

    fn serialize_metadata(&self, metadata: &EmptyExtMetadata) -> (r: Vec<u8>) {
        Vec::new()
    }

    fn deserialize_metadata(&self, data: &[u8]) -> (r: Result<
        EmptyExtMetadata,
        EnumMetadataError,
    >) {
        Ok(EmptyExtMetadata)
    }

    fn validate_dtype(&self, storage: &DType) -> (r: Result<(), InvalidStorage>) {
        match storage {
            DType::Primitive(PType::U64, _) => Ok(()),
            _ => Err(InvalidStorage),
        }
    }
}

impl ExtVTable for DuckVariant {
    type Metadata = EmptyExtMetadata;

    open spec fn ext_id() -> Seq<char> {
        VARIANT_EXT_ID@
    }

    open spec fn stores(storage: DType) -> bool {
        storage is Struct
    }

    open spec fn metadata_bytes(metadata: EmptyExtMetadata) -> Seq<u8> {
        seq![]
    }

    open spec fn metadata_fault(data: Seq<u8>) -> Option<EnumMetadataError> {
        None
    }

    open spec fn metadata_is(metadata: EmptyExtMetadata, data: Seq<u8>) -> bool {
        true
    }

    fn id(&self) -> (r: &'static str) {
        VARIANT_EXT_ID
    }

    fn serialize_metadata(&self, metadata: &EmptyExtMetadata) -> (r: Vec<u8>) {
        Vec::new()
    }

    fn deserialize_metadata(&self, data: &[u8]) -> (r: Result<
        EmptyExtMetadata,
        EnumMetadataError,
    >) {
        Ok(EmptyExtMetadata)
    }

    fn validate_dtype(&self, storage: &DType) -> (r: Result<(), InvalidStorage>) {
        match storage {
            DType::Struct(_, _) => Ok(()),
            _ => Err(InvalidStorage),
        }
    }
}

impl ExtVTable for DuckInterval {
    type Metadata = EmptyExtMetadata;

    open spec fn ext_id() -> Seq<char> {
        INTERVAL_EXT_ID@
    }

    open spec fn stores(storage: DType) -> bool {
        storage matches DType::Struct(fields, _) && fields@.len() == 3
    }

    open spec fn metadata_bytes(metadata: EmptyExtMetadata) -> Seq<u8> {
        seq![]
    }

    open spec fn metadata_fault(data: Seq<u8>) -> Option<EnumMetadataError> {
        None
    }

    open spec fn metadata_is(metadata: EmptyExtMetadata, data: Seq<u8>) -> bool {
        true
    }

    fn id(&self) -> (r: &'static str) {
        INTERVAL_EXT_ID
    }

    fn serialize_metadata(&self, metadata: &EmptyExtMetadata) -> (r: Vec<u8>) {
        Vec::new()
    }

    fn deserialize_metadata(&self, data: &[u8]) -> (r: Result<
        EmptyExtMetadata,
        EnumMetadataError,
    >) {
        Ok(EmptyExtMetadata)
    }

    fn validate_dtype(&self, storage: &DType) -> (r: Result<(), InvalidStorage>) {
        match storage {
            DType::Struct(fields, _) => if fields.len() == 3 {
                Ok(())
            } else {
                Err(InvalidStorage)
            },
            _ => Err(InvalidStorage),
        }
    }
}

impl ExtVTable for DuckHugeInt {
    type Metadata = EmptyExtMetadata;

    open spec fn ext_id() -> Seq<char> {
        HUGEINT_EXT_ID@
    }

    open spec fn stores(storage: DType) -> bool {
        storage matches DType::FixedSizeList(element, size, _) && size == 16 && (
        *element matches DType::Primitive(ptype, _) && ptype == PType::U8)
    }

    open spec fn metadata_bytes(metadata: EmptyExtMetadata) -> Seq<u8> {
        seq![]
    }

    open spec fn metadata_fault(data: Seq<u8>) -> Option<EnumMetadataError> {
        None
    }

    open spec fn metadata_is(metadata: EmptyExtMetadata, data: Seq<u8>) -> bool {
        true
    }

    fn id(&self) -> (r: &'static str) {
        HUGEINT_EXT_ID
    }

    fn serialize_metadata(&self, metadata: &EmptyExtMetadata) -> (r: Vec<u8>) {
        Vec::new()
    }

    fn deserialize_metadata(&self, data: &[u8]) -> (r: Result<
        EmptyExtMetadata,
        EnumMetadataError,
    >) {
        Ok(EmptyExtMetadata)
    }

    fn validate_dtype(&self, storage: &DType) -> (r: Result<(), InvalidStorage>) {
        match storage {
            DType::FixedSizeList(element, 16, _) => match &**element {
                DType::Primitive(PType::U8, _) => Ok(()),
                _ => Err(InvalidStorage),
            },
            _ => Err(InvalidStorage),
        }
    }
}

impl ExtVTable for DuckUHugeInt {
    type Metadata = EmptyExtMetadata;

    open spec fn ext_id() -> Seq<char> {
        UHUGEINT_EXT_ID@
    }

    open spec fn stores(storage: DType) -> bool {
        storage matches DType::FixedSizeList(element, size, _) && size == 16 && (
        *element matches DType::Primitive(ptype, _) && ptype == PType::U8)
    }

    open spec fn metadata_bytes(metadata: EmptyExtMetadata) -> Seq<u8> {
        seq![]
    }

    open spec fn metadata_fault(data: Seq<u8>) -> Option<EnumMetadataError> {
        None
    }

    open spec fn metadata_is(metadata: EmptyExtMetadata, data: Seq<u8>) -> bool {
        true
    }

    fn id(&self) -> (r: &'static str) {
        UHUGEINT_EXT_ID
    }

    fn serialize_metadata(&self, metadata: &EmptyExtMetadata) -> (r: Vec<u8>) {
        Vec::new()
    }

    fn deserialize_metadata(&self, data: &[u8]) -> (r: Result<
        EmptyExtMetadata,
        EnumMetadataError,
    >) {
        Ok(EmptyExtMetadata)
    }

    fn validate_dtype(&self, storage: &DType) -> (r: Result<(), InvalidStorage>) {
        match storage {
            DType::FixedSizeList(element, 16, _) => match &**element {
                DType::Primitive(PType::U8, _) => Ok(()),
                _ => Err(InvalidStorage),
            },
            _ => Err(InvalidStorage),
        }
    }
}

impl ExtVTable for DuckBit {
    type Metadata = EmptyExtMetadata;

    open spec fn ext_id() -> Seq<char> {
        BIT_EXT_ID@
    }

    open spec fn stores(storage: DType) -> bool {
        storage is Binary
    }

    open spec fn metadata_bytes(metadata: EmptyExtMetadata) -> Seq<u8> {
        seq![]
    }

    open spec fn metadata_fault(data: Seq<u8>) -> Option<EnumMetadataError> {
        None
    }

    open spec fn metadata_is(metadata: EmptyExtMetadata, data: Seq<u8>) -> bool {
        true
    }

    fn id(&self) -> (r: &'static str) {
        BIT_EXT_ID
    }

    fn serialize_metadata(&self, metadata: &EmptyExtMetadata) -> (r: Vec<u8>) {
        Vec::new()
    }

    fn deserialize_metadata(&self, data: &[u8]) -> (r: Result<
        EmptyExtMetadata,
        EnumMetadataError,
    >) {
        Ok(EmptyExtMetadata)
    }

    fn validate_dtype(&self, storage: &DType) -> (r: Result<(), InvalidStorage>) {
        match storage {
            DType::Binary(_) => Ok(()),
            _ => Err(InvalidStorage),
        }
    }
}

impl ExtVTable for DuckBignum {
    type Metadata = EmptyExtMetadata;

    open spec fn ext_id() -> Seq<char> {
        BIGNUM_EXT_ID@
    }

    open spec fn stores(storage: DType) -> bool {
        storage is Binary
    }

    open spec fn metadata_bytes(metadata: EmptyExtMetadata) -> Seq<u8> {
        seq![]
    }

    open spec fn metadata_fault(data: Seq<u8>) -> Option<EnumMetadataError> {
        None
    }

    open spec fn metadata_is(metadata: EmptyExtMetadata, data: Seq<u8>) -> bool {
        true
    }

    fn id(&self) -> (r: &'static str) {
        BIGNUM_EXT_ID
    }

    fn serialize_metadata(&self, metadata: &EmptyExtMetadata) -> (r: Vec<u8>) {
        Vec::new()
    }

    fn deserialize_metadata(&self, data: &[u8]) -> (r: Result<
        EmptyExtMetadata,
        EnumMetadataError,
    >) {
        Ok(EmptyExtMetadata)
    }

    fn validate_dtype(&self, storage: &DType) -> (r: Result<(), InvalidStorage>) {
        match storage {
            DType::Binary(_) => Ok(()),
            _ => Err(InvalidStorage),
        }
    }
}

impl ExtVTable for DuckEnum {
    type Metadata = EnumMetadata;

    open spec fn ext_id() -> Seq<char> {
        ENUM_EXT_ID@
    }

    open spec fn stores(storage: DType) -> bool {
        storage matches DType::Primitive(ptype, _) && (ptype == PType::U8 || ptype == PType::U16 || ptype
            == PType::U32)
    }

    open spec fn metadata_bytes(metadata: EnumMetadata) -> Seq<u8> {
        encoded(metadata@)
    }

    open spec fn metadata_fault(data: Seq<u8>) -> Option<EnumMetadataError> {
        match decoded(data) {
            Ok(_) => None,
            Err(e) => Some(e),
        }
    }

    open spec fn metadata_is(metadata: EnumMetadata, data: Seq<u8>) -> bool {
        Ok::<Seq<Seq<char>>, EnumMetadataError>(metadata@) == decoded(data)
    }

    fn id(&self) -> (r: &'static str) {
        ENUM_EXT_ID
    }

    fn serialize_metadata(&self, metadata: &EnumMetadata) -> (r: Vec<u8>) {
        metadata.encode()
    }

    fn deserialize_metadata(&self, data: &[u8]) -> (r: Result<EnumMetadata, EnumMetadataError>) {
        EnumMetadata::decode(data)
    }

    fn validate_dtype(&self, storage: &DType) -> (r: Result<(), InvalidStorage>) {
        match storage {
            DType::Primitive(PType::U8 | PType::U16 | PType::U32, _) => Ok(()),
            _ => Err(InvalidStorage),
        }
    }
}

/// Whether a type is the extension `T` with the given metadata and storage.
pub open spec fn is_ext<T: ExtVTable>(
    dtype: DType,
    metadata: T::Metadata,
    storage: DType,
) -> bool {
    dtype matches DType::Extension(ext) && ext.id@ == T::ext_id() && ext.metadata@
        == T::metadata_bytes(metadata) && *ext.storage == storage
}

fn new_ext<T: ExtVTable>(vtable: &T, metadata: &T::Metadata, storage: DType) -> (r: Result<
    DType,
    InvalidStorage,
>)
    ensures
        r is Ok <==> T::stores(storage),
        r matches Ok(dtype) ==> is_ext::<T>(dtype, *metadata, storage),
{
    match vtable.validate_dtype(&storage) {
        Ok(_) => Ok(
            DType::Extension(
                ExtDType {
                    id: vtable.id().to_owned(),
                    metadata: vtable.serialize_metadata(metadata),
                    storage: Arc::new(storage),
                },
            ),
        ),
        Err(e) => Err(e),
    }
}

/// Whether a type is the struct that intervals are stored as.
pub open spec fn is_interval_storage(dtype: DType, nullability: Nullability) -> bool {
    &&& dtype matches DType::Struct(fields, n)
    &&& n == nullability
    &&& fields@.len() == 3
    &&& fields@[0].name@ == "months"@
    &&& *fields@[0].dtype == DType::Primitive(PType::I32, Nullability::NonNullable)
    &&& fields@[1].name@ == "days"@
    &&& *fields@[1].dtype == DType::Primitive(PType::I32, Nullability::NonNullable)
    &&& fields@[2].name@ == "micros"@
    &&& *fields@[2].dtype == DType::Primitive(PType::I64, Nullability::NonNullable)
}

fn interval_storage(nullability: Nullability) -> (r: DType)
    ensures
        is_interval_storage(r, nullability),
{
    let mut fields: Vec<NamedField> = Vec::new();
    fields.push(
        NamedField {
            name: "months".to_owned(),
            dtype: Arc::new(DType::Primitive(PType::I32, Nullability::NonNullable)),
        },
    );
    fields.push(
        NamedField {
            name: "days".to_owned(),
            dtype: Arc::new(DType::Primitive(PType::I32, Nullability::NonNullable)),
        },
    );
    fields.push(
        NamedField {
            name: "micros".to_owned(),
            dtype: Arc::new(DType::Primitive(PType::I64, Nullability::NonNullable)),
        },
    );
    DType::Struct(fields, nullability)
}

/// The type of intervals.
pub fn interval_dtype(nullability: Nullability) -> (r: Result<DType, InvalidStorage>)
    ensures
        r matches Ok(dtype) && (exists|storage: DType| #[trigger]
            is_ext::<DuckInterval>(dtype, EmptyExtMetadata, storage) && is_interval_storage(
                storage,
                nullability,
            )),
        r matches Ok(DType::Extension(ext)) && ext.id@ == "vortex.interval"@ && ext.metadata@.len()
            == 0 && (*ext.storage matches DType::Struct(fields, n) && n == nullability
            && fields@.len() == 3 && fields@[0].name@ == "months"@ && *fields@[0].dtype
            == DType::Primitive(PType::I32, Nullability::NonNullable) && fields@[1].name@ == "days"@
            && *fields@[1].dtype == DType::Primitive(PType::I32, Nullability::NonNullable)
            && fields@[2].name@ == "micros"@ && *fields@[2].dtype == DType::Primitive(
            PType::I64,
            Nullability::NonNullable,
        )),
{
    let storage = interval_storage(nullability);
    let ghost stored = storage;
    let r = new_ext(&DuckInterval, &EmptyExtMetadata, storage);
    assert(is_ext::<DuckInterval>(r->Ok_0, EmptyExtMetadata, stored));
    r
}

/// The type of bit strings.
pub fn bit_dtype(nullability: Nullability) -> (r: Result<DType, InvalidStorage>)
    ensures
        r matches Ok(dtype) && is_ext::<DuckBit>(
            dtype,
            EmptyExtMetadata,
            DType::Binary(nullability),
        ),
        r matches Ok(DType::Extension(ext)) && ext.id@ == "vortex.bit"@ && ext.metadata@.len() == 0
            && *ext.storage == DType::Binary(nullability),
{
    new_ext(&DuckBit, &EmptyExtMetadata, DType::Binary(nullability))
}

/// The type of integers of any size.
pub fn bignum_dtype(nullability: Nullability) -> (r: Result<DType, InvalidStorage>)
    ensures
        r matches Ok(dtype) && is_ext::<DuckBignum>(
            dtype,
            EmptyExtMetadata,
            DType::Binary(nullability),
        ),
        r matches Ok(DType::Extension(ext)) && ext.id@ == "vortex.bignum"@ && ext.metadata@.len() == 0
            && *ext.storage == DType::Binary(nullability),
{
    new_ext(&DuckBignum, &EmptyExtMetadata, DType::Binary(nullability))
}

/// The type of 16 bytes.
pub open spec fn fixed16(nullability: Nullability) -> DType {
    DType::FixedSizeList(
        Arc::new(DType::Primitive(PType::U8, Nullability::NonNullable)),
        16,
        nullability,
    )
}

fn fixed16_storage(nullability: Nullability) -> (r: DType)
    ensures
        r == fixed16(nullability),
{
    DType::FixedSizeList(
        Arc::new(DType::Primitive(PType::U8, Nullability::NonNullable)),
        16,
        nullability,
    )
}

/// The type of signed integers of 128 bits.
pub fn hugeint_dtype(nullability: Nullability) -> (r: Result<DType, InvalidStorage>)
    ensures
        r matches Ok(dtype) && is_ext::<DuckHugeInt>(dtype, EmptyExtMetadata, fixed16(nullability)),
        r matches Ok(DType::Extension(ext)) && ext.id@ == "vortex.hugeint"@ && ext.metadata@.len()
            == 0 && (*ext.storage matches DType::FixedSizeList(element, size, n) && size == 16 && n
            == nullability && *element == DType::Primitive(PType::U8, Nullability::NonNullable)),
{
    new_ext(&DuckHugeInt, &EmptyExtMetadata, fixed16_storage(nullability))
}

/// The type of unsigned integers of 128 bits.
pub fn uhugeint_dtype(nullability: Nullability) -> (r: Result<DType, InvalidStorage>)
    ensures
        r matches Ok(dtype) && is_ext::<DuckUHugeInt>(
            dtype,
            EmptyExtMetadata,
            fixed16(nullability),
        ),
        r matches Ok(DType::Extension(ext)) && ext.id@ == "vortex.uhugeint"@ && ext.metadata@.len()
            == 0 && (*ext.storage matches DType::FixedSizeList(element, size, n) && size == 16 && n
            == nullability && *element == DType::Primitive(PType::U8, Nullability::NonNullable)),
{
    new_ext(&DuckUHugeInt, &EmptyExtMetadata, fixed16_storage(nullability))
}

/// The type of times of day with a time zone.
pub fn time_tz_dtype(nullability: Nullability) -> (r: Result<DType, InvalidStorage>)
    ensures
        r matches Ok(dtype) && is_ext::<DuckTimeTz>(
            dtype,
            EmptyExtMetadata,
            DType::Primitive(PType::U64, nullability),
        ),
        r matches Ok(DType::Extension(ext)) && ext.id@ == "vortex.duckdb.time_tz"@
            && ext.metadata@.len() == 0 && *ext.storage == DType::Primitive(PType::U64, nullability),
{
    new_ext(&DuckTimeTz, &EmptyExtMetadata, DType::Primitive(PType::U64, nullability))
}

/// The database's integer types that an ENUM can be stored as, and any other.
#[derive(Clone, Copy, Debug, PartialEq, Eq, Structural)]
pub enum EnumInternalType {
    UTinyInt,
    USmallInt,
    UInteger,
    /// Another type, with its number in the database.
    Other(u32),
}

/// Why there is no type for an ENUM.
#[derive(Clone, Copy, Debug, PartialEq, Eq, Structural)]
pub enum EnumTypeError {
    /// The member with this index has no name.
    NullName(usize),
    /// It is stored as a type that ENUMs do not have.
    UnexpectedInternalType(u32),
    /// The type would have a storage that ENUMs do not have.
    Storage(InvalidStorage),
    /// A name contains NUL.
    NameContainsNul,
    /// The metadata cannot be read.
    Metadata(EnumMetadataError),
}

/// The primitive type that an ENUM is stored as.
pub open spec fn internal_ptype(ty: EnumInternalType) -> Result<PType, EnumTypeError> {
    match ty {
        EnumInternalType::UTinyInt => Ok(PType::U8),
        EnumInternalType::USmallInt => Ok(PType::U16),
        EnumInternalType::UInteger => Ok(PType::U32),
        EnumInternalType::Other(other) => Err(EnumTypeError::UnexpectedInternalType(other)),
    }
}

/// The primitive type that an ENUM is stored as.
pub fn enum_internal_ptype(ty: EnumInternalType) -> (r: Result<PType, EnumTypeError>)
    ensures
        r == internal_ptype(ty),
        ty is UTinyInt ==> r == Ok::<PType, EnumTypeError>(PType::U8),
        ty is USmallInt ==> r == Ok::<PType, EnumTypeError>(PType::U16),
        ty is UInteger ==> r == Ok::<PType, EnumTypeError>(PType::U32),
        ty matches EnumInternalType::Other(other) ==> r == Err::<PType, _>(
            EnumTypeError::UnexpectedInternalType(other),
        ),
{
    match ty {
        EnumInternalType::UTinyInt => Ok(PType::U8),
        EnumInternalType::USmallInt => Ok(PType::U16),
        EnumInternalType::UInteger => Ok(PType::U32),
        EnumInternalType::Other(other) => Err(EnumTypeError::UnexpectedInternalType(other)),
    }
}

/// The number of leading members that have a name.
pub open spec fn named_prefix(values: Seq<Option<String>>) -> nat
    decreases values.len(),
{
    if values.len() == 0 || values[0] is None {
        0
    } else {
        1 + named_prefix(values.skip(1))
    }
}

/// The names of the members, of which a missing one is an error.
pub fn enum_member_names(values: Vec<Option<String>>) -> (r: Result<Vec<String>, EnumTypeError>)
    ensures
        ({
            let named = named_prefix(values@);
            if named < values@.len() {
                r == Err::<Vec<String>, _>(EnumTypeError::NullName(named as usize))
            } else {
                &&& r matches Ok(names)
                &&& names@.len() == values@.len()
                &&& forall|i: int|
                    0 <= i < names@.len() ==> values@[i] == Some(#[trigger] names@[i])
            }
        }),
        r is Ok <==> forall|i: int| 0 <= i < values@.len() ==> (#[trigger] values@[i]) is Some,
        r matches Err(e) ==> (e matches EnumTypeError::NullName(k) && k < values@.len()
            && values@[k as int] is None && forall|i: int|
            0 <= i < k ==> (#[trigger] values@[i]) is Some),
{
    let ghost given = values@;
    let mut names: Vec<String> = Vec::new();
    assert(given.skip(0) =~= given);
    for value in it: values
        invariant
            it.seq() == given,
            given == values@,
            names@.len() == it.index(),
            named_prefix(given) == names@.len() + named_prefix(given.skip(names@.len() as int)),
            forall|i: int| 0 <= i < names@.len() ==> given[i] == Some(#[trigger] names@[i]),
    {
        let ghost k = names@.len() as int;
        assert(given.skip(k)[0] == value);
        assert(given.skip(k).skip(1) =~= given.skip(k + 1));
        match value {
            Some(name) => names.push(name),
            None => {
                assert(named_prefix(given.skip(k)) == 0);
                assert(!(given[k] is Some));
                assert forall|i: int| 0 <= i < k implies (#[trigger] given[i]) is Some by {
                    assert(given[i] == Some(names@[i]));
                }
                return Err(EnumTypeError::NullName(names.len()));
            },
        }
    }
    assert forall|i: int| 0 <= i < given.len() implies (#[trigger] given[i]) is Some by {
        assert(given[i] == Some(names@[i]));
    }
    Ok(names)
}

/// The type of an ENUM with the given members, stored as the given type.
pub fn enum_dtype(
    values: Vec<Option<String>>,
    internal: EnumInternalType,
    nullability: Nullability,
) -> (r: Result<DType, EnumTypeError>)
    ensures
        ({
            let named = named_prefix(values@);
            if named < values@.len() {
                r == Err::<DType, _>(EnumTypeError::NullName(named as usize))
            } else {
                match internal_ptype(internal) {
                    Err(e) => r == Err::<DType, _>(e),
                    Ok(ptype) => {
                        &&& r matches Ok(DType::Extension(ext))
                        &&& ext.id@ == ENUM_EXT_ID@
                        &&& ext.metadata@ == encoded(
                            values@.map_values(|v: Option<String>| v->Some_0@),
                        )
                        &&& *ext.storage == DType::Primitive(ptype, nullability)
                    },
                }
            }
        }),
        r is Ok <==> (forall|i: int| 0 <= i < values@.len() ==> (#[trigger] values@[i]) is Some) && !(
        internal is Other),
        r matches Ok(dtype) ==> (dtype matches DType::Extension(ext) && ext.id@ == "vortex.enum"@
            && *ext.storage == DType::Primitive(
            match internal {
                EnumInternalType::UTinyInt => PType::U8,
                EnumInternalType::USmallInt => PType::U16,
                _ => PType::U32,
            },
            nullability,
        )),
{
    let ghost given = values@;
    let names = match enum_member_names(values) {
        Ok(names) => names,
        Err(e) => return Err(e),
    };
    let ptype = match enum_internal_ptype(internal) {
        Ok(ptype) => ptype,
        Err(e) => return Err(e),
    };
    let metadata = EnumMetadata { names };
    assert(metadata@ =~= given.map_values(|v: Option<String>| v->Some_0@));
    match new_ext(&DuckEnum, &metadata, DType::Primitive(ptype, nullability)) {
        Ok(dtype) => Ok(dtype),
        Err(e) => Err(EnumTypeError::Storage(e)),
    }
}

/// The database type of an extension.
#[derive(Clone, Copy, Debug, PartialEq, Eq, Structural)]
pub enum DuckExtKind {
    Interval,
    Bit,
    Bignum,
    HugeInt,
    UHugeInt,
    Variant,
    TimeTz,
    Enum,
}

impl DuckExtKind {
    /// The id of the extension.
    pub open spec fn ext_id(self) -> Seq<char> {
        match self {
            DuckExtKind::Interval => INTERVAL_EXT_ID@,
            DuckExtKind::Bit => BIT_EXT_ID@,
            DuckExtKind::Bignum => BIGNUM_EXT_ID@,
            DuckExtKind::HugeInt => HUGEINT_EXT_ID@,
            DuckExtKind::UHugeInt => UHUGEINT_EXT_ID@,
            DuckExtKind::Variant => VARIANT_EXT_ID@,
            DuckExtKind::TimeTz => TIME_TZ_EXT_ID@,
            DuckExtKind::Enum => ENUM_EXT_ID@,
        }
    }
}

/// The extension that has an id, if one has.
pub open spec fn kind_of_id(id: Seq<char>) -> Option<DuckExtKind> {
    if id == INTERVAL_EXT_ID@ {
        Some(DuckExtKind::Interval)
    } else if id == BIT_EXT_ID@ {
        Some(DuckExtKind::Bit)
    } else if id == BIGNUM_EXT_ID@ {
        Some(DuckExtKind::Bignum)
    } else if id == HUGEINT_EXT_ID@ {
        Some(DuckExtKind::HugeInt)
    } else if id == UHUGEINT_EXT_ID@ {
        Some(DuckExtKind::UHugeInt)
    } else if id == VARIANT_EXT_ID@ {
        Some(DuckExtKind::Variant)
    } else if id == TIME_TZ_EXT_ID@ {
        Some(DuckExtKind::TimeTz)
    } else if id == ENUM_EXT_ID@ {
        Some(DuckExtKind::Enum)
    } else {
        None
    }
}

/// The extension that has an id, if one has.
pub fn duck_ext_kind(id: &str) -> (r: Option<DuckExtKind>)
    ensures
        r == kind_of_id(id@),
{
    if str_equal(id, INTERVAL_EXT_ID) {
        Some(DuckExtKind::Interval)
    } else if str_equal(id, BIT_EXT_ID) {
        Some(DuckExtKind::Bit)
    } else if str_equal(id, BIGNUM_EXT_ID) {
        Some(DuckExtKind::Bignum)
    } else if str_equal(id, HUGEINT_EXT_ID) {
        Some(DuckExtKind::HugeInt)
    } else if str_equal(id, UHUGEINT_EXT_ID) {
        Some(DuckExtKind::UHugeInt)
    } else if str_equal(id, VARIANT_EXT_ID) {
        Some(DuckExtKind::Variant)
    } else if str_equal(id, TIME_TZ_EXT_ID) {
        Some(DuckExtKind::TimeTz)
    } else if str_equal(id, ENUM_EXT_ID) {
        Some(DuckExtKind::Enum)
    } else {
        None
    }
}

/// Each extension is found again by its id.
pub proof fn law_ids_identify_extensions(kind: DuckExtKind)
    ensures
        kind_of_id(kind.ext_id()) == Some(kind),
{
    reveal_strlit("vortex.interval");
    reveal_strlit("vortex.enum");
    reveal_strlit("vortex.bit");
    reveal_strlit("vortex.bignum");
    reveal_strlit("vortex.hugeint");
    reveal_strlit("vortex.uhugeint");
    reveal_strlit("vortex.duckdb.variant");
    reveal_strlit("vortex.duckdb.time_tz");
    assert(INTERVAL_EXT_ID@.len() == 15 && UHUGEINT_EXT_ID@.len() == 15);
    assert(INTERVAL_EXT_ID@[7] == 'i' && UHUGEINT_EXT_ID@[7] == 'u');
    assert(VARIANT_EXT_ID@.len() == 21 && TIME_TZ_EXT_ID@.len() == 21);
    assert(VARIANT_EXT_ID@[14] == 'v' && TIME_TZ_EXT_ID@[14] == 't');
    assert(ENUM_EXT_ID@.len() == 11 && BIT_EXT_ID@.len() == 10);
    assert(BIGNUM_EXT_ID@.len() == 13 && HUGEINT_EXT_ID@.len() == 14);
}

/// A database type to be created for an extension.
#[derive(Debug, PartialEq)]
pub enum LogicalTypePlan {
    /// The type without parameters.
    Plain(DuckExtKind),
    /// An ENUM with these names, each with its terminating NUL.
    Enum(Vec<Vec<u8>>),
}

/// A name for C: its UTF-8 and a NUL.
pub open spec fn c_name(name: Seq<char>) -> Seq<u8> {
    vstd::utf8::encode_utf8(name).push(0)
}

/// Whether the UTF-8 of a name holds a NUL.
pub open spec fn has_nul(name: Seq<char>) -> bool {
    vstd::utf8::encode_utf8(name).contains(0)
}

/// The names of an ENUM to be created, as C takes them. None of them can contain NUL.
pub fn create_enum_logical_type(names: &Vec<String>) -> (r: Result<Vec<Vec<u8>>, EnumTypeError>)
    ensures
        if exists|i: int| 0 <= i < names@.len() && has_nul(#[trigger] names@[i]@) {
            r == Err::<Vec<Vec<u8>>, _>(EnumTypeError::NameContainsNul)
        } else {
            &&& r matches Ok(out)
            &&& out@.len() == names@.len()
            &&& forall|i: int| 0 <= i < out@.len() ==> (#[trigger] out@[i])@ == c_name(names@[i]@)
        },
        r is Ok <==> forall|i: int|
            0 <= i < names@.len() ==> !vstd::utf8::encode_utf8((#[trigger] names@[i])@).contains(0),
        r matches Ok(out) ==> forall|i: int|
            0 <= i < out@.len() ==> (#[trigger] out@[i])@ == vstd::utf8::encode_utf8(names@[i]@) + seq![
                0u8,
            ],
{
    let mut out: Vec<Vec<u8>> = Vec::new();
    for i in 0..names.len()
        invariant
            out@.len() == i,
            forall|k: int| 0 <= k < i ==> (#[trigger] out@[k])@ == c_name(names@[k]@),
            forall|k: int| 0 <= k < i ==> !has_nul(#[trigger] names@[k]@),
    {
        let bytes = names[i].as_str().as_bytes();
        let mut copy: Vec<u8> = Vec::new();
        for j in 0..bytes.len()
            invariant
                i < names@.len(),
                bytes@ == vstd::utf8::encode_utf8(names@[i as int]@),
                copy@ == bytes@.take(j as int),
                forall|k: int| 0 <= k < j ==> bytes@[k] != 0,
        {
            if bytes[j] == 0 {
                assert(bytes@.contains(0));
                assert(has_nul(names@[i as int]@));
                return Err(EnumTypeError::NameContainsNul);
            }
            copy.push(bytes[j]);
            assert(copy@ =~= bytes@.take(j + 1));
        }
        copy.push(0);
        assert(copy@ =~= c_name(names@[i as int]@));
        out.push(copy);
    }
    assert forall|i: int| 0 <= i < names@.len() implies !vstd::utf8::encode_utf8(
        (#[trigger] names@[i])@,
    ).contains(0) by {
        assert(!has_nul(names@[i]@));
    }
    assert forall|i: int| 0 <= i < out@.len() implies (#[trigger] out@[i])@
        == vstd::utf8::encode_utf8(names@[i]@) + seq![0u8] by {
        assert(out@[i]@ =~= vstd::utf8::encode_utf8(names@[i]@) + seq![0u8]);
    }
    Ok(out)
}

/// The database type for an extension type, told by its id; nothing for other extensions.
pub fn logical_type_from_duckdb_ext(ext: &ExtDType) -> (r: Result<
    Option<LogicalTypePlan>,
    EnumTypeError,
>)
    ensures
        match kind_of_id(ext.id@) {
            None => r matches Ok(None),
            Some(DuckExtKind::Enum) => match decoded(ext.metadata@) {
                Err(e) => r == Err::<Option<LogicalTypePlan>, _>(EnumTypeError::Metadata(e)),
                Ok(names) => if exists|i: int|
                    0 <= i < names.len() && has_nul(#[trigger] names[i]) {
                    r == Err::<Option<LogicalTypePlan>, _>(EnumTypeError::NameContainsNul)
                } else {
                    &&& r matches Ok(Some(LogicalTypePlan::Enum(out)))
                    &&& out@.len() == names.len()
                    &&& forall|i: int|
                        0 <= i < out@.len() ==> (#[trigger] out@[i])@ == c_name(names[i])
                },
            },
            Some(kind) => r == Ok::<_, EnumTypeError>(Some(LogicalTypePlan::Plain(kind))),
        },
{
    match duck_ext_kind(ext.id.as_str()) {
        None => Ok(None),
        Some(DuckExtKind::Enum) => {
            let metadata = match EnumMetadata::decode(ext.metadata.as_slice()) {
                Ok(metadata) => metadata,
                Err(e) => return Err(EnumTypeError::Metadata(e)),
            };
            let ghost names = metadata@;
            assert(forall|i: int|
                0 <= i < names.len() ==> #[trigger] names[i] == metadata.names@[i]@);
            match create_enum_logical_type(&metadata.names) {
                Ok(out) => {
                    assert(forall|i: int|
                        0 <= i < names.len() ==> !has_nul(#[trigger] names[i]));
                    Ok(Some(LogicalTypePlan::Enum(out)))
                },
                Err(e) => {
                    let ghost k = choose|k: int|
                        0 <= k < metadata.names@.len() && has_nul(#[trigger] metadata.names@[k]@);
                    assert(has_nul(names[k]));
                    Err(e)
                },
            }
        },
        Some(kind) => Ok(Some(LogicalTypePlan::Plain(kind))),
    }
}

/// An interval as the database holds it.
#[derive(Clone, Copy, Debug, PartialEq, Eq, Structural)]
pub struct DuckdbIntervalPhysical {
    pub months: i32,
    pub days: i32,
    pub micros: i64,
}

/// The ids of the extensions, each of which names the database type that it is.
pub proof fn law_ids_name_their_types()
    ensures
        DuckInterval::ext_id() == "vortex.interval"@,
        DuckEnum::ext_id() == "vortex.enum"@,
        DuckBit::ext_id() == "vortex.bit"@,
        DuckBignum::ext_id() == "vortex.bignum"@,
        DuckHugeInt::ext_id() == "vortex.hugeint"@,
        DuckUHugeInt::ext_id() == "vortex.uhugeint"@,
        DuckVariant::ext_id() == "vortex.duckdb.variant"@,
        DuckTimeTz::ext_id() == "vortex.duckdb.time_tz"@,
        kind_of_id("vortex.interval"@) == Some(DuckExtKind::Interval),
        kind_of_id("vortex.enum"@) == Some(DuckExtKind::Enum),
        kind_of_id("vortex.bit"@) == Some(DuckExtKind::Bit),
        kind_of_id("vortex.bignum"@) == Some(DuckExtKind::Bignum),
        kind_of_id("vortex.hugeint"@) == Some(DuckExtKind::HugeInt),
        kind_of_id("vortex.uhugeint"@) == Some(DuckExtKind::UHugeInt),
        kind_of_id("vortex.duckdb.variant"@) == Some(DuckExtKind::Variant),
        kind_of_id("vortex.duckdb.time_tz"@) == Some(DuckExtKind::TimeTz),
{
    law_ids_identify_extensions(DuckExtKind::Interval);
    law_ids_identify_extensions(DuckExtKind::Enum);
    law_ids_identify_extensions(DuckExtKind::Bit);
    law_ids_identify_extensions(DuckExtKind::Bignum);
    law_ids_identify_extensions(DuckExtKind::HugeInt);
    law_ids_identify_extensions(DuckExtKind::UHugeInt);
    law_ids_identify_extensions(DuckExtKind::Variant);
    law_ids_identify_extensions(DuckExtKind::TimeTz);
}

/// An id that is none of the extensions' ids is no extension.
pub proof fn law_other_ids_are_no_extensions(id: Seq<char>)
    ensures
        kind_of_id(id) is None <==> id != "vortex.interval"@ && id != "vortex.enum"@ && id
            != "vortex.bit"@ && id != "vortex.bignum"@ && id != "vortex.hugeint"@ && id
            != "vortex.uhugeint"@ && id != "vortex.duckdb.variant"@ && id
            != "vortex.duckdb.time_tz"@,
{
}

/// What each extension can be stored as, whether or not it has nulls: intervals as a struct of
/// three fields, variants as any struct, integers of 128 bits as lists of 16 bytes, bit strings and
/// integers of any size as bytes, times of day as 64 bits and ENUMs as 8, 16 or 32.
pub proof fn law_extensions_have_their_storage(storage: DType)
    ensures
        DuckInterval::stores(storage) <==> storage is Struct && storage->Struct_0@.len() == 3,
        DuckVariant::stores(storage) <==> storage is Struct,
        DuckHugeInt::stores(storage) <==> storage is FixedSizeList && storage->FixedSizeList_1 == 16
            && *storage->FixedSizeList_0 is Primitive && storage->FixedSizeList_0->Primitive_0
            == PType::U8,
        DuckUHugeInt::stores(storage) <==> storage is FixedSizeList && storage->FixedSizeList_1 == 16
            && *storage->FixedSizeList_0 is Primitive && storage->FixedSizeList_0->Primitive_0
            == PType::U8,
        DuckBit::stores(storage) <==> storage is Binary,
        DuckBignum::stores(storage) <==> storage is Binary,
        DuckTimeTz::stores(storage) <==> storage is Primitive && storage->Primitive_0 == PType::U64,
        DuckEnum::stores(storage) <==> storage is Primitive && (storage->Primitive_0 == PType::U8
            || storage->Primitive_0 == PType::U16 || storage->Primitive_0 == PType::U32),
{
}

/// Only ENUMs keep metadata: the names of their members. Any other extension writes none and
/// takes whatever is there.
pub proof fn law_only_enums_keep_metadata(
    metadata: EmptyExtMetadata,
    members: EnumMetadata,
    data: Seq<u8>,
)
    ensures
        DuckInterval::metadata_bytes(metadata).len() == 0,
        DuckVariant::metadata_bytes(metadata).len() == 0,
        DuckHugeInt::metadata_bytes(metadata).len() == 0,
        DuckUHugeInt::metadata_bytes(metadata).len() == 0,
        DuckBit::metadata_bytes(metadata).len() == 0,
        DuckBignum::metadata_bytes(metadata).len() == 0,
        DuckTimeTz::metadata_bytes(metadata).len() == 0,
        DuckInterval::metadata_fault(data) is None,
        DuckVariant::metadata_fault(data) is None,
        DuckHugeInt::metadata_fault(data) is None,
        DuckUHugeInt::metadata_fault(data) is None,
        DuckBit::metadata_fault(data) is None,
        DuckBignum::metadata_fault(data) is None,
        DuckTimeTz::metadata_fault(data) is None,
        DuckEnum::metadata_bytes(members) == encoded(members@),
        DuckEnum::metadata_fault(data) is None <==> decoded(data) is Ok,
        DuckEnum::metadata_is(members, data) <==> decoded(data) == Ok::<_, EnumMetadataError>(members@),
{
}

} // verus!
