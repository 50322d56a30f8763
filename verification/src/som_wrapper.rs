//! Composite payload types: structures, unions and optionals whose members
//! may be of any payload type, arrays of such members, and the member type
//! that holds one value of any payload type.

use crate::bytes::{be16, from_be16};
use crate::som::{
    lemma_overwrite_before, lemma_overwrite_concat, lemma_overwrite_same, lengthfield_bytes,
    lengthfield_size, lengthfield_value, msg_lengthfield_value, overwrite, parse_exhausted,
    parsed, ser_exhausted, serialized, typefield_bytes, typefield_size, typefield_value, SOMError,
    SOMErrorView, SOMLengthField, SOMParser, SOMSerializer, SOMType, SOMTypeField, SOMTypeInfo,
    SOMTypeMeta,
};
use crate::som_arrays::{array_dynamic, array_len_error, array_length_ok, ArrayModel, SOMArrayType};
use crate::som_enums::{SOMu16Enum, SOMu32Enum, SOMu64Enum, SOMu8Enum};
use crate::som_primitives::{
    SOMBool, SOMf32, SOMf64, SOMi16, SOMi24, SOMi32, SOMi64, SOMi8, SOMu16, SOMu24, SOMu32, SOMu64,
    SOMu8,
};
use crate::som_strings::{SOMString, StringModel};
use crate::som_text::{
    array_text, framed, framed_text, indented, meta_or, meta_or_text, parts_text, push_indented,
    untab, untabbed, SOMText,
};
use crate::text::{dec, push_str, replace_all, replace_char, usize_text};
use vstd::prelude::*;

verus! {

/// An array of booleans.
pub type SOMBoolArray = SOMArrayType<SOMBool>;

/// An array of unsigned 8-bit integers.
pub type SOMu8Array = SOMArrayType<SOMu8>;

/// An array of signed 8-bit integers.
pub type SOMi8Array = SOMArrayType<SOMi8>;

/// An array of unsigned 16-bit integers.
pub type SOMu16Array = SOMArrayType<SOMu16>;

/// An array of signed 16-bit integers.
pub type SOMi16Array = SOMArrayType<SOMi16>;

/// An array of unsigned 24-bit integers.
pub type SOMu24Array = SOMArrayType<SOMu24>;

/// An array of signed 24-bit integers.
pub type SOMi24Array = SOMArrayType<SOMi24>;

/// An array of unsigned 32-bit integers.
pub type SOMu32Array = SOMArrayType<SOMu32>;

/// An array of signed 32-bit integers.
pub type SOMi32Array = SOMArrayType<SOMi32>;

/// An array of unsigned 64-bit integers.
pub type SOMu64Array = SOMArrayType<SOMu64>;

/// An array of signed 64-bit integers.
pub type SOMi64Array = SOMArrayType<SOMi64>;

/// An array of 32-bit floating point numbers.
pub type SOMf32Array = SOMArrayType<SOMf32>;

/// An array of 64-bit floating point numbers.
pub type SOMf64Array = SOMArrayType<SOMf64>;


/// The model of a value of a payload type that holds no members of any
/// type.
pub enum LeafModel {
    /// A value of type `SOMBool`.
    Bool(SOMBool),
    /// A value of type `SOMu8`.
    U8(SOMu8),
    /// A value of type `SOMi8`.
    I8(SOMi8),
    /// A value of type `SOMu16`.
    U16(SOMu16),
    /// A value of type `SOMi16`.
    I16(SOMi16),
    /// A value of type `SOMu24`.
    U24(SOMu24),
    /// A value of type `SOMi24`.
    I24(SOMi24),
    /// A value of type `SOMu32`.
    U32(SOMu32),
    /// A value of type `SOMi32`.
    I32(SOMi32),
    /// A value of type `SOMu64`.
    U64(SOMu64),
    /// A value of type `SOMi64`.
    I64(SOMi64),
    /// A value of type `SOMf32`.
    F32(SOMf32),
    /// A value of type `SOMf64`.
    F64(SOMf64),
    /// An enumeration of type `SOMu8Enum`.
    EnumU8(SOMu8Enum),
    /// An enumeration of type `SOMu16Enum`.
    EnumU16(SOMu16Enum),
    /// An enumeration of type `SOMu32Enum`.
    EnumU32(SOMu32Enum),
    /// An enumeration of type `SOMu64Enum`.
    EnumU64(SOMu64Enum),
    /// An array of type `SOMBoolArray`.
    ArrayBool(ArrayModel<SOMBool>),
    /// An array of type `SOMu8Array`.
    ArrayU8(ArrayModel<SOMu8>),
    /// An array of type `SOMi8Array`.
    ArrayI8(ArrayModel<SOMi8>),
    /// An array of type `SOMu16Array`.
    ArrayU16(ArrayModel<SOMu16>),
    /// An array of type `SOMi16Array`.
    ArrayI16(ArrayModel<SOMi16>),
    /// An array of type `SOMu24Array`.
    ArrayU24(ArrayModel<SOMu24>),
    /// An array of type `SOMi24Array`.
    ArrayI24(ArrayModel<SOMi24>),
    /// An array of type `SOMu32Array`.
    ArrayU32(ArrayModel<SOMu32>),
    /// An array of type `SOMi32Array`.
    ArrayI32(ArrayModel<SOMi32>),
    /// An array of type `SOMu64Array`.
    ArrayU64(ArrayModel<SOMu64>),
    /// An array of type `SOMi64Array`.
    ArrayI64(ArrayModel<SOMi64>),
    /// An array of type `SOMf32Array`.
    ArrayF23(ArrayModel<SOMf32>),
    /// An array of type `SOMf64Array`.
    ArrayF64(ArrayModel<SOMf64>),
    /// A string.
    String(StringModel),
}

/// The model of a value of any payload type.
pub enum WrapperModel {
    /// A value without members of any type.
    Leaf(LeafModel),
    /// An array of members of any type.
    Array(ArrayModel<WrapperModel>),
    /// A structure.
    Struct(StructModel),
    /// A union.
    Union(UnionModel),
    /// An optional.
    Optional(OptionalModel),
}

/// The model of a structure: its members and the name it is shown with.
pub struct StructModel {
    /// The models of the members.
    pub members: Seq<WrapperModel>,
    /// The name and description that the structure is shown with.
    pub meta: Option<SOMTypeMeta>,
}

/// The model of a union: the width of its type field, its variants, the
/// position from one of the selected variant (zero where none is), and the
/// name it is shown with.
pub struct UnionModel {
    /// The type field.
    pub typefield: SOMTypeField,
    /// The models of the variants.
    pub variants: Seq<WrapperModel>,
    /// The position from one of the selected variant, or zero.
    pub index: nat,
    /// The name and description that the union is shown with.
    pub meta: Option<SOMTypeMeta>,
}

/// The model of a member of an optional: its wire type, key, value,
/// whether it must be present, and whether it is.
pub struct OptionalItemModel {
    /// The wire type, which says how the value's length is known.
    pub wiretype: nat,
    /// The key.
    pub key: nat,
    /// The model of the value.
    pub value: WrapperModel,
    /// Whether the member must be present.
    pub mandatory: bool,
    /// Whether the member is present.
    pub set: bool,
}

/// The model of an optional: its length field, its members, and the name it
/// is shown with.
pub struct OptionalModel {
    /// The length field, of the whole and of members of implicit length.
    pub lengthfield: SOMLengthField,
    /// The models of the members.
    pub members: Seq<OptionalItemModel>,
    /// The name and description that the optional is shown with.
    pub meta: Option<SOMTypeMeta>,
}

/// The message of a union whose type field selects no variant.
pub open spec fn msg_union_index(index: nat, offset: nat) -> Seq<char> {
    "Invalid Union index: "@ + dec(index) + " at offset: "@ + dec(offset)
}

/// The message of a mandatory member that is not set when it is written.
pub open spec fn msg_mandatory_ser(key: nat, offset: nat) -> Seq<char> {
    "Uninitialized mandatory member: "@ + dec(key) + " at offset: "@ + dec(offset)
}

/// The message of a mandatory member that was not read.
pub open spec fn msg_mandatory_parse(key: nat, offset: nat) -> Seq<char> {
    "Uninitialized mandatory member: : "@ + dec(key) + " at offset: "@ + dec(offset)
}

/// The tag of an optional's member on the wire: its wire type in bits 12 to
/// 14 and its key in bits 0 to 11.
pub open spec fn opt_tag(wiretype: nat, key: nat) -> u16 {
    ((((wiretype as u16) << 12u16) | ((key as u16) & 0x0FFFu16)) & 0x7FFFu16) as u16
}

/// The number of bytes of a value of fixed length of the wire type, for
/// those that have one.
pub open spec fn wire_size(wiretype: nat) -> Option<nat> {
    if wiretype == 0 {
        Some(1)
    } else if wiretype == 1 {
        Some(2)
    } else if wiretype == 2 {
        Some(4)
    } else if wiretype == 3 {
        Some(8)
    } else {
        None
    }
}

/// The wire type of a value of how its length is known and of the size
/// `size`: one of fixed length has that of its size, where there is one;
/// any other has wire type four.
pub open spec fn wire_type_of(info: SOMTypeInfo, size: nat) -> Option<nat> {
    match info {
        SOMTypeInfo::FixedLength => if size == 1 {
            Some(0)
        } else if size == 2 {
            Some(1)
        } else if size == 4 {
            Some(2)
        } else if size == 8 {
            Some(3)
        } else {
            None
        },
        _ => Some(4),
    }
}

/// Serializing a leaf value of model `m`, where that runs to its end.
pub open spec fn leaf_ser_of<T: SOMType>(m: T::Model, offset: int, buf: Seq<u8>) -> Option<
    Result<Seq<u8>, SOMErrorView>,
> {
    if T::ser_safe(m) {
        Some(T::ser_spec(m, offset, buf))
    } else {
        None
    }
}

/// Parsing a leaf value of model `m`: its model after, and the outcome
/// where the read runs to its end.
pub open spec fn leaf_parse_of<T: SOMType>(m: T::Model, offset: int, data: Seq<u8>) -> (
    T::Model,
    Option<Result<nat, SOMErrorView>>,
) {
    (
        T::parse_spec(m, offset, data).0,
        if T::parse_safe(m, offset, data) {
            Some(T::parse_spec(m, offset, data).1)
        } else {
            None
        },
    )
}

/// How the length of a leaf value of model `lm` is known on the wire.
#[verifier::opaque]
pub open spec fn leaf_info(lm: LeafModel) -> SOMTypeInfo {
    match lm {
        LeafModel::Bool(x) => <SOMBool as SOMType>::info_spec(x),
        LeafModel::U8(x) => <SOMu8 as SOMType>::info_spec(x),
        LeafModel::I8(x) => <SOMi8 as SOMType>::info_spec(x),
        LeafModel::U16(x) => <SOMu16 as SOMType>::info_spec(x),
        LeafModel::I16(x) => <SOMi16 as SOMType>::info_spec(x),
        LeafModel::U24(x) => <SOMu24 as SOMType>::info_spec(x),
        LeafModel::I24(x) => <SOMi24 as SOMType>::info_spec(x),
        LeafModel::U32(x) => <SOMu32 as SOMType>::info_spec(x),
        LeafModel::I32(x) => <SOMi32 as SOMType>::info_spec(x),
        LeafModel::U64(x) => <SOMu64 as SOMType>::info_spec(x),
        LeafModel::I64(x) => <SOMi64 as SOMType>::info_spec(x),
        LeafModel::F32(x) => <SOMf32 as SOMType>::info_spec(x),
        LeafModel::F64(x) => <SOMf64 as SOMType>::info_spec(x),
        LeafModel::EnumU8(x) => <SOMu8Enum as SOMType>::info_spec(x),
        LeafModel::EnumU16(x) => <SOMu16Enum as SOMType>::info_spec(x),
        LeafModel::EnumU32(x) => <SOMu32Enum as SOMType>::info_spec(x),
        LeafModel::EnumU64(x) => <SOMu64Enum as SOMType>::info_spec(x),
        LeafModel::ArrayBool(x) => <SOMBoolArray as SOMType>::info_spec(x),
        LeafModel::ArrayU8(x) => <SOMu8Array as SOMType>::info_spec(x),
        LeafModel::ArrayI8(x) => <SOMi8Array as SOMType>::info_spec(x),
        LeafModel::ArrayU16(x) => <SOMu16Array as SOMType>::info_spec(x),
        LeafModel::ArrayI16(x) => <SOMi16Array as SOMType>::info_spec(x),
        LeafModel::ArrayU24(x) => <SOMu24Array as SOMType>::info_spec(x),
        LeafModel::ArrayI24(x) => <SOMi24Array as SOMType>::info_spec(x),
        LeafModel::ArrayU32(x) => <SOMu32Array as SOMType>::info_spec(x),
        LeafModel::ArrayI32(x) => <SOMi32Array as SOMType>::info_spec(x),
        LeafModel::ArrayU64(x) => <SOMu64Array as SOMType>::info_spec(x),
        LeafModel::ArrayI64(x) => <SOMi64Array as SOMType>::info_spec(x),
        LeafModel::ArrayF23(x) => <SOMf32Array as SOMType>::info_spec(x),
        LeafModel::ArrayF64(x) => <SOMf64Array as SOMType>::info_spec(x),
        LeafModel::String(x) => <SOMString as SOMType>::info_spec(x),
    }
}

/// Serializing a leaf value of model `lm`, where that runs to its end.
#[verifier::opaque]
pub open spec fn leaf_ser(lm: LeafModel, offset: int, buf: Seq<u8>) -> Option<
    Result<Seq<u8>, SOMErrorView>,
> {
    match lm {
        LeafModel::Bool(x) => leaf_ser_of::<SOMBool>(x, offset, buf),
        LeafModel::U8(x) => leaf_ser_of::<SOMu8>(x, offset, buf),
        LeafModel::I8(x) => leaf_ser_of::<SOMi8>(x, offset, buf),
        LeafModel::U16(x) => leaf_ser_of::<SOMu16>(x, offset, buf),
        LeafModel::I16(x) => leaf_ser_of::<SOMi16>(x, offset, buf),
        LeafModel::U24(x) => leaf_ser_of::<SOMu24>(x, offset, buf),
        LeafModel::I24(x) => leaf_ser_of::<SOMi24>(x, offset, buf),
        LeafModel::U32(x) => leaf_ser_of::<SOMu32>(x, offset, buf),
        LeafModel::I32(x) => leaf_ser_of::<SOMi32>(x, offset, buf),
        LeafModel::U64(x) => leaf_ser_of::<SOMu64>(x, offset, buf),
        LeafModel::I64(x) => leaf_ser_of::<SOMi64>(x, offset, buf),
        LeafModel::F32(x) => leaf_ser_of::<SOMf32>(x, offset, buf),
        LeafModel::F64(x) => leaf_ser_of::<SOMf64>(x, offset, buf),
        LeafModel::EnumU8(x) => leaf_ser_of::<SOMu8Enum>(x, offset, buf),
        LeafModel::EnumU16(x) => leaf_ser_of::<SOMu16Enum>(x, offset, buf),
        LeafModel::EnumU32(x) => leaf_ser_of::<SOMu32Enum>(x, offset, buf),
        LeafModel::EnumU64(x) => leaf_ser_of::<SOMu64Enum>(x, offset, buf),
        LeafModel::ArrayBool(x) => leaf_ser_of::<SOMBoolArray>(x, offset, buf),
        LeafModel::ArrayU8(x) => leaf_ser_of::<SOMu8Array>(x, offset, buf),
        LeafModel::ArrayI8(x) => leaf_ser_of::<SOMi8Array>(x, offset, buf),
        LeafModel::ArrayU16(x) => leaf_ser_of::<SOMu16Array>(x, offset, buf),
        LeafModel::ArrayI16(x) => leaf_ser_of::<SOMi16Array>(x, offset, buf),
        LeafModel::ArrayU24(x) => leaf_ser_of::<SOMu24Array>(x, offset, buf),
        LeafModel::ArrayI24(x) => leaf_ser_of::<SOMi24Array>(x, offset, buf),
        LeafModel::ArrayU32(x) => leaf_ser_of::<SOMu32Array>(x, offset, buf),
        LeafModel::ArrayI32(x) => leaf_ser_of::<SOMi32Array>(x, offset, buf),
        LeafModel::ArrayU64(x) => leaf_ser_of::<SOMu64Array>(x, offset, buf),
        LeafModel::ArrayI64(x) => leaf_ser_of::<SOMi64Array>(x, offset, buf),
        LeafModel::ArrayF23(x) => leaf_ser_of::<SOMf32Array>(x, offset, buf),
        LeafModel::ArrayF64(x) => leaf_ser_of::<SOMf64Array>(x, offset, buf),
        LeafModel::String(x) => leaf_ser_of::<SOMString>(x, offset, buf),
    }
}

/// Parsing a leaf value of model `lm`: its model after, and the outcome
/// where the read runs to its end.
#[verifier::opaque]
pub open spec fn leaf_parse(lm: LeafModel, offset: int, data: Seq<u8>) -> (
    LeafModel,
    Option<Result<nat, SOMErrorView>>,
) {
    match lm {
        LeafModel::Bool(x) => {
            let (x2, r) = leaf_parse_of::<SOMBool>(x, offset, data);
            (LeafModel::Bool(x2), r)
        },
        LeafModel::U8(x) => {
            let (x2, r) = leaf_parse_of::<SOMu8>(x, offset, data);
            (LeafModel::U8(x2), r)
        },
        LeafModel::I8(x) => {
            let (x2, r) = leaf_parse_of::<SOMi8>(x, offset, data);
            (LeafModel::I8(x2), r)
        },
        LeafModel::U16(x) => {
            let (x2, r) = leaf_parse_of::<SOMu16>(x, offset, data);
            (LeafModel::U16(x2), r)
        },
        LeafModel::I16(x) => {
            let (x2, r) = leaf_parse_of::<SOMi16>(x, offset, data);
            (LeafModel::I16(x2), r)
        },
        LeafModel::U24(x) => {
            let (x2, r) = leaf_parse_of::<SOMu24>(x, offset, data);
            (LeafModel::U24(x2), r)
        },
        LeafModel::I24(x) => {
            let (x2, r) = leaf_parse_of::<SOMi24>(x, offset, data);
            (LeafModel::I24(x2), r)
        },
        LeafModel::U32(x) => {
            let (x2, r) = leaf_parse_of::<SOMu32>(x, offset, data);
            (LeafModel::U32(x2), r)
        },
        LeafModel::I32(x) => {
            let (x2, r) = leaf_parse_of::<SOMi32>(x, offset, data);
            (LeafModel::I32(x2), r)
        },
        LeafModel::U64(x) => {
            let (x2, r) = leaf_parse_of::<SOMu64>(x, offset, data);
            (LeafModel::U64(x2), r)
        },
        LeafModel::I64(x) => {
            let (x2, r) = leaf_parse_of::<SOMi64>(x, offset, data);
            (LeafModel::I64(x2), r)
        },
        LeafModel::F32(x) => {
            let (x2, r) = leaf_parse_of::<SOMf32>(x, offset, data);
            (LeafModel::F32(x2), r)
        },
        LeafModel::F64(x) => {
            let (x2, r) = leaf_parse_of::<SOMf64>(x, offset, data);
            (LeafModel::F64(x2), r)
        },
        LeafModel::EnumU8(x) => {
            let (x2, r) = leaf_parse_of::<SOMu8Enum>(x, offset, data);
            (LeafModel::EnumU8(x2), r)
        },
        LeafModel::EnumU16(x) => {
            let (x2, r) = leaf_parse_of::<SOMu16Enum>(x, offset, data);
            (LeafModel::EnumU16(x2), r)
        },
        LeafModel::EnumU32(x) => {
            let (x2, r) = leaf_parse_of::<SOMu32Enum>(x, offset, data);
            (LeafModel::EnumU32(x2), r)
        },
        LeafModel::EnumU64(x) => {
            let (x2, r) = leaf_parse_of::<SOMu64Enum>(x, offset, data);
            (LeafModel::EnumU64(x2), r)
        },
        LeafModel::ArrayBool(x) => {
            let (x2, r) = leaf_parse_of::<SOMBoolArray>(x, offset, data);
            (LeafModel::ArrayBool(x2), r)
        },
        LeafModel::ArrayU8(x) => {
            let (x2, r) = leaf_parse_of::<SOMu8Array>(x, offset, data);
            (LeafModel::ArrayU8(x2), r)
        },
        LeafModel::ArrayI8(x) => {
            let (x2, r) = leaf_parse_of::<SOMi8Array>(x, offset, data);
            (LeafModel::ArrayI8(x2), r)
        },
        LeafModel::ArrayU16(x) => {
            let (x2, r) = leaf_parse_of::<SOMu16Array>(x, offset, data);
            (LeafModel::ArrayU16(x2), r)
        },
        LeafModel::ArrayI16(x) => {
            let (x2, r) = leaf_parse_of::<SOMi16Array>(x, offset, data);
            (LeafModel::ArrayI16(x2), r)
        },
        LeafModel::ArrayU24(x) => {
            let (x2, r) = leaf_parse_of::<SOMu24Array>(x, offset, data);
            (LeafModel::ArrayU24(x2), r)
        },
        LeafModel::ArrayI24(x) => {
            let (x2, r) = leaf_parse_of::<SOMi24Array>(x, offset, data);
            (LeafModel::ArrayI24(x2), r)
        },
        LeafModel::ArrayU32(x) => {
            let (x2, r) = leaf_parse_of::<SOMu32Array>(x, offset, data);
            (LeafModel::ArrayU32(x2), r)
        },
        LeafModel::ArrayI32(x) => {
            let (x2, r) = leaf_parse_of::<SOMi32Array>(x, offset, data);
            (LeafModel::ArrayI32(x2), r)
        },
        LeafModel::ArrayU64(x) => {
            let (x2, r) = leaf_parse_of::<SOMu64Array>(x, offset, data);
            (LeafModel::ArrayU64(x2), r)
        },
        LeafModel::ArrayI64(x) => {
            let (x2, r) = leaf_parse_of::<SOMi64Array>(x, offset, data);
            (LeafModel::ArrayI64(x2), r)
        },
        LeafModel::ArrayF23(x) => {
            let (x2, r) = leaf_parse_of::<SOMf32Array>(x, offset, data);
            (LeafModel::ArrayF23(x2), r)
        },
        LeafModel::ArrayF64(x) => {
            let (x2, r) = leaf_parse_of::<SOMf64Array>(x, offset, data);
            (LeafModel::ArrayF64(x2), r)
        },
        LeafModel::String(x) => {
            let (x2, r) = leaf_parse_of::<SOMString>(x, offset, data);
            (LeafModel::String(x2), r)
        },
    }
}

/// The size of a leaf value of model `lm` in bytes.
#[verifier::opaque]
pub open spec fn leaf_size(lm: LeafModel) -> nat {
    match lm {
        LeafModel::Bool(x) => <SOMBool as SOMType>::size_spec(x),
        LeafModel::U8(x) => <SOMu8 as SOMType>::size_spec(x),
        LeafModel::I8(x) => <SOMi8 as SOMType>::size_spec(x),
        LeafModel::U16(x) => <SOMu16 as SOMType>::size_spec(x),
        LeafModel::I16(x) => <SOMi16 as SOMType>::size_spec(x),
        LeafModel::U24(x) => <SOMu24 as SOMType>::size_spec(x),
        LeafModel::I24(x) => <SOMi24 as SOMType>::size_spec(x),
        LeafModel::U32(x) => <SOMu32 as SOMType>::size_spec(x),
        LeafModel::I32(x) => <SOMi32 as SOMType>::size_spec(x),
        LeafModel::U64(x) => <SOMu64 as SOMType>::size_spec(x),
        LeafModel::I64(x) => <SOMi64 as SOMType>::size_spec(x),
        LeafModel::F32(x) => <SOMf32 as SOMType>::size_spec(x),
        LeafModel::F64(x) => <SOMf64 as SOMType>::size_spec(x),
        LeafModel::EnumU8(x) => <SOMu8Enum as SOMType>::size_spec(x),
        LeafModel::EnumU16(x) => <SOMu16Enum as SOMType>::size_spec(x),
        LeafModel::EnumU32(x) => <SOMu32Enum as SOMType>::size_spec(x),
        LeafModel::EnumU64(x) => <SOMu64Enum as SOMType>::size_spec(x),
        LeafModel::ArrayBool(x) => <SOMBoolArray as SOMType>::size_spec(x),
        LeafModel::ArrayU8(x) => <SOMu8Array as SOMType>::size_spec(x),
        LeafModel::ArrayI8(x) => <SOMi8Array as SOMType>::size_spec(x),
        LeafModel::ArrayU16(x) => <SOMu16Array as SOMType>::size_spec(x),
        LeafModel::ArrayI16(x) => <SOMi16Array as SOMType>::size_spec(x),
        LeafModel::ArrayU24(x) => <SOMu24Array as SOMType>::size_spec(x),
        LeafModel::ArrayI24(x) => <SOMi24Array as SOMType>::size_spec(x),
        LeafModel::ArrayU32(x) => <SOMu32Array as SOMType>::size_spec(x),
        LeafModel::ArrayI32(x) => <SOMi32Array as SOMType>::size_spec(x),
        LeafModel::ArrayU64(x) => <SOMu64Array as SOMType>::size_spec(x),
        LeafModel::ArrayI64(x) => <SOMi64Array as SOMType>::size_spec(x),
        LeafModel::ArrayF23(x) => <SOMf32Array as SOMType>::size_spec(x),
        LeafModel::ArrayF64(x) => <SOMf64Array as SOMType>::size_spec(x),
        LeafModel::String(x) => <SOMString as SOMType>::size_spec(x),
    }
}

/// How the length of a value of model `m` is known on the wire.
pub open spec fn wrapper_info(m: WrapperModel) -> SOMTypeInfo {
    match m {
        WrapperModel::Leaf(lm) => leaf_info(lm),
        WrapperModel::Array(am) => if array_dynamic(am) {
            SOMTypeInfo::ExplicitLength
        } else {
            SOMTypeInfo::ImplicitLength
        },
        WrapperModel::Struct(_) => SOMTypeInfo::ImplicitLength,
        WrapperModel::Union(_) => SOMTypeInfo::ImplicitLength,
        WrapperModel::Optional(_) => SOMTypeInfo::ExplicitLength,
    }
}

/// Adds the bytes `b` that were written first to the outcome `r` of what
/// was written after them.
pub open spec fn prepend(b: Seq<u8>, r: Option<Result<Seq<u8>, SOMErrorView>>) -> Option<
    Result<Seq<u8>, SOMErrorView>,
> {
    match r {
        None => None,
        Some(Err(e)) => Some(Err(e)),
        Some(Ok(rest)) => Some(Ok(b + rest)),
    }
}

/// Adds the `n` bytes that were read first to the outcome `r` of what was
/// read after them.
pub open spec fn add_read(n: nat, r: Option<Result<nat, SOMErrorView>>) -> Option<
    Result<nat, SOMErrorView>,
> {
    match r {
        None => None,
        Some(Err(e)) => Some(Err(e)),
        Some(Ok(m)) => Some(Ok(n + m)),
    }
}

/// The bytes of a value of model `m` at `offset` in a buffer that holds
/// `buf`, or its error; none where serializing it does not run to its end.
pub open spec fn wrapper_ser(m: WrapperModel, offset: int, buf: Seq<u8>) -> Option<
    Result<Seq<u8>, SOMErrorView>,
>
    decreases m, 0int,
{
    match m {
        WrapperModel::Leaf(lm) => leaf_ser(lm, offset, buf),
        WrapperModel::Array(am) => warr_ser(am, offset, buf),
        WrapperModel::Struct(sm) => welems_ser(sm.members, 0, offset, buf),
        WrapperModel::Union(um) => union_ser(um, offset, buf),
        WrapperModel::Optional(om) => optional_ser(om, offset, buf),
    }
}

/// The bytes of an array of members of any type at `offset`: its length
/// field, then its elements; or the error: of a length outside its bounds,
/// of no room for the length field, or of the first element that fails.
pub open spec fn warr_ser(am: ArrayModel<WrapperModel>, offset: int, buf: Seq<u8>) -> Option<
    Result<Seq<u8>, SOMErrorView>,
>
    decreases am, 0int,
{
    let k = lengthfield_size(am.lengthfield);
    if !array_length_ok(am) {
        Some(Err(array_len_error(am, offset)))
    } else if offset + k > buf.len() {
        Some(Err(ser_exhausted(offset, k)))
    } else {
        match welems_ser(am.elements, 0, offset + k, buf) {
            None => None,
            Some(Err(e)) => Some(Err(e)),
            Some(Ok(b)) => if array_dynamic(am) {
                Some(Ok(lengthfield_bytes(am.lengthfield, b.len()) + b))
            } else {
                Some(Ok(buf.subrange(offset, offset + k) + b))
            },
        }
    }
}

/// The bytes of a union at `offset`: its type field, then its selected
/// variant, where there is one.
pub open spec fn union_ser(um: UnionModel, offset: int, buf: Seq<u8>) -> Option<
    Result<Seq<u8>, SOMErrorView>,
>
    decreases um, 0int,
{
    let k = typefield_size(um.typefield);
    let tb = typefield_bytes(um.typefield, um.index);
    if offset + k > buf.len() {
        Some(Err(ser_exhausted(offset, k)))
    } else if 0 < um.index <= um.variants.len() {
        prepend(tb, wrapper_ser(um.variants[um.index - 1], offset + k, overwrite(buf, offset, tb)))
    } else {
        Some(Ok(tb))
    }
}

/// The bytes of an optional at `offset`: its length field, then its members
/// that are set.
pub open spec fn optional_ser(om: OptionalModel, offset: int, buf: Seq<u8>) -> Option<
    Result<Seq<u8>, SOMErrorView>,
>
    decreases om, 0int,
{
    let k = lengthfield_size(om.lengthfield);
    if offset + k > buf.len() {
        Some(Err(ser_exhausted(offset, k)))
    } else {
        match opt_ser(om.members, 0, om.lengthfield, offset, offset + k, buf) {
            None => None,
            Some(Err(e)) => Some(Err(e)),
            Some(Ok(b)) => Some(Ok(lengthfield_bytes(om.lengthfield, b.len()) + b)),
        }
    }
}

/// The bytes of the values of models `ms` from the `i`-th on, each written
/// after the one before it, or the error of the first that fails.
pub open spec fn welems_ser(ms: Seq<WrapperModel>, i: int, offset: int, buf: Seq<u8>) -> Option<
    Result<Seq<u8>, SOMErrorView>,
>
    decreases ms, ms.len() - i,
{
    if i < 0 || i >= ms.len() {
        Some(Ok(Seq::empty()))
    } else {
        match wrapper_ser(ms[i], offset, buf) {
            None => None,
            Some(Err(e)) => Some(Err(e)),
            Some(Ok(b)) => prepend(b, welems_ser(ms, i + 1, offset + b.len(), overwrite(buf, offset, b))),
        }
    }
}

/// The bytes of a member `it` of an optional written at `pos`: its tag,
/// then, where its length is implicit, a length field, then its value; or
/// the error.
pub open spec fn opt_head(it: OptionalItemModel, lf: SOMLengthField, pos: int, buf: Seq<u8>) -> Option<
    Result<Seq<u8>, SOMErrorView>,
>
    decreases it, 0int,
{
    let tb = be16(opt_tag(it.wiretype, it.key));
    let buf1 = overwrite(buf, pos, tb);
    let k = lengthfield_size(lf);
    if pos + 2 > buf.len() {
        Some(Err(ser_exhausted(pos, 2)))
    } else if wrapper_info(it.value) == SOMTypeInfo::ImplicitLength {
        if pos + 2 + k > buf.len() {
            Some(Err(ser_exhausted(pos + 2, k)))
        } else {
            match wrapper_ser(it.value, pos + 2 + k, buf1) {
                None => None,
                Some(Err(e)) => Some(Err(e)),
                Some(Ok(b)) => Some(Ok(tb + lengthfield_bytes(lf, b.len()) + b)),
            }
        }
    } else {
        prepend(tb, wrapper_ser(it.value, pos + 2, buf1))
    }
}

/// The bytes of the members `items` of an optional from the `i`-th on,
/// written at `pos`: each member that is set as `opt_head` says; or the
/// error, which a mandatory member that is not set gives with the
/// optional's offset `start`.
pub open spec fn opt_ser(
    items: Seq<OptionalItemModel>,
    i: int,
    lf: SOMLengthField,
    start: int,
    pos: int,
    buf: Seq<u8>,
) -> Option<Result<Seq<u8>, SOMErrorView>>
    decreases items, items.len() - i,
{
    if i < 0 || i >= items.len() {
        Some(Ok(Seq::empty()))
    } else if items[i].set {
        match opt_head(items[i], lf, pos, buf) {
            None => None,
            Some(Err(e)) => Some(Err(e)),
            Some(Ok(head)) => prepend(
                head,
                opt_ser(items, i + 1, lf, start, pos + head.len(), overwrite(buf, pos, head)),
            ),
        }
    } else if items[i].mandatory {
        Some(Err(SOMErrorView::InvalidType(msg_mandatory_ser(items[i].key, start as nat))))
    } else {
        opt_ser(items, i + 1, lf, start, pos, buf)
    }
}

/// The size of a value of model `m` in bytes.
pub open spec fn wrapper_size(m: WrapperModel) -> nat
    decreases m, 0int,
{
    match m {
        WrapperModel::Leaf(lm) => leaf_size(lm),
        WrapperModel::Array(am) => lengthfield_size(am.lengthfield) + welems_size(am.elements, 0),
        WrapperModel::Struct(sm) => welems_size(sm.members, 0),
        WrapperModel::Union(um) => typefield_size(um.typefield) + if 0 < um.index
            <= um.variants.len() {
            wrapper_size(um.variants[um.index - 1])
        } else {
            0
        },
        WrapperModel::Optional(om) => lengthfield_size(om.lengthfield) + opt_size(
            om.members,
            0,
            om.lengthfield,
        ),
    }
}

/// The sum of the sizes of the values of models `ms` from the `i`-th on.
pub open spec fn welems_size(ms: Seq<WrapperModel>, i: int) -> nat
    decreases ms, ms.len() - i,
{
    if i < 0 || i >= ms.len() {
        0
    } else {
        wrapper_size(ms[i]) + welems_size(ms, i + 1)
    }
}

/// The sum of the sizes of the members `items` of an optional from the
/// `i`-th on that are set, each with its tag and, where its length is
/// implicit, its length field.
pub open spec fn opt_size(items: Seq<OptionalItemModel>, i: int, lf: SOMLengthField) -> nat
    decreases items, items.len() - i,
{
    if i < 0 || i >= items.len() {
        0
    } else {
        (if items[i].set {
            2 + (if wrapper_info(items[i].value) == SOMTypeInfo::ImplicitLength {
                lengthfield_size(lf)
            } else {
                0
            }) + wrapper_size(items[i].value)
        } else {
            0
        }) + opt_size(items, i + 1, lf)
    }
}

/// The position of the first member of `items` from the `j`-th on that is
/// not set and has the tag `tag`.
pub open spec fn opt_find(items: Seq<OptionalItemModel>, tag: u16, j: int) -> Option<int>
    decreases items.len() - j,
{
    if j < 0 || j >= items.len() {
        None
    } else if !items[j].set && opt_tag(items[j].wiretype, items[j].key) == tag {
        Some(j)
    } else {
        opt_find(items, tag, j + 1)
    }
}

/// The position of the first member of `items` from the `j`-th on that is
/// mandatory and not set.
pub open spec fn first_missing(items: Seq<OptionalItemModel>, j: int) -> Option<int>
    decreases items.len() - j,
{
    if j < 0 || j >= items.len() {
        None
    } else if items[j].mandatory && !items[j].set {
        Some(j)
    } else {
        first_missing(items, j + 1)
    }
}

/// The members `items` with none set.
pub open spec fn cleared_items(items: Seq<OptionalItemModel>) -> Seq<OptionalItemModel> {
    items.map_values(|it: OptionalItemModel| OptionalItemModel { set: false, ..it })
}

/// The model after parsing a value of model `m` at `offset` from `data`, and
/// the number of bytes read or the error; none where the read does not run
/// to its end.
pub open spec fn wrapper_parse(m: WrapperModel, offset: int, data: Seq<u8>) -> (
    WrapperModel,
    Option<Result<nat, SOMErrorView>>,
)
    decreases m, 0int,
{
    match m {
        WrapperModel::Leaf(lm) => {
            let (l2, r) = leaf_parse(lm, offset, data);
            (WrapperModel::Leaf(l2), r)
        },
        WrapperModel::Array(am) => {
            let (am2, r) = warr_parse(am, offset, data);
            (WrapperModel::Array(am2), r)
        },
        WrapperModel::Struct(sm) => {
            let (ms, r) = welems_parse(sm.members, sm.members, 0, offset, data);
            (WrapperModel::Struct(StructModel { members: ms, ..sm }), r)
        },
        WrapperModel::Union(um) => {
            let (um2, r) = union_parse(um, offset, data);
            (WrapperModel::Union(um2), r)
        },
        WrapperModel::Optional(om) => {
            let (om2, r) = optional_parse(om, offset, data);
            (WrapperModel::Optional(om2), r)
        },
    }
}

/// Reading an array of members of any type at `offset`: the check of its
/// length, its length field, its elements in turn, and the check of the
/// length field's value.
pub open spec fn warr_parse(am: ArrayModel<WrapperModel>, offset: int, data: Seq<u8>) -> (
    ArrayModel<WrapperModel>,
    Option<Result<nat, SOMErrorView>>,
)
    decreases am, 0int,
{
    let k = lengthfield_size(am.lengthfield);
    if !array_length_ok(am) {
        (am, Some(Err(array_len_error(am, offset))))
    } else if offset + k > data.len() {
        (am, Some(Err(parse_exhausted(offset, k))))
    } else {
        let lfv = lengthfield_value(am.lengthfield, data, offset);
        let (es, r) = welems_parse(am.elements, am.elements, 0, offset + k, data);
        let am2 = ArrayModel { elements: es, ..am };
        match r {
            None => (am2, None),
            Some(Err(e)) => (am2, Some(Err(e))),
            Some(Ok(n)) => if array_dynamic(am) && lfv != n {
                (
                    am2,
                    Some(
                        Err(SOMErrorView::InvalidPayload(msg_lengthfield_value(lfv, offset as nat))),
                    ),
                )
            } else {
                (am2, Some(Ok(k + n)))
            },
        }
    }
}

/// Reading a union at `offset`: its type field, which must select a variant
/// or none, then the selected variant.
pub open spec fn union_parse(um: UnionModel, offset: int, data: Seq<u8>) -> (
    UnionModel,
    Option<Result<nat, SOMErrorView>>,
)
    decreases um, 0int,
{
    let k = typefield_size(um.typefield);
    if offset + k > data.len() {
        (um, Some(Err(parse_exhausted(offset, k))))
    } else {
        let idx = typefield_value(um.typefield, data, offset);
        if idx > um.variants.len() {
            (um, Some(Err(SOMErrorView::InvalidPayload(msg_union_index(idx, offset as nat)))))
        } else if idx == 0 {
            (UnionModel { index: 0, ..um }, Some(Ok(k)))
        } else {
            let (v2, r) = wrapper_parse(um.variants[idx - 1], offset + k, data);
            (UnionModel { index: idx, variants: um.variants.update(idx - 1, v2), ..um }, add_read(k, r))
        }
    }
}

/// Reading an optional at `offset`: its length field, then its members, then
/// the checks that each mandatory member was read and that the length field
/// holds the length read.
pub open spec fn optional_parse(om: OptionalModel, offset: int, data: Seq<u8>) -> (
    OptionalModel,
    Option<Result<nat, SOMErrorView>>,
)
    decreases om, 0int,
{
    let k = lengthfield_size(om.lengthfield);
    if offset + k > data.len() {
        (om, Some(Err(parse_exhausted(offset, k))))
    } else {
        let tlf = lengthfield_value(om.lengthfield, data, offset);
        let (items, r) = opt_parse(
            om.members,
            cleared_items(om.members),
            om.lengthfield,
            offset + k,
            tlf,
            offset + k,
            data,
        );
        let om2 = OptionalModel { members: items, ..om };
        match r {
            None => (om2, None),
            Some(Err(e)) => (om2, Some(Err(e))),
            Some(Ok(end)) => match first_missing(items, 0) {
                Some(j) => (
                    om2,
                    Some(
                        Err(
                            SOMErrorView::InvalidPayload(
                                msg_mandatory_parse(items[j].key, offset as nat),
                            ),
                        ),
                    ),
                ),
                None => if tlf != end - (offset + k) {
                    (
                        om2,
                        Some(
                            Err(SOMErrorView::InvalidPayload(msg_lengthfield_value(tlf, offset as nat))),
                        ),
                    )
                } else {
                    (om2, Some(Ok((end - offset) as nat)))
                },
            },
        }
    }
}

/// Reading the values of models `orig` in turn from the `i`-th on at
/// `offset` from `data`, where `cur` holds the models as they are when the
/// `i`-th is reached: the models after, and the number of bytes read or the
/// error of the first that fails.
pub open spec fn welems_parse(
    orig: Seq<WrapperModel>,
    cur: Seq<WrapperModel>,
    i: int,
    offset: int,
    data: Seq<u8>,
) -> (Seq<WrapperModel>, Option<Result<nat, SOMErrorView>>)
    decreases orig, orig.len() - i,
{
    if i < 0 || i >= orig.len() {
        (cur, Some(Ok(0)))
    } else {
        let (m0, r0) = wrapper_parse(orig[i], offset, data);
        let cur1 = cur.update(i, m0);
        match r0 {
            None => (cur1, None),
            Some(Err(e)) => (cur1, Some(Err(e))),
            Some(Ok(n)) => {
                let (c2, r) = welems_parse(orig, cur1, i + 1, offset + n, data);
                (c2, add_read(n, r))
            },
        }
    }
}

/// Reading the value of model `v` of a member of an optional whose tag
/// ended at `p2`: a length field first where its length is implicit, which
/// must give the value's length. The value's model after, and the position
/// where the read ended or the error.
pub open spec fn opt_member(v: WrapperModel, lf: SOMLengthField, p2: int, data: Seq<u8>) -> (
    WrapperModel,
    Option<Result<int, SOMErrorView>>,
)
    decreases v, 1int,
{
    let k = lengthfield_size(lf);
    if wrapper_info(v) == SOMTypeInfo::ImplicitLength {
        if p2 + k > data.len() {
            (v, Some(Err(parse_exhausted(p2, k))))
        } else {
            let mlf = lengthfield_value(lf, data, p2);
            let (v2, r) = wrapper_parse(v, p2 + k, data);
            match r {
                None => (v2, None),
                Some(Err(e)) => (v2, Some(Err(e))),
                Some(Ok(n)) => if n != mlf {
                    (
                        v2,
                        Some(
                            Err(
                                SOMErrorView::InvalidPayload(
                                    msg_lengthfield_value(mlf, (p2 + k) as nat),
                                ),
                            ),
                        ),
                    )
                } else {
                    (v2, Some(Ok(p2 + k + n)))
                },
            }
        }
    } else {
        let (v2, r) = wrapper_parse(v, p2, data);
        (
            v2,
            match r {
                None => None,
                Some(Err(e)) => Some(Err(e)),
                Some(Ok(n)) => Some(Ok(p2 + n)),
            },
        )
    }
}

/// Reading the members of an optional at `pos` from `data` while fewer than
/// `tlf` bytes were read since `type_start`, where `orig` holds the members
/// as they were before the read and `cur` as they are at `pos`: each tag
/// read selects the first member not yet read that has it, whose value is
/// read as `opt_member` says; a tag that selects none is skipped with its
/// value. The members after, and the position where the read ended or the
/// error.
pub open spec fn opt_parse(
    orig: Seq<OptionalItemModel>,
    cur: Seq<OptionalItemModel>,
    lf: SOMLengthField,
    type_start: int,
    tlf: nat,
    pos: int,
    data: Seq<u8>,
) -> (Seq<OptionalItemModel>, Option<Result<int, SOMErrorView>>)
    decreases orig, data.len() - pos,
{
    let k = lengthfield_size(lf);
    let p2 = pos + 2;
    if pos > data.len() || pos < type_start || pos - type_start >= tlf {
        (cur, Some(Ok(pos)))
    } else if p2 > data.len() {
        (cur, Some(Err(parse_exhausted(pos, 2))))
    } else {
        let tag = (from_be16(data.subrange(pos, p2)) & 0x7FFFu16) as u16;
        match opt_find(cur, tag, 0) {
            Some(j) => if 0 <= j < orig.len() {
                let (v2, r) = opt_member(orig[j].value, lf, p2, data);
                let cur1 = cur.update(j, OptionalItemModel { value: v2, ..cur[j] });
                match r {
                    None => (cur1, None),
                    Some(Err(e)) => (cur1, Some(Err(e))),
                    Some(Ok(end)) => {
                        let cur2 = cur.update(j, OptionalItemModel { value: v2, set: true, ..cur[j] });
                        if end > data.len() || end <= pos {
                            (cur2, Some(Ok(end)))
                        } else {
                            opt_parse(orig, cur2, lf, type_start, tlf, end, data)
                        }
                    },
                }
            } else {
                (cur, Some(Ok(pos)))
            },
            None => match wire_size(((tag >> 8u16) & 0xFFu16) as nat) {
                Some(s) => if p2 + s > data.len() {
                    (cur, Some(Err(parse_exhausted(p2, s))))
                } else {
                    opt_parse(orig, cur, lf, type_start, tlf, p2 + s, data)
                },
                None => if p2 + k > data.len() {
                    (cur, Some(Err(parse_exhausted(p2, k))))
                } else {
                    let s = lengthfield_value(lf, data, p2);
                    if p2 + k + s > data.len() {
                        (cur, Some(Err(parse_exhausted(p2 + k, s))))
                    } else {
                        opt_parse(orig, cur, lf, type_start, tlf, p2 + k + s, data)
                    }
                },
            },
        }
    }
}

/// A value of any payload type.
#[derive(Debug)]
pub enum SOMTypeWrapper {
    /// A value of type `SOMBool`.
    Bool(SOMBool),
    /// A value of type `SOMu8`.
    U8(SOMu8),
    /// A value of type `SOMi8`.
    I8(SOMi8),
    /// A value of type `SOMu16`.
    U16(SOMu16),
    /// A value of type `SOMi16`.
    I16(SOMi16),
    /// A value of type `SOMu24`.
    U24(SOMu24),
    /// A value of type `SOMi24`.
    I24(SOMi24),
    /// A value of type `SOMu32`.
    U32(SOMu32),
    /// A value of type `SOMi32`.
    I32(SOMi32),
    /// A value of type `SOMu64`.
    U64(SOMu64),
    /// A value of type `SOMi64`.
    I64(SOMi64),
    /// A value of type `SOMf32`.
    F32(SOMf32),
    /// A value of type `SOMf64`.
    F64(SOMf64),
    /// An enumeration of type `SOMu8Enum`.
    EnumU8(SOMu8Enum),
    /// An enumeration of type `SOMu16Enum`.
    EnumU16(SOMu16Enum),
    /// An enumeration of type `SOMu32Enum`.
    EnumU32(SOMu32Enum),
    /// An enumeration of type `SOMu64Enum`.
    EnumU64(SOMu64Enum),
    /// An array of members of any type.
    Array(SOMArray),
    /// An array of type `SOMBoolArray`.
    ArrayBool(SOMBoolArray),
    /// An array of type `SOMu8Array`.
    ArrayU8(SOMu8Array),
    /// An array of type `SOMi8Array`.
    ArrayI8(SOMi8Array),
    /// An array of type `SOMu16Array`.
    ArrayU16(SOMu16Array),
    /// An array of type `SOMi16Array`.
    ArrayI16(SOMi16Array),
    /// An array of type `SOMu24Array`.
    ArrayU24(SOMu24Array),
    /// An array of type `SOMi24Array`.
    ArrayI24(SOMi24Array),
    /// An array of type `SOMu32Array`.
    ArrayU32(SOMu32Array),
    /// An array of type `SOMi32Array`.
    ArrayI32(SOMi32Array),
    /// An array of type `SOMu64Array`.
    ArrayU64(SOMu64Array),
    /// An array of type `SOMi64Array`.
    ArrayI64(SOMi64Array),
    /// An array of type `SOMf32Array`.
    ArrayF23(SOMf32Array),
    /// An array of type `SOMf64Array`.
    ArrayF64(SOMf64Array),
    /// A structure.
    Struct(SOMStruct),
    /// A union.
    Union(SOMUnion),
    /// A string.
    String(SOMString),
    /// An optional.
    Optional(SOMOptional),
}

/// A structure: members of any payload type, one after another.
#[derive(Debug)]
pub struct SOMStructType {
    members: Vec<SOMTypeWrapper>,
    meta: Option<SOMTypeMeta>,
}

/// A union: variants of any payload type, of which the one that the type
/// field selects is present.
#[derive(Debug)]
pub struct SOMUnionType {
    typefield: SOMTypeField,
    variants: Vec<SOMTypeWrapper>,
    index: usize,
    meta: Option<SOMTypeMeta>,
}

/// A member of an optional: a value of any payload type under a key.
#[derive(Debug)]
pub struct SOMOptionalTypeItem {
    wiretype: usize,
    key: usize,
    value: SOMTypeWrapper,
    mandatory: bool,
    set: bool,
}

/// An optional: members under keys, of which those that are set are present
/// on the wire, each with its tag.
#[derive(Debug)]
pub struct SOMOptionalType {
    lengthfield: SOMLengthField,
    members: Vec<SOMOptionalTypeItem>,
    meta: Option<SOMTypeMeta>,
}

/// A member of an array of members of any type.
pub type SOMArrayMember = SOMTypeWrapper;

/// An array of members of any type.
pub type SOMArray = SOMArrayType<SOMTypeWrapper>;

/// A member of a structure.
pub type SOMStructMember = SOMTypeWrapper;

/// A structure.
pub type SOMStruct = SOMStructType;

/// A variant of a union.
pub type SOMUnionMember = SOMTypeWrapper;

/// A union.
pub type SOMUnion = SOMUnionType;

/// A member of an optional.
pub type SOMOptionalMember = SOMTypeWrapper;

/// An optional.
pub type SOMOptional = SOMOptionalType;

/// Whether the value holds no members of any type.
pub open spec fn is_leaf(w: SOMTypeWrapper) -> bool {
    !(w is Array || w is Struct || w is Union || w is Optional)
}

/// The model of a value that holds no members of any type.
#[verifier::opaque]
pub closed spec fn leaf_model(w: SOMTypeWrapper) -> LeafModel {
    match w {
        SOMTypeWrapper::Bool(x) => LeafModel::Bool(x.model()),
        SOMTypeWrapper::U8(x) => LeafModel::U8(x.model()),
        SOMTypeWrapper::I8(x) => LeafModel::I8(x.model()),
        SOMTypeWrapper::U16(x) => LeafModel::U16(x.model()),
        SOMTypeWrapper::I16(x) => LeafModel::I16(x.model()),
        SOMTypeWrapper::U24(x) => LeafModel::U24(x.model()),
        SOMTypeWrapper::I24(x) => LeafModel::I24(x.model()),
        SOMTypeWrapper::U32(x) => LeafModel::U32(x.model()),
        SOMTypeWrapper::I32(x) => LeafModel::I32(x.model()),
        SOMTypeWrapper::U64(x) => LeafModel::U64(x.model()),
        SOMTypeWrapper::I64(x) => LeafModel::I64(x.model()),
        SOMTypeWrapper::F32(x) => LeafModel::F32(x.model()),
        SOMTypeWrapper::F64(x) => LeafModel::F64(x.model()),
        SOMTypeWrapper::EnumU8(x) => LeafModel::EnumU8(x.model()),
        SOMTypeWrapper::EnumU16(x) => LeafModel::EnumU16(x.model()),
        SOMTypeWrapper::EnumU32(x) => LeafModel::EnumU32(x.model()),
        SOMTypeWrapper::EnumU64(x) => LeafModel::EnumU64(x.model()),
        SOMTypeWrapper::ArrayBool(x) => LeafModel::ArrayBool(x.model()),
        SOMTypeWrapper::ArrayU8(x) => LeafModel::ArrayU8(x.model()),
        SOMTypeWrapper::ArrayI8(x) => LeafModel::ArrayI8(x.model()),
        SOMTypeWrapper::ArrayU16(x) => LeafModel::ArrayU16(x.model()),
        SOMTypeWrapper::ArrayI16(x) => LeafModel::ArrayI16(x.model()),
        SOMTypeWrapper::ArrayU24(x) => LeafModel::ArrayU24(x.model()),
        SOMTypeWrapper::ArrayI24(x) => LeafModel::ArrayI24(x.model()),
        SOMTypeWrapper::ArrayU32(x) => LeafModel::ArrayU32(x.model()),
        SOMTypeWrapper::ArrayI32(x) => LeafModel::ArrayI32(x.model()),
        SOMTypeWrapper::ArrayU64(x) => LeafModel::ArrayU64(x.model()),
        SOMTypeWrapper::ArrayI64(x) => LeafModel::ArrayI64(x.model()),
        SOMTypeWrapper::ArrayF23(x) => LeafModel::ArrayF23(x.model()),
        SOMTypeWrapper::ArrayF64(x) => LeafModel::ArrayF64(x.model()),
        SOMTypeWrapper::String(x) => LeafModel::String(x.model()),
        _ => LeafModel::String(arbitrary()),
    }
}

/// The model of a value of any payload type.
pub closed spec fn wrapper_model(w: SOMTypeWrapper) -> WrapperModel
    decreases w,
{
    match w {
        SOMTypeWrapper::Array(a) => WrapperModel::Array(
            ArrayModel {
                lengthfield: a.lengthfield,
                elements: models_of(a.elements@),
                min: a.min as nat,
                max: a.max as nat,
                meta: a.meta,
            },
        ),
        SOMTypeWrapper::Struct(s) => WrapperModel::Struct(
            StructModel { members: models_of(s.members@), meta: s.meta },
        ),
        SOMTypeWrapper::Union(u) => WrapperModel::Union(
            UnionModel {
                typefield: u.typefield,
                variants: models_of(u.variants@),
                index: u.index as nat,
                meta: u.meta,
            },
        ),
        SOMTypeWrapper::Optional(o) => WrapperModel::Optional(
            OptionalModel { lengthfield: o.lengthfield, members: items_of(o.members@), meta: o.meta },
        ),
        _ => WrapperModel::Leaf(leaf_model(w)),
    }
}

/// The models of values of any payload type.
pub closed spec fn models_of(s: Seq<SOMTypeWrapper>) -> Seq<WrapperModel>
    decreases s,
{
    if s.len() == 0 {
        Seq::empty()
    } else {
        models_of(s.drop_last()).push(wrapper_model(s.last()))
    }
}

/// The model of a member of an optional.
pub closed spec fn item_model(it: SOMOptionalTypeItem) -> OptionalItemModel
    decreases it,
{
    OptionalItemModel {
        wiretype: it.wiretype as nat,
        key: it.key as nat,
        value: wrapper_model(it.value),
        mandatory: it.mandatory,
        set: it.set,
    }
}

/// The models of members of an optional.
pub closed spec fn items_of(s: Seq<SOMOptionalTypeItem>) -> Seq<OptionalItemModel>
    decreases s,
{
    if s.len() == 0 {
        Seq::empty()
    } else {
        items_of(s.drop_last()).push(item_model(s.last()))
    }
}

/// The models of values are those of each value in turn.
pub proof fn lemma_models_of(s: Seq<SOMTypeWrapper>)
    ensures
        models_of(s).len() == s.len(),
        forall|i: int| 0 <= i < s.len() ==> #[trigger] models_of(s)[i] == wrapper_model(s[i]),
    decreases s.len(),
{
    if s.len() > 0 {
        lemma_models_of(s.drop_last());
    }
}

/// The models of members of an optional are those of each member in turn.
pub proof fn lemma_items_of(s: Seq<SOMOptionalTypeItem>)
    ensures
        items_of(s).len() == s.len(),
        forall|i: int| 0 <= i < s.len() ==> #[trigger] items_of(s)[i] == item_model(s[i]),
    decreases s.len(),
{
    if s.len() > 0 {
        lemma_items_of(s.drop_last());
    }
}

/// The model of a member of an optional holds its wire type, key, value,
/// and whether it is mandatory and set.
pub broadcast proof fn lemma_item_model(it: SOMOptionalTypeItem)
    ensures
        #[trigger] item_model(it) == (OptionalItemModel {
            wiretype: it.spec_wiretype(),
            key: it.spec_key(),
            value: wrapper_model(it.spec_value()),
            mandatory: it.spec_mandatory(),
            set: it.spec_set(),
        }),
{
}

/// Replacing a value replaces its model.
pub proof fn lemma_models_update(s: Seq<SOMTypeWrapper>, i: int, x: SOMTypeWrapper)
    requires
        0 <= i < s.len(),
    ensures
        models_of(s.update(i, x)) == models_of(s).update(i, wrapper_model(x)),
{
    lemma_models_of(s);
    lemma_models_of(s.update(i, x));
    assert(models_of(s.update(i, x)) =~= models_of(s).update(i, wrapper_model(x)));
}

/// Appending a value appends its model.
pub proof fn lemma_models_push(s: Seq<SOMTypeWrapper>, x: SOMTypeWrapper)
    ensures
        models_of(s.push(x)) == models_of(s).push(wrapper_model(x)),
{
    assert(s.push(x).drop_last() =~= s);
}

/// Replacing a member of an optional replaces its model.
pub proof fn lemma_items_update(s: Seq<SOMOptionalTypeItem>, i: int, x: SOMOptionalTypeItem)
    requires
        0 <= i < s.len(),
    ensures
        items_of(s.update(i, x)) == items_of(s).update(i, item_model(x)),
{
    lemma_items_of(s);
    lemma_items_of(s.update(i, x));
    assert(items_of(s.update(i, x)) =~= items_of(s).update(i, item_model(x)));
}

/// Appending a member of an optional appends its model.
pub proof fn lemma_items_push(s: Seq<SOMOptionalTypeItem>, x: SOMOptionalTypeItem)
    ensures
        items_of(s.push(x)) == items_of(s).push(item_model(x)),
{
    assert(s.push(x).drop_last() =~= s);
}

impl SOMStructType {
    /// The members.
    pub closed spec fn spec_members(&self) -> Seq<SOMTypeWrapper> {
        self.members@
    }

    /// The name and description that the structure is shown with.
    pub closed spec fn spec_meta(&self) -> Option<SOMTypeMeta> {
        self.meta
    }

    /// The model of the structure.
    pub closed spec fn spec_model(&self) -> StructModel {
        StructModel { members: models_of(self.members@), meta: self.meta }
    }

    /// A structure without members.
    pub fn new() -> (r: SOMStructType)
        ensures
            r.spec_members() == Seq::<SOMTypeWrapper>::empty(),
            r.spec_meta() == None::<SOMTypeMeta>,
    {
        SOMStructType { members: Vec::new(), meta: None }
    }

    /// A structure of the members `members`.
    pub fn from(members: Vec<SOMTypeWrapper>) -> (r: SOMStructType)
        ensures
            r.spec_members() == members@,
            r.spec_meta() == None::<SOMTypeMeta>,
    {
        SOMStructType { members, meta: None }
    }

    /// The number of members.
    pub fn len(&self) -> (r: usize)
        ensures
            r == self.spec_members().len(),
    {
        self.members.len()
    }

    /// Appends the member `obj`.
    pub fn add(&mut self, obj: SOMTypeWrapper)
        ensures
            final(self).spec_members() == old(self).spec_members().push(obj),
            final(self).spec_meta() == old(self).spec_meta(),
    {
        self.members.push(obj);
    }

    /// The member at `index`, if there is one.
    pub fn get(&self, index: usize) -> (r: Option<&SOMTypeWrapper>)
        ensures
            index < self.spec_members().len() ==> r == Some(&self.spec_members()[index as int]),
            index >= self.spec_members().len() ==> r is None,
    {
        if index < self.members.len() {
            Some(&self.members[index])
        } else {
            None
        }
    }

    /// The member at `index` to change, if there is one.
    pub fn get_mut(&mut self, index: usize) -> (r: Option<&mut SOMTypeWrapper>)
        ensures
            index < old(self).spec_members().len() ==> (r matches Some(e) && *e == old(
                self,
            ).spec_members()[index as int] && final(self).spec_members() == old(
                self,
            ).spec_members().update(index as int, *final(e))),
            index >= old(self).spec_members().len() ==> r is None && *final(self) == *old(self),
            final(self).spec_meta() == old(self).spec_meta(),
    {
        if index < self.members.len() {
            Some(&mut self.members[index])
        } else {
            None
        }
    }

    /// The structure shown with the name and description `meta`.
    pub fn with_meta(self, meta: SOMTypeMeta) -> (r: SOMStructType)
        ensures
            r.spec_members() == self.spec_members(),
            r.spec_meta() == Some(meta),
    {
        SOMStructType { members: self.members, meta: Some(meta) }
    }

    /// The name and description that the structure is shown with, if any.
    pub fn meta(&self) -> (r: Option<&SOMTypeMeta>)
        ensures
            r is None <==> self.spec_meta() is None,
            r matches Some(m) ==> self.spec_meta() == Some(*m),
    {
        match &self.meta {
            Some(m) => Some(m),
            None => None,
        }
    }
}

impl SOMUnionType {
    /// The type field.
    pub closed spec fn spec_typefield(&self) -> SOMTypeField {
        self.typefield
    }

    /// The variants.
    pub closed spec fn spec_variants(&self) -> Seq<SOMTypeWrapper> {
        self.variants@
    }

    /// The position from one of the selected variant, or zero.
    pub closed spec fn spec_index(&self) -> nat {
        self.index as nat
    }

    /// The name and description that the union is shown with.
    pub closed spec fn spec_meta(&self) -> Option<SOMTypeMeta> {
        self.meta
    }

    /// The model of the union.
    pub closed spec fn spec_model(&self) -> UnionModel {
        UnionModel {
            typefield: self.typefield,
            variants: models_of(self.variants@),
            index: self.index as nat,
            meta: self.meta,
        }
    }

    /// A union without variants, with the type field `typefield`.
    pub fn new(typefield: SOMTypeField) -> (r: SOMUnionType)
        ensures
            r.spec_typefield() == typefield,
            r.spec_variants() == Seq::<SOMTypeWrapper>::empty(),
            r.spec_index() == 0,
            r.spec_meta() == None::<SOMTypeMeta>,
    {
        SOMUnionType { typefield, variants: Vec::new(), index: 0, meta: None }
    }

    /// A union of the variants `variants`, none selected, with the type
    /// field `typefield`.
    pub fn from(typefield: SOMTypeField, variants: Vec<SOMTypeWrapper>) -> (r: SOMUnionType)
        ensures
            r.spec_typefield() == typefield,
            r.spec_variants() == variants@,
            r.spec_index() == 0,
            r.spec_meta() == None::<SOMTypeMeta>,
    {
        SOMUnionType { typefield, variants, index: 0, meta: None }
    }

    /// The number of variants.
    pub fn len(&self) -> (r: usize)
        ensures
            r == self.spec_variants().len(),
    {
        self.variants.len()
    }

    /// Appends the variant `obj`.
    pub fn add(&mut self, obj: SOMTypeWrapper)
        ensures
            final(self).spec_variants() == old(self).spec_variants().push(obj),
            final(self).spec_typefield() == old(self).spec_typefield(),
            final(self).spec_index() == old(self).spec_index(),
            final(self).spec_meta() == old(self).spec_meta(),
    {
        self.variants.push(obj);
    }

    /// Whether a variant is selected.
    pub fn has_value(&self) -> (r: bool)
        ensures
            r == (self.spec_index() != 0),
    {
        self.index != 0
    }

    /// The selected variant, if there is one.
    pub fn get(&self) -> (r: Option<&SOMTypeWrapper>)
        ensures
            0 < self.spec_index() <= self.spec_variants().len() ==> r == Some(
                &self.spec_variants()[self.spec_index() - 1],
            ),
            !(0 < self.spec_index() <= self.spec_variants().len()) ==> r is None,
    {
        if self.index != 0 && self.index <= self.variants.len() {
            Some(&self.variants[self.index - 1])
        } else {
            None
        }
    }

    /// Selects the variant at position `index` from one and returns it to
    /// change, if there is one.
    pub fn get_mut(&mut self, index: usize) -> (r: Option<&mut SOMTypeWrapper>)
        ensures
            0 < index <= old(self).spec_variants().len() ==> (r matches Some(e) && *e == old(
                self,
            ).spec_variants()[index - 1] && final(self).spec_variants() == old(
                self,
            ).spec_variants().update(index - 1, *final(e)) && final(self).spec_index() == index),
            !(0 < index <= old(self).spec_variants().len()) ==> r is None && *final(self) == *old(
                self,
            ),
            final(self).spec_typefield() == old(self).spec_typefield(),
            final(self).spec_meta() == old(self).spec_meta(),
    {
        if index > 0 && index <= self.variants.len() {
            self.index = index;
            Some(&mut self.variants[index - 1])
        } else {
            None
        }
    }

    /// Selects no variant.
    pub fn clear(&mut self)
        ensures
            final(self).spec_index() == 0,
            final(self).spec_variants() == old(self).spec_variants(),
            final(self).spec_typefield() == old(self).spec_typefield(),
            final(self).spec_meta() == old(self).spec_meta(),
    {
        self.index = 0;
    }

    /// The union shown with the name and description `meta`.
    pub fn with_meta(self, meta: SOMTypeMeta) -> (r: SOMUnionType)
        ensures
            r.spec_typefield() == self.spec_typefield(),
            r.spec_variants() == self.spec_variants(),
            r.spec_index() == self.spec_index(),
            r.spec_meta() == Some(meta),
    {
        SOMUnionType { meta: Some(meta), ..self }
    }

    /// The name and description that the union is shown with, if any.
    pub fn meta(&self) -> (r: Option<&SOMTypeMeta>)
        ensures
            r is None <==> self.spec_meta() is None,
            r matches Some(m) ==> self.spec_meta() == Some(*m),
    {
        match &self.meta {
            Some(m) => Some(m),
            None => None,
        }
    }
}

/// The position of the first of `items` from the `j`-th on with the key
/// `key`.
pub open spec fn first_with_key(items: Seq<OptionalItemModel>, key: nat, j: int) -> Option<int>
    decreases items.len() - j,
{
    if j < 0 || j >= items.len() {
        None
    } else if items[j].key == key {
        Some(j)
    } else {
        first_with_key(items, key, j + 1)
    }
}

/// The position of the first of `items` from the `j`-th on with the key
/// `key` that is set.
pub open spec fn first_set_with_key(items: Seq<OptionalItemModel>, key: nat, j: int) -> Option<int>
    decreases items.len() - j,
{
    if j < 0 || j >= items.len() {
        None
    } else if items[j].key == key && items[j].set {
        Some(j)
    } else {
        first_set_with_key(items, key, j + 1)
    }
}

/// The first member from the `j`-th on with the key `key` is one with that
/// key, and no member between comes before it; where there is none, no
/// member from the `j`-th on has that key.
proof fn lemma_first_with_key_from(items: Seq<OptionalItemModel>, key: nat, j: int)
    requires
        0 <= j,
    ensures
        match first_with_key(items, key, j) {
            Some(k) => j <= k < items.len() && items[k].key == key && forall|i: int|
                j <= i < k ==> items[i].key != key,
            None => forall|i: int| j <= i < items.len() ==> items[i].key != key,
        },
    decreases items.len() - j,
{
    if j < items.len() && items[j].key != key {
        lemma_first_with_key_from(items, key, j + 1);
    }
}

/// As `lemma_first_with_key_from`, for members that are set.
proof fn lemma_first_set_with_key_from(items: Seq<OptionalItemModel>, key: nat, j: int)
    requires
        0 <= j,
    ensures
        match first_set_with_key(items, key, j) {
            Some(k) => j <= k < items.len() && items[k].key == key && items[k].set && forall|i: int|
                j <= i < k ==> !(items[i].key == key && items[i].set),
            None => forall|i: int| j <= i < items.len() ==> !(items[i].key == key && items[i].set),
        },
    decreases items.len() - j,
{
    if j < items.len() && !(items[j].key == key && items[j].set) {
        lemma_first_set_with_key_from(items, key, j + 1);
    }
}

/// Which member of an optional the key `key` finds: the first member with
/// that key, and (`first_set_with_key`) the first set member with that
/// key; none where no member (no set member) has that key.
pub proof fn lemma_member_with_key(members: Seq<SOMOptionalTypeItem>, key: nat)
    ensures
        match first_with_key(items_of(members), key, 0) {
            Some(k) => 0 <= k < members.len() && members[k].spec_key() == key && forall|i: int|
                0 <= i < k ==> members[i].spec_key() != key,
            None => forall|i: int| 0 <= i < members.len() ==> members[i].spec_key() != key,
        },
        match first_set_with_key(items_of(members), key, 0) {
            Some(k) => 0 <= k < members.len() && members[k].spec_key() == key && members[k].spec_set()
                && forall|i: int| 0 <= i < k ==> !(members[i].spec_key() == key && members[i].spec_set()),
            None => forall|i: int|
                0 <= i < members.len() ==> !(members[i].spec_key() == key && members[i].spec_set()),
        },
{
    broadcast use lemma_item_model;
    lemma_items_of(members);
    lemma_first_with_key_from(items_of(members), key, 0);
    lemma_first_set_with_key_from(items_of(members), key, 0);
    assert forall|i: int| 0 <= i < members.len() implies items_of(members)[i].key == members[i].spec_key()
        && items_of(members)[i].set == members[i].spec_set() by {
        assert(items_of(members)[i] == item_model(members[i]));
    }
}

/// The member `b` is `a` with the value `value` and presence `set`.
pub open spec fn item_changed(
    a: SOMOptionalTypeItem,
    b: SOMOptionalTypeItem,
    value: SOMTypeWrapper,
    set: bool,
) -> bool {
    &&& b.spec_wiretype() == a.spec_wiretype()
    &&& b.spec_key() == a.spec_key()
    &&& b.spec_mandatory() == a.spec_mandatory()
    &&& b.spec_value() == value
    &&& b.spec_set() == set
}

/// The member `it` has the wire type `wiretype`, the key `key`, holds
/// `value`, must be present where `mandatory` is, and is not set.
pub open spec fn item_is(
    it: SOMOptionalTypeItem,
    wiretype: nat,
    key: nat,
    value: SOMTypeWrapper,
    mandatory: bool,
) -> bool {
    &&& it.spec_wiretype() == wiretype
    &&& it.spec_key() == key
    &&& it.spec_value() == value
    &&& it.spec_mandatory() == mandatory
    &&& !it.spec_set()
}

impl SOMOptionalTypeItem {
    /// The wire type.
    pub closed spec fn spec_wiretype(&self) -> nat {
        self.wiretype as nat
    }

    /// The key.
    pub closed spec fn spec_key(&self) -> nat {
        self.key as nat
    }

    /// The value.
    pub closed spec fn spec_value(&self) -> SOMTypeWrapper {
        self.value
    }

    /// Whether the member must be present.
    pub closed spec fn spec_mandatory(&self) -> bool {
        self.mandatory
    }

    /// Whether the member is present.
    pub closed spec fn spec_set(&self) -> bool {
        self.set
    }

    /// The key.
    pub fn key(&self) -> (r: usize)
        ensures
            r == self.spec_key(),
    {
        self.key
    }

    /// The value.
    pub fn value(&self) -> (r: &SOMTypeWrapper)
        ensures
            *r == self.spec_value(),
    {
        &self.value
    }

    /// The key and the value.
    pub fn get(&self) -> (r: (usize, &SOMTypeWrapper))
        ensures
            r.0 == self.spec_key(),
            *r.1 == self.spec_value(),
    {
        (self.key, &self.value)
    }

    /// Whether the member is present.
    pub fn is_set(&self) -> (r: bool)
        ensures
            r == self.spec_set(),
    {
        self.set
    }

    /// Whether the member must be present.
    pub fn is_mandatory(&self) -> (r: bool)
        ensures
            r == self.spec_mandatory(),
    {
        self.mandatory
    }

    /// The tag of the member on the wire.
    pub fn tag(&self) -> (r: u16)
        ensures
            r == opt_tag(self.spec_wiretype(), self.spec_key()),
    {
        (((self.wiretype as u16) << 12u16) | ((self.key as u16) & 0x0FFFu16)) & 0x7FFFu16
    }
}

impl SOMOptionalType {
    /// The length field.
    pub closed spec fn spec_lengthfield(&self) -> SOMLengthField {
        self.lengthfield
    }

    /// The members.
    pub closed spec fn spec_members(&self) -> Seq<SOMOptionalTypeItem> {
        self.members@
    }

    /// The name and description that the optional is shown with.
    pub closed spec fn spec_meta(&self) -> Option<SOMTypeMeta> {
        self.meta
    }

    /// The model of the optional.
    pub closed spec fn spec_model(&self) -> OptionalModel {
        OptionalModel { lengthfield: self.lengthfield, members: items_of(self.members@), meta: self.meta }
    }

    /// An optional without members, with the length field `lengthfield`.
    pub fn new(lengthfield: SOMLengthField) -> (r: SOMOptionalType)
        ensures
            r.spec_lengthfield() == lengthfield,
            r.spec_members() == Seq::<SOMOptionalTypeItem>::empty(),
            r.spec_meta() == None::<SOMTypeMeta>,
    {
        SOMOptionalType { lengthfield, members: Vec::new(), meta: None }
    }

    /// An optional of the members `members`, with the length field
    /// `lengthfield`.
    pub fn from(lengthfield: SOMLengthField, members: Vec<SOMOptionalTypeItem>) -> (r:
        SOMOptionalType)
        ensures
            r.spec_lengthfield() == lengthfield,
            r.spec_members() == members@,
            r.spec_meta() == None::<SOMTypeMeta>,
    {
        SOMOptionalType { lengthfield, members, meta: None }
    }

    /// The number of members.
    pub fn len(&self) -> (r: usize)
        ensures
            r == self.spec_members().len(),
    {
        self.members.len()
    }

    /// The members.
    pub fn members(&self) -> (r: &Vec<SOMOptionalTypeItem>)
        ensures
            r@ == self.spec_members(),
    {
        &self.members
    }

    /// The position of the first member with the key `key`, if any.
    fn find_key(&self, key: usize) -> (r: Option<usize>)
        ensures
            match r {
                Some(j) => first_with_key(items_of(self.spec_members()), key as nat, 0) == Some(
                    j as int,
                ) && j < self.spec_members().len(),
                None => first_with_key(items_of(self.spec_members()), key as nat, 0) is None,
            },
    {
        proof {
            lemma_items_of(self.members@);
        }
        let mut j: usize = 0;
        while j < self.members.len()
            invariant
                j <= self.members@.len(),
                items_of(self.members@).len() == self.members@.len(),
                forall|i: int|
                    0 <= i < self.members@.len() ==> #[trigger] items_of(self.members@)[i]
                        == item_model(self.members@[i]),
                first_with_key(items_of(self.members@), key as nat, 0) == first_with_key(
                    items_of(self.members@),
                    key as nat,
                    j as int,
                ),
            decreases self.members@.len() - j,
        {
            proof {
                assert(items_of(self.members@)[j as int] == item_model(self.members@[j as int]));
            }
            if self.members[j].key == key {
                return Some(j);
            }
            j = j + 1;
        }
        None
    }

    /// Whether a member with the key `key` must be present.
    pub fn is_mandatory(&self, key: usize) -> (r: bool)
        ensures
            r == exists|j: int|
                0 <= j < self.spec_members().len() && (#[trigger] self.spec_members()[j]).spec_key()
                    == key && self.spec_members()[j].spec_mandatory(),
    {
        let mut j: usize = 0;
        while j < self.members.len()
            invariant
                j <= self.members@.len(),
                forall|i: int|
                    0 <= i < j ==> !((#[trigger] self.members@[i]).key == key
                        && self.members@[i].mandatory),
            decreases self.members@.len() - j,
        {
            if self.members[j].key == key && self.members[j].mandatory {
                proof {
                    assert(self.spec_members()[j as int].spec_key() == key);
                }
                return true;
            }
            j = j + 1;
        }
        false
    }

    /// Whether a member with the key `key` is present.
    pub fn is_set(&self, key: usize) -> (r: bool)
        ensures
            r == exists|j: int|
                0 <= j < self.spec_members().len() && (#[trigger] self.spec_members()[j]).spec_key()
                    == key && self.spec_members()[j].spec_set(),
    {
        let mut j: usize = 0;
        while j < self.members.len()
            invariant
                j <= self.members@.len(),
                forall|i: int|
                    0 <= i < j ==> !((#[trigger] self.members@[i]).key == key
                        && self.members@[i].set),
            decreases self.members@.len() - j,
        {
            if self.members[j].key == key && self.members[j].set {
                proof {
                    assert(self.spec_members()[j as int].spec_key() == key);
                }
                return true;
            }
            j = j + 1;
        }
        false
    }

    /// The value of the first present member with the key `key`, if any.
    pub fn get(&self, key: usize) -> (r: Option<&SOMTypeWrapper>)
        ensures
            match first_set_with_key(items_of(self.spec_members()), key as nat, 0) {
                Some(j) => r == Some(&self.spec_members()[j].spec_value()),
                None => r is None,
            },
    {
        proof {
            lemma_items_of(self.members@);
        }
        let mut j: usize = 0;
        while j < self.members.len()
            invariant
                j <= self.members@.len(),
                items_of(self.members@).len() == self.members@.len(),
                forall|i: int|
                    0 <= i < self.members@.len() ==> #[trigger] items_of(self.members@)[i]
                        == item_model(self.members@[i]),
                first_set_with_key(items_of(self.members@), key as nat, 0) == first_set_with_key(
                    items_of(self.members@),
                    key as nat,
                    j as int,
                ),
            decreases self.members@.len() - j,
        {
            proof {
                assert(items_of(self.members@)[j as int] == item_model(self.members@[j as int]));
            }
            if self.members[j].key == key && self.members[j].set {
                return Some(&self.members[j].value);
            }
            j = j + 1;
        }
        None
    }

    /// Marks the first member with the key `key` as present and returns its
    /// value to change, if there is such a member.
    pub fn get_mut(&mut self, key: usize) -> (r: Option<&mut SOMTypeWrapper>)
        ensures
            match first_with_key(items_of(old(self).spec_members()), key as nat, 0) {
                Some(j) => r matches Some(e) && *e == old(self).spec_members()[j].spec_value()
                    && final(self).spec_members().len() == old(self).spec_members().len() && (forall|
                    i: int,
                |
                    0 <= i < old(self).spec_members().len() && i != j
                        ==> #[trigger] final(self).spec_members()[i] == old(self).spec_members()[i])
                    && item_changed(
                    old(self).spec_members()[j],
                    final(self).spec_members()[j],
                    *final(e),
                    true,
                ),
                None => r is None && *final(self) == *old(self),
            },
            final(self).spec_lengthfield() == old(self).spec_lengthfield(),
            final(self).spec_meta() == old(self).spec_meta(),
    {
        match self.find_key(key) {
            Some(j) => {
                self.members[j].set = true;
                Some(&mut self.members[j].value)
            },
            None => None,
        }
    }

    /// Marks every member as not present.
    pub fn clear(&mut self)
        ensures
            final(self).spec_members().len() == old(self).spec_members().len(),
            forall|j: int|
                0 <= j < old(self).spec_members().len() ==> item_changed(
                    old(self).spec_members()[j],
                    #[trigger] final(self).spec_members()[j],
                    old(self).spec_members()[j].spec_value(),
                    false,
                ),
            final(self).spec_lengthfield() == old(self).spec_lengthfield(),
            final(self).spec_meta() == old(self).spec_meta(),
    {
        let mut j: usize = 0;
        while j < self.members.len()
            invariant
                j <= self.members@.len(),
                self.members@.len() == old(self).members@.len(),
                self.lengthfield == old(self).lengthfield,
                self.meta == old(self).meta,
                forall|i: int|
                    0 <= i < j ==> #[trigger] self.members@[i] == (SOMOptionalTypeItem {
                        set: false,
                        ..old(self).members@[i]
                    }),
                forall|i: int| j <= i < self.members@.len() ==> #[trigger] self.members@[i] == old(
                    self,
                ).members@[i],
            decreases self.members@.len() - j,
        {
            self.members[j].set = false;
            j = j + 1;
        }
    }

    /// The optional shown with the name and description `meta`.
    pub fn with_meta(self, meta: SOMTypeMeta) -> (r: SOMOptionalType)
        ensures
            r.spec_lengthfield() == self.spec_lengthfield(),
            r.spec_members() == self.spec_members(),
            r.spec_meta() == Some(meta),
    {
        SOMOptionalType { meta: Some(meta), ..self }
    }

    /// The name and description that the optional is shown with, if any.
    pub fn meta(&self) -> (r: Option<&SOMTypeMeta>)
        ensures
            r is None <==> self.spec_meta() is None,
            r matches Some(m) ==> self.spec_meta() == Some(*m),
    {
        match &self.meta {
            Some(m) => Some(m),
            None => None,
        }
    }
}

/// What a serializer that was `before` a write is after it, where `spec`
/// says what the write gives, which runs to its end.
pub open spec fn wserialized(
    spec: Option<Result<Seq<u8>, SOMErrorView>>,
    before: SOMSerializer,
    after: SOMSerializer,
    r: Result<usize, SOMError>,
) -> bool {
    spec is Some && serialized(spec->0, before, after, r)
}

/// What a parser that was `before` a read is after it, and the model of the
/// value read into, where `spec` says what the read gives, which runs to its
/// end.
pub open spec fn wparsed<M>(
    spec: (M, Option<Result<nat, SOMErrorView>>),
    value: M,
    before: SOMParser,
    after: SOMParser,
    r: Result<usize, SOMError>,
) -> bool {
    spec.1 is Some && parsed((spec.0, spec.1->0), value, before, after, r)
}

/// The model of an array of members of any type.
pub closed spec fn warr_model(a: SOMArray) -> ArrayModel<WrapperModel> {
    ArrayModel {
        lengthfield: a.lengthfield,
        elements: models_of(a.elements@),
        min: a.min as nat,
        max: a.max as nat,
        meta: a.meta,
    }
}

/// The position of the variant of a value among the variants of
/// `SOMTypeWrapper`.
pub open spec fn wrapper_kind(w: SOMTypeWrapper) -> nat {
    match w {
        SOMTypeWrapper::Bool(_) => 0,
        SOMTypeWrapper::U8(_) => 1,
        SOMTypeWrapper::I8(_) => 2,
        SOMTypeWrapper::U16(_) => 3,
        SOMTypeWrapper::I16(_) => 4,
        SOMTypeWrapper::U24(_) => 5,
        SOMTypeWrapper::I24(_) => 6,
        SOMTypeWrapper::U32(_) => 7,
        SOMTypeWrapper::I32(_) => 8,
        SOMTypeWrapper::U64(_) => 9,
        SOMTypeWrapper::I64(_) => 10,
        SOMTypeWrapper::F32(_) => 11,
        SOMTypeWrapper::F64(_) => 12,
        SOMTypeWrapper::EnumU8(_) => 13,
        SOMTypeWrapper::EnumU16(_) => 14,
        SOMTypeWrapper::EnumU32(_) => 15,
        SOMTypeWrapper::EnumU64(_) => 16,
        SOMTypeWrapper::Array(_) => 17,
        SOMTypeWrapper::ArrayBool(_) => 18,
        SOMTypeWrapper::ArrayU8(_) => 19,
        SOMTypeWrapper::ArrayI8(_) => 20,
        SOMTypeWrapper::ArrayU16(_) => 21,
        SOMTypeWrapper::ArrayI16(_) => 22,
        SOMTypeWrapper::ArrayU24(_) => 23,
        SOMTypeWrapper::ArrayI24(_) => 24,
        SOMTypeWrapper::ArrayU32(_) => 25,
        SOMTypeWrapper::ArrayI32(_) => 26,
        SOMTypeWrapper::ArrayU64(_) => 27,
        SOMTypeWrapper::ArrayI64(_) => 28,
        SOMTypeWrapper::ArrayF23(_) => 29,
        SOMTypeWrapper::ArrayF64(_) => 30,
        SOMTypeWrapper::Struct(_) => 31,
        SOMTypeWrapper::Union(_) => 32,
        SOMTypeWrapper::String(_) => 33,
        SOMTypeWrapper::Optional(_) => 34,
    }
}

/// Whether the value is a primitive value or an enumeration.
pub open spec fn is_scalar(w: SOMTypeWrapper) -> bool {
    wrapper_kind(w) < 17
}

/// The position of the variant of `w` among the variants of
/// `SOMTypeWrapper`.
/// Whether every member of `s` is of the same variant as its first.
pub open spec fn one_kind(s: Seq<SOMTypeWrapper>) -> bool {
    forall|i: int| 0 <= i < s.len() ==> #[trigger] wrapper_kind(s[i]) == wrapper_kind(s[0])
}

fn kind_of(w: &SOMTypeWrapper) -> (r: u8)
    ensures
        r == wrapper_kind(*w),
{
    match w {
        SOMTypeWrapper::Bool(_) => 0,
        SOMTypeWrapper::U8(_) => 1,
        SOMTypeWrapper::I8(_) => 2,
        SOMTypeWrapper::U16(_) => 3,
        SOMTypeWrapper::I16(_) => 4,
        SOMTypeWrapper::U24(_) => 5,
        SOMTypeWrapper::I24(_) => 6,
        SOMTypeWrapper::U32(_) => 7,
        SOMTypeWrapper::I32(_) => 8,
        SOMTypeWrapper::U64(_) => 9,
        SOMTypeWrapper::I64(_) => 10,
        SOMTypeWrapper::F32(_) => 11,
        SOMTypeWrapper::F64(_) => 12,
        SOMTypeWrapper::EnumU8(_) => 13,
        SOMTypeWrapper::EnumU16(_) => 14,
        SOMTypeWrapper::EnumU32(_) => 15,
        SOMTypeWrapper::EnumU64(_) => 16,
        SOMTypeWrapper::Array(_) => 17,
        SOMTypeWrapper::ArrayBool(_) => 18,
        SOMTypeWrapper::ArrayU8(_) => 19,
        SOMTypeWrapper::ArrayI8(_) => 20,
        SOMTypeWrapper::ArrayU16(_) => 21,
        SOMTypeWrapper::ArrayI16(_) => 22,
        SOMTypeWrapper::ArrayU24(_) => 23,
        SOMTypeWrapper::ArrayI24(_) => 24,
        SOMTypeWrapper::ArrayU32(_) => 25,
        SOMTypeWrapper::ArrayI32(_) => 26,
        SOMTypeWrapper::ArrayU64(_) => 27,
        SOMTypeWrapper::ArrayI64(_) => 28,
        SOMTypeWrapper::ArrayF23(_) => 29,
        SOMTypeWrapper::ArrayF64(_) => 30,
        SOMTypeWrapper::Struct(_) => 31,
        SOMTypeWrapper::Union(_) => 32,
        SOMTypeWrapper::String(_) => 33,
        SOMTypeWrapper::Optional(_) => 34,
    }
}

/// How the length of the value `w`, which holds no members of any type, is
/// known on the wire.
fn leaf_info_of(w: &SOMTypeWrapper) -> (r: SOMTypeInfo)
    requires
        is_leaf(*w),
    ensures
        r == leaf_info(leaf_model(*w)),
{
    proof {
        reveal(leaf_info);
        reveal(leaf_model);
    }
    match w {
        SOMTypeWrapper::Bool(x) => x.info(),
        SOMTypeWrapper::U8(x) => x.info(),
        SOMTypeWrapper::I8(x) => x.info(),
        SOMTypeWrapper::U16(x) => x.info(),
        SOMTypeWrapper::I16(x) => x.info(),
        SOMTypeWrapper::U24(x) => x.info(),
        SOMTypeWrapper::I24(x) => x.info(),
        SOMTypeWrapper::U32(x) => x.info(),
        SOMTypeWrapper::I32(x) => x.info(),
        SOMTypeWrapper::U64(x) => x.info(),
        SOMTypeWrapper::I64(x) => x.info(),
        SOMTypeWrapper::F32(x) => x.info(),
        SOMTypeWrapper::F64(x) => x.info(),
        SOMTypeWrapper::EnumU8(x) => x.info(),
        SOMTypeWrapper::EnumU16(x) => x.info(),
        SOMTypeWrapper::EnumU32(x) => x.info(),
        SOMTypeWrapper::EnumU64(x) => x.info(),
        SOMTypeWrapper::ArrayBool(x) => x.info(),
        SOMTypeWrapper::ArrayU8(x) => x.info(),
        SOMTypeWrapper::ArrayI8(x) => x.info(),
        SOMTypeWrapper::ArrayU16(x) => x.info(),
        SOMTypeWrapper::ArrayI16(x) => x.info(),
        SOMTypeWrapper::ArrayU24(x) => x.info(),
        SOMTypeWrapper::ArrayI24(x) => x.info(),
        SOMTypeWrapper::ArrayU32(x) => x.info(),
        SOMTypeWrapper::ArrayI32(x) => x.info(),
        SOMTypeWrapper::ArrayU64(x) => x.info(),
        SOMTypeWrapper::ArrayI64(x) => x.info(),
        SOMTypeWrapper::ArrayF23(x) => x.info(),
        SOMTypeWrapper::ArrayF64(x) => x.info(),
        SOMTypeWrapper::String(x) => x.info(),
        _ => SOMTypeInfo::ImplicitLength,
    }
}

/// How the length of the value `w` is known on the wire.
fn wrapper_info_of(w: &SOMTypeWrapper) -> (r: SOMTypeInfo)
    ensures
        r == wrapper_info(wrapper_model(*w)),
{
    match w {
        SOMTypeWrapper::Array(a) => if a.min != a.max {
            SOMTypeInfo::ExplicitLength
        } else {
            SOMTypeInfo::ImplicitLength
        },
        SOMTypeWrapper::Struct(_) => SOMTypeInfo::ImplicitLength,
        SOMTypeWrapper::Union(_) => SOMTypeInfo::ImplicitLength,
        SOMTypeWrapper::Optional(_) => SOMTypeInfo::ExplicitLength,
        _ => leaf_info_of(w),
    }
}

/// The wire type of a value of fixed length `size`, where there is one.
fn fixed_wire_type(size: usize) -> (r: Option<usize>)
    ensures
        match wire_type_of(SOMTypeInfo::FixedLength, size as nat) {
            Some(w) => r == Some(w as usize),
            None => r is None,
        },
{
    if size == 1 {
        Some(0)
    } else if size == 2 {
        Some(1)
    } else if size == 4 {
        Some(2)
    } else if size == 8 {
        Some(3)
    } else {
        None
    }
}

/// The wire type of the value `value`: where its length is fixed, that of
/// its size; otherwise four.
fn wire_type(value: &SOMTypeWrapper) -> (r: Option<usize>)
    ensures
        match wire_type_of(wrapper_info(wrapper_model(*value)), wrapper_size(wrapper_model(*value))) {
            Some(w) => r == Some(w as usize),
            None => r is None,
        },
{
    proof {
        reveal(leaf_info);
        reveal(leaf_size);
        reveal(leaf_model);
    }
    match value {
        SOMTypeWrapper::Bool(x) => fixed_wire_type(x.size()),
        SOMTypeWrapper::U8(x) => fixed_wire_type(x.size()),
        SOMTypeWrapper::I8(x) => fixed_wire_type(x.size()),
        SOMTypeWrapper::U16(x) => fixed_wire_type(x.size()),
        SOMTypeWrapper::I16(x) => fixed_wire_type(x.size()),
        SOMTypeWrapper::U24(x) => fixed_wire_type(x.size()),
        SOMTypeWrapper::I24(x) => fixed_wire_type(x.size()),
        SOMTypeWrapper::U32(x) => fixed_wire_type(x.size()),
        SOMTypeWrapper::I32(x) => fixed_wire_type(x.size()),
        SOMTypeWrapper::U64(x) => fixed_wire_type(x.size()),
        SOMTypeWrapper::I64(x) => fixed_wire_type(x.size()),
        SOMTypeWrapper::F32(x) => fixed_wire_type(x.size()),
        SOMTypeWrapper::F64(x) => fixed_wire_type(x.size()),
        SOMTypeWrapper::EnumU8(x) => fixed_wire_type(x.size()),
        SOMTypeWrapper::EnumU16(x) => fixed_wire_type(x.size()),
        SOMTypeWrapper::EnumU32(x) => fixed_wire_type(x.size()),
        SOMTypeWrapper::EnumU64(x) => fixed_wire_type(x.size()),
        _ => Some(4),
    }
}

/// The number of bytes of a value of fixed length of the wire type
/// `wiretype`, for those that have one.
fn wire_size_of(wiretype: u16) -> (r: Option<usize>)
    ensures
        match wire_size(wiretype as nat) {
            Some(s) => r == Some(s as usize),
            None => r is None,
        },
{
    if wiretype == 0 {
        Some(1)
    } else if wiretype == 1 {
        Some(2)
    } else if wiretype == 2 {
        Some(4)
    } else if wiretype == 3 {
        Some(8)
    } else {
        None
    }
}

/// Writes the value `w`, which holds no members of any type, at the
/// serializer's offset.
fn leaf_serialize(w: &SOMTypeWrapper, serializer: &mut SOMSerializer) -> (r: Result<usize, SOMError>)
    requires
        old(serializer).wf(),
        is_leaf(*w),
        leaf_ser(leaf_model(*w), old(serializer).pos(), old(serializer).buffer()) is Some,
    ensures
        wserialized(
            leaf_ser(leaf_model(*w), old(serializer).pos(), old(serializer).buffer()),
            *old(serializer),
            *final(serializer),
            r,
        ),
{
    proof {
        reveal(leaf_ser);
        reveal(leaf_model);
    }
    match w {
        SOMTypeWrapper::Bool(x) => x.serialize(serializer),
        SOMTypeWrapper::U8(x) => x.serialize(serializer),
        SOMTypeWrapper::I8(x) => x.serialize(serializer),
        SOMTypeWrapper::U16(x) => x.serialize(serializer),
        SOMTypeWrapper::I16(x) => x.serialize(serializer),
        SOMTypeWrapper::U24(x) => x.serialize(serializer),
        SOMTypeWrapper::I24(x) => x.serialize(serializer),
        SOMTypeWrapper::U32(x) => x.serialize(serializer),
        SOMTypeWrapper::I32(x) => x.serialize(serializer),
        SOMTypeWrapper::U64(x) => x.serialize(serializer),
        SOMTypeWrapper::I64(x) => x.serialize(serializer),
        SOMTypeWrapper::F32(x) => x.serialize(serializer),
        SOMTypeWrapper::F64(x) => x.serialize(serializer),
        SOMTypeWrapper::EnumU8(x) => x.serialize(serializer),
        SOMTypeWrapper::EnumU16(x) => x.serialize(serializer),
        SOMTypeWrapper::EnumU32(x) => x.serialize(serializer),
        SOMTypeWrapper::EnumU64(x) => x.serialize(serializer),
        SOMTypeWrapper::ArrayBool(x) => x.serialize(serializer),
        SOMTypeWrapper::ArrayU8(x) => x.serialize(serializer),
        SOMTypeWrapper::ArrayI8(x) => x.serialize(serializer),
        SOMTypeWrapper::ArrayU16(x) => x.serialize(serializer),
        SOMTypeWrapper::ArrayI16(x) => x.serialize(serializer),
        SOMTypeWrapper::ArrayU24(x) => x.serialize(serializer),
        SOMTypeWrapper::ArrayI24(x) => x.serialize(serializer),
        SOMTypeWrapper::ArrayU32(x) => x.serialize(serializer),
        SOMTypeWrapper::ArrayI32(x) => x.serialize(serializer),
        SOMTypeWrapper::ArrayU64(x) => x.serialize(serializer),
        SOMTypeWrapper::ArrayI64(x) => x.serialize(serializer),
        SOMTypeWrapper::ArrayF23(x) => x.serialize(serializer),
        SOMTypeWrapper::ArrayF64(x) => x.serialize(serializer),
        SOMTypeWrapper::String(x) => x.serialize(serializer),
        _ => Ok(0),
    }
}

/// Writes the value `w` at the serializer's offset.
fn wrapper_serialize(w: &SOMTypeWrapper, serializer: &mut SOMSerializer) -> (r: Result<
    usize,
    SOMError,
>)
    requires
        old(serializer).wf(),
        wrapper_ser(wrapper_model(*w), old(serializer).pos(), old(serializer).buffer()) is Some,
    ensures
        wserialized(
            wrapper_ser(wrapper_model(*w), old(serializer).pos(), old(serializer).buffer()),
            *old(serializer),
            *final(serializer),
            r,
        ),
    decreases w,
{
    match w {
        SOMTypeWrapper::Array(a) => warr_serialize(a, serializer),
        SOMTypeWrapper::Struct(s) => welems_serialize(&s.members, serializer),
        SOMTypeWrapper::Union(u) => union_serialize(u, serializer),
        SOMTypeWrapper::Optional(o) => optional_serialize(o, serializer),
        _ => leaf_serialize(w, serializer),
    }
}

/// Writes the values `v` in turn, or fails at the first that fails.
fn welems_serialize(v: &Vec<SOMTypeWrapper>, serializer: &mut SOMSerializer) -> (r: Result<
    usize,
    SOMError,
>)
    requires
        old(serializer).wf(),
        welems_ser(models_of(v@), 0, old(serializer).pos(), old(serializer).buffer()) is Some,
    ensures
        wserialized(
            welems_ser(models_of(v@), 0, old(serializer).pos(), old(serializer).buffer()),
            *old(serializer),
            *final(serializer),
            r,
        ),
    decreases v,
{
    let ghost ms = models_of(v@);
    let ghost off0 = serializer.pos();
    let ghost buf0 = serializer.buffer();
    let ghost mut acc: Seq<u8> = Seq::empty();
    proof {
        lemma_models_of(v@);
        serializer.lemma_wf();
        assert(overwrite(buf0, off0, acc) =~= buf0);
        match welems_ser(ms, 0, off0, buf0) {
            Some(Ok(rest)) => {
                assert(acc + rest =~= rest);
            },
            _ => {},
        }
    }
    let mut written: usize = 0;
    let mut i: usize = 0;
    while i < v.len()
        invariant
            ms == models_of(v@),
            ms.len() == v@.len(),
            forall|j: int| 0 <= j < v@.len() ==> #[trigger] ms[j] == wrapper_model(v@[j]),
            serializer.wf(),
            0 <= off0,
            off0 == old(serializer).pos(),
            buf0 == old(serializer).buffer(),
            serializer.buffer().len() == buf0.len(),
            i <= v@.len(),
            written == acc.len(),
            serializer.pos() == off0 + acc.len(),
            serializer.buffer() == overwrite(buf0, off0, acc),
            welems_ser(ms, 0, off0, buf0) is Some,
            welems_ser(ms, 0, off0, buf0) == prepend(
                acc,
                welems_ser(ms, i as int, serializer.pos(), serializer.buffer()),
            ),
        decreases v@.len() - i,
    {
        let ghost pos = serializer.pos();
        let ghost before = serializer.buffer();
        proof {
            assert(ms[i as int] == wrapper_model(v@[i as int]));
        }
        let n = match wrapper_serialize(&v[i], serializer) {
            Ok(n) => n,
            Err(e) => return Err(e),
        };
        proof {
            serializer.lemma_wf();
            let b = wrapper_ser(ms[i as int], pos, before)->0->Ok_0;
            lemma_overwrite_concat(buf0, off0, acc, b);
            match welems_ser(ms, i + 1, serializer.pos(), serializer.buffer()) {
                Some(Ok(rest)) => {
                    assert(acc + (b + rest) =~= (acc + b) + rest);
                },
                _ => {},
            }
            acc = acc + b;
        }
        written = written + n;
        i = i + 1;
    }
    proof {
        assert(acc + Seq::<u8>::empty() =~= acc);
    }
    Ok(written)
}

/// Writes the array of members of any type `a`.
fn warr_serialize(a: &SOMArray, serializer: &mut SOMSerializer) -> (r: Result<usize, SOMError>)
    requires
        old(serializer).wf(),
        warr_ser(warr_model(*a), old(serializer).pos(), old(serializer).buffer()) is Some,
    ensures
        wserialized(
            warr_ser(warr_model(*a), old(serializer).pos(), old(serializer).buffer()),
            *old(serializer),
            *final(serializer),
            r,
        ),
    decreases a,
{
    let ghost m = warr_model(*a);
    let ghost buf0 = serializer.buffer();
    let ghost off = serializer.pos();
    proof {
        serializer.lemma_wf();
        lemma_models_of(a.elements@);
    }
    let offset = serializer.offset();
    let length = a.elements.len();
    if length < a.min || length > a.max {
        return Err(
            SOMError::InvalidType(
                crate::som::message2("Invalid Array length: ", length, " at offset: ", offset),
            ),
        );
    }
    let k = a.lengthfield.size();
    let promise = match serializer.promise(k) {
        Ok(p) => p,
        Err(e) => return Err(e),
    };
    let n = match welems_serialize(&a.elements, serializer) {
        Ok(n) => n,
        Err(e) => return Err(e),
    };
    proof {
        serializer.lemma_wf();
    }
    let size = serializer.offset() - offset;
    if a.min != a.max {
        match serializer.write_lengthfield(promise, a.lengthfield, size - k) {
            Ok(()) => {},
            Err(e) => return Err(e),
        }
        proof {
            let bb = welems_ser(m.elements, 0, off + k, buf0)->0->Ok_0;
            lemma_overwrite_before(buf0, off, lengthfield_bytes(m.lengthfield, bb.len()), bb);
        }
    } else {
        proof {
            let bb = welems_ser(m.elements, 0, off + k, buf0)->0->Ok_0;
            let pre = buf0.subrange(off, off + k);
            lemma_overwrite_same(buf0, off, k as int);
            lemma_overwrite_concat(buf0, off, pre, bb);
        }
    }
    Ok(size)
}

/// Writes the union `u`: its type field, then its selected variant.
fn union_serialize(u: &SOMUnion, serializer: &mut SOMSerializer) -> (r: Result<usize, SOMError>)
    requires
        old(serializer).wf(),
        union_ser(u.spec_model(), old(serializer).pos(), old(serializer).buffer()) is Some,
    ensures
        wserialized(
            union_ser(u.spec_model(), old(serializer).pos(), old(serializer).buffer()),
            *old(serializer),
            *final(serializer),
            r,
        ),
    decreases u,
{
    let ghost m = u.spec_model();
    let ghost buf0 = serializer.buffer();
    let ghost off = serializer.pos();
    proof {
        serializer.lemma_wf();
        lemma_models_of(u.variants@);
    }
    let offset = serializer.offset();
    match serializer.write_typefield(u.typefield, u.index) {
        Ok(_) => {},
        Err(e) => return Err(e),
    }
    if u.index != 0 && u.index <= u.variants.len() {
        let ghost tb = typefield_bytes(m.typefield, m.index);
        proof {
            assert(m.variants[m.index - 1] == wrapper_model(u.variants@[u.index - 1]));
        }
        match wrapper_serialize(&u.variants[u.index - 1], serializer) {
            Ok(_) => {},
            Err(e) => return Err(e),
        }
        proof {
            serializer.lemma_wf();
            let b = wrapper_ser(
                m.variants[m.index - 1],
                off + tb.len(),
                overwrite(buf0, off, tb),
            )->0->Ok_0;
            lemma_overwrite_concat(buf0, off, tb, b);
        }
    }
    proof {
        serializer.lemma_wf();
    }
    Ok(serializer.offset() - offset)
}

/// Writes the member `item` of an optional: its tag, then, where its length
/// is implicit, a length field, then its value.
#[verifier::rlimit(50)]
fn opt_head_serialize(item: &SOMOptionalTypeItem, lf: SOMLengthField, serializer: &mut SOMSerializer) -> (r:
    Result<usize, SOMError>)
    requires
        old(serializer).wf(),
        opt_head(item_model(*item), lf, old(serializer).pos(), old(serializer).buffer()) is Some,
    ensures
        wserialized(
            opt_head(item_model(*item), lf, old(serializer).pos(), old(serializer).buffer()),
            *old(serializer),
            *final(serializer),
            r,
        ),
    decreases item,
{
    let ghost it = item_model(*item);
    let ghost pos = serializer.pos();
    let ghost before = serializer.buffer();
    let ghost tb = be16(opt_tag(it.wiretype, it.key));
    proof {
        serializer.lemma_wf();
    }
    let start = serializer.offset();
    let k = lf.size();
    let mut tag_bytes: Vec<u8> = Vec::new();
    crate::bytes::push_be16(&mut tag_bytes, item.tag());
    match serializer.write_bytes(tag_bytes.as_slice()) {
        Ok(_) => {},
        Err(e) => return Err(e),
    }
    let ghost buf1 = serializer.buffer();
    if wrapper_info_of(&item.value) == SOMTypeInfo::ImplicitLength {
        let mp = match serializer.promise(k) {
            Ok(p) => p,
            Err(e) => return Err(e),
        };
        let mstart = serializer.offset();
        match wrapper_serialize(&item.value, serializer) {
            Ok(_) => {},
            Err(e) => return Err(e),
        }
        proof {
            serializer.lemma_wf();
        }
        let n = serializer.offset() - mstart;
        match serializer.write_lengthfield(mp, lf, n) {
            Ok(()) => {},
            Err(e) => return Err(e),
        }
        proof {
            let b = wrapper_ser(it.value, pos + 2 + k, buf1)->0->Ok_0;
            let lb = lengthfield_bytes(lf, b.len());
            lemma_overwrite_before(buf1, pos + 2, lb, b);
            lemma_overwrite_concat(before, pos, tb, lb + b);
            assert(tb + (lb + b) =~= tb + lb + b);
        }
    } else {
        match wrapper_serialize(&item.value, serializer) {
            Ok(_) => {},
            Err(e) => return Err(e),
        }
        proof {
            serializer.lemma_wf();
            let b = wrapper_ser(it.value, pos + 2, buf1)->0->Ok_0;
            lemma_overwrite_concat(before, pos, tb, b);
        }
    }
    proof {
        serializer.lemma_wf();
    }
    Ok(serializer.offset() - start)
}

/// Writes the members `items` of an optional that are set, each as
/// `opt_head_serialize` does; fails where a mandatory member is not set.
#[verifier::rlimit(60)]
fn opt_members_serialize(
    items: &Vec<SOMOptionalTypeItem>,
    lf: SOMLengthField,
    start: usize,
    serializer: &mut SOMSerializer,
) -> (r: Result<usize, SOMError>)
    requires
        old(serializer).wf(),
        opt_ser(items_of(items@), 0, lf, start as int, old(serializer).pos(), old(serializer).buffer()) is Some,
    ensures
        wserialized(
            opt_ser(items_of(items@), 0, lf, start as int, old(serializer).pos(), old(serializer).buffer()),
            *old(serializer),
            *final(serializer),
            r,
        ),
    decreases items,
{
    let ghost its = items_of(items@);
    let ghost off0 = serializer.pos();
    let ghost buf0 = serializer.buffer();
    let ghost mut acc: Seq<u8> = Seq::empty();
    proof {
        lemma_items_of(items@);
        serializer.lemma_wf();
        assert(overwrite(buf0, off0, acc) =~= buf0);
        match opt_ser(its, 0, lf, start as int, off0, buf0) {
            Some(Ok(rest)) => {
                assert(acc + rest =~= rest);
            },
            _ => {},
        }
    }
    let begin = serializer.offset();
    let mut i: usize = 0;
    while i < items.len()
        invariant
            begin == off0,
            its == items_of(items@),
            its.len() == items@.len(),
            forall|j: int| 0 <= j < items@.len() ==> #[trigger] its[j] == item_model(items@[j]),
            serializer.wf(),
            0 <= off0,
            off0 == old(serializer).pos(),
            buf0 == old(serializer).buffer(),
            serializer.buffer().len() == buf0.len(),
            i <= items@.len(),
            serializer.pos() == off0 + acc.len(),
            serializer.buffer() == overwrite(buf0, off0, acc),
            opt_ser(its, 0, lf, start as int, off0, buf0) is Some,
            opt_ser(its, 0, lf, start as int, off0, buf0) == prepend(
                acc,
                opt_ser(its, i as int, lf, start as int, serializer.pos(), serializer.buffer()),
            ),
        decreases items@.len() - i,
    {
        let ghost pos = serializer.pos();
        let ghost before = serializer.buffer();
        proof {
            serializer.lemma_wf();
            assert(its[i as int] == item_model(items@[i as int]));
        }
        if items[i].set {
            match opt_head_serialize(&items[i], lf, serializer) {
                Ok(_) => {},
                Err(e) => return Err(e),
            }
            proof {
                serializer.lemma_wf();
                let head = opt_head(its[i as int], lf, pos, before)->0->Ok_0;
                lemma_overwrite_concat(buf0, off0, acc, head);
                match opt_ser(its, i + 1, lf, start as int, serializer.pos(), serializer.buffer()) {
                    Some(Ok(rest)) => {
                        assert(acc + (head + rest) =~= (acc + head) + rest);
                    },
                    _ => {},
                }
                acc = acc + head;
            }
        } else if items[i].mandatory {
            return Err(
                SOMError::InvalidType(
                    crate::som::message2(
                        "Uninitialized mandatory member: ",
                        items[i].key,
                        " at offset: ",
                        start,
                    ),
                ),
            );
        }
        i = i + 1;
    }
    proof {
        serializer.lemma_wf();
        assert(acc + Seq::<u8>::empty() =~= acc);
    }
    Ok(serializer.offset() - begin)
}

/// Writes the optional `o`: its length field, then its members that are
/// set.
fn optional_serialize(o: &SOMOptional, serializer: &mut SOMSerializer) -> (r: Result<usize, SOMError>)
    requires
        old(serializer).wf(),
        optional_ser(o.spec_model(), old(serializer).pos(), old(serializer).buffer()) is Some,
    ensures
        wserialized(
            optional_ser(o.spec_model(), old(serializer).pos(), old(serializer).buffer()),
            *old(serializer),
            *final(serializer),
            r,
        ),
    decreases o,
{
    let ghost m = o.spec_model();
    let ghost buf0 = serializer.buffer();
    let ghost off = serializer.pos();
    proof {
        serializer.lemma_wf();
    }
    let offset = serializer.offset();
    let k = o.lengthfield.size();
    let promise = match serializer.promise(k) {
        Ok(p) => p,
        Err(e) => return Err(e),
    };
    match opt_members_serialize(&o.members, o.lengthfield, offset, serializer) {
        Ok(_) => {},
        Err(e) => return Err(e),
    }
    proof {
        serializer.lemma_wf();
    }
    let size = serializer.offset() - offset;
    match serializer.write_lengthfield(promise, o.lengthfield, size - k) {
        Ok(()) => {},
        Err(e) => return Err(e),
    }
    proof {
        let bb = opt_ser(m.members, 0, m.lengthfield, off, off + k, buf0)->0->Ok_0;
        lemma_overwrite_before(buf0, off, lengthfield_bytes(m.lengthfield, bb.len()), bb);
    }
    Ok(size)
}

/// Reads the value `w`, a primitive value, at the parser's offset.
#[verifier::rlimit(100)]
fn primitive_parse_exec(w: &mut SOMTypeWrapper, parser: &mut SOMParser) -> (r: Result<usize, SOMError>)
    requires
        old(parser).wf(),
        wrapper_kind(*old(w)) < 13,
        leaf_parse(leaf_model(*old(w)), old(parser).pos(), old(parser).data()).1 is Some,
    ensures
        is_scalar(*final(w)),
        wparsed(
            leaf_parse(leaf_model(*old(w)), old(parser).pos(), old(parser).data()),
            leaf_model(*final(w)),
            *old(parser),
            *final(parser),
            r,
        ),
{
    proof {
        reveal(leaf_parse);
        reveal(leaf_model);
    }
    match w {
        SOMTypeWrapper::Bool(x) => x.parse(parser),
        SOMTypeWrapper::U8(x) => x.parse(parser),
        SOMTypeWrapper::I8(x) => x.parse(parser),
        SOMTypeWrapper::U16(x) => x.parse(parser),
        SOMTypeWrapper::I16(x) => x.parse(parser),
        SOMTypeWrapper::U24(x) => x.parse(parser),
        SOMTypeWrapper::I24(x) => x.parse(parser),
        SOMTypeWrapper::U32(x) => x.parse(parser),
        SOMTypeWrapper::I32(x) => x.parse(parser),
        SOMTypeWrapper::U64(x) => x.parse(parser),
        SOMTypeWrapper::I64(x) => x.parse(parser),
        SOMTypeWrapper::F32(x) => x.parse(parser),
        SOMTypeWrapper::F64(x) => x.parse(parser),
        _ => Ok(0),
    }
}

/// Reads the value `w`, an enumeration of type `SOMu8Enum`, at the parser's
/// offset.
#[verifier::rlimit(100)]
fn enum13_parse_exec(w: &mut SOMTypeWrapper, parser: &mut SOMParser) -> (r: Result<usize, SOMError>)
    requires
        old(parser).wf(),
        wrapper_kind(*old(w)) == 13,
        leaf_parse(leaf_model(*old(w)), old(parser).pos(), old(parser).data()).1 is Some,
    ensures
        is_scalar(*final(w)),
        wparsed(
            leaf_parse(leaf_model(*old(w)), old(parser).pos(), old(parser).data()),
            leaf_model(*final(w)),
            *old(parser),
            *final(parser),
            r,
        ),
{
    proof {
        reveal(leaf_parse);
        reveal(leaf_model);
    }
    match w {
        SOMTypeWrapper::EnumU8(x) => x.parse(parser),
        _ => Ok(0),
    }
}

/// Reads the value `w`, an enumeration of type `SOMu16Enum`, at the parser's
/// offset.
#[verifier::rlimit(100)]
fn enum14_parse_exec(w: &mut SOMTypeWrapper, parser: &mut SOMParser) -> (r: Result<usize, SOMError>)
    requires
        old(parser).wf(),
        wrapper_kind(*old(w)) == 14,
        leaf_parse(leaf_model(*old(w)), old(parser).pos(), old(parser).data()).1 is Some,
    ensures
        is_scalar(*final(w)),
        wparsed(
            leaf_parse(leaf_model(*old(w)), old(parser).pos(), old(parser).data()),
            leaf_model(*final(w)),
            *old(parser),
            *final(parser),
            r,
        ),
{
    proof {
        reveal(leaf_parse);
        reveal(leaf_model);
    }
    match w {
        SOMTypeWrapper::EnumU16(x) => x.parse(parser),
        _ => Ok(0),
    }
}

/// Reads the value `w`, an enumeration of type `SOMu32Enum`, at the parser's
/// offset.
#[verifier::rlimit(100)]
fn enum15_parse_exec(w: &mut SOMTypeWrapper, parser: &mut SOMParser) -> (r: Result<usize, SOMError>)
    requires
        old(parser).wf(),
        wrapper_kind(*old(w)) == 15,
        leaf_parse(leaf_model(*old(w)), old(parser).pos(), old(parser).data()).1 is Some,
    ensures
        is_scalar(*final(w)),
        wparsed(
            leaf_parse(leaf_model(*old(w)), old(parser).pos(), old(parser).data()),
            leaf_model(*final(w)),
            *old(parser),
            *final(parser),
            r,
        ),
{
    proof {
        reveal(leaf_parse);
        reveal(leaf_model);
    }
    match w {
        SOMTypeWrapper::EnumU32(x) => x.parse(parser),
        _ => Ok(0),
    }
}

/// Reads the value `w`, an enumeration of type `SOMu64Enum`, at the parser's
/// offset.
#[verifier::rlimit(100)]
fn enum16_parse_exec(w: &mut SOMTypeWrapper, parser: &mut SOMParser) -> (r: Result<usize, SOMError>)
    requires
        old(parser).wf(),
        wrapper_kind(*old(w)) == 16,
        leaf_parse(leaf_model(*old(w)), old(parser).pos(), old(parser).data()).1 is Some,
    ensures
        is_scalar(*final(w)),
        wparsed(
            leaf_parse(leaf_model(*old(w)), old(parser).pos(), old(parser).data()),
            leaf_model(*final(w)),
            *old(parser),
            *final(parser),
            r,
        ),
{
    proof {
        reveal(leaf_parse);
        reveal(leaf_model);
    }
    match w {
        SOMTypeWrapper::EnumU64(x) => x.parse(parser),
        _ => Ok(0),
    }
}

/// Reads the value `w`, an enumeration, at the parser's offset.
fn enumeration_parse_exec(w: &mut SOMTypeWrapper, parser: &mut SOMParser) -> (r: Result<usize, SOMError>)
    requires
        old(parser).wf(),
        13 <= wrapper_kind(*old(w)) < 17,
        leaf_parse(leaf_model(*old(w)), old(parser).pos(), old(parser).data()).1 is Some,
    ensures
        is_scalar(*final(w)),
        wparsed(
            leaf_parse(leaf_model(*old(w)), old(parser).pos(), old(parser).data()),
            leaf_model(*final(w)),
            *old(parser),
            *final(parser),
            r,
        ),
{
    let k = kind_of(w);
    if k == 13 {
        enum13_parse_exec(w, parser)
    } else if k == 14 {
        enum14_parse_exec(w, parser)
    } else if k == 15 {
        enum15_parse_exec(w, parser)
    } else {
        enum16_parse_exec(w, parser)
    }
}

/// Reads the value `w`, a primitive value or an enumeration, at the
/// parser's offset.
fn scalar_parse_exec(w: &mut SOMTypeWrapper, parser: &mut SOMParser) -> (r: Result<usize, SOMError>)
    requires
        old(parser).wf(),
        is_scalar(*old(w)),
        leaf_parse(leaf_model(*old(w)), old(parser).pos(), old(parser).data()).1 is Some,
    ensures
        is_scalar(*final(w)),
        wparsed(
            leaf_parse(leaf_model(*old(w)), old(parser).pos(), old(parser).data()),
            leaf_model(*final(w)),
            *old(parser),
            *final(parser),
            r,
        ),
{
    if kind_of(w) < 13 {
        primitive_parse_exec(w, parser)
    } else {
        enumeration_parse_exec(w, parser)
    }
}

/// Reads the value `w`, an array of a primitive type or a string, at the
/// parser's offset.
fn sequence_parse_exec(w: &mut SOMTypeWrapper, parser: &mut SOMParser) -> (r: Result<usize, SOMError>)
    requires
        old(parser).wf(),
        is_leaf(*old(w)),
        !is_scalar(*old(w)),
        leaf_parse(leaf_model(*old(w)), old(parser).pos(), old(parser).data()).1 is Some,
    ensures
        is_leaf(*final(w)),
        !is_scalar(*final(w)),
        wparsed(
            leaf_parse(leaf_model(*old(w)), old(parser).pos(), old(parser).data()),
            leaf_model(*final(w)),
            *old(parser),
            *final(parser),
            r,
        ),
{
    if kind_of(w) < 25 {
        short_sequence_parse_exec(w, parser)
    } else {
        long_sequence_parse_exec(w, parser)
    }
}

/// As `sequence_parse_exec`, for the arrays of values of at most two
/// bytes and of three bytes.
#[verifier::rlimit(100)]
fn short_sequence_parse_exec(w: &mut SOMTypeWrapper, parser: &mut SOMParser) -> (r: Result<usize, SOMError>)
    requires
        old(parser).wf(),
        is_leaf(*old(w)),
        !is_scalar(*old(w)),
        wrapper_kind(*old(w)) < 25,
        leaf_parse(leaf_model(*old(w)), old(parser).pos(), old(parser).data()).1 is Some,
    ensures
        is_leaf(*final(w)),
        !is_scalar(*final(w)),
        wparsed(
            leaf_parse(leaf_model(*old(w)), old(parser).pos(), old(parser).data()),
            leaf_model(*final(w)),
            *old(parser),
            *final(parser),
            r,
        ),
{
    proof {
        reveal(leaf_parse);
        reveal(leaf_model);
    }
    match w {
        SOMTypeWrapper::ArrayBool(x) => x.parse(parser),
        SOMTypeWrapper::ArrayU8(x) => x.parse(parser),
        SOMTypeWrapper::ArrayI8(x) => x.parse(parser),
        SOMTypeWrapper::ArrayU16(x) => x.parse(parser),
        SOMTypeWrapper::ArrayI16(x) => x.parse(parser),
        SOMTypeWrapper::ArrayU24(x) => x.parse(parser),
        SOMTypeWrapper::ArrayI24(x) => x.parse(parser),
        _ => Ok(0),
    }
}

/// As `sequence_parse_exec`, for the arrays of values of four and eight
/// bytes and for strings.
#[verifier::rlimit(100)]
fn long_sequence_parse_exec(w: &mut SOMTypeWrapper, parser: &mut SOMParser) -> (r: Result<usize, SOMError>)
    requires
        old(parser).wf(),
        is_leaf(*old(w)),
        !is_scalar(*old(w)),
        wrapper_kind(*old(w)) >= 25,
        leaf_parse(leaf_model(*old(w)), old(parser).pos(), old(parser).data()).1 is Some,
    ensures
        is_leaf(*final(w)),
        !is_scalar(*final(w)),
        wparsed(
            leaf_parse(leaf_model(*old(w)), old(parser).pos(), old(parser).data()),
            leaf_model(*final(w)),
            *old(parser),
            *final(parser),
            r,
        ),
{
    proof {
        reveal(leaf_parse);
        reveal(leaf_model);
    }
    match w {
        SOMTypeWrapper::ArrayU32(x) => x.parse(parser),
        SOMTypeWrapper::ArrayI32(x) => x.parse(parser),
        SOMTypeWrapper::ArrayU64(x) => x.parse(parser),
        SOMTypeWrapper::ArrayI64(x) => x.parse(parser),
        SOMTypeWrapper::ArrayF23(x) => x.parse(parser),
        SOMTypeWrapper::ArrayF64(x) => x.parse(parser),
        SOMTypeWrapper::String(x) => x.parse(parser),
        _ => Ok(0),
    }
}

/// Reads the value `w`, which holds no members of any type, at the parser's
/// offset.
fn leaf_parse_exec(w: &mut SOMTypeWrapper, parser: &mut SOMParser) -> (r: Result<usize, SOMError>)
    requires
        old(parser).wf(),
        is_leaf(*old(w)),
        leaf_parse(leaf_model(*old(w)), old(parser).pos(), old(parser).data()).1 is Some,
    ensures
        is_leaf(*final(w)),
        wparsed(
            leaf_parse(leaf_model(*old(w)), old(parser).pos(), old(parser).data()),
            leaf_model(*final(w)),
            *old(parser),
            *final(parser),
            r,
        ),
{
    if kind_of(w) < 17 {
        scalar_parse_exec(w, parser)
    } else {
        sequence_parse_exec(w, parser)
    }
}

/// Reads the value `w` at the parser's offset.
fn wrapper_parse_exec(w: &mut SOMTypeWrapper, parser: &mut SOMParser) -> (r: Result<usize, SOMError>)
    requires
        old(parser).wf(),
        wrapper_parse(wrapper_model(*old(w)), old(parser).pos(), old(parser).data()).1 is Some,
    ensures
        wparsed(
            wrapper_parse(wrapper_model(*old(w)), old(parser).pos(), old(parser).data()),
            wrapper_model(*final(w)),
            *old(parser),
            *final(parser),
            r,
        ),
    decreases *old(w), 0int,
{
    match w {
        SOMTypeWrapper::Array(a) => warr_parse_exec(a, parser),
        SOMTypeWrapper::Struct(s) => welems_parse_exec(&mut s.members, parser),
        SOMTypeWrapper::Union(u) => union_parse_exec(u, parser),
        SOMTypeWrapper::Optional(o) => optional_parse_exec(o, parser),
        _ => leaf_parse_exec(w, parser),
    }
}

/// Reads the values `v` in turn, or fails at the first that fails.
fn welems_parse_exec(v: &mut Vec<SOMTypeWrapper>, parser: &mut SOMParser) -> (r: Result<
    usize,
    SOMError,
>)
    requires
        old(parser).wf(),
        welems_parse(
            models_of(old(v)@),
            models_of(old(v)@),
            0,
            old(parser).pos(),
            old(parser).data(),
        ).1 is Some,
    ensures
        wparsed(
            welems_parse(
                models_of(old(v)@),
                models_of(old(v)@),
                0,
                old(parser).pos(),
                old(parser).data(),
            ),
            models_of(final(v)@),
            *old(parser),
            *final(parser),
            r,
        ),
    decreases *old(v), 0int,
{
    let ghost orig = models_of(v@);
    let ghost d = parser.data();
    let ghost off0 = parser.pos();
    let ghost mut consumed: nat = 0;
    proof {
        parser.lemma_wf();
        lemma_models_of(v@);
    }
    let mut read: usize = 0;
    let mut i: usize = 0;
    let len = v.len();
    while i < len
        invariant
            len == v@.len(),
            len == old(v)@.len(),
            orig == models_of(old(v)@),
            orig.len() == len,
            forall|j: int| 0 <= j < len ==> #[trigger] orig[j] == wrapper_model(old(v)@[j]),
            forall|j: int| i <= j < len ==> #[trigger] v@[j] == old(v)@[j],
            parser.wf(),
            parser.data() == d,
            d == old(parser).data(),
            off0 == old(parser).pos(),
            0 <= off0,
            i <= len,
            read == consumed,
            parser.pos() == off0 + consumed,
            welems_parse(orig, orig, 0, off0, d).1 is Some,
            welems_parse(orig, orig, 0, off0, d) == ({
                let (c2, r) = welems_parse(orig, models_of(v@), i as int, parser.pos(), d);
                (c2, add_read(consumed, r))
            }),
        decreases len - i,
    {
        let ghost pos = parser.pos();
        let ghost cur = models_of(v@);
        proof {
            parser.lemma_wf();
            lemma_models_of(v@);
            assert(orig[i as int] == wrapper_model(v@[i as int]));
        }
        let ghost before = v@;
        let res = wrapper_parse_exec(&mut v[i], parser);
        proof {
            lemma_models_update(before, i as int, v@[i as int]);
            assert(v@ == before.update(i as int, v@[i as int]));
        }
        let n = match res {
            Ok(n) => n,
            Err(e) => return Err(e),
        };
        proof {
            parser.lemma_wf();
            consumed = (consumed + n) as nat;
        }
        read = read + n;
        i = i + 1;
    }
    Ok(read)
}

/// Reads the array of members of any type `a`.
fn warr_parse_exec(a: &mut SOMArray, parser: &mut SOMParser) -> (r: Result<usize, SOMError>)
    requires
        old(parser).wf(),
        warr_parse(warr_model(*old(a)), old(parser).pos(), old(parser).data()).1 is Some,
    ensures
        wparsed(
            warr_parse(warr_model(*old(a)), old(parser).pos(), old(parser).data()),
            warr_model(*final(a)),
            *old(parser),
            *final(parser),
            r,
        ),
    decreases *old(a), 0int,
{
    let ghost d = parser.data();
    proof {
        parser.lemma_wf();
        lemma_models_of(a.elements@);
    }
    let offset = parser.offset();
    let length = a.elements.len();
    if length < a.min || length > a.max {
        return Err(
            SOMError::InvalidType(
                crate::som::message2("Invalid Array length: ", length, " at offset: ", offset),
            ),
        );
    }
    let k = a.lengthfield.size();
    let lfv = match parser.read_lengthfield(a.lengthfield) {
        Ok(v) => v,
        Err(e) => return Err(e),
    };
    let n = match welems_parse_exec(&mut a.elements, parser) {
        Ok(n) => n,
        Err(e) => return Err(e),
    };
    proof {
        parser.lemma_wf();
    }
    let size = parser.offset() - offset;
    if a.min != a.max && (lfv != (size - k)) {
        return Err(
            SOMError::InvalidPayload(
                crate::som::message2("Invalid Length-Field value: ", lfv, " at offset: ", offset),
            ),
        );
    }
    Ok(size)
}

/// Reads the union `u`: its type field, then the variant it selects.
fn union_parse_exec(u: &mut SOMUnion, parser: &mut SOMParser) -> (r: Result<usize, SOMError>)
    requires
        old(parser).wf(),
        union_parse(old(u).spec_model(), old(parser).pos(), old(parser).data()).1 is Some,
    ensures
        wparsed(
            union_parse(old(u).spec_model(), old(parser).pos(), old(parser).data()),
            final(u).spec_model(),
            *old(parser),
            *final(parser),
            r,
        ),
    decreases *old(u), 0int,
{
    proof {
        parser.lemma_wf();
        lemma_models_of(u.variants@);
    }
    let offset = parser.offset();
    let index = match parser.read_typefield(u.typefield) {
        Ok(i) => i,
        Err(e) => return Err(e),
    };
    if index <= u.variants.len() {
        u.index = index;
    } else {
        return Err(
            SOMError::InvalidPayload(
                crate::som::message2("Invalid Union index: ", index, " at offset: ", offset),
            ),
        );
    }
    if u.index != 0 {
        let ghost before = u.variants@;
        let res = wrapper_parse_exec(&mut u.variants[index - 1], parser);
        proof {
            lemma_models_update(before, index - 1, u.variants@[index - 1]);
            assert(u.variants@ == before.update(index - 1, u.variants@[index - 1]));
        }
        match res {
            Ok(_) => {},
            Err(e) => return Err(e),
        }
    }
    proof {
        parser.lemma_wf();
    }
    Ok(parser.offset() - offset)
}

/// The member that `opt_find` selects is one from the `k`-th on that is not
/// set and has the tag.
proof fn lemma_opt_find(items: Seq<OptionalItemModel>, tag: u16, k: int)
    ensures
        opt_find(items, tag, k) matches Some(j) ==> k <= j < items.len() && !items[j].set
            && opt_tag(items[j].wiretype, items[j].key) == tag,
    decreases items.len() - k,
{
    if 0 <= k < items.len() {
        lemma_opt_find(items, tag, k + 1);
    }
}

/// The position of the first member of `items` not yet read that has the
/// tag `tag`, if any.
fn find_tag(items: &Vec<SOMOptionalTypeItem>, tag: u16) -> (r: Option<usize>)
    ensures
        match r {
            Some(j) => opt_find(items_of(items@), tag, 0) == Some(j as int) && j < items@.len(),
            None => opt_find(items_of(items@), tag, 0) is None,
        },
{
    proof {
        lemma_items_of(items@);
    }
    let mut j: usize = 0;
    while j < items.len()
        invariant
            j <= items@.len(),
            items_of(items@).len() == items@.len(),
            forall|i: int|
                0 <= i < items@.len() ==> #[trigger] items_of(items@)[i] == item_model(items@[i]),
            opt_find(items_of(items@), tag, 0) == opt_find(items_of(items@), tag, j as int),
        decreases items@.len() - j,
    {
        proof {
            assert(items_of(items@)[j as int] == item_model(items@[j as int]));
        }
        if !items[j].set && items[j].tag() == tag {
            return Some(j);
        }
        j = j + 1;
    }
    None
}

/// Reads the value `v` of a member of an optional as `opt_member` says, and
/// returns the position where the read ended.
fn opt_member_parse(v: &mut SOMTypeWrapper, lf: SOMLengthField, parser: &mut SOMParser) -> (r:
    Result<usize, SOMError>)
    requires
        old(parser).wf(),
        opt_member(wrapper_model(*old(v)), lf, old(parser).pos(), old(parser).data()).1 is Some,
    ensures
        final(parser).wf(),
        final(parser).data() == old(parser).data(),
        wrapper_model(*final(v)) == opt_member(
            wrapper_model(*old(v)),
            lf,
            old(parser).pos(),
            old(parser).data(),
        ).0,
        match opt_member(wrapper_model(*old(v)), lf, old(parser).pos(), old(parser).data()).1 {
            Some(Ok(end)) => r == Ok::<usize, SOMError>(end as usize) && final(parser).pos() == end,
            Some(Err(ev)) => r matches Err(e) && e@ == ev,
            None => false,
        },
    decreases *old(v), 1int,
{
    proof {
        parser.lemma_wf();
    }
    if wrapper_info_of(v) == SOMTypeInfo::ImplicitLength {
        let mlf = match parser.read_lengthfield(lf) {
            Ok(x) => x,
            Err(e) => return Err(e),
        };
        let mstart = parser.offset();
        match wrapper_parse_exec(v, parser) {
            Ok(_) => {},
            Err(e) => return Err(e),
        }
        proof {
            parser.lemma_wf();
        }
        if parser.offset() - mstart != mlf {
            return Err(
                SOMError::InvalidPayload(
                    crate::som::message2("Invalid Length-Field value: ", mlf, " at offset: ", mstart),
                ),
            );
        }
    } else {
        match wrapper_parse_exec(v, parser) {
            Ok(_) => {},
            Err(e) => return Err(e),
        }
    }
    proof {
        parser.lemma_wf();
    }
    Ok(parser.offset())
}

/// Marks every member of `items` as not read.
fn clear_items(items: &mut Vec<SOMOptionalTypeItem>)
    ensures
        items_of(final(items)@) == cleared_items(items_of(old(items)@)),
        final(items)@.len() == old(items)@.len(),
        forall|j: int|
            0 <= j < old(items)@.len() ==> item_changed(
                old(items)@[j],
                #[trigger] final(items)@[j],
                old(items)@[j].spec_value(),
                false,
            ),
{
    let mut j: usize = 0;
    while j < items.len()
        invariant
            j <= items@.len(),
            items@.len() == old(items)@.len(),
            forall|i: int|
                0 <= i < j ==> #[trigger] items@[i] == (SOMOptionalTypeItem {
                    set: false,
                    ..old(items)@[i]
                }),
            forall|i: int| j <= i < items@.len() ==> #[trigger] items@[i] == old(items)@[i],
        decreases items@.len() - j,
    {
        items[j].set = false;
        j = j + 1;
    }
    proof {
        lemma_items_of(items@);
        lemma_items_of(old(items)@);
        assert(items_of(items@) =~= cleared_items(items_of(old(items)@)));
    }
}

/// Reads the members of an optional whose length field held `tlf` from the
/// parser's offset `type_start` on, as `opt_parse` says, after marking them
/// all as not read; returns the position where the read ended.
#[verifier::rlimit(60)]
fn opt_members_parse(
    items: &mut Vec<SOMOptionalTypeItem>,
    lf: SOMLengthField,
    type_start: usize,
    tlf: usize,
    parser: &mut SOMParser,
) -> (r: Result<usize, SOMError>)
    requires
        old(parser).wf(),
        old(parser).pos() == type_start,
        opt_parse(
            items_of(old(items)@),
            cleared_items(items_of(old(items)@)),
            lf,
            type_start as int,
            tlf as nat,
            type_start as int,
            old(parser).data(),
        ).1 is Some,
    ensures
        final(parser).wf(),
        final(parser).data() == old(parser).data(),
        r is Ok ==> final(parser).pos() >= old(parser).pos(),
        items_of(final(items)@) == opt_parse(
            items_of(old(items)@),
            cleared_items(items_of(old(items)@)),
            lf,
            type_start as int,
            tlf as nat,
            type_start as int,
            old(parser).data(),
        ).0,
        match opt_parse(
            items_of(old(items)@),
            cleared_items(items_of(old(items)@)),
            lf,
            type_start as int,
            tlf as nat,
            type_start as int,
            old(parser).data(),
        ).1 {
            Some(Ok(end)) => r == Ok::<usize, SOMError>(end as usize) && final(parser).pos() == end,
            Some(Err(ev)) => r matches Err(e) && e@ == ev,
            None => false,
        },
    decreases *old(items), 0int,
{
    let ghost orig = items_of(items@);
    let ghost d = parser.data();
    let ghost ts = type_start as int;
    let ghost top = opt_parse(orig, cleared_items(orig), lf, ts, tlf as nat, ts, d);
    proof {
        lemma_items_of(items@);
    }
    clear_items(items);
    proof {
        parser.lemma_wf();
        lemma_items_of(items@);
    }
    let len = items.len();
    while parser.offset() - type_start < tlf
        invariant
            parser.wf(),
            parser.data() == d,
            d == old(parser).data(),
            parser.pos() >= ts,
            ts == type_start,
            old(parser).pos() == type_start,
            len == items@.len(),
            len == old(items)@.len(),
            orig == items_of(old(items)@),
            orig.len() == len,
            forall|j: int| 0 <= j < len ==> #[trigger] orig[j] == item_model(old(items)@[j]),
            forall|j: int|
                0 <= j < len ==> (#[trigger] items@[j]).spec_wiretype() == old(
                    items,
                )@[j].spec_wiretype() && items@[j].spec_key() == old(items)@[j].spec_key()
                    && items@[j].spec_mandatory() == old(items)@[j].spec_mandatory(),
            forall|j: int|
                0 <= j < len && !(#[trigger] items@[j]).spec_set() ==> items@[j].spec_value()
                    == old(items)@[j].spec_value(),
            top == opt_parse(orig, cleared_items(orig), lf, ts, tlf as nat, ts, d),
            top.1 is Some,
            top == opt_parse(orig, items_of(items@), lf, ts, tlf as nat, parser.pos(), d),
        decreases d.len() - parser.pos(),
    {
        let ghost pos = parser.pos();
        let ghost cur = items_of(items@);
        proof {
            parser.lemma_wf();
            lemma_items_of(items@);
        }
        let tb = match parser.read_bytes(2) {
            Ok(b) => b,
            Err(e) => return Err(e),
        };
        proof {
            assert(tb@.subrange(0, 2) =~= tb@);
        }
        let tag: u16 = crate::bytes::read_be16(tb, 0) & 0x7FFFu16;
        match find_tag(items, tag) {
            Some(j) => {
                proof {
                    lemma_opt_find(cur, tag, 0);
                    assert(cur[j as int] == item_model(items@[j as int]));
                    assert(!items@[j as int].spec_set());
                    assert(orig[j as int].value == wrapper_model(items@[j as int].value));
                }
                let ghost before = items@;
                let res = opt_member_parse(&mut items[j].value, lf, parser);
                let ghost after_value = items@[j as int].value;
                proof {
                    lemma_items_update(
                        before,
                        j as int,
                        SOMOptionalTypeItem { value: after_value, ..before[j as int] },
                    );
                    assert(items@ == before.update(
                        j as int,
                        SOMOptionalTypeItem { value: after_value, ..before[j as int] },
                    ));
                }
                match res {
                    Ok(_) => {},
                    Err(e) => return Err(e),
                }
                items[j].set = true;
                proof {
                    parser.lemma_wf();
                    lemma_items_update(
                        before,
                        j as int,
                        SOMOptionalTypeItem { value: after_value, set: true, ..before[j as int] },
                    );
                    assert(items@ =~= before.update(
                        j as int,
                        SOMOptionalTypeItem { value: after_value, set: true, ..before[j as int] },
                    ));
                }
            },
            None => {
                let wt: u16 = (tag >> 8u16) & 0xFFu16;
                match wire_size_of(wt) {
                    Some(s) => {
                        match parser.skip(s) {
                            Ok(_) => {},
                            Err(e) => return Err(e),
                        }
                    },
                    None => {
                        let s = match parser.read_lengthfield(lf) {
                            Ok(x) => x,
                            Err(e) => return Err(e),
                        };
                        match parser.skip(s) {
                            Ok(_) => {},
                            Err(e) => return Err(e),
                        }
                    },
                }
            },
        }
        proof {
            parser.lemma_wf();
        }
    }
    Ok(parser.offset())
}

/// Fails where a member of `items` is mandatory and was not read, with the
/// first such member and the optional's offset `offset`.
fn check_mandatory(items: &Vec<SOMOptionalTypeItem>, offset: usize) -> (r: Result<(), SOMError>)
    ensures
        match first_missing(items_of(items@), 0) {
            Some(j) => r matches Err(e) && e@ == SOMErrorView::InvalidPayload(
                msg_mandatory_parse(items_of(items@)[j].key, offset as nat),
            ),
            None => r is Ok,
        },
{
    proof {
        lemma_items_of(items@);
    }
    let mut j: usize = 0;
    while j < items.len()
        invariant
            j <= items@.len(),
            items_of(items@).len() == items@.len(),
            forall|i: int|
                0 <= i < items@.len() ==> #[trigger] items_of(items@)[i] == item_model(items@[i]),
            first_missing(items_of(items@), 0) == first_missing(items_of(items@), j as int),
        decreases items@.len() - j,
    {
        proof {
            assert(items_of(items@)[j as int] == item_model(items@[j as int]));
        }
        if items[j].mandatory && !items[j].set {
            return Err(
                SOMError::InvalidPayload(
                    crate::som::message2(
                        "Uninitialized mandatory member: : ",
                        items[j].key,
                        " at offset: ",
                        offset,
                    ),
                ),
            );
        }
        j = j + 1;
    }
    Ok(())
}

/// Reads the optional `o`: its length field, then its members, then the
/// checks that each mandatory member was read and that the length field
/// holds the length read.
fn optional_parse_exec(o: &mut SOMOptional, parser: &mut SOMParser) -> (r: Result<usize, SOMError>)
    requires
        old(parser).wf(),
        optional_parse(old(o).spec_model(), old(parser).pos(), old(parser).data()).1 is Some,
    ensures
        wparsed(
            optional_parse(old(o).spec_model(), old(parser).pos(), old(parser).data()),
            final(o).spec_model(),
            *old(parser),
            *final(parser),
            r,
        ),
    decreases *old(o), 0int,
{
    let ghost om = o.spec_model();
    let ghost d = parser.data();
    let ghost off = parser.pos();
    proof {
        parser.lemma_wf();
    }
    let offset = parser.offset();
    let k = o.lengthfield.size();
    let tlf = match parser.read_lengthfield(o.lengthfield) {
        Ok(v) => v,
        Err(e) => return Err(e),
    };
    let type_start = parser.offset();
    match opt_members_parse(&mut o.members, o.lengthfield, type_start, tlf, parser) {
        Ok(_) => {},
        Err(e) => return Err(e),
    }
    proof {
        parser.lemma_wf();
        lemma_items_of(o.members@);
    }
    match check_mandatory(&o.members, offset) {
        Ok(()) => {},
        Err(e) => return Err(e),
    }
    let size = parser.offset() - offset;
    if tlf != size - k {
        return Err(
            SOMError::InvalidPayload(
                crate::som::message2("Invalid Length-Field value: ", tlf, " at offset: ", offset),
            ),
        );
    }
    Ok(size)
}

/// The size of the value `w`, which holds no members of any type.
fn leaf_size_of(w: &SOMTypeWrapper) -> (r: usize)
    requires
        is_leaf(*w),
        leaf_size(leaf_model(*w)) <= usize::MAX,
    ensures
        r == leaf_size(leaf_model(*w)),
{
    proof {
        reveal(leaf_size);
        reveal(leaf_model);
    }
    match w {
        SOMTypeWrapper::Bool(x) => x.size(),
        SOMTypeWrapper::U8(x) => x.size(),
        SOMTypeWrapper::I8(x) => x.size(),
        SOMTypeWrapper::U16(x) => x.size(),
        SOMTypeWrapper::I16(x) => x.size(),
        SOMTypeWrapper::U24(x) => x.size(),
        SOMTypeWrapper::I24(x) => x.size(),
        SOMTypeWrapper::U32(x) => x.size(),
        SOMTypeWrapper::I32(x) => x.size(),
        SOMTypeWrapper::U64(x) => x.size(),
        SOMTypeWrapper::I64(x) => x.size(),
        SOMTypeWrapper::F32(x) => x.size(),
        SOMTypeWrapper::F64(x) => x.size(),
        SOMTypeWrapper::EnumU8(x) => x.size(),
        SOMTypeWrapper::EnumU16(x) => x.size(),
        SOMTypeWrapper::EnumU32(x) => x.size(),
        SOMTypeWrapper::EnumU64(x) => x.size(),
        SOMTypeWrapper::ArrayBool(x) => x.size(),
        SOMTypeWrapper::ArrayU8(x) => x.size(),
        SOMTypeWrapper::ArrayI8(x) => x.size(),
        SOMTypeWrapper::ArrayU16(x) => x.size(),
        SOMTypeWrapper::ArrayI16(x) => x.size(),
        SOMTypeWrapper::ArrayU24(x) => x.size(),
        SOMTypeWrapper::ArrayI24(x) => x.size(),
        SOMTypeWrapper::ArrayU32(x) => x.size(),
        SOMTypeWrapper::ArrayI32(x) => x.size(),
        SOMTypeWrapper::ArrayU64(x) => x.size(),
        SOMTypeWrapper::ArrayI64(x) => x.size(),
        SOMTypeWrapper::ArrayF23(x) => x.size(),
        SOMTypeWrapper::ArrayF64(x) => x.size(),
        SOMTypeWrapper::String(x) => x.size(),
        _ => 0,
    }
}

/// The size of the value `w`.
fn wrapper_size_of(w: &SOMTypeWrapper) -> (r: usize)
    requires
        wrapper_size(wrapper_model(*w)) <= usize::MAX,
    ensures
        r == wrapper_size(wrapper_model(*w)),
    decreases w,
{
    match w {
        SOMTypeWrapper::Array(a) => warr_size_of(a),
        SOMTypeWrapper::Struct(s) => welems_size_of(&s.members),
        SOMTypeWrapper::Union(u) => union_size_of(u),
        SOMTypeWrapper::Optional(o) => optional_size_of(o),
        _ => leaf_size_of(w),
    }
}

/// The sum of the sizes of the values `v`.
fn welems_size_of(v: &Vec<SOMTypeWrapper>) -> (r: usize)
    requires
        welems_size(models_of(v@), 0) <= usize::MAX,
    ensures
        r == welems_size(models_of(v@), 0),
    decreases v,
{
    let ghost ms = models_of(v@);
    proof {
        lemma_models_of(v@);
    }
    let mut total: usize = 0;
    let mut i: usize = 0;
    while i < v.len()
        invariant
            ms == models_of(v@),
            ms.len() == v@.len(),
            forall|j: int| 0 <= j < v@.len() ==> #[trigger] ms[j] == wrapper_model(v@[j]),
            i <= v@.len(),
            welems_size(ms, 0) <= usize::MAX,
            total + welems_size(ms, i as int) == welems_size(ms, 0),
        decreases v@.len() - i,
    {
        proof {
            assert(ms[i as int] == wrapper_model(v@[i as int]));
        }
        let s = wrapper_size_of(&v[i]);
        total = total + s;
        i = i + 1;
    }
    total
}

/// The size of the array of members of any type `a`.
fn warr_size_of(a: &SOMArray) -> (r: usize)
    requires
        wrapper_size(WrapperModel::Array(warr_model(*a))) <= usize::MAX,
    ensures
        r == wrapper_size(WrapperModel::Array(warr_model(*a))),
    decreases a,
{
    let k = a.lengthfield.size();
    let s = welems_size_of(&a.elements);
    k + s
}

/// The size of the union `u`.
fn union_size_of(u: &SOMUnion) -> (r: usize)
    requires
        wrapper_size(WrapperModel::Union(u.spec_model())) <= usize::MAX,
    ensures
        r == wrapper_size(WrapperModel::Union(u.spec_model())),
    decreases u,
{
    proof {
        lemma_models_of(u.variants@);
    }
    let k = u.typefield.size();
    if u.index != 0 && u.index <= u.variants.len() {
        proof {
            assert(u.spec_model().variants[u.index - 1] == wrapper_model(u.variants@[u.index - 1]));
        }
        let s = wrapper_size_of(&u.variants[u.index - 1]);
        k + s
    } else {
        k
    }
}

/// The sum of the sizes of the members `items` of an optional that are set,
/// each with its tag and, where its length is implicit, its length field.
fn opt_size_of(items: &Vec<SOMOptionalTypeItem>, lf: SOMLengthField) -> (r: usize)
    requires
        opt_size(items_of(items@), 0, lf) <= usize::MAX,
    ensures
        r == opt_size(items_of(items@), 0, lf),
    decreases items,
{
    let ghost its = items_of(items@);
    proof {
        lemma_items_of(items@);
    }
    let k = lf.size();
    let mut total: usize = 0;
    let mut i: usize = 0;
    while i < items.len()
        invariant
            its == items_of(items@),
            its.len() == items@.len(),
            forall|j: int| 0 <= j < items@.len() ==> #[trigger] its[j] == item_model(items@[j]),
            k == lengthfield_size(lf),
            i <= items@.len(),
            opt_size(its, 0, lf) <= usize::MAX,
            total + opt_size(its, i as int, lf) == opt_size(its, 0, lf),
        decreases items@.len() - i,
    {
        proof {
            assert(its[i as int] == item_model(items@[i as int]));
        }
        if items[i].set {
            let s = wrapper_size_of(&items[i].value);
            if wrapper_info_of(&items[i].value) == SOMTypeInfo::ImplicitLength {
                total = total + 2 + k + s;
            } else {
                total = total + 2 + s;
            }
        }
        i = i + 1;
    }
    total
}

/// The size of the optional `o`.
fn optional_size_of(o: &SOMOptional) -> (r: usize)
    requires
        wrapper_size(WrapperModel::Optional(o.spec_model())) <= usize::MAX,
    ensures
        r == wrapper_size(WrapperModel::Optional(o.spec_model())),
    decreases o,
{
    let k = o.lengthfield.size();
    let s = opt_size_of(&o.members, o.lengthfield);
    k + s
}

impl SOMTypeWrapper {
    /// Writes the value at the serializer's offset.
    pub fn serialize(&self, serializer: &mut SOMSerializer) -> (r: Result<usize, SOMError>)
        requires
            old(serializer).wf(),
            wrapper_ser(wrapper_model(*self), old(serializer).pos(), old(serializer).buffer()) is Some,
        ensures
            wserialized(
                wrapper_ser(wrapper_model(*self), old(serializer).pos(), old(serializer).buffer()),
                *old(serializer),
                *final(serializer),
                r,
            ),
    {
        wrapper_serialize(self, serializer)
    }

    /// Reads the value at the parser's offset.
    pub fn parse(&mut self, parser: &mut SOMParser) -> (r: Result<usize, SOMError>)
        requires
            old(parser).wf(),
            wrapper_parse(wrapper_model(*old(self)), old(parser).pos(), old(parser).data()).1 is Some,
        ensures
            wparsed(
                wrapper_parse(wrapper_model(*old(self)), old(parser).pos(), old(parser).data()),
                wrapper_model(*final(self)),
                *old(parser),
                *final(parser),
                r,
            ),
    {
        wrapper_parse_exec(self, parser)
    }

    /// The size of the value in bytes.
    pub fn size(&self) -> (r: usize)
        requires
            wrapper_size(wrapper_model(*self)) <= usize::MAX,
        ensures
            r == wrapper_size(wrapper_model(*self)),
    {
        wrapper_size_of(self)
    }

    /// How the length of the value is known on the wire.
    pub fn info(&self) -> (r: SOMTypeInfo)
        ensures
            r == wrapper_info(wrapper_model(*self)),
    {
        wrapper_info_of(self)
    }
}

impl SOMType for SOMStructType {
    type Model = StructModel;

    open spec fn model(&self) -> StructModel {
        self.spec_model()
    }

    open spec fn ser_spec(m: StructModel, offset: int, buf: Seq<u8>) -> Result<Seq<u8>, SOMErrorView> {
        welems_ser(m.members, 0, offset, buf)->0
    }

    open spec fn parse_spec(m: StructModel, offset: int, data: Seq<u8>) -> (
        StructModel,
        Result<nat, SOMErrorView>,
    ) {
        (
            StructModel { members: welems_parse(m.members, m.members, 0, offset, data).0, ..m },
            welems_parse(m.members, m.members, 0, offset, data).1->0,
        )
    }

    open spec fn parse_safe(m: StructModel, offset: int, data: Seq<u8>) -> bool {
        welems_parse(m.members, m.members, 0, offset, data).1 is Some
    }

    open spec fn ser_safe(m: StructModel) -> bool {
        forall|offset: int, buf: Seq<u8>| #[trigger] welems_ser(m.members, 0, offset, buf) is Some
    }

    open spec fn size_spec(m: StructModel) -> nat {
        welems_size(m.members, 0)
    }

    open spec fn info_spec(m: StructModel) -> SOMTypeInfo {
        SOMTypeInfo::ImplicitLength
    }

    fn serialize(&self, serializer: &mut SOMSerializer) -> (r: Result<usize, SOMError>) {
        proof {
            assert(welems_ser(models_of(self.members@), 0, serializer.pos(), serializer.buffer()) is Some);
        }
        welems_serialize(&self.members, serializer)
    }

    fn parse(&mut self, parser: &mut SOMParser) -> (r: Result<usize, SOMError>) {
        welems_parse_exec(&mut self.members, parser)
    }

    fn size(&self) -> (r: usize) {
        welems_size_of(&self.members)
    }

    fn info(&self) -> (r: SOMTypeInfo) {
        SOMTypeInfo::ImplicitLength
    }
}

impl SOMType for SOMUnionType {
    type Model = UnionModel;

    open spec fn model(&self) -> UnionModel {
        self.spec_model()
    }

    open spec fn ser_spec(m: UnionModel, offset: int, buf: Seq<u8>) -> Result<Seq<u8>, SOMErrorView> {
        union_ser(m, offset, buf)->0
    }

    open spec fn parse_spec(m: UnionModel, offset: int, data: Seq<u8>) -> (
        UnionModel,
        Result<nat, SOMErrorView>,
    ) {
        (union_parse(m, offset, data).0, union_parse(m, offset, data).1->0)
    }

    open spec fn parse_safe(m: UnionModel, offset: int, data: Seq<u8>) -> bool {
        union_parse(m, offset, data).1 is Some
    }

    open spec fn ser_safe(m: UnionModel) -> bool {
        forall|offset: int, buf: Seq<u8>| #[trigger] union_ser(m, offset, buf) is Some
    }

    open spec fn size_spec(m: UnionModel) -> nat {
        wrapper_size(WrapperModel::Union(m))
    }

    open spec fn info_spec(m: UnionModel) -> SOMTypeInfo {
        SOMTypeInfo::ImplicitLength
    }

    fn serialize(&self, serializer: &mut SOMSerializer) -> (r: Result<usize, SOMError>) {
        proof {
            assert(union_ser(self.spec_model(), serializer.pos(), serializer.buffer()) is Some);
        }
        union_serialize(self, serializer)
    }

    fn parse(&mut self, parser: &mut SOMParser) -> (r: Result<usize, SOMError>) {
        union_parse_exec(self, parser)
    }

    fn size(&self) -> (r: usize) {
        union_size_of(self)
    }

    fn info(&self) -> (r: SOMTypeInfo) {
        SOMTypeInfo::ImplicitLength
    }
}

impl SOMType for SOMOptionalType {
    type Model = OptionalModel;

    open spec fn model(&self) -> OptionalModel {
        self.spec_model()
    }

    open spec fn ser_spec(m: OptionalModel, offset: int, buf: Seq<u8>) -> Result<Seq<u8>, SOMErrorView> {
        optional_ser(m, offset, buf)->0
    }

    open spec fn parse_spec(m: OptionalModel, offset: int, data: Seq<u8>) -> (
        OptionalModel,
        Result<nat, SOMErrorView>,
    ) {
        (optional_parse(m, offset, data).0, optional_parse(m, offset, data).1->0)
    }

    open spec fn parse_safe(m: OptionalModel, offset: int, data: Seq<u8>) -> bool {
        optional_parse(m, offset, data).1 is Some
    }

    open spec fn ser_safe(m: OptionalModel) -> bool {
        forall|offset: int, buf: Seq<u8>| #[trigger] optional_ser(m, offset, buf) is Some
    }

    open spec fn size_spec(m: OptionalModel) -> nat {
        wrapper_size(WrapperModel::Optional(m))
    }

    open spec fn info_spec(m: OptionalModel) -> SOMTypeInfo {
        SOMTypeInfo::ExplicitLength
    }

    fn serialize(&self, serializer: &mut SOMSerializer) -> (r: Result<usize, SOMError>) {
        proof {
            assert(optional_ser(self.spec_model(), serializer.pos(), serializer.buffer()) is Some);
        }
        optional_serialize(self, serializer)
    }

    fn parse(&mut self, parser: &mut SOMParser) -> (r: Result<usize, SOMError>) {
        optional_parse_exec(self, parser)
    }

    fn size(&self) -> (r: usize) {
        optional_size_of(self)
    }

    fn info(&self) -> (r: SOMTypeInfo) {
        SOMTypeInfo::ExplicitLength
    }
}

impl SOMType for SOMArrayType<SOMTypeWrapper> {
    type Model = ArrayModel<WrapperModel>;

    open spec fn model(&self) -> ArrayModel<WrapperModel> {
        warr_model(*self)
    }

    open spec fn ser_spec(m: ArrayModel<WrapperModel>, offset: int, buf: Seq<u8>) -> Result<
        Seq<u8>,
        SOMErrorView,
    > {
        warr_ser(m, offset, buf)->0
    }

    open spec fn parse_spec(m: ArrayModel<WrapperModel>, offset: int, data: Seq<u8>) -> (
        ArrayModel<WrapperModel>,
        Result<nat, SOMErrorView>,
    ) {
        (warr_parse(m, offset, data).0, warr_parse(m, offset, data).1->0)
    }

    open spec fn parse_safe(m: ArrayModel<WrapperModel>, offset: int, data: Seq<u8>) -> bool {
        warr_parse(m, offset, data).1 is Some
    }

    open spec fn ser_safe(m: ArrayModel<WrapperModel>) -> bool {
        forall|offset: int, buf: Seq<u8>| #[trigger] warr_ser(m, offset, buf) is Some
    }

    open spec fn size_spec(m: ArrayModel<WrapperModel>) -> nat {
        wrapper_size(WrapperModel::Array(m))
    }

    open spec fn info_spec(m: ArrayModel<WrapperModel>) -> SOMTypeInfo {
        if array_dynamic(m) {
            SOMTypeInfo::ExplicitLength
        } else {
            SOMTypeInfo::ImplicitLength
        }
    }

    fn serialize(&self, serializer: &mut SOMSerializer) -> (r: Result<usize, SOMError>) {
        proof {
            assert(warr_ser(warr_model(*self), serializer.pos(), serializer.buffer()) is Some);
        }
        warr_serialize(self, serializer)
    }

    fn parse(&mut self, parser: &mut SOMParser) -> (r: Result<usize, SOMError>) {
        warr_parse_exec(self, parser)
    }

    fn size(&self) -> (r: usize) {
        warr_size_of(self)
    }

    fn info(&self) -> (r: SOMTypeInfo) {
        if self.min != self.max {
            SOMTypeInfo::ExplicitLength
        } else {
            SOMTypeInfo::ImplicitLength
        }
    }
}

impl SOMArrayType<SOMTypeWrapper> {
    /// Appends `obj` where the array is empty or its first element is of the
    /// same variant; leaves the array as it is otherwise. So the members of
    /// an array that are all of one variant stay so (`one_kind`).
    pub fn add(&mut self, obj: SOMTypeWrapper)
        ensures
            (old(self).spec_elements().len() == 0 || wrapper_kind(old(self).spec_elements()[0])
                == wrapper_kind(obj)) ==> final(self).spec_elements() == old(
                self,
            ).spec_elements().push(obj),
            !(old(self).spec_elements().len() == 0 || wrapper_kind(old(self).spec_elements()[0])
                == wrapper_kind(obj)) ==> final(self).spec_elements() == old(self).spec_elements(),
            one_kind(old(self).spec_elements()) ==> one_kind(final(self).spec_elements()),
            final(self).spec_lengthfield() == old(self).spec_lengthfield(),
            final(self).spec_min() == old(self).spec_min(),
            final(self).spec_max() == old(self).spec_max(),
            final(self).spec_meta() == old(self).spec_meta(),
            final(self).spec_template() == old(self).spec_template(),
    {
        proof {
            self.lemma_fields();
        }
        if self.elements.len() == 0 || kind_of(&self.elements[0]) == kind_of(&obj) {
            self.elements.push(obj);
        }
        proof {
            self.lemma_fields();
        }
    }

    /// An array of `min` to `max` members of any type with the length field
    /// `lengthfield` that holds `elements`.
    pub fn from(lengthfield: SOMLengthField, min: usize, max: usize, elements: Vec<SOMTypeWrapper>) -> (r:
        SOMArrayType<SOMTypeWrapper>)
        ensures
            r.spec_lengthfield() == lengthfield,
            r.spec_elements() == elements@,
            r.spec_min() == min,
            r.spec_max() == max,
            r.spec_meta() == None::<SOMTypeMeta>,
            r.spec_template() == None::<SOMTypeWrapper>,
    {
        let r = SOMArrayType { lengthfield, elements, min, max, meta: None, template: None };
        proof {
            r.lemma_fields();
        }
        r
    }
}

impl SOMOptionalType {
    /// Appends a member of key `key` that holds `value`, not set, unless a
    /// member has that key already or the value has no wire type.
    pub fn add(&mut self, key: usize, value: SOMTypeWrapper, mandatory: bool)
        ensures
            match first_with_key(items_of(old(self).spec_members()), key as nat, 0) {
                Some(_) => *final(self) == *old(self),
                None => match wire_type_of(
                    wrapper_info(wrapper_model(value)),
                    wrapper_size(wrapper_model(value)),
                ) {
                    Some(w) => final(self).spec_members().len() == old(self).spec_members().len()
                        + 1 && final(self).spec_members().subrange(
                        0,
                        old(self).spec_members().len() as int,
                    ) == old(self).spec_members() && item_is(
                        final(self).spec_members().last(),
                        w,
                        key as nat,
                        value,
                        mandatory,
                    ),
                    None => *final(self) == *old(self),
                },
            },
            final(self).spec_lengthfield() == old(self).spec_lengthfield(),
            final(self).spec_meta() == old(self).spec_meta(),
    {
        match self.find_key(key) {
            Some(_) => {},
            None => match wire_type(&value) {
                Some(wiretype) => {
                    let ghost before = self.members@;
                    self.members.push(
                        SOMOptionalTypeItem { wiretype, key, value, mandatory, set: false },
                    );
                    proof {
                        assert(self.members@.subrange(0, before.len() as int) =~= before);
                    }
                },
                None => {},
            },
        }
    }

    /// A mandatory member of key `key` that holds `value`, not set, where the
    /// value has a wire type.
    pub fn required(key: usize, value: SOMTypeWrapper) -> (r: Option<SOMOptionalTypeItem>)
        ensures
            match wire_type_of(wrapper_info(wrapper_model(value)), wrapper_size(wrapper_model(value))) {
                Some(w) => r matches Some(it) && item_is(it, w, key as nat, value, true),
                None => r is None,
            },
    {
        match wire_type(&value) {
            Some(wiretype) => Some(
                SOMOptionalTypeItem { wiretype, key, value, mandatory: true, set: false },
            ),
            None => None,
        }
    }
}

/// The text of a value that holds no members of any type.
#[verifier::opaque]
pub closed spec fn leaf_text(w: SOMTypeWrapper) -> Seq<char> {
    match w {
        SOMTypeWrapper::Bool(x) => x.text(),
        SOMTypeWrapper::U8(x) => x.text(),
        SOMTypeWrapper::I8(x) => x.text(),
        SOMTypeWrapper::U16(x) => x.text(),
        SOMTypeWrapper::I16(x) => x.text(),
        SOMTypeWrapper::U24(x) => x.text(),
        SOMTypeWrapper::I24(x) => x.text(),
        SOMTypeWrapper::U32(x) => x.text(),
        SOMTypeWrapper::I32(x) => x.text(),
        SOMTypeWrapper::U64(x) => x.text(),
        SOMTypeWrapper::I64(x) => x.text(),
        SOMTypeWrapper::F32(x) => x.text(),
        SOMTypeWrapper::F64(x) => x.text(),
        SOMTypeWrapper::EnumU8(x) => x.text(),
        SOMTypeWrapper::EnumU16(x) => x.text(),
        SOMTypeWrapper::EnumU32(x) => x.text(),
        SOMTypeWrapper::EnumU64(x) => x.text(),
        SOMTypeWrapper::ArrayBool(x) => x.text(),
        SOMTypeWrapper::ArrayU8(x) => x.text(),
        SOMTypeWrapper::ArrayI8(x) => x.text(),
        SOMTypeWrapper::ArrayU16(x) => x.text(),
        SOMTypeWrapper::ArrayI16(x) => x.text(),
        SOMTypeWrapper::ArrayU24(x) => x.text(),
        SOMTypeWrapper::ArrayI24(x) => x.text(),
        SOMTypeWrapper::ArrayU32(x) => x.text(),
        SOMTypeWrapper::ArrayI32(x) => x.text(),
        SOMTypeWrapper::ArrayU64(x) => x.text(),
        SOMTypeWrapper::ArrayI64(x) => x.text(),
        SOMTypeWrapper::ArrayF23(x) => x.text(),
        SOMTypeWrapper::ArrayF64(x) => x.text(),
        SOMTypeWrapper::String(x) => x.text(),
        _ => Seq::empty(),
    }
}

/// The text of a value of any payload type.
pub closed spec fn wrapper_text(w: SOMTypeWrapper) -> Seq<char>
    decreases w, 0int,
{
    match w {
        SOMTypeWrapper::Array(a) => array_text(meta_or(a.meta, "array"@), texts_of(a.elements@)),
        SOMTypeWrapper::Struct(s) => untabbed(
            framed(meta_or(s.meta, "struct"@), parts_text(texts_of(s.members@)), "{"@, "}"@, "{}"@),
        ),
        SOMTypeWrapper::Union(u) => untabbed(
            framed(
                meta_or(u.meta, "union"@),
                if u.variants@.len() > 0 {
                    if 0 < u.index <= u.variants@.len() {
                        "\n\t"@ + replace_all(wrapper_text(u.variants@[u.index - 1]), '\n', "\n\t"@)
                    } else {
                        "\n\t?"@
                    }
                } else {
                    Seq::empty()
                },
                "{"@,
                "}"@,
                "{?}"@,
            ),
        ),
        SOMTypeWrapper::Optional(o) => untabbed(
            framed(meta_or(o.meta, "optional"@), opt_parts_text(o.members@), "{"@, "}"@, "{}"@),
        ),
        _ => leaf_text(w),
    }
}

/// The texts of values of any payload type.
pub closed spec fn texts_of(s: Seq<SOMTypeWrapper>) -> Seq<Seq<char>>
    decreases s, 0int,
{
    if s.len() == 0 {
        Seq::empty()
    } else {
        texts_of(s.drop_last()).push(wrapper_text(s.last()))
    }
}

/// The text of a member of an optional: its key in angle brackets, then its
/// value.
pub closed spec fn member_text(it: SOMOptionalTypeItem) -> Seq<char>
    decreases it, 0int,
{
    "<"@ + dec(it.key as nat) + "> "@ + wrapper_text(it.value)
}

/// The text of the members of an optional that are set, each on a line of
/// its own.
pub closed spec fn opt_parts_text(s: Seq<SOMOptionalTypeItem>) -> Seq<char>
    decreases s, 0int,
{
    if s.len() == 0 {
        Seq::empty()
    } else {
        opt_parts_text(s.drop_last()) + if s.last().set {
            indented(member_text(s.last()))
        } else {
            Seq::empty()
        }
    }
}

/// The text of the value `w`, which holds no members of any type.
fn leaf_text_of(w: &SOMTypeWrapper) -> (r: String)
    requires
        is_leaf(*w),
    ensures
        r@ == leaf_text(*w),
{
    proof {
        reveal(leaf_text);
    }
    match w {
        SOMTypeWrapper::Bool(x) => x.to_string(),
        SOMTypeWrapper::U8(x) => x.to_string(),
        SOMTypeWrapper::I8(x) => x.to_string(),
        SOMTypeWrapper::U16(x) => x.to_string(),
        SOMTypeWrapper::I16(x) => x.to_string(),
        SOMTypeWrapper::U24(x) => x.to_string(),
        SOMTypeWrapper::I24(x) => x.to_string(),
        SOMTypeWrapper::U32(x) => x.to_string(),
        SOMTypeWrapper::I32(x) => x.to_string(),
        SOMTypeWrapper::U64(x) => x.to_string(),
        SOMTypeWrapper::I64(x) => x.to_string(),
        SOMTypeWrapper::F32(x) => x.to_string(),
        SOMTypeWrapper::F64(x) => x.to_string(),
        SOMTypeWrapper::EnumU8(x) => x.to_string(),
        SOMTypeWrapper::EnumU16(x) => x.to_string(),
        SOMTypeWrapper::EnumU32(x) => x.to_string(),
        SOMTypeWrapper::EnumU64(x) => x.to_string(),
        SOMTypeWrapper::ArrayBool(x) => x.to_string(),
        SOMTypeWrapper::ArrayU8(x) => x.to_string(),
        SOMTypeWrapper::ArrayI8(x) => x.to_string(),
        SOMTypeWrapper::ArrayU16(x) => x.to_string(),
        SOMTypeWrapper::ArrayI16(x) => x.to_string(),
        SOMTypeWrapper::ArrayU24(x) => x.to_string(),
        SOMTypeWrapper::ArrayI24(x) => x.to_string(),
        SOMTypeWrapper::ArrayU32(x) => x.to_string(),
        SOMTypeWrapper::ArrayI32(x) => x.to_string(),
        SOMTypeWrapper::ArrayU64(x) => x.to_string(),
        SOMTypeWrapper::ArrayI64(x) => x.to_string(),
        SOMTypeWrapper::ArrayF23(x) => x.to_string(),
        SOMTypeWrapper::ArrayF64(x) => x.to_string(),
        SOMTypeWrapper::String(x) => x.to_string(),
        _ => String::new(),
    }
}

/// The text of the value `w`.
fn wrapper_text_of(w: &SOMTypeWrapper) -> (r: String)
    ensures
        r@ == wrapper_text(*w),
    decreases w,
{
    match w {
        SOMTypeWrapper::Array(a) => warr_text_of(a),
        SOMTypeWrapper::Struct(s) => struct_text_of(s),
        SOMTypeWrapper::Union(u) => union_text_of(u),
        SOMTypeWrapper::Optional(o) => optional_text_of(o),
        _ => leaf_text_of(w),
    }
}

/// Appends the texts of the values `v`, each on a line of its own.
fn push_texts(dd: &mut String, v: &Vec<SOMTypeWrapper>)
    ensures
        final(dd)@ == old(dd)@ + parts_text(texts_of(v@)),
    decreases v,
{
    let ghost start = dd@;
    let mut i: usize = 0;
    while i < v.len()
        invariant
            i <= v@.len(),
            start == old(dd)@,
            dd@ == start + parts_text(texts_of(v@.take(i as int))),
        decreases v@.len() - i,
    {
        let t = wrapper_text_of(&v[i]);
        push_indented(dd, &t);
        proof {
            let x = texts_of(v@.take(i as int));
            assert(v@.take(i + 1).drop_last() =~= v@.take(i as int));
            assert(v@.take(i + 1).last() == v@[i as int]);
            assert(texts_of(v@.take(i + 1)) == x.push(wrapper_text(v@[i as int])));
            assert(x.push(wrapper_text(v@[i as int])).drop_last() =~= x);
            assert(dd@ =~= start + parts_text(texts_of(v@.take(i + 1))));
        }
        i = i + 1;
    }
    proof {
        assert(v@.take(i as int) =~= v@);
    }
}

/// The text of the array of members of any type `a`.
fn warr_text_of(a: &SOMArray) -> (r: String)
    ensures
        r@ == wrapper_text(SOMTypeWrapper::Array(*a)),
    decreases a,
{
    let d = meta_or_text(a.meta(), "array");
    proof {
        a.lemma_fields();
    }
    let mut dd = String::new();
    push_texts(&mut dd, &a.elements);
    proof {
        assert(dd@ =~= parts_text(texts_of(a.elements@)));
    }
    let f = framed_text(d, &dd, "[", "]", "[]");
    untab(&f)
}

/// The text of the structure `s`.
fn struct_text_of(s: &SOMStruct) -> (r: String)
    ensures
        r@ == wrapper_text(SOMTypeWrapper::Struct(*s)),
    decreases s,
{
    let d = meta_or_text(s.meta(), "struct");
    let mut dd = String::new();
    push_texts(&mut dd, &s.members);
    proof {
        assert(dd@ =~= parts_text(texts_of(s.members@)));
    }
    let f = framed_text(d, &dd, "{", "}", "{}");
    untab(&f)
}

/// The text of the union `u`.
fn union_text_of(u: &SOMUnion) -> (r: String)
    ensures
        r@ == wrapper_text(SOMTypeWrapper::Union(*u)),
    decreases u,
{
    let d = meta_or_text(u.meta(), "union");
    let mut dd = String::new();
    if u.variants.len() > 0 {
        if u.index != 0 && u.index <= u.variants.len() {
            let t = wrapper_text_of(&u.variants[u.index - 1]);
            dd.append("\n\t");
            let inner = replace_char(t.as_str(), '\n', "\n\t");
            push_str(&mut dd, &inner);
        } else {
            dd.append("\n\t?");
        }
    }
    let f = framed_text(d, &dd, "{", "}", "{?}");
    untab(&f)
}

/// The text of the optional `o`.
fn optional_text_of(o: &SOMOptional) -> (r: String)
    ensures
        r@ == wrapper_text(SOMTypeWrapper::Optional(*o)),
    decreases o,
{
    let d = meta_or_text(o.meta(), "optional");
    let mut dd = String::new();
    let mut i: usize = 0;
    while i < o.members.len()
        invariant
            i <= o.members@.len(),
            dd@ == opt_parts_text(o.members@.take(i as int)),
        decreases o.members@.len() - i,
    {
        if o.members[i].set {
            let t = member_text_of(&o.members[i]);
            push_indented(&mut dd, &t);
        }
        proof {
            assert(o.members@.take(i + 1).drop_last() =~= o.members@.take(i as int));
            assert(o.members@.take(i + 1).last() == o.members@[i as int]);
        }
        i = i + 1;
    }
    proof {
        assert(o.members@.take(i as int) =~= o.members@);
    }
    let f = framed_text(d, &dd, "{", "}", "{}");
    untab(&f)
}

/// The text of the member `it` of an optional.
fn member_text_of(it: &SOMOptionalTypeItem) -> (r: String)
    ensures
        r@ == member_text(*it),
    decreases it,
{
    let mut s = String::from_str("<");
    let k = usize_text(it.key);
    push_str(&mut s, &k);
    s.append("> ");
    let t = wrapper_text_of(&it.value);
    push_str(&mut s, &t);
    proof {
        assert(s@ =~= member_text(*it));
    }
    s
}

impl SOMTypeWrapper {
    /// The text of the value.
    pub closed spec fn text(&self) -> Seq<char> {
        wrapper_text(*self)
    }

    /// The text of the value.
    pub fn to_string(&self) -> (r: String)
        ensures
            r@ == self.text(),
    {
        wrapper_text_of(self)
    }
}

impl SOMText for SOMOptionalTypeItem {
    closed spec fn text(&self) -> Seq<char> {
        member_text(*self)
    }

    fn to_string(&self) -> (r: String) {
        member_text_of(self)
    }
}

impl SOMText for SOMStructType {
    closed spec fn text(&self) -> Seq<char> {
        wrapper_text(SOMTypeWrapper::Struct(*self))
    }

    fn to_string(&self) -> (r: String) {
        struct_text_of(self)
    }
}

impl SOMText for SOMUnionType {
    closed spec fn text(&self) -> Seq<char> {
        wrapper_text(SOMTypeWrapper::Union(*self))
    }

    fn to_string(&self) -> (r: String) {
        union_text_of(self)
    }
}

impl SOMText for SOMOptionalType {
    closed spec fn text(&self) -> Seq<char> {
        wrapper_text(SOMTypeWrapper::Optional(*self))
    }

    fn to_string(&self) -> (r: String) {
        optional_text_of(self)
    }
}

impl SOMText for SOMArrayType<SOMTypeWrapper> {
    closed spec fn text(&self) -> Seq<char> {
        wrapper_text(SOMTypeWrapper::Array(*self))
    }

    fn to_string(&self) -> (r: String) {
        warr_text_of(self)
    }
}

} // verus!
