//! Builds the payload types of the SOME/IP payload type system from the
//! data types of a FIBEX model.
//!
//! A declaration of the model becomes a payload value that holds nothing
//! yet, shown with the name of the declaration and that of its type; it is
//! ready to be parsed into.

use vstd::prelude::*;
use crate::fibex::{
    array_dimension, array_dimensions, array_length_field_attr, attr_number, bytes_or_four,
    high_low_byte_order, length_field_attr, bit_length_attr, min_bit_length_attr,
    max_bit_length_attr, first_where, lemma_first_where, lemma_first_where_is, array_attr,
    array_attr_with, FibexArrayDimension, FibexDatatype, FibexEnum, FibexEnumDeclaration,
    FibexError, FibexModel, FibexPrimitive, FibexString, FibexStringEncoding,
    FibexTypeDeclaration, FibexTypeInstance,
};
use crate::som::{SOMEndian, SOMLengthField, SOMTypeMeta};
use crate::som_arrays::SOMArrayType;
use crate::som_enums::{added_items, items_view, SOMEnum, SOMu16Enum, SOMu32Enum, SOMu64Enum, SOMu8Enum};
use crate::som_primitives::{
    SOMBool, SOMf32, SOMf64, SOMi16, SOMi24, SOMi32, SOMi64, SOMi8, SOMu16, SOMu24, SOMu32,
    SOMu64, SOMu8,
};
use crate::som_strings::{SOMString, SOMStringEncoding, SOMStringFormat, StringModel};
use crate::som_wrapper::{
    SOMArray, SOMBoolArray, SOMStruct, SOMTypeWrapper, SOMf32Array, SOMf64Array, SOMi16Array,
    SOMi24Array, SOMi32Array, SOMi64Array, SOMi8Array, SOMu16Array, SOMu24Array, SOMu32Array,
    SOMu64Array, SOMu8Array,
};
use crate::fibex_parser::{parse_unsigned, unsigned_of};

verus! {

/// Meta data with the name `name` and the description `desc`.
pub open spec fn meta_is(m: Option<SOMTypeMeta>, name: Seq<char>, desc: Seq<char>) -> bool {
    m matches Some(x) && x.name() == name && x.description() == desc
}

/// An empty array with the length field `lf` and the bounds of `dim`,
/// shown with `name` and `desc`.
pub open spec fn empty_array_is<T>(a: SOMArrayType<T>, lf: SOMLengthField, dim: FibexArrayDimension, name: Seq<char>, desc: Seq<char>) -> bool {
    &&& a.spec_lengthfield() == lf
    &&& a.spec_elements().len() == 0
    &&& a.spec_min() == dim.min
    &&& a.spec_max() == dim.max
    &&& meta_is(a.spec_meta(), name, desc)
}

/// Whether the array `w` has `e` as the value its elements are made after:
/// an array of members of any type `e` itself, an array of a primitive type
/// the value of that type that `e` holds.
pub open spec fn template_is(w: SOMTypeWrapper, e: SOMTypeWrapper) -> bool {
    match w {
        SOMTypeWrapper::Array(a) => a.spec_template() == Some(e),
        SOMTypeWrapper::ArrayBool(a) => e matches SOMTypeWrapper::Bool(v) && a.spec_template() == Some(v),
        SOMTypeWrapper::ArrayU8(a) => e matches SOMTypeWrapper::U8(v) && a.spec_template() == Some(v),
        SOMTypeWrapper::ArrayI8(a) => e matches SOMTypeWrapper::I8(v) && a.spec_template() == Some(v),
        SOMTypeWrapper::ArrayU16(a) => e matches SOMTypeWrapper::U16(v) && a.spec_template() == Some(v),
        SOMTypeWrapper::ArrayI16(a) => e matches SOMTypeWrapper::I16(v) && a.spec_template() == Some(v),
        SOMTypeWrapper::ArrayU24(a) => e matches SOMTypeWrapper::U24(v) && a.spec_template() == Some(v),
        SOMTypeWrapper::ArrayI24(a) => e matches SOMTypeWrapper::I24(v) && a.spec_template() == Some(v),
        SOMTypeWrapper::ArrayU32(a) => e matches SOMTypeWrapper::U32(v) && a.spec_template() == Some(v),
        SOMTypeWrapper::ArrayI32(a) => e matches SOMTypeWrapper::I32(v) && a.spec_template() == Some(v),
        SOMTypeWrapper::ArrayU64(a) => e matches SOMTypeWrapper::U64(v) && a.spec_template() == Some(v),
        SOMTypeWrapper::ArrayI64(a) => e matches SOMTypeWrapper::I64(v) && a.spec_template() == Some(v),
        SOMTypeWrapper::ArrayF23(a) => e matches SOMTypeWrapper::F32(v) && a.spec_template() == Some(v),
        SOMTypeWrapper::ArrayF64(a) => e matches SOMTypeWrapper::F64(v) && a.spec_template() == Some(v),
        _ => false,
    }
}

/// An empty array of members of any type, made after `template`.
fn array_of_any(name: String, description: String, dimension: FibexArrayDimension, lengthfield: SOMLengthField, template: SOMTypeWrapper) -> (r: SOMTypeWrapper)
    ensures
        r matches SOMTypeWrapper::Array(a) && empty_array_is(a, lengthfield, dimension, name@, description@),
        template_is(r, template),
{
    SOMTypeWrapper::Array(SOMArray::dynamic(lengthfield, dimension.min, dimension.max).with_template(template).with_meta(SOMTypeMeta::from(name, description)))
}

/// The byte order of a declaration.
pub open spec fn endian_of(high_low_byte_order: bool) -> SOMEndian {
    if high_low_byte_order {
        SOMEndian::Big
    } else {
        SOMEndian::Little
    }
}

/// The byte order: big endian where the declaration says high-low.
pub fn get_type_endian(high_low_byte_order: bool) -> (r: SOMEndian)
    ensures
        r == endian_of(high_low_byte_order),
{
    if high_low_byte_order {
        SOMEndian::Big
    } else {
        SOMEndian::Little
    }
}

/// The length field of a size in bytes: none for sizes other than 1, 2 and
/// 4.
pub open spec fn lengthfield_of(size: usize) -> SOMLengthField {
    if size == 1 {
        SOMLengthField::U8
    } else if size == 2 {
        SOMLengthField::U16
    } else if size == 4 {
        SOMLengthField::U32
    } else {
        SOMLengthField::NoField
    }
}

/// The length field of a size in bytes.
pub fn get_length_field(size: usize) -> (r: SOMLengthField)
    ensures
        r == lengthfield_of(size),
{
    if size == 1 {
        SOMLengthField::U8
    } else if size == 2 {
        SOMLengthField::U16
    } else if size == 4 {
        SOMLengthField::U32
    } else {
        SOMLengthField::NoField
    }
}

/// Whether an enumeration of the primitive type `p` can be built: one of
/// the unsigned types but that of three bytes.
pub open spec fn enum_supported(p: FibexPrimitive) -> bool {
    p == FibexPrimitive::Uint8 || p == FibexPrimitive::Uint16 || p == FibexPrimitive::Uint32 || p
        == FibexPrimitive::Uint64
}

/// The names and values of the items of an enumeration whose values write
/// numbers no greater than `max`, in order.
pub open spec fn enum_entries(variants: Seq<FibexEnumDeclaration>, max: u64) -> Seq<(Seq<char>, u64)>
    decreases variants.len(),
{
    if variants.len() == 0 {
        Seq::empty()
    } else {
        let prev = enum_entries(variants.drop_last(), max);
        match unsigned_of(variants.last().value@, max) {
            Some(v) => prev.push((variants.last().name@, v)),
            None => prev,
        }
    }
}

/// The entries with their values as one-byte values.
pub open spec fn entries_u8(s: Seq<(Seq<char>, u64)>) -> Seq<(Seq<char>, u8)> {
    s.map_values(|p: (Seq<char>, u64)| (p.0, p.1 as u8))
}

/// The entries with their values as two-byte values.
pub open spec fn entries_u16(s: Seq<(Seq<char>, u64)>) -> Seq<(Seq<char>, u16)> {
    s.map_values(|p: (Seq<char>, u64)| (p.0, p.1 as u16))
}

/// The entries with their values as four-byte values.
pub open spec fn entries_u32(s: Seq<(Seq<char>, u64)>) -> Seq<(Seq<char>, u32)> {
    s.map_values(|p: (Seq<char>, u64)| (p.0, p.1 as u32))
}

/// An enumeration of the primitive type of `e`, in byte order `endian`
/// where it has more than one byte, shown with `name` and `desc`, with no
/// item selected, that holds the items of `e` whose values fit, each added
/// in turn.
pub open spec fn enum_built(e: FibexEnum, endian: SOMEndian, name: Seq<char>, desc: Seq<char>, w: SOMTypeWrapper) -> bool {
    match e.primitive {
        FibexPrimitive::Uint8 => w matches SOMTypeWrapper::EnumU8(x) && x.spec_index() == 0
            && meta_is(x.spec_meta(), name, desc) && items_view(x.spec_variants()) == added_items(
            entries_u8(enum_entries(e.variants@, 0xff)),
        ),
        FibexPrimitive::Uint16 => w matches SOMTypeWrapper::EnumU16(x) && x.enumeration.spec_index() == 0
            && x.endian == endian && meta_is(x.enumeration.spec_meta(), name, desc) && items_view(
            x.enumeration.spec_variants(),
        ) == added_items(entries_u16(enum_entries(e.variants@, 0xffff))),
        FibexPrimitive::Uint32 => w matches SOMTypeWrapper::EnumU32(x) && x.enumeration.spec_index() == 0
            && x.endian == endian && meta_is(x.enumeration.spec_meta(), name, desc) && items_view(
            x.enumeration.spec_variants(),
        ) == added_items(entries_u32(enum_entries(e.variants@, 0xffff_ffff))),
        FibexPrimitive::Uint64 => w matches SOMTypeWrapper::EnumU64(x) && x.enumeration.spec_index() == 0
            && x.endian == endian && meta_is(x.enumeration.spec_meta(), name, desc) && items_view(
            x.enumeration.spec_variants(),
        ) == added_items(enum_entries(e.variants@, 0xffff_ffff_ffff_ffff)),
        _ => false,
    }
}

/// The names and values of pairs of texts and numbers.
pub open spec fn entries_of(s: Seq<(String, u64)>) -> Seq<(Seq<char>, u64)> {
    s.map_values(|p: (String, u64)| (p.0@, p.1))
}

/// The items of an enumeration whose values fit below `max`, in order.
fn enum_items(variants: &Vec<FibexEnumDeclaration>, max: u64) -> (r: Vec<(String, u64)>)
    ensures
        forall|j: int| 0 <= j < r@.len() ==> (#[trigger] r@[j]).1 <= max,
        entries_of(r@) == enum_entries(variants@, max),
{
    let mut items: Vec<(String, u64)> = Vec::new();
    let mut i: usize = 0;
    while i < variants.len()
        invariant
            i <= variants@.len(),
            forall|j: int| 0 <= j < items@.len() ==> (#[trigger] items@[j]).1 <= max,
            entries_of(items@) == enum_entries(variants@.take(i as int), max),
        decreases variants@.len() - i,
    {
        let v = &variants[i];
        let ghost before = items@;
        proof {
            assert(variants@.take(i as int + 1).drop_last() =~= variants@.take(i as int));
            assert(variants@.take(i as int + 1).last() == *v);
        }
        match parse_unsigned(v.value.as_str(), max) {
            Some(value) => {
                items.push((String::from_str(v.name.as_str()), value));
                proof {
                    assert(entries_of(items@) =~= entries_of(before).push((v.name@, value)));
                }
            },
            None => {},
        }
        i = i + 1;
    }
    proof {
        assert(variants@.take(variants@.len() as int) =~= variants@);
    }
    items
}

/// The enumeration of a data type, where its primitive type is supported.
pub fn get_enum_type(name: String, description: String, datatype: &FibexEnum, endian: SOMEndian) -> (r: Option<SOMTypeWrapper>)
    ensures
        enum_supported(datatype.primitive) ==> (r matches Some(w) && enum_built(*datatype, endian, name@, description@, w)),
        !enum_supported(datatype.primitive) ==> r is None,
{
    match datatype.primitive {
        FibexPrimitive::Uint8 => {
            let items = enum_items(&datatype.variants, 255);
            let mut list: Vec<SOMEnum<u8>> = Vec::new();
            let mut i: usize = 0;
            while i < items.len()
                invariant
                    i <= items@.len(),
                    forall|j: int| 0 <= j < items@.len() ==> (#[trigger] items@[j]).1 <= 255,
                    items_view(list@) == entries_u8(entries_of(items@.take(i as int))),
                decreases items@.len() - i,
            {
                let ghost before = list@;
                list.push(SOMEnum::from(String::from_str(items[i].0.as_str()), items[i].1 as u8));
                proof {
                    assert(entries_of(items@.take(i as int + 1)) =~= entries_of(items@.take(i as int)).push((items@[i as int].0@, items@[i as int].1)));
                    assert(items_view(list@) =~= items_view(before).push((items@[i as int].0@, items@[i as int].1 as u8)));
                    assert(entries_u8(entries_of(items@.take(i as int + 1))) =~= entries_u8(entries_of(items@.take(i as int))).push((items@[i as int].0@, items@[i as int].1 as u8)));
                }
                i = i + 1;
            }
            proof {
                assert(items@.take(items@.len() as int) =~= items@);
            }
            Some(SOMTypeWrapper::EnumU8(SOMu8Enum::from(list).with_meta(SOMTypeMeta::from(name, description))))
        },
        FibexPrimitive::Uint16 => {
            let items = enum_items(&datatype.variants, 0xffff);
            let mut list: Vec<SOMEnum<u16>> = Vec::new();
            let mut i: usize = 0;
            while i < items.len()
                invariant
                    i <= items@.len(),
                    forall|j: int| 0 <= j < items@.len() ==> (#[trigger] items@[j]).1 <= 0xffff,
                    items_view(list@) == entries_u16(entries_of(items@.take(i as int))),
                decreases items@.len() - i,
            {
                let ghost before = list@;
                list.push(SOMEnum::from(String::from_str(items[i].0.as_str()), items[i].1 as u16));
                proof {
                    assert(entries_of(items@.take(i as int + 1)) =~= entries_of(items@.take(i as int)).push((items@[i as int].0@, items@[i as int].1)));
                    assert(items_view(list@) =~= items_view(before).push((items@[i as int].0@, items@[i as int].1 as u16)));
                    assert(entries_u16(entries_of(items@.take(i as int + 1))) =~= entries_u16(entries_of(items@.take(i as int))).push((items@[i as int].0@, items@[i as int].1 as u16)));
                }
                i = i + 1;
            }
            proof {
                assert(items@.take(items@.len() as int) =~= items@);
            }
            Some(SOMTypeWrapper::EnumU16(SOMu16Enum::from(endian, list).with_meta(SOMTypeMeta::from(name, description))))
        },
        FibexPrimitive::Uint32 => {
            let items = enum_items(&datatype.variants, 0xffff_ffff);
            let mut list: Vec<SOMEnum<u32>> = Vec::new();
            let mut i: usize = 0;
            while i < items.len()
                invariant
                    i <= items@.len(),
                    forall|j: int| 0 <= j < items@.len() ==> (#[trigger] items@[j]).1 <= 0xffff_ffff,
                    items_view(list@) == entries_u32(entries_of(items@.take(i as int))),
                decreases items@.len() - i,
            {
                let ghost before = list@;
                list.push(SOMEnum::from(String::from_str(items[i].0.as_str()), items[i].1 as u32));
                proof {
                    assert(entries_of(items@.take(i as int + 1)) =~= entries_of(items@.take(i as int)).push((items@[i as int].0@, items@[i as int].1)));
                    assert(items_view(list@) =~= items_view(before).push((items@[i as int].0@, items@[i as int].1 as u32)));
                    assert(entries_u32(entries_of(items@.take(i as int + 1))) =~= entries_u32(entries_of(items@.take(i as int))).push((items@[i as int].0@, items@[i as int].1 as u32)));
                }
                i = i + 1;
            }
            proof {
                assert(items@.take(items@.len() as int) =~= items@);
            }
            Some(SOMTypeWrapper::EnumU32(SOMu32Enum::from(endian, list).with_meta(SOMTypeMeta::from(name, description))))
        },
        FibexPrimitive::Uint64 => {
            let items = enum_items(&datatype.variants, 0xffff_ffff_ffff_ffff);
            let mut list: Vec<SOMEnum<u64>> = Vec::new();
            let mut i: usize = 0;
            while i < items.len()
                invariant
                    i <= items@.len(),
                    items_view(list@) == entries_of(items@.take(i as int)),
                decreases items@.len() - i,
            {
                let ghost before = list@;
                list.push(SOMEnum::from(String::from_str(items[i].0.as_str()), items[i].1));
                proof {
                    assert(entries_of(items@.take(i as int + 1)) =~= entries_of(items@.take(i as int)).push((items@[i as int].0@, items@[i as int].1)));
                    assert(items_view(list@) =~= items_view(before).push((items@[i as int].0@, items@[i as int].1)));
                }
                i = i + 1;
            }
            proof {
                assert(items@.take(items@.len() as int) =~= items@);
            }
            Some(SOMTypeWrapper::EnumU64(SOMu64Enum::from(endian, list).with_meta(SOMTypeMeta::from(name, description))))
        },
        _ => None,
    }
}

/// The encoding of a string in byte order `endian`, where it is known.
pub open spec fn string_encoding_of(e: FibexStringEncoding, endian: SOMEndian) -> Option<SOMStringEncoding> {
    match e {
        FibexStringEncoding::UTF8 => Some(SOMStringEncoding::Utf8),
        FibexStringEncoding::UTF16 => Some(
            match endian {
                SOMEndian::Big => SOMStringEncoding::Utf16Be,
                SOMEndian::Little => SOMStringEncoding::Utf16Le,
            },
        ),
        FibexStringEncoding::Unknown => None,
    }
}

/// What surrounds the text of a string.
pub open spec fn string_format_of(has_bom: bool, has_termination: bool) -> SOMStringFormat {
    match (has_bom, has_termination) {
        (false, false) => SOMStringFormat::Plain,
        (true, false) => SOMStringFormat::WithBOM,
        (false, true) => SOMStringFormat::WithTermination,
        (true, true) => SOMStringFormat::WithBOMandTermination,
    }
}

/// The minimum length of a string: from the declaration's minimum bit
/// length, else from the coding.
pub open spec fn string_min(s: FibexString, min_bit_length: Option<usize>) -> usize {
    match min_bit_length {
        Some(v) => (v / 8) as usize,
        None => match s.min_length {
            Some(v) => v,
            None => 0,
        },
    }
}

/// The maximum length of a string: from the declaration's bit length or
/// maximum bit length, else from the coding's bit length or maximum length.
pub open spec fn string_max(s: FibexString, bit_length: Option<usize>, max_bit_length: Option<usize>) -> usize {
    match bit_length {
        Some(v) => (v / 8) as usize,
        None => match max_bit_length {
            Some(v) => (v / 8) as usize,
            None => match s.bit_length {
                Some(v) => (v / 8) as usize,
                None => match s.max_length {
                    Some(v) => v,
                    None => 0,
                },
            },
        },
    }
}

/// The string type of a data type, shown with `name` and `desc`: of
/// dynamic length with a length field of `lengthfield` bytes where the
/// data type says so, else of fixed length.
pub open spec fn string_built(
    s: FibexString,
    endian: SOMEndian,
    lengthfield: usize,
    bit_length: Option<usize>,
    min_bit_length: Option<usize>,
    max_bit_length: Option<usize>,
    name: Seq<char>,
    desc: Seq<char>,
    w: SOMTypeWrapper,
) -> bool {
    &&& string_encoding_of(s.encoding, endian) is Some
    &&& w matches SOMTypeWrapper::String(x) && {
        let m = x.spec_model();
        &&& m.encoding == string_encoding_of(s.encoding, endian)->0
        &&& m.format == string_format_of(s.has_bom, s.has_termination)
        &&& m.value.len() == 0
        &&& meta_is(m.meta, name, desc)
        &&& if s.is_dynamic {
            &&& m.lengthfield == lengthfield_of(lengthfield)
            &&& m.min == string_min(s, min_bit_length)
            &&& m.max == string_max(s, bit_length, max_bit_length)
        } else {
            &&& m.lengthfield == SOMLengthField::NoField
            &&& m.min == string_max(s, bit_length, max_bit_length)
            &&& m.max == string_max(s, bit_length, max_bit_length)
        }
    }
}

/// The string type of a data type, where its encoding is known.
pub fn get_string_type(
    name: String,
    description: String,
    datatype: &FibexString,
    endian: SOMEndian,
    lengthfield: usize,
    bit_length: Option<usize>,
    min_bit_length: Option<usize>,
    max_bit_length: Option<usize>,
) -> (r: Option<SOMTypeWrapper>)
    ensures
        string_encoding_of(datatype.encoding, endian) is Some ==> (r matches Some(w) && string_built(*datatype, endian, lengthfield, bit_length, min_bit_length, max_bit_length, name@, description@, w)),
        string_encoding_of(datatype.encoding, endian) is None ==> r is None,
{
    let encoding = match datatype.encoding {
        FibexStringEncoding::UTF8 => SOMStringEncoding::Utf8,
        FibexStringEncoding::UTF16 => match endian {
            SOMEndian::Big => SOMStringEncoding::Utf16Be,
            SOMEndian::Little => SOMStringEncoding::Utf16Le,
        },
        _ => {
            return None;
        },
    };
    let format = match (datatype.has_bom, datatype.has_termination) {
        (false, false) => SOMStringFormat::Plain,
        (true, false) => SOMStringFormat::WithBOM,
        (false, true) => SOMStringFormat::WithTermination,
        (true, true) => SOMStringFormat::WithBOMandTermination,
    };
    let min = match min_bit_length {
        Some(value) => value / 8,
        None => match datatype.min_length {
            Some(v) => v,
            None => 0,
        },
    };
    let max = match bit_length {
        Some(value) => value / 8,
        None => match max_bit_length {
            Some(value) => value / 8,
            None => match datatype.bit_length {
                Some(value) => value / 8,
                None => match datatype.max_length {
                    Some(v) => v,
                    None => 0,
                },
            },
        },
    };
    if datatype.is_dynamic {
        Some(SOMTypeWrapper::String(SOMString::dynamic(get_length_field(lengthfield), encoding, format, min, max).with_meta(SOMTypeMeta::from(name, description))))
    } else {
        Some(SOMTypeWrapper::String(SOMString::fixed(encoding, format, max).with_meta(SOMTypeMeta::from(name, description))))
    }
}

/// A value of primitive type `p` that holds nothing yet, in byte order
/// `endian` where the type has one, shown with `name` and `desc`.
pub open spec fn leaf_built(p: FibexPrimitive, endian: SOMEndian, name: Seq<char>, desc: Seq<char>, w: SOMTypeWrapper) -> bool {
    match p {
        FibexPrimitive::Bool => w matches SOMTypeWrapper::Bool(x) && x.value is None && meta_is(x.meta, name, desc),
        FibexPrimitive::Uint8 => w matches SOMTypeWrapper::U8(x) && x.value is None && meta_is(x.meta, name, desc),
        FibexPrimitive::Int8 => w matches SOMTypeWrapper::I8(x) && x.value is None && meta_is(x.meta, name, desc),
        FibexPrimitive::Uint16 => w matches SOMTypeWrapper::U16(x) && x.primitive.value is None && x.endian == endian && meta_is(x.primitive.meta, name, desc),
        FibexPrimitive::Int16 => w matches SOMTypeWrapper::I16(x) && x.primitive.value is None && x.endian == endian && meta_is(x.primitive.meta, name, desc),
        FibexPrimitive::Uint24 => w matches SOMTypeWrapper::U24(x) && x.primitive.value is None && x.endian == endian && meta_is(x.primitive.meta, name, desc),
        FibexPrimitive::Int24 => w matches SOMTypeWrapper::I24(x) && x.primitive.value is None && x.endian == endian && meta_is(x.primitive.meta, name, desc),
        FibexPrimitive::Uint32 => w matches SOMTypeWrapper::U32(x) && x.primitive.value is None && x.endian == endian && meta_is(x.primitive.meta, name, desc),
        FibexPrimitive::Int32 => w matches SOMTypeWrapper::I32(x) && x.primitive.value is None && x.endian == endian && meta_is(x.primitive.meta, name, desc),
        FibexPrimitive::Uint64 => w matches SOMTypeWrapper::U64(x) && x.primitive.value is None && x.endian == endian && meta_is(x.primitive.meta, name, desc),
        FibexPrimitive::Int64 => w matches SOMTypeWrapper::I64(x) && x.primitive.value is None && x.endian == endian && meta_is(x.primitive.meta, name, desc),
        FibexPrimitive::Float32 => w matches SOMTypeWrapper::F32(x) && x.primitive.value is None && x.endian == endian && meta_is(x.primitive.meta, name, desc),
        FibexPrimitive::Float64 => w matches SOMTypeWrapper::F64(x) && x.primitive.value is None && x.endian == endian && meta_is(x.primitive.meta, name, desc),
        FibexPrimitive::Unknown => false,
    }
}

/// Whether `w` is a value of primitive type `p`.
pub open spec fn is_leaf_of(p: FibexPrimitive, w: SOMTypeWrapper) -> bool {
    match p {
        FibexPrimitive::Bool => w is Bool,
        FibexPrimitive::Uint8 => w is U8,
        FibexPrimitive::Int8 => w is I8,
        FibexPrimitive::Uint16 => w is U16,
        FibexPrimitive::Int16 => w is I16,
        FibexPrimitive::Uint24 => w is U24,
        FibexPrimitive::Int24 => w is I24,
        FibexPrimitive::Uint32 => w is U32,
        FibexPrimitive::Int32 => w is I32,
        FibexPrimitive::Uint64 => w is U64,
        FibexPrimitive::Int64 => w is I64,
        FibexPrimitive::Float32 => w is F32,
        FibexPrimitive::Float64 => w is F64,
        FibexPrimitive::Unknown => false,
    }
}

/// Whether `w` is an array of values of primitive type `p`.
pub open spec fn is_array_of(p: FibexPrimitive, w: SOMTypeWrapper) -> bool {
    match p {
        FibexPrimitive::Bool => w is ArrayBool,
        FibexPrimitive::Uint8 => w is ArrayU8,
        FibexPrimitive::Int8 => w is ArrayI8,
        FibexPrimitive::Uint16 => w is ArrayU16,
        FibexPrimitive::Int16 => w is ArrayI16,
        FibexPrimitive::Uint24 => w is ArrayU24,
        FibexPrimitive::Int24 => w is ArrayI24,
        FibexPrimitive::Uint32 => w is ArrayU32,
        FibexPrimitive::Int32 => w is ArrayI32,
        FibexPrimitive::Uint64 => w is ArrayU64,
        FibexPrimitive::Int64 => w is ArrayI64,
        FibexPrimitive::Float32 => w is ArrayF23,
        FibexPrimitive::Float64 => w is ArrayF64,
        FibexPrimitive::Unknown => false,
    }
}

/// An empty array of values of primitive type `p`, with the length field
/// `lf` and the bounds of `dim`, shown with `name` and `desc`.
pub open spec fn prim_array_built(p: FibexPrimitive, lf: SOMLengthField, dim: FibexArrayDimension, name: Seq<char>, desc: Seq<char>, w: SOMTypeWrapper) -> bool {
    match p {
        FibexPrimitive::Bool => w matches SOMTypeWrapper::ArrayBool(x) && empty_array_is(x, lf, dim, name, desc),
        FibexPrimitive::Uint8 => w matches SOMTypeWrapper::ArrayU8(x) && empty_array_is(x, lf, dim, name, desc),
        FibexPrimitive::Int8 => w matches SOMTypeWrapper::ArrayI8(x) && empty_array_is(x, lf, dim, name, desc),
        FibexPrimitive::Uint16 => w matches SOMTypeWrapper::ArrayU16(x) && empty_array_is(x, lf, dim, name, desc),
        FibexPrimitive::Int16 => w matches SOMTypeWrapper::ArrayI16(x) && empty_array_is(x, lf, dim, name, desc),
        FibexPrimitive::Uint24 => w matches SOMTypeWrapper::ArrayU24(x) && empty_array_is(x, lf, dim, name, desc),
        FibexPrimitive::Int24 => w matches SOMTypeWrapper::ArrayI24(x) && empty_array_is(x, lf, dim, name, desc),
        FibexPrimitive::Uint32 => w matches SOMTypeWrapper::ArrayU32(x) && empty_array_is(x, lf, dim, name, desc),
        FibexPrimitive::Int32 => w matches SOMTypeWrapper::ArrayI32(x) && empty_array_is(x, lf, dim, name, desc),
        FibexPrimitive::Uint64 => w matches SOMTypeWrapper::ArrayU64(x) && empty_array_is(x, lf, dim, name, desc),
        FibexPrimitive::Int64 => w matches SOMTypeWrapper::ArrayI64(x) && empty_array_is(x, lf, dim, name, desc),
        FibexPrimitive::Float32 => w matches SOMTypeWrapper::ArrayF23(x) && empty_array_is(x, lf, dim, name, desc),
        FibexPrimitive::Float64 => w matches SOMTypeWrapper::ArrayF64(x) && empty_array_is(x, lf, dim, name, desc),
        FibexPrimitive::Unknown => false,
    }
}

/// The value of a primitive type, holding nothing yet.
pub fn get_primitive_type(name: String, description: String, datatype: FibexPrimitive, endian: SOMEndian) -> (r: Option<SOMTypeWrapper>)
    ensures
        datatype == FibexPrimitive::Unknown ==> r is None,
        datatype != FibexPrimitive::Unknown ==> (r matches Some(w) && leaf_built(datatype, endian, name@, description@, w)),
{
    match datatype {
        FibexPrimitive::Bool => Some(SOMTypeWrapper::Bool(SOMBool::empty().with_meta(SOMTypeMeta::from(name, description)))),
        FibexPrimitive::Uint8 => Some(SOMTypeWrapper::U8(SOMu8::empty().with_meta(SOMTypeMeta::from(name, description)))),
        FibexPrimitive::Int8 => Some(SOMTypeWrapper::I8(SOMi8::empty().with_meta(SOMTypeMeta::from(name, description)))),
        FibexPrimitive::Uint16 => Some(SOMTypeWrapper::U16(SOMu16::empty(endian).with_meta(SOMTypeMeta::from(name, description)))),
        FibexPrimitive::Int16 => Some(SOMTypeWrapper::I16(SOMi16::empty(endian).with_meta(SOMTypeMeta::from(name, description)))),
        FibexPrimitive::Uint24 => Some(SOMTypeWrapper::U24(SOMu24::empty(endian).with_meta(SOMTypeMeta::from(name, description)))),
        FibexPrimitive::Int24 => Some(SOMTypeWrapper::I24(SOMi24::empty(endian).with_meta(SOMTypeMeta::from(name, description)))),
        FibexPrimitive::Uint32 => Some(SOMTypeWrapper::U32(SOMu32::empty(endian).with_meta(SOMTypeMeta::from(name, description)))),
        FibexPrimitive::Int32 => Some(SOMTypeWrapper::I32(SOMi32::empty(endian).with_meta(SOMTypeMeta::from(name, description)))),
        FibexPrimitive::Uint64 => Some(SOMTypeWrapper::U64(SOMu64::empty(endian).with_meta(SOMTypeMeta::from(name, description)))),
        FibexPrimitive::Int64 => Some(SOMTypeWrapper::I64(SOMi64::empty(endian).with_meta(SOMTypeMeta::from(name, description)))),
        FibexPrimitive::Float32 => Some(SOMTypeWrapper::F32(SOMf32::empty(endian).with_meta(SOMTypeMeta::from(name, description)))),
        FibexPrimitive::Float64 => Some(SOMTypeWrapper::F64(SOMf64::empty(endian).with_meta(SOMTypeMeta::from(name, description)))),
        FibexPrimitive::Unknown => None,
    }
}

/// An empty array of a primitive type, where `element` is a value of that
/// type.
pub fn get_primitive_array_type(
    name: String,
    description: String,
    element: SOMTypeWrapper,
    datatype: FibexPrimitive,
    dimension: FibexArrayDimension,
    lengthfield: SOMLengthField,
) -> (r: Option<SOMTypeWrapper>)
    ensures
        is_leaf_of(datatype, element) ==> (r matches Some(w) && prim_array_built(datatype, lengthfield, dimension, name@, description@, w)),
        r matches Some(w) ==> template_is(w, element),
        !is_leaf_of(datatype, element) ==> r is None,
{
    match (datatype, element) {
        (FibexPrimitive::Bool, SOMTypeWrapper::Bool(v)) => Some(SOMTypeWrapper::ArrayBool(SOMBoolArray::dynamic(lengthfield, dimension.min, dimension.max).with_template(v).with_meta(SOMTypeMeta::from(name, description)))),
        (FibexPrimitive::Uint8, SOMTypeWrapper::U8(v)) => Some(SOMTypeWrapper::ArrayU8(SOMu8Array::dynamic(lengthfield, dimension.min, dimension.max).with_template(v).with_meta(SOMTypeMeta::from(name, description)))),
        (FibexPrimitive::Int8, SOMTypeWrapper::I8(v)) => Some(SOMTypeWrapper::ArrayI8(SOMi8Array::dynamic(lengthfield, dimension.min, dimension.max).with_template(v).with_meta(SOMTypeMeta::from(name, description)))),
        (FibexPrimitive::Uint16, SOMTypeWrapper::U16(v)) => Some(SOMTypeWrapper::ArrayU16(SOMu16Array::dynamic(lengthfield, dimension.min, dimension.max).with_template(v).with_meta(SOMTypeMeta::from(name, description)))),
        (FibexPrimitive::Int16, SOMTypeWrapper::I16(v)) => Some(SOMTypeWrapper::ArrayI16(SOMi16Array::dynamic(lengthfield, dimension.min, dimension.max).with_template(v).with_meta(SOMTypeMeta::from(name, description)))),
        (FibexPrimitive::Uint24, SOMTypeWrapper::U24(v)) => Some(SOMTypeWrapper::ArrayU24(SOMu24Array::dynamic(lengthfield, dimension.min, dimension.max).with_template(v).with_meta(SOMTypeMeta::from(name, description)))),
        (FibexPrimitive::Int24, SOMTypeWrapper::I24(v)) => Some(SOMTypeWrapper::ArrayI24(SOMi24Array::dynamic(lengthfield, dimension.min, dimension.max).with_template(v).with_meta(SOMTypeMeta::from(name, description)))),
        (FibexPrimitive::Uint32, SOMTypeWrapper::U32(v)) => Some(SOMTypeWrapper::ArrayU32(SOMu32Array::dynamic(lengthfield, dimension.min, dimension.max).with_template(v).with_meta(SOMTypeMeta::from(name, description)))),
        (FibexPrimitive::Int32, SOMTypeWrapper::I32(v)) => Some(SOMTypeWrapper::ArrayI32(SOMi32Array::dynamic(lengthfield, dimension.min, dimension.max).with_template(v).with_meta(SOMTypeMeta::from(name, description)))),
        (FibexPrimitive::Uint64, SOMTypeWrapper::U64(v)) => Some(SOMTypeWrapper::ArrayU64(SOMu64Array::dynamic(lengthfield, dimension.min, dimension.max).with_template(v).with_meta(SOMTypeMeta::from(name, description)))),
        (FibexPrimitive::Int64, SOMTypeWrapper::I64(v)) => Some(SOMTypeWrapper::ArrayI64(SOMi64Array::dynamic(lengthfield, dimension.min, dimension.max).with_template(v).with_meta(SOMTypeMeta::from(name, description)))),
        (FibexPrimitive::Float32, SOMTypeWrapper::F32(v)) => Some(SOMTypeWrapper::ArrayF23(SOMf32Array::dynamic(lengthfield, dimension.min, dimension.max).with_template(v).with_meta(SOMTypeMeta::from(name, description)))),
        (FibexPrimitive::Float64, SOMTypeWrapper::F64(v)) => Some(SOMTypeWrapper::ArrayF64(SOMf64Array::dynamic(lengthfield, dimension.min, dimension.max).with_template(v).with_meta(SOMTypeMeta::from(name, description)))),
        _ => None,
    }
}

/// An empty array of arrays of a primitive type, where `element` is an
/// array of that type.
pub fn get_multidim_primitive_array_type(
    name: String,
    description: String,
    element: SOMTypeWrapper,
    datatype: FibexPrimitive,
    dimension: FibexArrayDimension,
    lengthfield: SOMLengthField,
) -> (r: Option<SOMTypeWrapper>)
    ensures
        is_array_of(datatype, element) ==> (r matches Some(SOMTypeWrapper::Array(a)) && empty_array_is(a, lengthfield, dimension, name@, description@)),
        r matches Some(w) ==> template_is(w, element),
        !is_array_of(datatype, element) ==> r is None,
{
    match (datatype, &element) {
        (FibexPrimitive::Bool, SOMTypeWrapper::ArrayBool(_)) => Some(array_of_any(name, description, dimension, lengthfield, element)),
        (FibexPrimitive::Uint8, SOMTypeWrapper::ArrayU8(_)) => Some(array_of_any(name, description, dimension, lengthfield, element)),
        (FibexPrimitive::Int8, SOMTypeWrapper::ArrayI8(_)) => Some(array_of_any(name, description, dimension, lengthfield, element)),
        (FibexPrimitive::Uint16, SOMTypeWrapper::ArrayU16(_)) => Some(array_of_any(name, description, dimension, lengthfield, element)),
        (FibexPrimitive::Int16, SOMTypeWrapper::ArrayI16(_)) => Some(array_of_any(name, description, dimension, lengthfield, element)),
        (FibexPrimitive::Uint24, SOMTypeWrapper::ArrayU24(_)) => Some(array_of_any(name, description, dimension, lengthfield, element)),
        (FibexPrimitive::Int24, SOMTypeWrapper::ArrayI24(_)) => Some(array_of_any(name, description, dimension, lengthfield, element)),
        (FibexPrimitive::Uint32, SOMTypeWrapper::ArrayU32(_)) => Some(array_of_any(name, description, dimension, lengthfield, element)),
        (FibexPrimitive::Int32, SOMTypeWrapper::ArrayI32(_)) => Some(array_of_any(name, description, dimension, lengthfield, element)),
        (FibexPrimitive::Uint64, SOMTypeWrapper::ArrayU64(_)) => Some(array_of_any(name, description, dimension, lengthfield, element)),
        (FibexPrimitive::Int64, SOMTypeWrapper::ArrayI64(_)) => Some(array_of_any(name, description, dimension, lengthfield, element)),
        (FibexPrimitive::Float32, SOMTypeWrapper::ArrayF23(_)) => Some(array_of_any(name, description, dimension, lengthfield, element)),
        (FibexPrimitive::Float64, SOMTypeWrapper::ArrayF64(_)) => Some(array_of_any(name, description, dimension, lengthfield, element)),
        _ => None,
    }
}

/// The member of a structure for an array of a primitive type: the array,
/// where it is one of that type.
pub fn get_primitive_array_struct_member(array: SOMTypeWrapper, datatype: FibexPrimitive) -> (r: Option<SOMTypeWrapper>)
    ensures
        is_array_of(datatype, array) ==> r == Some(array),
        !is_array_of(datatype, array) ==> r is None,
{
    match (datatype, &array) {
        (FibexPrimitive::Bool, SOMTypeWrapper::ArrayBool(_)) => Some(array),
        (FibexPrimitive::Uint8, SOMTypeWrapper::ArrayU8(_)) => Some(array),
        (FibexPrimitive::Int8, SOMTypeWrapper::ArrayI8(_)) => Some(array),
        (FibexPrimitive::Uint16, SOMTypeWrapper::ArrayU16(_)) => Some(array),
        (FibexPrimitive::Int16, SOMTypeWrapper::ArrayI16(_)) => Some(array),
        (FibexPrimitive::Uint24, SOMTypeWrapper::ArrayU24(_)) => Some(array),
        (FibexPrimitive::Int24, SOMTypeWrapper::ArrayI24(_)) => Some(array),
        (FibexPrimitive::Uint32, SOMTypeWrapper::ArrayU32(_)) => Some(array),
        (FibexPrimitive::Int32, SOMTypeWrapper::ArrayI32(_)) => Some(array),
        (FibexPrimitive::Uint64, SOMTypeWrapper::ArrayU64(_)) => Some(array),
        (FibexPrimitive::Int64, SOMTypeWrapper::ArrayI64(_)) => Some(array),
        (FibexPrimitive::Float32, SOMTypeWrapper::ArrayF23(_)) => Some(array),
        (FibexPrimitive::Float64, SOMTypeWrapper::ArrayF64(_)) => Some(array),
        _ => None,
    }
}

/// The member of a structure for a value of a primitive type: the value,
/// where it is one of that type.
pub fn get_primitive_struct_member(member: SOMTypeWrapper, datatype: FibexPrimitive) -> (r: Option<SOMTypeWrapper>)
    ensures
        is_leaf_of(datatype, member) ==> r == Some(member),
        !is_leaf_of(datatype, member) ==> r is None,
{
    match (datatype, &member) {
        (FibexPrimitive::Bool, SOMTypeWrapper::Bool(_)) => Some(member),
        (FibexPrimitive::Uint8, SOMTypeWrapper::U8(_)) => Some(member),
        (FibexPrimitive::Int8, SOMTypeWrapper::I8(_)) => Some(member),
        (FibexPrimitive::Uint16, SOMTypeWrapper::U16(_)) => Some(member),
        (FibexPrimitive::Int16, SOMTypeWrapper::I16(_)) => Some(member),
        (FibexPrimitive::Uint24, SOMTypeWrapper::U24(_)) => Some(member),
        (FibexPrimitive::Int24, SOMTypeWrapper::I24(_)) => Some(member),
        (FibexPrimitive::Uint32, SOMTypeWrapper::U32(_)) => Some(member),
        (FibexPrimitive::Int32, SOMTypeWrapper::I32(_)) => Some(member),
        (FibexPrimitive::Uint64, SOMTypeWrapper::U64(_)) => Some(member),
        (FibexPrimitive::Int64, SOMTypeWrapper::I64(_)) => Some(member),
        (FibexPrimitive::Float32, SOMTypeWrapper::F32(_)) => Some(member),
        (FibexPrimitive::Float64, SOMTypeWrapper::F64(_)) => Some(member),
        _ => None,
    }
}

/// The dimensions of the array that a declaration declares.
pub open spec fn dims_of(d: FibexTypeDeclaration) -> Seq<FibexArrayDimension> {
    array_dimensions(d.attributes@)
}

/// The number of dimensions left once the first `skip` are taken.
pub open spec fn dims_left(d: FibexTypeDeclaration, skip: nat) -> nat {
    if dims_of(d).len() > skip {
        (dims_of(d).len() - skip) as nat
    } else {
        0
    }
}

/// Whether a payload type is built for the declaration `d` with its first
/// `skip` array dimensions taken, in `fuel` levels of nesting: where it
/// refers to a type of the table, a primitive or string of known kind, an
/// enumeration of a supported primitive type, or a structure; arrays of
/// primitives of one or two dimensions, of other types of one.
pub open spec fn type_exists(types: Seq<FibexTypeInstance>, d: FibexTypeDeclaration, skip: nat, fuel: nat) -> bool {
    if fuel == 0 {
        false
    } else {
        match d.type_ref {
            Some(k) => k < types.len() && {
                let n = dims_of(d).len();
                if n > skip {
                    match types[k as int].datatype {
                        FibexDatatype::Primitive(p) => p != FibexPrimitive::Unknown && (n == skip + 1
                            || n == skip + 2),
                        FibexDatatype::Struct(_) => n == skip + 1,
                        FibexDatatype::Enum(e) => n == skip + 1 && enum_supported(e.primitive),
                        FibexDatatype::String(s) => n == skip + 1 && s.encoding
                            != FibexStringEncoding::Unknown,
                        FibexDatatype::Unknown => false,
                    }
                } else {
                    match types[k as int].datatype {
                        FibexDatatype::Primitive(p) => p != FibexPrimitive::Unknown,
                        FibexDatatype::Struct(_) => true,
                        FibexDatatype::Enum(e) => enum_supported(e.primitive),
                        FibexDatatype::String(s) => s.encoding != FibexStringEncoding::Unknown,
                        FibexDatatype::Unknown => false,
                    }
                }
            },
            None => false,
        }
    }
}

/// The length field of the array of `d` at dimension `dim`: that of the
/// declaration where the dimension is dynamic, else none.
pub open spec fn array_lengthfield(d: FibexTypeDeclaration, dim: FibexArrayDimension) -> SOMLengthField {
    if dim.min != dim.max {
        lengthfield_of(bytes_or_four(attr_number(d.attributes@, array_length_field_attr())))
    } else {
        SOMLengthField::NoField
    }
}

/// The payload type `w` built for the declaration `d` with its first `skip`
/// array dimensions taken, shown with the name `name` and the name of the
/// type as description: an empty array for an array; a value that holds
/// nothing yet for a primitive, enumeration or string, in the byte order of
/// the declaration; a structure of the members built for its members.
pub open spec fn type_built(
    types: Seq<FibexTypeInstance>,
    d: FibexTypeDeclaration,
    skip: nat,
    name: Seq<char>,
    fuel: nat,
    w: SOMTypeWrapper,
) -> bool
    decreases fuel, 0nat,
{
    if fuel == 0 {
        false
    } else {
        match d.type_ref {
            Some(k) => k < types.len() && {
                let t = types[k as int];
                let desc = t.name@;
                let n = dims_of(d).len();
                if n > skip {
                    let dim = dims_of(d)[skip as int];
                    let lf = array_lengthfield(d, dim);
                    match t.datatype {
                        FibexDatatype::Primitive(p) => if n == skip + 1 {
                            prim_array_built(p, lf, dim, name, desc, w)
                        } else {
                            w matches SOMTypeWrapper::Array(a) && empty_array_is(a, lf, dim, name, desc)
                        },
                        _ => w matches SOMTypeWrapper::Array(a) && empty_array_is(a, lf, dim, name, desc),
                    }
                } else {
                    let endian = endian_of(high_low_byte_order(d.attributes@));
                    match t.datatype {
                        FibexDatatype::Primitive(p) => leaf_built(p, endian, name, desc, w),
                        FibexDatatype::Struct(s) => w matches SOMTypeWrapper::Struct(x) && meta_is(
                            x.spec_meta(),
                            name,
                            desc,
                        ) && members_built(types, s.members@, (fuel - 1) as nat, x.spec_members()),
                        FibexDatatype::Enum(e) => enum_built(e, endian, name, desc, w),
                        FibexDatatype::String(s) => string_built(
                            s,
                            endian,
                            bytes_or_four(attr_number(d.attributes@, length_field_attr())),
                            attr_number(d.attributes@, bit_length_attr()),
                            attr_number(d.attributes@, min_bit_length_attr()),
                            attr_number(d.attributes@, max_bit_length_attr()),
                            name,
                            desc,
                            w,
                        ),
                        FibexDatatype::Unknown => false,
                    }
                }
            },
            None => false,
        }
    }
}

/// The members `out` built for the member declarations `members`: one for
/// each declaration that a payload type is built for, in order.
pub open spec fn members_built(
    types: Seq<FibexTypeInstance>,
    members: Seq<FibexTypeDeclaration>,
    fuel: nat,
    out: Seq<SOMTypeWrapper>,
) -> bool
    decreases fuel, members.len(),
{
    if members.len() == 0 {
        out.len() == 0
    } else if type_exists(types, members.last(), 0, fuel) {
        &&& out.len() > 0
        &&& type_built(types, members.last(), 0, members.last().name@, fuel, out.last())
        &&& members_built(types, members.drop_last(), fuel, out.drop_last())
    } else {
        members_built(types, members.drop_last(), fuel, out)
    }
}

/// The dimension `skip` of an array that has more than `skip` is the one
/// that `get_array_dimension(skip)` finds.
proof fn lemma_dimension_at(d: FibexTypeDeclaration, skip: nat)
    requires
        dims_of(d).len() > skip,
    ensures
        array_dimension(d.attributes@, skip) == Some(dims_of(d)[skip as int]),
{
    let a = d.attributes@;
    let k = first_where(a, array_attr(), 0);
    lemma_first_where(a, array_attr(), 0);
    assert forall|j: int| 0 <= j < k implies !array_attr_with(skip)(#[trigger] a[j]) by {
        assert(!array_attr()(a[j]));
    }
    lemma_first_where_is(a, array_attr_with(skip), 0, k);
}

/// The payload type of the declaration `d` with its first `skip` array
/// dimensions taken, shown with `name`; none where none is built, or where
/// the nesting is deeper than `fuel`.
pub fn get_type(
    types: &Vec<FibexTypeInstance>,
    d: &FibexTypeDeclaration,
    skip: usize,
    name: &String,
    fuel: usize,
) -> (r: Option<SOMTypeWrapper>)
    ensures
        r is Some <==> type_exists(types@, *d, skip as nat, fuel as nat),
        r matches Some(w) ==> type_built(types@, *d, skip as nat, name@, fuel as nat, w),
    decreases fuel, dims_left(*d, skip as nat), 1nat,
{
    if fuel == 0 {
        return None;
    }
    let n = d.num_array_dimensions();
    if n > skip {
        return get_array_type(types, d, skip, name, fuel);
    }
    let k = match d.type_ref {
        Some(k) => k,
        None => {
            return None;
        },
    };
    if k >= types.len() {
        return None;
    }
    let t = &types[k];
    let description = String::from_str(t.name.as_str());
    let name = String::from_str(name.as_str());
    match &t.datatype {
        FibexDatatype::Primitive(p) => {
            let endian = get_type_endian(d.is_high_low_byte_order());
            get_primitive_type(name, description, *p, endian)
        },
        FibexDatatype::Struct(s) => Some(get_struct_type(types, &s.members, name, description, fuel)),
        FibexDatatype::Enum(e) => {
            let endian = get_type_endian(d.is_high_low_byte_order());
            get_enum_type(name, description, e, endian)
        },
        FibexDatatype::String(s) => {
            let endian = get_type_endian(d.is_high_low_byte_order());
            get_string_type(
                name,
                description,
                s,
                endian,
                d.get_length_field_size(),
                d.get_bit_length(),
                d.get_min_bit_length(),
                d.get_max_bit_length(),
            )
        },
        FibexDatatype::Unknown => None,
    }
}

/// The array type of the declaration `d` with its first `skip` dimensions
/// taken, shown with `name`: built where the element type, that of the
/// next dimension, is built and fits the data type.
pub fn get_array_type(
    types: &Vec<FibexTypeInstance>,
    d: &FibexTypeDeclaration,
    skip: usize,
    name: &String,
    fuel: usize,
) -> (r: Option<SOMTypeWrapper>)
    ensures
        dims_of(*d).len() > skip ==> (r is Some <==> type_exists(types@, *d, skip as nat, fuel as nat)),
        r matches Some(w) ==> type_built(types@, *d, skip as nat, name@, fuel as nat, w),
        r matches Some(w) ==> exists|e: SOMTypeWrapper|
            type_built(types@, *d, skip as nat + 1, Seq::<char>::empty(), fuel as nat, e) && #[trigger] template_is(w, e),
        dims_of(*d).len() <= skip ==> r is None,
    decreases fuel, dims_left(*d, skip as nat), 0nat,
{
    if fuel == 0 || d.num_array_dimensions() <= skip {
        return None;
    }
    let n = d.num_array_dimensions();
    let multidim = n > skip + 1;
    proof {
        lemma_dimension_at(*d, skip as nat);
    }
    let dimension = match d.get_array_dimension(skip) {
        Some(dim) => *dim,
        None => {
            return None;
        },
    };
    let k = match d.type_ref {
        Some(k) => k,
        None => {
            return None;
        },
    };
    if k >= types.len() {
        return None;
    }
    let t = &types[k];
    let no_name = String::new();
    let element = match get_type(types, d, skip + 1, &no_name, fuel) {
        Some(e) => e,
        None => {
            return None;
        },
    };
    let lengthfield = if dimension.is_dynamic() {
        get_length_field(d.get_array_length_field_size())
    } else {
        SOMLengthField::NoField
    };
    let description = String::from_str(t.name.as_str());
    let name = String::from_str(name.as_str());
    match &t.datatype {
        FibexDatatype::Primitive(p) => {
            if multidim {
                get_multidim_primitive_array_type(name, description, element, *p, dimension, lengthfield)
            } else {
                get_primitive_array_type(name, description, element, *p, dimension, lengthfield)
            }
        },
        FibexDatatype::Struct(_) => if matches!(element, SOMTypeWrapper::Struct(_)) {
            Some(array_of_any(name, description, dimension, lengthfield, element))
        } else {
            None
        },
        FibexDatatype::Enum(_) => if matches!(element, SOMTypeWrapper::EnumU8(_)) || matches!(element, SOMTypeWrapper::EnumU16(_))
            || matches!(element, SOMTypeWrapper::EnumU32(_)) || matches!(element, SOMTypeWrapper::EnumU64(_)) {
            Some(array_of_any(name, description, dimension, lengthfield, element))
        } else {
            None
        },
        FibexDatatype::String(_) => if matches!(element, SOMTypeWrapper::String(_)) {
            Some(array_of_any(name, description, dimension, lengthfield, element))
        } else {
            None
        },
        FibexDatatype::Unknown => None,
    }
}

/// The structure of the member declarations `members`, shown with `name`
/// and `description`: the members built for them, those that are built.
pub fn get_struct_type(
    types: &Vec<FibexTypeInstance>,
    members: &Vec<FibexTypeDeclaration>,
    name: String,
    description: String,
    fuel: usize,
) -> (r: SOMTypeWrapper)
    requires
        fuel > 0,
    ensures
        r matches SOMTypeWrapper::Struct(x) && meta_is(x.spec_meta(), name@, description@)
            && members_built(types@, members@, (fuel - 1) as nat, x.spec_members()),
    decreases fuel, 0nat, 0nat,
{
    let mut elements: Vec<SOMTypeWrapper> = Vec::new();
    let mut i: usize = 0;
    while i < members.len()
        invariant
            i <= members@.len(),
            fuel > 0,
            members_built(types@, members@.take(i as int), (fuel - 1) as nat, elements@),
        decreases members@.len() - i,
    {
        let m = &members[i];
        proof {
            assert(members@.take(i as int + 1).drop_last() =~= members@.take(i as int));
            assert(members@.take(i as int + 1).last() == *m);
        }
        let k = match m.type_ref {
            Some(k) => k,
            None => {
                i = i + 1;
                continue;
            },
        };
        if k >= types.len() {
            i = i + 1;
            continue;
        }
        let member_type = match get_type(types, m, 0, &m.name, fuel - 1) {
            Some(w) => w,
            None => {
                i = i + 1;
                continue;
            },
        };
        let pushed: Option<SOMTypeWrapper> = if m.is_array() {
            match get_array_type(types, m, 0, &m.name, fuel - 1) {
                Some(array_type) => {
                    if m.is_multidim_array() {
                        match array_type {
                            SOMTypeWrapper::Array(_) => Some(array_type),
                            _ => None,
                        }
                    } else {
                        match &types[k].datatype {
                            FibexDatatype::Primitive(p) => get_primitive_array_struct_member(array_type, *p),
                            FibexDatatype::Unknown => None,
                            _ => match member_type {
                                SOMTypeWrapper::Array(_) => Some(member_type),
                                _ => None,
                            },
                        }
                    }
                },
                None => None,
            }
        } else {
            match &types[k].datatype {
                FibexDatatype::Primitive(p) => get_primitive_struct_member(member_type, *p),
                FibexDatatype::Struct(_) => match member_type {
                    SOMTypeWrapper::Struct(_) => Some(member_type),
                    _ => None,
                },
                FibexDatatype::Enum(_) => match member_type {
                    SOMTypeWrapper::EnumU8(_) => Some(member_type),
                    SOMTypeWrapper::EnumU16(_) => Some(member_type),
                    SOMTypeWrapper::EnumU32(_) => Some(member_type),
                    SOMTypeWrapper::EnumU64(_) => Some(member_type),
                    _ => None,
                },
                FibexDatatype::String(_) => match member_type {
                    SOMTypeWrapper::String(_) => Some(member_type),
                    _ => None,
                },
                FibexDatatype::Unknown => None,
            }
        };
        let ghost before = elements@;
        match pushed {
            Some(w) => {
                elements.push(w);
                proof {
                    assert(elements@.drop_last() =~= before);
                }
            },
            None => {},
        }
        i = i + 1;
    }
    proof {
        assert(members@.take(members@.len() as int) =~= members@);
    }
    SOMTypeWrapper::Struct(SOMStruct::from(elements).with_meta(SOMTypeMeta::from(name, description)))
}

/// Builds payload types from the declarations of a model.
pub struct FibexTypes;

/// The depth of nesting that the types of a table of `n` types are built
/// to: one more than the table has types, so that each chain of structures
/// that holds no cycle is built whole.
pub open spec fn build_fuel(n: nat) -> nat {
    if n < usize::MAX {
        n + 1
    } else {
        n
    }
}

/// The message of a declaration that no payload type is built for: its
/// identifier, its name and the identifier of the type it declares.
pub open spec fn unsupported_message(d: FibexTypeDeclaration) -> Seq<char> {
    "Unsupported type "@ + d.id@ + " ("@ + d.name@ + ") of "@ + d.id_ref@
}

impl FibexTypes {
    /// The payload type of the declaration `type_decl` of `model`, shown
    /// with the name of the declaration; the error where none is built.
    /// Nesting deeper than the number of types of the model (which only a
    /// cycle of structures reaches) builds none.
    pub fn build(model: &FibexModel, type_decl: &FibexTypeDeclaration) -> (r: Result<SOMTypeWrapper, FibexError>)
        ensures
            type_exists(model.types@, *type_decl, 0, build_fuel(model.types@.len())) ==> (r matches Ok(w)
                && type_built(model.types@, *type_decl, 0, type_decl.name@, build_fuel(model.types@.len()), w)),
            !type_exists(model.types@, *type_decl, 0, build_fuel(model.types@.len())) ==> (r matches Err(
                FibexError::Model(msg),
            ) && msg@ == unsupported_message(*type_decl)),
    {
        let fuel = if model.types.len() < usize::MAX { model.types.len() + 1 } else { model.types.len() };
        if let Some(result) = get_type(&model.types, type_decl, 0, &type_decl.name, fuel) {
            return Ok(result);
        }
        let mut msg = String::from_str("Unsupported type ");
        msg.append(type_decl.id.as_str());
        msg.append(" (");
        msg.append(type_decl.name.as_str());
        msg.append(") of ");
        msg.append(type_decl.id_ref.as_str());
        proof {
            reveal_strlit("Unsupported type ");
            reveal_strlit(" (");
            reveal_strlit(") of ");
        }
        Err(FibexError::Model(msg))
    }
}

} // verus!
