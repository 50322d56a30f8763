//! Tests of the text that payload values are shown as.

use someip::som::{SOMEndian, SOMLengthField, SOMTypeField, SOMTypeMeta};
use someip::som_enums::{SOMEnum, SOMu16Enum, SOMu8Enum};
use someip::som_primitives::{SOMBool, SOMu16, SOMu8};
use someip::som_strings::{SOMString, SOMStringEncoding, SOMStringFormat};
use someip::som_text::SOMText;
use someip::som_wrapper::{
    SOMArray, SOMArrayMember, SOMOptional, SOMOptionalMember, SOMStruct, SOMStructMember,
    SOMUnion, SOMUnionMember, SOMu8Array,
};

const TAB_SPACES: &str = "    ";


#[test]
fn test_primitives_output() {
    let mut obj = SOMu8::empty();
    assert_eq!("u8", obj.to_string());

    obj = obj.with_meta(SOMTypeMeta::empty());
    assert_eq!("u8", obj.to_string());

    obj = obj.with_meta(SOMTypeMeta::from(String::from("name"), String::from("")));

    assert_eq!("name", obj.to_string());

    obj = SOMu8::from(1u8);
    assert_eq!("u8 : 1", obj.to_string());

    obj = obj.with_meta(SOMTypeMeta::empty());
    assert_eq!("1", obj.to_string());

    obj = obj.with_meta(SOMTypeMeta::from(
        String::from("name"),
        String::from("description"),
    ));

    assert_eq!("name (description) : 1", obj.to_string());

    let obj = SOMu16::from(SOMEndian::Big, 1u16);
    assert_eq!("u16 : 1", obj.to_string());
}

#[test]
fn test_arrays_output() {
    let mut obj = SOMu8Array::from(SOMLengthField::U8, 0, 2, vec![]);
    assert_eq!("array", obj.to_string());

    obj = obj.with_meta(SOMTypeMeta::empty());
    assert_eq!("[]", obj.to_string());

    obj = obj.with_meta(SOMTypeMeta::from(String::from("name"), String::from("")));

    assert_eq!("name", obj.to_string());

    obj = SOMu8Array::from(
        SOMLengthField::U8,
        0,
        2,
        vec![SOMu8::from(1u8), SOMu8::from(2u8)],
    );

    assert_eq!(
        "array [\n\tu8 : 1,\n\tu8 : 2,\n]".replace("\t", TAB_SPACES),
        obj.to_string()
    );

    obj = obj.with_meta(SOMTypeMeta::empty());

    assert_eq!(
        "[\n\tu8 : 1,\n\tu8 : 2,\n]".replace("\t", TAB_SPACES),
        obj.to_string()
    );

    obj = obj.with_meta(SOMTypeMeta::from(
        String::from("name"),
        String::from("description"),
    ));

    assert_eq!(
        "name (description) [\n\tu8 : 1,\n\tu8 : 2,\n]".replace("\t", TAB_SPACES),
        obj.to_string()
    );

    let obj = SOMArray::from(
        SOMLengthField::NoField,
        1,
        1,
        vec![SOMArrayMember::ArrayU8(SOMu8Array::from(
            SOMLengthField::U8,
            0,
            2,
            vec![SOMu8::from(1u8), SOMu8::from(2u8)],
        ))],
    );

    assert_eq!(
        "array [\n\tarray [\n\t\tu8 : 1,\n\t\tu8 : 2,\n\t],\n]".replace("\t", TAB_SPACES),
        obj.to_string()
    );
}

#[test]
fn test_structs_output() {
    let mut obj = SOMStruct::from(vec![]);
    assert_eq!("struct", obj.to_string());

    obj = obj.with_meta(SOMTypeMeta::empty());
    assert_eq!("{}", obj.to_string());

    obj = obj.with_meta(SOMTypeMeta::from(String::from("name"), String::from("")));

    assert_eq!("name", obj.to_string());

    obj = SOMStruct::from(vec![
        SOMStructMember::Bool(SOMBool::from(true)),
        SOMStructMember::U16(SOMu16::from(SOMEndian::Big, 49200u16)),
    ]);

    assert_eq!(
        "struct {\n\tbool : true,\n\tu16 : 49200,\n}".replace("\t", TAB_SPACES),
        obj.to_string()
    );

    obj = obj.with_meta(SOMTypeMeta::empty());

    assert_eq!(
        "{\n\tbool : true,\n\tu16 : 49200,\n}".replace("\t", TAB_SPACES),
        obj.to_string()
    );

    obj = obj.with_meta(SOMTypeMeta::from(
        String::from("name"),
        String::from("description"),
    ));

    assert_eq!(
        "name (description) {\n\tbool : true,\n\tu16 : 49200,\n}".replace("\t", TAB_SPACES),
        obj.to_string()
    );

    let obj = SOMStruct::from(vec![SOMStructMember::Struct(SOMStruct::from(vec![
        SOMStructMember::Bool(SOMBool::from(true)),
        SOMStructMember::U16(SOMu16::from(SOMEndian::Big, 49200u16)),
    ]))]);

    assert_eq!(
        "struct {\n\tstruct {\n\t\tbool : true,\n\t\tu16 : 49200,\n\t},\n}"
            .replace("\t", TAB_SPACES),
        obj.to_string()
    );
}

#[test]
fn test_unions_output() {
    let mut obj = SOMUnion::from(SOMTypeField::U8, vec![]);
    assert_eq!("union", obj.to_string());

    obj = obj.with_meta(SOMTypeMeta::empty());
    assert_eq!("{?}", obj.to_string());

    obj = obj.with_meta(SOMTypeMeta::from(String::from("name"), String::from("")));

    assert_eq!("name", obj.to_string());

    obj = SOMUnion::from(
        SOMTypeField::U8,
        vec![
            SOMUnionMember::Bool(SOMBool::empty()),
            SOMUnionMember::U16(SOMu16::empty(SOMEndian::Big)),
        ],
    );

    assert_eq!(
        "union {\n\t?\n}".replace("\t", TAB_SPACES),
        obj.to_string()
    );

    if let Some(SOMUnionMember::U16(sub)) = obj.get_mut(2) {
        sub.set(49200u16);
    } else {
        panic!();
    }

    assert_eq!(
        "union {\n\tu16 : 49200\n}".replace("\t", TAB_SPACES),
        obj.to_string()
    );

    obj = obj.with_meta(SOMTypeMeta::empty());

    assert_eq!(
        "{\n\tu16 : 49200\n}".replace("\t", TAB_SPACES),
        obj.to_string()
    );

    obj = obj.with_meta(SOMTypeMeta::from(
        String::from("name"),
        String::from("description"),
    ));

    assert_eq!(
        "name (description) {\n\tu16 : 49200\n}".replace("\t", TAB_SPACES),
        obj.to_string()
    );
}

#[test]
fn test_enums_output() {
    let mut obj = SOMu8Enum::from(vec![]);
    assert_eq!("enum", obj.to_string());

    obj = obj.with_meta(SOMTypeMeta::empty());
    assert_eq!("{'?'}", obj.to_string());

    obj = obj.with_meta(SOMTypeMeta::from(String::from("name"), String::from("")));

    assert_eq!("name", obj.to_string());

    obj = SOMu8Enum::from(vec![
        SOMEnum::from(String::from("A"), 23u8),
        SOMEnum::from(String::from("B"), 42u8),
    ]);

    assert_eq!(
        "enum {\n\t'?'\n}".replace("\t", TAB_SPACES),
        obj.to_string()
    );

    assert!(obj.set(String::from("A")));

    assert_eq!(
        "enum {\n\t'A' : 23\n}".replace("\t", TAB_SPACES),
        obj.to_string()
    );

    obj = obj.with_meta(SOMTypeMeta::empty());

    assert_eq!(
        "{\n\t'A' : 23\n}".replace("\t", TAB_SPACES),
        obj.to_string()
    );

    obj = obj.with_meta(SOMTypeMeta::from(
        String::from("name"),
        String::from("description"),
    ));

    assert_eq!(
        "name (description) {\n\t'A' : 23\n}".replace("\t", TAB_SPACES),
        obj.to_string()
    );

    let mut obj = SOMu16Enum::from(
        SOMEndian::Big,
        vec![
            SOMEnum::from(String::from("A"), 49200u16),
            SOMEnum::from(String::from("B"), 49201u16),
        ],
    );

    assert!(obj.set(String::from("B")));

    assert_eq!(
        "enum {\n\t'B' : 49201\n}".replace("\t", TAB_SPACES),
        obj.to_string()
    );
}

#[test]
fn test_strings_output() {
    let mut obj = SOMString::fixed(
        SOMStringEncoding::Utf8,
        SOMStringFormat::WithBOMandTermination,
        7,
    );
    assert_eq!("string", obj.to_string());

    obj = obj.with_meta(SOMTypeMeta::empty());
    assert_eq!("''", obj.to_string());

    obj = obj.with_meta(SOMTypeMeta::from(String::from("name"), String::from("")));

    assert_eq!("name", obj.to_string());

    let mut obj = SOMString::fixed(
        SOMStringEncoding::Utf8,
        SOMStringFormat::WithBOMandTermination,
        7,
    );

    assert!(obj.set(String::from("foo")));
    assert_eq!("string : 'foo'", obj.to_string());

    obj = obj.with_meta(SOMTypeMeta::empty());
    assert_eq!("'foo'", obj.to_string());

    obj = obj.with_meta(SOMTypeMeta::from(
        String::from("name"),
        String::from("description"),
    ));

    assert_eq!("name (description) : 'foo'", obj.to_string());
}

#[test]
fn test_optionals_output() {
    let mut obj = SOMOptional::from(SOMLengthField::U32, vec![]);
    assert_eq!("optional", obj.to_string());

    obj = obj.with_meta(SOMTypeMeta::empty());
    assert_eq!("{}", obj.to_string());

    obj = obj.with_meta(SOMTypeMeta::from(String::from("name"), String::from("")));

    assert_eq!("name", obj.to_string());

    let mut obj = SOMOptional::from(
        SOMLengthField::U32,
        vec![
            SOMOptional::required(1, SOMOptionalMember::U16(SOMu16::empty(SOMEndian::Big)))
                .unwrap(),
        ],
    );

    if let Some(SOMUnionMember::U16(sub)) = obj.get_mut(1) {
        sub.set(49200u16);
    } else {
        panic!();
    }

    assert_eq!(
        "optional {\n\t<1> u16 : 49200,\n}".replace("\t", TAB_SPACES),
        obj.to_string()
    );

    obj = obj.with_meta(SOMTypeMeta::empty());

    assert_eq!(
        "{\n\t<1> u16 : 49200,\n}".replace("\t", TAB_SPACES),
        obj.to_string()
    );

    obj = obj.with_meta(SOMTypeMeta::from(
        String::from("name"),
        String::from("description"),
    ));

    assert_eq!(
        "name (description) {\n\t<1> u16 : 49200,\n}".replace("\t", TAB_SPACES),
        obj.to_string()
    );

    let mut obj = SOMOptional::from(
        SOMLengthField::U32,
        vec![SOMOptional::required(
            1,
            SOMOptionalMember::Struct(SOMStruct::from(vec![
                SOMStructMember::Bool(SOMBool::empty()),
                SOMStructMember::U16(SOMu16::empty(SOMEndian::Big)),
            ])),
        )
        .unwrap()],
    );

    if let Some(SOMStructMember::Struct(sub)) = obj.get_mut(1) {
        if let Some(SOMStructMember::Bool(subsub)) = sub.get_mut(0) {
            subsub.set(true);
        } else {
            panic!();
        }

        if let Some(SOMStructMember::U16(subsub)) = sub.get_mut(1) {
            subsub.set(49200u16);
        } else {
            panic!();
        }
    } else {
        panic!();
    }

    assert_eq!(
        "optional {\n\t<1> struct {\n\t\tbool : true,\n\t\tu16 : 49200,\n\t},\n}"
            .replace("\t", TAB_SPACES),
        obj.to_string()
    );
}
