//! FIBEX models: errors of the parser, references, and the payload types
//! built from declarations.

use someip::fibex::{
    FibexArrayDimension, FibexCodingAttribute, FibexDatatype, FibexError, FibexPrimitive,
    FibexTypeAttribute, FibexTypeCoding, FibexTypeDeclaration,
};
use someip::fibex2som::{get_length_field, get_type_endian, FibexTypes};
use someip::fibex_parser::{parse_unsigned, parse_usize, FibexParser, FibexReader};
use someip::fibex_xml::FibexEvent;
use someip::som::{SOMEndian, SOMLengthField, SOMParser};
use someip::som_wrapper::SOMTypeWrapper;

const STRUCT_MODEL: &str = r#"
    <fx:DATATYPE xsi:type="fx:COMMON-DATATYPE-TYPE" ID="/CommonDatatype_UINT8">
        <ho:SHORT-NAME>UINT8</ho:SHORT-NAME>
    </fx:DATATYPE>
    <fx:DATATYPE xsi:type="fx:COMMON-DATATYPE-TYPE" ID="/CommonDatatype_UINT16">
        <ho:SHORT-NAME>UINT16</ho:SHORT-NAME>
    </fx:DATATYPE>
    <fx:DATATYPE xsi:type="fx:COMPLEX-DATATYPE-TYPE" ID="/ComplexDatatype_Struct">
        <ho:SHORT-NAME>Struct</ho:SHORT-NAME>
        <fx:COMPLEX-DATATYPE-CLASS>STRUCTURE</fx:COMPLEX-DATATYPE-CLASS>
        <fx:MEMBERS>
            <fx:MEMBER ID="/ComplexDatatype_Struct/ComplexDatatypeMember_Member2">
            <ho:SHORT-NAME>Member2</ho:SHORT-NAME>
            <fx:DATATYPE-REF ID-REF="/CommonDatatype_UINT16"/>
            <fx:UTILIZATION>
                <fx:IS-HIGH-LOW-BYTE-ORDER>false</fx:IS-HIGH-LOW-BYTE-ORDER>
            </fx:UTILIZATION>
            <fx:POSITION>1</fx:POSITION>
            </fx:MEMBER>
            <fx:MEMBER ID="/ComplexDatatype_Struct/ComplexDatatypeMember_Member1">
            <ho:SHORT-NAME>Member1</ho:SHORT-NAME>
            <fx:DATATYPE-REF ID-REF="/CommonDatatype_UINT8"/>
            <fx:POSITION>0</fx:POSITION>
            </fx:MEMBER>
        </fx:MEMBERS>
    </fx:DATATYPE>
"#;

fn declaration(name: &str, type_ref: usize, attributes: Vec<FibexTypeAttribute>) -> FibexTypeDeclaration {
    FibexTypeDeclaration {
        id: String::from("/Test"),
        name: String::from(name),
        id_ref: String::from("/Test/Type"),
        type_ref: Some(type_ref),
        attributes,
    }
}

fn parse_error(xml: &str) -> FibexError {
    let reader = FibexReader::from_reader(xml.as_bytes()).unwrap();
    match FibexParser::parse(reader) {
        Ok(_) => panic!("parse succeeded"),
        Err(e) => e,
    }
}

#[test]
fn fibex_unexpected_eof() {
    let xml = r#"<fx:SERVICE-INTERFACE ID="/S"><ho:SHORT-NAME>S</ho:SHORT-NAME>"#;
    match parse_error(xml) {
        FibexError::Parse(msg) => assert_eq!(msg, "Unexpected EOF at /S"),
        e => panic!("{:?}", e),
    }
}

#[test]
fn fibex_missing_value() {
    let xml = r#"<fx:SERVICE-INTERFACE ID="/S"><fx:SERVICE-IDENTIFIER>1</fx:SERVICE-IDENTIFIER></fx:SERVICE-INTERFACE>"#;
    match parse_error(xml) {
        FibexError::Model(msg) => assert!(msg.starts_with("Missing value at "), "{}", msg),
        e => panic!("{:?}", e),
    }
}

#[test]
fn fibex_invalid_number() {
    let xml = r#"<fx:SERVICE-INTERFACE ID="/S"><fx:SERVICE-IDENTIFIER>x1</fx:SERVICE-IDENTIFIER></fx:SERVICE-INTERFACE>"#;
    match parse_error(xml) {
        FibexError::Model(msg) => assert!(msg.starts_with("Invalid number x1 at "), "{}", msg),
        e => panic!("{:?}", e),
    }
}

#[test]
fn fibex_invalid_bool() {
    let xml = r#"<fx:DATATYPE xsi:type="fx:COMPLEX-DATATYPE-TYPE" ID="/C">
        <ho:SHORT-NAME>C</ho:SHORT-NAME>
        <fx:COMPLEX-DATATYPE-CLASS>STRUCTURE</fx:COMPLEX-DATATYPE-CLASS>
        <fx:MEMBER ID="/C/M"><ho:SHORT-NAME>M</ho:SHORT-NAME>
        <fx:UTILIZATION><fx:IS-HIGH-LOW-BYTE-ORDER>yes</fx:IS-HIGH-LOW-BYTE-ORDER></fx:UTILIZATION>
        </fx:MEMBER></fx:DATATYPE>"#;
    match parse_error(xml) {
        FibexError::Model(msg) => assert!(msg.starts_with("Invalid bool yes at "), "{}", msg),
        e => panic!("{:?}", e),
    }
}

#[test]
fn fibex_unresolved_reference() {
    let xml = r#"<fx:DATATYPE xsi:type="fx:COMPLEX-DATATYPE-TYPE" ID="/C">
        <ho:SHORT-NAME>C</ho:SHORT-NAME>
        <fx:COMPLEX-DATATYPE-CLASS>STRUCTURE</fx:COMPLEX-DATATYPE-CLASS>
        <fx:MEMBER ID="/C/M"><ho:SHORT-NAME>M</ho:SHORT-NAME><fx:DATATYPE-REF ID-REF="/Missing"/></fx:MEMBER>
        </fx:DATATYPE>"#;
    match parse_error(xml) {
        FibexError::Parse(msg) => assert_eq!(msg, "Unresolved reference /Missing at /C/M"),
        e => panic!("{:?}", e),
    }
    let reader = FibexReader::from_reader(xml.as_bytes()).unwrap();
    let model = FibexParser::try_parse(reader).expect("try_parse failed");
    assert_eq!(1, model.types.len());
    match &model.types[0].datatype {
        FibexDatatype::Struct(s) => {
            assert_eq!(1, s.members.len());
            assert_eq!(s.members[0].name, "m");
            assert!(s.members[0].type_ref.is_none());
        }
        _ => panic!(),
    }
}

#[test]
fn fibex_references_point_into_the_table() {
    let reader = FibexReader::from_reader(STRUCT_MODEL.as_bytes()).unwrap();
    let model = FibexParser::parse(reader).expect("parse failed");
    for t in &model.types {
        if let FibexDatatype::Struct(s) = &t.datatype {
            for m in &s.members {
                assert!(m.type_ref.unwrap() < model.types.len());
            }
        }
    }
}

#[test]
fn fibex_coding_resolves() {
    let coding = FibexTypeCoding {
        id: String::from("/Coding"),
        name: String::from("Coding"),
        attributes: vec![FibexCodingAttribute::BaseType(String::from("A_UINT32"))],
    };
    assert!(matches!(coding.resolve(), Some(FibexDatatype::Primitive(FibexPrimitive::Uint32))));
    let coding = FibexTypeCoding {
        id: String::from("/Coding"),
        name: String::from("Coding"),
        attributes: vec![FibexCodingAttribute::BaseType(String::from("B_UINT32"))],
    };
    assert!(coding.resolve().is_none());
    let coding = FibexTypeCoding {
        id: String::from("/Coding"),
        name: String::from("Coding"),
        attributes: vec![
            FibexCodingAttribute::Encoding(String::from("UCS-2")),
            FibexCodingAttribute::Category(String::from("LEADING-LENGTH-INFO-TYPE")),
            FibexCodingAttribute::Bom(String::from("NONE")),
            FibexCodingAttribute::MaxLength(12),
        ],
    };
    match coding.resolve() {
        Some(FibexDatatype::String(s)) => {
            assert!(s.is_dynamic);
            assert!(!s.has_bom);
            assert!(s.has_termination);
            assert_eq!(s.max_length, Some(12));
            assert_eq!(s.min_length, None);
        }
        _ => panic!(),
    }
}

#[test]
fn fibex_declaration_attributes() {
    let d = declaration(
        "a",
        0,
        vec![
            FibexTypeAttribute::LengthField(16),
            FibexTypeAttribute::ArrayDeclaration(vec![
                FibexArrayDimension { index: 1, min: 0, max: 4 },
                FibexArrayDimension { index: 2, min: 2, max: 2 },
            ]),
            FibexTypeAttribute::HighLowByteOrder(false),
            FibexTypeAttribute::LengthField(8),
        ],
    );
    assert_eq!(2, d.get_length_field_size());
    assert_eq!(4, d.get_array_length_field_size());
    assert!(!d.is_high_low_byte_order());
    assert!(d.is_array());
    assert!(d.is_multidim_array());
    assert_eq!(2, d.get_array_dimension(1).unwrap().index);
    assert!(d.get_array_dimension(2).is_none());
    let down = d.downdim_array();
    assert_eq!(1, down.num_array_dimensions());
    assert_eq!(2, down.get_array_dimension(0).unwrap().index);
    assert!(!down.get_array_dimension(0).unwrap().is_dynamic());
    assert_eq!(0, d.get_position());
}

#[test]
fn fibex_numbers() {
    assert_eq!(parse_usize("+12"), Some(12));
    assert_eq!(parse_usize("0012"), Some(12));
    assert_eq!(parse_usize(""), None);
    assert_eq!(parse_usize("+"), None);
    assert_eq!(parse_usize("-1"), None);
    assert_eq!(parse_usize("1 "), None);
    assert_eq!(parse_usize("18446744073709551616"), None);
    assert_eq!(parse_unsigned("255", 255), Some(255));
    assert_eq!(parse_unsigned("256", 255), None);
    assert_eq!(get_length_field(1), SOMLengthField::U8);
    assert_eq!(get_length_field(2), SOMLengthField::U16);
    assert_eq!(get_length_field(4), SOMLengthField::U32);
    assert_eq!(get_length_field(3), SOMLengthField::NoField);
    assert_eq!(get_type_endian(true), SOMEndian::Big);
    assert_eq!(get_type_endian(false), SOMEndian::Little);
}

#[test]
fn fibex_build_struct() {
    let reader = FibexReader::from_reader(STRUCT_MODEL.as_bytes()).unwrap();
    let model = FibexParser::parse(reader).expect("parse failed");
    let decl = declaration("input", 2, Vec::new());
    let mut som = FibexTypes::build(&model, &decl).expect("build failed");
    let payload = [0x01u8, 0x30, 0xC0];
    let mut parser = SOMParser::new(&payload);
    assert_eq!(som.parse(&mut parser).unwrap(), 3);
    match &som {
        SOMTypeWrapper::Struct(s) => {
            assert_eq!(2, s.len());
            match s.get(0) {
                Some(SOMTypeWrapper::U8(x)) => assert_eq!(x.get(), Some(1)),
                _ => panic!(),
            }
            match s.get(1) {
                Some(SOMTypeWrapper::U16(x)) => {
                    assert_eq!(x.get(), Some(49200));
                    assert_eq!(x.endian, SOMEndian::Little);
                }
                _ => panic!(),
            }
        }
        _ => panic!(),
    }
    let text = som.to_string();
    assert!(text.contains("member1 (UINT8) : 1"), "{}", text);
    assert!(text.contains("member2 (UINT16) : 49200"), "{}", text);
    assert!(text.starts_with("input (Struct)"), "{}", text);
}

#[test]
fn fibex_build_arrays() {
    let reader = FibexReader::from_reader(STRUCT_MODEL.as_bytes()).unwrap();
    let model = FibexParser::parse(reader).expect("parse failed");
    let dims = |d: Vec<FibexArrayDimension>| vec![FibexTypeAttribute::ArrayDeclaration(d), FibexTypeAttribute::ArrayLengthField(16)];
    let one = FibexArrayDimension { index: 1, min: 1, max: 3 };
    let two = FibexArrayDimension { index: 2, min: 2, max: 2 };
    let three = FibexArrayDimension { index: 3, min: 2, max: 2 };
    match FibexTypes::build(&model, &declaration("a", 0, dims(vec![one]))).unwrap() {
        SOMTypeWrapper::ArrayU8(a) => {
            assert!(a.is_dynamic());
            assert_eq!(0, a.len());
            assert!(a.template().is_some());
        }
        _ => panic!(),
    }
    match FibexTypes::build(&model, &declaration("a", 0, dims(vec![one, two]))).unwrap() {
        SOMTypeWrapper::Array(a) => {
            assert!(a.is_dynamic());
            match a.template() {
                Some(SOMTypeWrapper::ArrayU8(inner)) => {
                    assert!(!inner.is_dynamic());
                    assert!(inner.template().is_some());
                }
                _ => panic!(),
            }
        }
        _ => panic!(),
    }
    assert!(FibexTypes::build(&model, &declaration("a", 0, dims(vec![one, two, three]))).is_err());
    match FibexTypes::build(&model, &declaration("a", 2, dims(vec![two]))).unwrap() {
        SOMTypeWrapper::Array(a) => {
            assert!(!a.is_dynamic());
            assert!(matches!(a.template(), Some(SOMTypeWrapper::Struct(_))));
        }
        _ => panic!(),
    }
    assert!(FibexTypes::build(&model, &declaration("a", 2, dims(vec![one, two]))).is_err());
    assert!(FibexTypes::build(&model, &declaration("a", 7, Vec::new())).is_err());
}

#[test]
fn fibex_build_unsupported_message() {
    let reader = FibexReader::from_reader(STRUCT_MODEL.as_bytes()).unwrap();
    let model = FibexParser::parse(reader).expect("parse failed");
    match FibexTypes::build(&model, &declaration("a", 7, Vec::new())) {
        Err(FibexError::Model(msg)) => assert_eq!("Unsupported type /Test (a) of /Test/Type", msg),
        _ => panic!(),
    }
}

#[test]
fn fibex_skips_unrelated_elements() {
    let xml = r#"<fx:SERVICE-INTERFACE ID="/S"><ho:SHORT-NAME>service</ho:SHORT-NAME>
        <fx:EVENT-GROUP><ho:SHORT-NAME>Ignored</ho:SHORT-NAME>
        <fx:SERVICE-IDENTIFIER>9</fx:SERVICE-IDENTIFIER></fx:EVENT-GROUP>
        <fx:SERVICE-IDENTIFIER>7</fx:SERVICE-IDENTIFIER>
        <service:MAJOR>1</service:MAJOR><service:MINOR>0</service:MINOR>
        </fx:SERVICE-INTERFACE>"#;
    let reader = FibexReader::from_reader(xml.as_bytes()).unwrap();
    let model = FibexParser::parse(reader).expect("parse failed");
    assert_eq!(1, model.services.len());
    assert_eq!(model.services[0].name, "Service");
    assert_eq!(model.services[0].service_id, 7);
    assert!(model.get_service(7, 1).is_some());
    assert!(model.get_service(7, 2).is_none());
}

#[test]
fn fibex_malformed_xml() {
    match parse_error("<a></b>") {
        FibexError::Xml(_) => {}
        e => panic!("{:?}", e),
    }
}

#[test]
fn fibex_reader_events() {
    let xml = r#"<fx:DATATYPE xsi:type="T" ID="/I"/><ho:CODING-REF ID-REF="/C"/>
        <fx:CODED-TYPE ho:BASE-DATA-TYPE="A_UINT8" CATEGORY="STANDARD-LENGTH-TYPE"></fx:CODED-TYPE>
        <ho:MIN-LENGTH></ho:MIN-LENGTH>"#;
    let mut reader = FibexReader::from_reader(xml.as_bytes()).unwrap();
    match reader.read_fibex().unwrap() {
        FibexEvent::CodingRef(id) => assert_eq!(id, "/C"),
        e => panic!("{:?}", e),
    }
    match reader.read_fibex().unwrap() {
        FibexEvent::CodedType(base, category, encoding, bom, termination) => {
            assert_eq!(base, "A_UINT8");
            assert_eq!(category, "STANDARD-LENGTH-TYPE");
            assert!(encoding.is_empty() && bom.is_empty() && termination.is_empty());
        }
        e => panic!("{:?}", e),
    }
    match reader.read_fibex().unwrap() {
        FibexEvent::MinLength(v) => assert!(v.is_empty()),
        e => panic!("{:?}", e),
    }
    assert!(matches!(reader.read_fibex().unwrap(), FibexEvent::Eof));
    assert!(matches!(reader.read_fibex().unwrap(), FibexEvent::Eof));
}
