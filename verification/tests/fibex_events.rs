//! The model read from the events of a document.

use someip::fibex::{FibexDatatype, FibexError, FibexTypeAttribute};
use someip::fibex_parser::{FibexParser, ParseStop};
use someip::fibex_xml::FibexEvent;

fn s(text: &str) -> String {
    text.to_string()
}

fn member(id: &str, name: &str, id_ref: &str, position: &str) -> Vec<FibexEvent> {
    vec![
        FibexEvent::DatatypeMemberStart(s(id)),
        FibexEvent::ShortName(s(name)),
        FibexEvent::DatatypeRef(s(id_ref)),
        FibexEvent::Position(s(position)),
        FibexEvent::DatatypeMemberEnd,
    ]
}

#[test]
fn parse_events_struct_members_by_position() {
    let mut events = vec![
        FibexEvent::DatatypeStart(s("/S"), s("fx:COMPLEX-DATATYPE-TYPE")),
        FibexEvent::ShortName(s("point")),
        FibexEvent::DatatypeClass(s("STRUCTURE")),
    ];
    events.extend(member("/S/y", "Y", "/U8", "1"));
    events.extend(member("/S/x", "X", "/U8", "0"));
    events.extend(member("/S/z", "Z", "/U8", "1"));
    events.push(FibexEvent::DatatypeEnd);
    events.push(FibexEvent::Eof);
    let positions = vec![0; events.len()];

    let model = FibexParser::parse_events(&events, &positions).unwrap();
    assert_eq!(0, model.services.len());
    assert_eq!(1, model.types.len());
    let t = &model.types[0];
    assert_eq!("/S", t.id);
    assert_eq!("Point", t.name);
    assert!(t.coding_ref.is_none());
    match &t.datatype {
        FibexDatatype::Struct(st) => {
            let names: Vec<&str> = st.members.iter().map(|m| m.name.as_str()).collect();
            assert_eq!(vec!["x", "y", "z"], names);
            assert_eq!("/U8", st.members[0].id_ref);
            assert!(st.members[0].type_ref.is_none());
            assert!(matches!(st.members[1].attributes[0], FibexTypeAttribute::Position(1)));
        },
        other => panic!("not a structure: {:?}", other),
    }
}

#[test]
fn parse_events_service_with_field() {
    let events = vec![
        FibexEvent::ServiceStart(s("/Svc")),
        FibexEvent::ShortName(s("climate")),
        FibexEvent::ServiceIdentifier(s("4")),
        FibexEvent::MajorVersion(s("1")),
        FibexEvent::MinorVersion(s("0")),
        FibexEvent::FieldStart(s("/Svc/F")),
        FibexEvent::ShortName(s("Temp")),
        FibexEvent::DatatypeRef(s("/U8")),
        FibexEvent::FieldGetterStart,
        FibexEvent::MethodIdentifier(s("7")),
        FibexEvent::FieldAccessorEnd,
        FibexEvent::FieldNotifierStart,
        FibexEvent::NotificationIdentifier(s("32769")),
        FibexEvent::FieldAccessorEnd,
        FibexEvent::FieldEnd,
        FibexEvent::ServiceEnd,
        FibexEvent::Eof,
    ];
    let positions = vec![0; events.len()];

    let model = FibexParser::parse_events(&events, &positions).unwrap();
    assert_eq!(1, model.services.len());
    let service = &model.services[0];
    assert_eq!("Climate", service.name);
    assert_eq!(4, service.service_id);
    assert_eq!(1, service.major_version);
    assert_eq!(0, service.minor_version);
    assert_eq!(2, service.methods.len());

    let getter = &service.methods[0];
    assert_eq!("/Svc/F/Getter", getter.id);
    assert_eq!("getTemp", getter.name);
    assert_eq!(7, getter.method_id);
    assert!(getter.request.is_none());
    let response = getter.response.as_ref().unwrap();
    assert_eq!(Some(0), response.type_ref);
    assert_eq!("/Svc/F", response.id_ref);

    let notifier = &service.methods[1];
    assert_eq!("temp", notifier.name);
    assert_eq!(32769, notifier.method_id);
    assert!(notifier.request.is_some());
    assert!(notifier.response.is_none());

    assert_eq!(1, model.types.len());
    assert_eq!("/Svc/F", model.types[0].id);
    match &model.types[0].datatype {
        FibexDatatype::Struct(st) => {
            assert_eq!(1, st.members.len());
            assert_eq!("temp", st.members[0].name);
            assert_eq!("/U8", st.members[0].id_ref);
        },
        other => panic!("not a structure: {:?}", other),
    }
}

#[test]
fn parse_events_end_before_document() {
    let events = vec![FibexEvent::ServiceStart(s("/Svc")), FibexEvent::ShortName(s("svc"))];
    let positions = vec![0; events.len()];
    assert!(matches!(FibexParser::parse_events(&events, &positions), Err(ParseStop::Ended)));
}

#[test]
fn parse_events_missing_value() {
    let events = vec![FibexEvent::ServiceStart(s("/Svc")), FibexEvent::ServiceEnd, FibexEvent::Eof];
    let positions = vec![3, 17, 20];
    match FibexParser::parse_events(&events, &positions) {
        Err(ParseStop::Failed(FibexError::Model(msg))) => assert_eq!("Missing value at 17", msg),
        other => panic!("unexpected: {:?}", other),
    }
}

#[test]
fn parse_events_invalid_number() {
    let events = vec![
        FibexEvent::ProcessingInfoStart,
        FibexEvent::CodingInfoStart(s("/C")),
        FibexEvent::ShortName(s("c")),
        FibexEvent::BitLength(s("eight")),
        FibexEvent::CodingInfoEnd,
        FibexEvent::ProcessingInfoEnd,
        FibexEvent::Eof,
    ];
    let positions = vec![1, 2, 3, 44, 5, 6, 7];
    match FibexParser::parse_events(&events, &positions) {
        Err(ParseStop::Failed(FibexError::Model(msg))) => assert_eq!("Invalid number eight at 44", msg),
        other => panic!("unexpected: {:?}", other),
    }
}

#[test]
fn parse_events_unexpected_eof() {
    let events = vec![FibexEvent::DatatypeStart(s("/T"), s("fx:ENUM-DATATYPE-TYPE")), FibexEvent::Eof];
    let positions = vec![0; events.len()];
    match FibexParser::parse_events(&events, &positions) {
        Err(ParseStop::Failed(FibexError::Parse(msg))) => assert_eq!("Unexpected EOF at /T", msg),
        other => panic!("unexpected: {:?}", other),
    }
}

#[test]
fn parse_events_unknown_datatype_kind_skipped() {
    let events = vec![
        FibexEvent::DatatypeStart(s("/T"), s("fx:OTHER-DATATYPE-TYPE")),
        FibexEvent::ShortName(s("t")),
        FibexEvent::DatatypeEnd,
        FibexEvent::Eof,
    ];
    let positions = vec![0; events.len()];
    let model = FibexParser::parse_events(&events, &positions).unwrap();
    assert_eq!(0, model.types.len());
}
