//! Tests of the message model.

use someip::builder::{HeaderBuilder, HeaderBuilderError};
use someip::types::{Header, MessageId, MessageType, RequestId, ReturnCode};

#[test]
fn header_builder_smoke() {
    HeaderBuilder::default()
        .message_id(MessageId::new(0x1234, 0x1234))
        .length(0x1234)
        .request_id(RequestId::new(0x1234, 0x1234))
        .protocol_version(1)
        .interface_version(1)
        .message_type(MessageType::Request)
        .return_code(ReturnCode::NotOk)
        .build()
        .unwrap();
}

#[test]
fn header_builder_defaults_protocol_version() {
    let header = HeaderBuilder::default()
        .message_id(MessageId::new(0x0103, 0x8005))
        .length(8)
        .request_id(RequestId::new(0x0001, 0x0002))
        .interface_version(2)
        .message_type(MessageType::Notification)
        .return_code(ReturnCode::Okay)
        .build()
        .unwrap();
    assert_eq!(
        header,
        Header::new(
            MessageId::new(0x0103, 0x8005),
            8,
            RequestId::new(0x0001, 0x0002),
            1,
            2,
            MessageType::Notification,
            ReturnCode::Okay,
        )
    );
}

#[test]
fn header_builder_names_missing_field() {
    match HeaderBuilder::default().length(8).build() {
        Err(HeaderBuilderError::UninitializedField(name)) => assert_eq!(name, "message_id"),
        _ => panic!(),
    }
    match HeaderBuilder::default()
        .message_id(MessageId::new(1, 2))
        .length(8)
        .request_id(RequestId::new(3, 4))
        .interface_version(1)
        .message_type(MessageType::Request)
        .build()
    {
        Err(HeaderBuilderError::UninitializedField(name)) => assert_eq!(name, "return_code"),
        _ => panic!(),
    }
}

#[test]
fn ids_from_pairs() {
    let m = someip::types::MessageId::new(0x1234, 0x5678);
    assert_eq!(m, someip::types::MessageId::from((0x1234u16, 0x5678u16)));
    assert_eq!(m, someip::types::MessageId::from(0x1234_5678u32));
    let r = someip::types::RequestId::new(0xDEAD, 0xBEEF);
    assert_eq!(r, someip::types::RequestId::from((0xDEADu16, 0xBEEFu16)));
    assert_eq!(r, someip::types::RequestId::from(0xDEAD_BEEFu32));
}
