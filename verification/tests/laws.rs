//! The laws of the library on concrete values: what is read back of what
//! is written, and endpoints named by URLs.

use someip::som::{SOMEndian, SOMLengthField, SOMParser, SOMSerializer, SOMType};
use someip::som_strings::{SOMString, SOMStringEncoding, SOMStringFormat};
use someip::som::SOMTypeField;
use someip::som_primitives::{SOMBool, SOMu16};
use someip::som_wrapper::{
    SOMArray, SOMArrayMember, SOMStruct, SOMStructMember, SOMUnion, SOMUnionMember,
};
use someip::som_enums::SOMu16Enum;
use someip::som_primitives::{SOMu32, SOMu8, I24};
use someip::som_primitives::SOMi24;
use someip::types::{
    endpoint_of_url, url_scheme, Header, IpAddr, IpProto, Message, MessageId, MessageType,
    RequestId, ReturnCode, SdEndpointOption, UrlHost,
};

fn write<T: SOMType>(value: &T, size: usize) -> Vec<u8> {
    let mut serializer = SOMSerializer::new(vec![0u8; size]);
    assert_eq!(size, value.serialize(&mut serializer).unwrap());
    serializer.into_buffer()
}

#[test]
fn endpoint_url_v4() {
    let option = SdEndpointOption {
        ip: IpAddr::V4(0x7f00_0001),
        port: 1234,
        proto: IpProto::TCP,
    };
    let scheme = url_scheme(option.proto);
    assert_eq!(scheme, "tcp");
    assert_eq!(Ok(option), endpoint_of_url(UrlHost::Ip(option.ip), Some(option.port), scheme));
}

#[test]
fn endpoint_url_v6() {
    let option = SdEndpointOption {
        ip: IpAddr::V6(1),
        port: 5555,
        proto: IpProto::UDP,
    };
    let scheme = url_scheme(option.proto);
    assert_eq!(scheme, "udp");
    assert_eq!(Ok(option), endpoint_of_url(UrlHost::Ip(option.ip), Some(option.port), scheme));
}

#[test]
fn endpoint_url_errors() {
    let ip = IpAddr::V4(1);
    assert_eq!(Err("invalid URL: missing host"), endpoint_of_url(UrlHost::Missing, Some(1), "tcp"));
    assert_eq!(Err("invalid URL: host not an ip"), endpoint_of_url(UrlHost::NotIp, Some(1), "tcp"));
    assert_eq!(Err("invalid URL: missing port"), endpoint_of_url(UrlHost::Ip(ip), None, "tcp"));
    assert_eq!(Err("invalid URL: invalid scheme"), endpoint_of_url(UrlHost::Ip(ip), Some(1), "http"));
}

#[test]
fn som_primitive_read_back() {
    let written = SOMu32::from(SOMEndian::Little, 0xCAFE_BABE);
    let bytes = write(&written, 4);
    assert_eq!(bytes, vec![0xBE, 0xBA, 0xFE, 0xCA]);
    let mut read = SOMu32::empty(SOMEndian::Little);
    let mut parser = SOMParser::new(&bytes);
    assert_eq!(4, read.parse(&mut parser).unwrap());
    assert_eq!(read.get(), Some(0xCAFE_BABE));

    let written = SOMi24::from(SOMEndian::Big, I24::new(-2));
    let bytes = write(&written, 3);
    assert_eq!(bytes, vec![0xFF, 0xFF, 0xFE]);
    let mut read = SOMi24::empty(SOMEndian::Big);
    let mut parser = SOMParser::new(&bytes);
    assert_eq!(3, read.parse(&mut parser).unwrap());
    assert_eq!(read.get().unwrap().value(), -2);

    let written = SOMu8::from(7);
    let bytes = write(&written, 1);
    let mut read = SOMu8::empty();
    let mut parser = SOMParser::new(&bytes);
    assert_eq!(1, read.parse(&mut parser).unwrap());
    assert_eq!(read.get(), Some(7));
}

#[test]
fn som_enum_read_back() {
    let mut written = SOMu16Enum::new(SOMEndian::Big);
    written.add(String::from("A"), 23);
    written.add(String::from("B"), 42);
    written.add(String::from("C"), 42);
    assert_eq!(2, written.len());
    assert!(written.set(String::from("B")));
    let bytes = write(&written, 2);
    assert_eq!(bytes, vec![0x00, 0x2A]);
    let mut read = SOMu16Enum::new(SOMEndian::Big);
    read.add(String::from("A"), 23);
    read.add(String::from("B"), 42);
    let mut parser = SOMParser::new(&bytes);
    assert_eq!(2, read.parse(&mut parser).unwrap());
    assert_eq!(read.get(), Some(42));
}

#[test]
fn message_read_back() {
    let header = Header {
        message_id: MessageId { service_id: 0x1234, method_id: 0x8001 },
        length: 12,
        request_id: RequestId { client_id: 1, session_id: 2 },
        protocol_version: 1,
        interface_version: 3,
        message_type: MessageType::Notification,
        return_code: ReturnCode::Okay,
    };
    let payload = [1u8, 2, 3, 4];
    let message = Message::Rpc(header, &payload);
    let bytes = message.to_vec();
    assert_eq!(20, bytes.len());
    assert_eq!(Message::from_slice(&bytes).unwrap(), message);
    assert_eq!(Header::from_slice(&header.to_vec()).unwrap(), header);
}

#[test]
fn som_primitive_array_read_back() {
    let mut written = someip::som_wrapper::SOMu16Array::dynamic(someip::som::SOMLengthField::U8, 0, 4);
    let mut read = someip::som_wrapper::SOMu16Array::dynamic(someip::som::SOMLengthField::U8, 0, 4);
    for v in [0x1234u16, 0xBEEF] {
        written.add(someip::som_primitives::SOMu16::new(SOMEndian::Little, v));
        read.add(someip::som_primitives::SOMu16::empty(SOMEndian::Little));
    }
    let bytes = write(&written, 5);
    assert_eq!(bytes, vec![4, 0x34, 0x12, 0xEF, 0xBE]);
    let mut parser = SOMParser::new(&bytes);
    assert_eq!(5, read.parse(&mut parser).unwrap());
    assert_eq!(Some(0x1234), read.get(0).unwrap().get());
    assert_eq!(Some(0xBEEF), read.get(1).unwrap().get());
}

#[test]
fn som_string_read_back() {
    let mut written = SOMString::dynamic(
        SOMLengthField::U16,
        SOMStringEncoding::Utf8,
        SOMStringFormat::WithBOMandTermination,
        0,
        20,
    );
    written.set(String::from("Grüße"));
    let bytes = write(&written, 2 + 3 + 7 + 1);
    assert_eq!(&bytes[0..2], &[0x00, 0x0B]);
    assert_eq!(&bytes[2..5], &[0xEF, 0xBB, 0xBF]);
    assert_eq!(bytes[12], 0x00);
    let mut read = SOMString::dynamic(
        SOMLengthField::U16,
        SOMStringEncoding::Utf8,
        SOMStringFormat::WithBOMandTermination,
        0,
        20,
    );
    let mut parser = SOMParser::new(&bytes);
    assert_eq!(13, read.parse(&mut parser).unwrap());
    assert_eq!("Grüße", read.get());

    let mut written = SOMString::dynamic(
        SOMLengthField::U8,
        SOMStringEncoding::Utf16Le,
        SOMStringFormat::WithTermination,
        0,
        10,
    );
    written.set(String::from("hi"));
    let bytes = write(&written, 1 + 4 + 2);
    assert_eq!(bytes, vec![6, b'h', 0, b'i', 0, 0, 0]);
    let mut read = SOMString::dynamic(
        SOMLengthField::U8,
        SOMStringEncoding::Utf16Le,
        SOMStringFormat::WithTermination,
        0,
        10,
    );
    let mut parser = SOMParser::new(&bytes);
    assert_eq!(7, read.parse(&mut parser).unwrap());
    assert_eq!("hi", read.get());
}

#[test]
fn som_fixed_string_read_back() {
    let mut written = SOMString::fixed(SOMStringEncoding::Utf8, SOMStringFormat::WithTermination, 6);
    written.set(String::from("abc"));
    let bytes = write(&written, 6);
    assert_eq!(bytes, vec![b'a', b'b', b'c', 0, 0, 0]);
    let mut read = SOMString::fixed(SOMStringEncoding::Utf8, SOMStringFormat::WithTermination, 6);
    let mut parser = SOMParser::new(&bytes);
    assert_eq!(6, read.parse(&mut parser).unwrap());
    assert_eq!("abc", read.get());
}

#[test]
fn som_struct_union_read_back() {
    let mut text = SOMString::dynamic(SOMLengthField::U8, SOMStringEncoding::Utf8, SOMStringFormat::Plain, 0, 8);
    text.set(String::from("ok"));
    let mut choice = SOMUnion::new(SOMTypeField::U8);
    choice.add(SOMUnionMember::Bool(SOMBool::empty()));
    choice.add(SOMUnionMember::U16(SOMu16::empty(SOMEndian::Little)));
    if let Some(SOMUnionMember::U16(sub)) = choice.get_mut(2) {
        sub.set(0x0102);
    } else {
        panic!();
    }
    let mut written = SOMStruct::new();
    written.add(SOMStructMember::U16(SOMu16::new(SOMEndian::Big, 0xABCD)));
    written.add(SOMStructMember::String(text));
    written.add(SOMStructMember::Union(choice));

    let bytes = write(&written, 2 + 3 + 3);
    assert_eq!(bytes, vec![0xAB, 0xCD, 2, b'o', b'k', 2, 0x02, 0x01]);

    let mut choice2 = SOMUnion::new(SOMTypeField::U8);
    choice2.add(SOMUnionMember::Bool(SOMBool::empty()));
    choice2.add(SOMUnionMember::U16(SOMu16::empty(SOMEndian::Little)));
    let mut read = SOMStruct::new();
    read.add(SOMStructMember::U16(SOMu16::empty(SOMEndian::Big)));
    read.add(SOMStructMember::String(SOMString::dynamic(
        SOMLengthField::U8,
        SOMStringEncoding::Utf8,
        SOMStringFormat::Plain,
        0,
        8,
    )));
    read.add(SOMStructMember::Union(choice2));
    let mut parser = SOMParser::new(&bytes);
    assert_eq!(8, read.parse(&mut parser).unwrap());
    match read.get(0) {
        Some(SOMStructMember::U16(v)) => assert_eq!(Some(0xABCD), v.get()),
        _ => panic!(),
    }
    match read.get(1) {
        Some(SOMStructMember::String(v)) => assert_eq!("ok", v.get()),
        _ => panic!(),
    }
    match read.get(2) {
        Some(SOMStructMember::Union(u)) => match u.get() {
            Some(SOMUnionMember::U16(v)) => assert_eq!(Some(0x0102), v.get()),
            _ => panic!(),
        },
        _ => panic!(),
    }
}

#[test]
fn som_fixed_utf16_string_read_back() {
    let mut written = SOMString::fixed(SOMStringEncoding::Utf16Be, SOMStringFormat::WithBOMandTermination, 6);
    written.set(String::from("ab"));
    let bytes = write(&written, 12);
    assert_eq!(bytes, vec![0xFE, 0xFF, 0, b'a', 0, b'b', 0, 0, 0, 0, 0, 0]);
    let mut read = SOMString::fixed(SOMStringEncoding::Utf16Be, SOMStringFormat::WithBOMandTermination, 6);
    let mut parser = SOMParser::new(&bytes);
    assert_eq!(12, read.parse(&mut parser).unwrap());
    assert_eq!("ab", read.get());
}

#[test]
fn payload_array_keeps_one_kind() {
    let mut obj = SOMArray::fixed(4);
    obj.add(SOMArrayMember::U8(SOMu8::new(1u8)));
    obj.add(SOMArrayMember::Bool(SOMBool::new(true)));
    obj.add(SOMArrayMember::U8(SOMu8::new(2u8)));
    obj.add(SOMArrayMember::U16(SOMu16::new(SOMEndian::Big, 3u16)));
    obj.add(SOMArrayMember::U8(SOMu8::new(4u8)));
    assert_eq!(3, obj.len());
    for index in 0..3 {
        assert!(matches!(obj.get(index), Some(SOMArrayMember::U8(_))));
    }
}

#[test]
fn som_utf16_surrogate_pair() {
    let mut written = SOMString::fixed(SOMStringEncoding::Utf16Be, SOMStringFormat::Plain, 5);
    written.set(String::from("a\u{1F600}"));
    let bytes = write(&written, 10);
    assert_eq!(bytes, vec![0, b'a', 0xD8, 0x3D, 0xDE, 0x00, 0, 0, 0, 0]);
    let mut read = SOMString::fixed(SOMStringEncoding::Utf16Be, SOMStringFormat::Plain, 5);
    let mut parser = SOMParser::new(&bytes);
    assert_eq!(10, read.parse(&mut parser).unwrap());
    assert_eq!("a\u{1F600}", read.get());
}
