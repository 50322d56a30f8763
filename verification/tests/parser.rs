//! Tests of reading messages.

use someip::types::{
    EntriesType, Header, IpAddr, IpProto, Message, MessageId, MessageType, RequestId, ReturnCode,
    SdEndpointOption, SdEntry, SdEventgroupEntry, SdOption, SdOptionRef, SdPayload,
    SdServiceEntry,
};


#[test]
fn parse_cookie_client() {
    let header: &[u8] = &[
        0xFF, 0xFF, 0x00, 0x00, // serviceId(u16), methodId(u16)
        0x00, 0x00, 0x00, 0x08, // length(u32)
        0xDE, 0xAD, 0xBE, 0xEF, // clientId(u16), sessionId(u16)
        0x01, 0x01, 0x01, 0x00, // proto(u8), version(u8), messageType,(u8) returnCode(u8)
    ];

    assert_eq!(Message::from_slice(header).unwrap(), Message::CookieClient);
}

#[test]
fn parse_cookie_server() {
    let header: &[u8] = &[
        0xFF, 0xFF, 0x80, 0x00, // serviceId(u16), methodId(u16)
        0x00, 0x00, 0x00, 0x08, // length(u32)
        0xDE, 0xAD, 0xBE, 0xEF, // clientId(u16), sessionId(u16)
        0x01, 0x01, 0x02, 0x00, // proto(u8), version(u8), messageType,(u8) returnCode(u8)
    ];

    assert_eq!(Message::from_slice(header).unwrap(), Message::CookieServer);
}

#[test]
fn parse_empty_rpc_message() {
    let header: &[u8] = &[
        0x01, 0x03, 0x80, 0x05, // serviceId(u16), methodId(u16)
        0x00, 0x00, 0x00, 0x08, // length(u32)
        0x00, 0x01, 0x00, 0x02, // clientId(u16), sessionId(u16)
        0x01, 0x01, 0x02, 0x00, // proto(u8), version(u8), messageType,(u8) returnCode(u8)
    ];

    assert_eq!(
        Message::from_slice(header).unwrap(),
        Message::Rpc(
            Header {
                message_id: MessageId {
                    service_id: 0x0103,
                    method_id: 0x8005,
                },
                length: 8,
                request_id: RequestId {
                    client_id: 0x0001,
                    session_id: 0x0002,
                },
                protocol_version: 0x01,
                interface_version: 0x01,
                message_type: MessageType::Notification,
                return_code: ReturnCode::Okay,
            },
            &[],
        )
    );
}

#[test]
fn parse_rpc_message() {
    let header: &[u8] = &[
        0x01, 0x03, 0x80, 0x05, // serviceId(u16), methodId(u16)
        0x00, 0x00, 0x00, 0x0D, // length(u32)
        0x00, 0x01, 0x00, 0x02, // clientId(u16), sessionId(u16)
        0x01, 0x01, 0x02, 0x00, // proto(u8), version(u8), messageType,(u8) returnCode(u8)
    ];
    let payload: &[u8] = &[0x01, 0x02, 0x03, 0x04, 0x05];
    let message: &[u8] = &[header, payload].concat();

    assert_eq!(
        Message::from_slice(message).unwrap(),
        Message::Rpc(
            Header {
                message_id: MessageId {
                    service_id: 0x0103,
                    method_id: 0x8005,
                },
                length: 13,
                request_id: RequestId {
                    client_id: 0x0001,
                    session_id: 0x0002,
                },
                protocol_version: 0x01,
                interface_version: 0x01,
                message_type: MessageType::Notification,
                return_code: ReturnCode::Okay,
            },
            payload,
        )
    );
}

#[test]
fn parse_empty_sd_message() {
    let header: &[u8] = &[
        0xFF, 0xFF, 0x81, 0x00, // serviceId(u16), methodId(u16)
        0x00, 0x00, 0x00, 0x14, // length(u32)
        0x00, 0x00, 0x00, 0x00, // clientId(u16), sessionId(u16)
        0x01, 0x01, 0x02, 0x00, // proto(u8), version(u8), messageType,(u8) returnCode(u8)
    ];
    let payload: &[u8] = &[
        0xC0, 0x00, 0x00, 0x00, // sdFlags(08), reserved(u24)
        0x00, 0x00, 0x00, 0x00, // entries-length(u32)
        0x00, 0x00, 0x00, 0x00, // options-length(u32)
    ];
    let message: &[u8] = &[header, payload].concat();

    assert_eq!(
        Message::from_slice(message).unwrap(),
        Message::Sd(
            Header {
                message_id: MessageId {
                    service_id: 0xFFFF,
                    method_id: 0x8100,
                },
                length: 20,
                request_id: RequestId {
                    client_id: 0x0000,
                    session_id: 0x0000,
                },
                protocol_version: 0x01,
                interface_version: 0x01,
                message_type: MessageType::Notification,
                return_code: ReturnCode::Okay,
            },
            SdPayload {
                flags: 0xC0,
                entries: vec![],
                options: vec![],
            },
        )
    );
}

#[test]
fn parse_find_service_sd_message() {
    let header: &[u8] = &[
        0xFF, 0xFF, 0x81, 0x00, // serviceId(u16), methodId(u16)
        0x00, 0x00, 0x00, 0x2C, // length(u32)
        0x00, 0x00, 0x00, 0x00, // clientId(u16), sessionId(u16)
        0x01, 0x01, 0x02, 0x00, // proto(u8), version(u8), messageType,(u8) returnCode(u8)
    ];
    let payload: &[u8] = &[
        0xC0, 0x00, 0x00, 0x00, // sdFlags(08), reserved(u24)
        // entries
        0x00, 0x00, 0x00, 0x10, // entries-length(u32)
        // find-service
        0x00, 0x00, 0x00, 0x00, // entryType(u8), index1(u8), index2,(u8) num1|2(u8)
        0x01, 0x03, 0x00, 0x01, // serviceId(u16), instanceId(u16)
        0x02, 0x00, 0x00, 0x03, // majorVersion(u8), ttl(u24)
        0x00, 0x00, 0x00, 0x0A, // minorVersion(u32)
        // options
        0x00, 0x00, 0x00, 0x08, // options-length(u32)
        // unrelated option (dropped)
        0x00, 0x05, 0x01, 0x00, // length(u16), optionType(u8), reserved(u8)
        0x66, 0x6F, 0x6F, 0x00, // config(String)
    ];
    let message: &[u8] = &[header, payload].concat();

    assert_eq!(
        Message::from_slice(message).unwrap(),
        Message::Sd(
            Header {
                message_id: MessageId {
                    service_id: 0xFFFF,
                    method_id: 0x8100,
                },
                length: 44,
                request_id: RequestId {
                    client_id: 0x0000,
                    session_id: 0x0000,
                },
                protocol_version: 0x01,
                interface_version: 0x01,
                message_type: MessageType::Notification,
                return_code: ReturnCode::Okay,
            },
            SdPayload {
                flags: 0xC0,
                entries: vec![SdEntry::FindService(SdServiceEntry {
                    service_id: 0x0103,
                    instance_id: 0x0001,
                    major_version: 0x02,
                    minor_version: 0x0000000A,
                    ttl: 0x00000003,
                    options: SdOptionRef {
                        index1: 0,
                        index2: 0,
                        num1: 0,
                        num2: 0,
                    },
                })],
                options: vec![],
            },
        )
    );
}

#[test]
fn parse_offer_service_sd_message() {
    let header: &[u8] = &[
        0xFF, 0xFF, 0x81, 0x00, // serviceId(u16), methodId(u16)
        0x00, 0x00, 0x00, 0x48, // length(u32)
        0x00, 0x00, 0x00, 0x00, // clientId(u16), sessionId(u16)
        0x01, 0x01, 0x02, 0x00, // proto(u8), version(u8), messageType,(u8) returnCode(u8)
    ];
    let payload: &[u8] = &[
        0xC0, 0x00, 0x00, 0x00, // sdFlags(08), reserved(u24)
        // entries
        0x00, 0x00, 0x00, 0x10, // entries-length(u32)
        // offer-service
        0x01, 0x00, 0x00, 0x20, // entryType(u8), index1(u8), index2,(u8) num1|2(u8)
        0x01, 0x03, 0x00, 0x01, // serviceId(u16), instanceId(u16)
        0x02, 0x00, 0x00, 0x03, // majorVersion(u8), ttl(u24)
        0x00, 0x00, 0x00, 0x0A, // minorVersion(u32)
        // options
        0x00, 0x00, 0x00, 0x24, // options-length(u32)
        // ip-4 endpoint
        0x00, 0x09, 0x04, 0x00, // length(u16), optionType(u8), reserved(u8)
        0x7F, 0x00, 0x00, 0x01, // ip4(u32)
        0x00, 0x11, 0x75, 0x30, // reserved(u8), proto(u8), port(u16)
        // ip-6 endpoint
        0x00, 0x15, 0x06, 0x00, // length(u16), optionType(u8), reserved(u8)
        0xFF, 0x0E, 0x00, 0x00, // ip6(u32)
        0x00, 0x00, 0x00, 0x00, // ip6(u32)
        0x00, 0x00, 0xFF, 0xFF, // ip6(u32)
        0xEF, 0xC0, 0xFF, 0xFB, // ip6(u32)
        0x00, 0x06, 0x75, 0x30, // reserved(u8), proto(u8), port(u16)
    ];
    let message: &[u8] = &[header, payload].concat();

    assert_eq!(
        Message::from_slice(message).unwrap(),
        Message::Sd(
            Header {
                message_id: MessageId {
                    service_id: 0xFFFF,
                    method_id: 0x8100,
                },
                length: 72,
                request_id: RequestId {
                    client_id: 0x0000,
                    session_id: 0x0000,
                },
                protocol_version: 0x01,
                interface_version: 0x01,
                message_type: MessageType::Notification,
                return_code: ReturnCode::Okay,
            },
            SdPayload {
                flags: 0xC0,
                entries: vec![SdEntry::OfferService(SdServiceEntry {
                    service_id: 0x0103,
                    instance_id: 0x0001,
                    major_version: 0x02,
                    minor_version: 0x0000000A,
                    ttl: 0x00000003,
                    options: SdOptionRef {
                        index1: 0,
                        index2: 0,
                        num1: 2,
                        num2: 0,
                    },
                })],
                options: vec![
                    SdOption::Ip4Unicast(SdEndpointOption {
                        ip: IpAddr::V4(u32::from_be_bytes([127, 0, 0, 1])),
                        port: 30000,
                        proto: IpProto::UDP,
                    }),
                    SdOption::Ip6Unicast(SdEndpointOption {
                        ip: IpAddr::V6(0xFF0E_0000_0000_0000_0000_FFFF_EFC0_FFFBu128),
                        port: 30000,
                        proto: IpProto::TCP,
                    }),
                ],
            },
        )
    );
}

#[test]
fn parse_subscribe_eventgroup_and_ack_sd_message() {
    let header: &[u8] = &[
        0xFF, 0xFF, 0x81, 0x00, // serviceId(u16), methodId(u16)
        0x00, 0x00, 0x00, 0x48, // length(u32)
        0x00, 0x00, 0x00, 0x00, // clientId(u16), sessionId(u16)
        0x01, 0x01, 0x02, 0x00, // proto(u8), version(u8), messageType,(u8) returnCode(u8)
    ];
    let payload: &[u8] = &[
        0xC0, 0x00, 0x00, 0x00, // sdFlags(08), reserved(u24)
        // entries
        0x00, 0x00, 0x00, 0x20, // entries-length(u32)
        // subscribe-eventgroup
        0x06, 0x01, 0x00, 0x10, // entryType(u8), index1(u8), index2,(u8) num1|2(u8)
        0x01, 0x03, 0x00, 0x01, // serviceId(u16), instanceId(u16)
        0x02, 0x00, 0x00, 0x03, // majorVersion(u8), ttl(u24)
        0x00, 0x00, 0x01, 0xC8, // reserved(u16), eventgroupId(u16)
        // subscribe-eventgroup-ack
        0x07, 0x00, 0x01, 0x01, // entryType(u8), index1(u8), index2,(u8) num1|2(u8)
        0x01, 0x03, 0x00, 0x01, // serviceId(u16), instanceId(u16)
        0x02, 0x00, 0x00, 0x03, // majorVersion(u8), ttl(u24)
        0x00, 0x00, 0x01, 0xC8, // reserved(u16), eventgroupId(u16)
        // options
        0x00, 0x00, 0x00, 0x14, // options-length(u32)
        // unrelated option (dropped)
        0x00, 0x05, 0x01, 0x00, // length(u16), optionType(u8), reserved(u8)
        0x66, 0x6F, 0x6F, 0x00, // config(String)
        // ip-4 endpoint
        0x00, 0x09, 0x04, 0x00, // length(u16), optionType(u8), reserved(u8)
        0x7F, 0x00, 0x00, 0x01, // ip4(u32)
        0x00, 0x11, 0x75, 0x30, // reserved(u8), proto(u8), port(u16)
    ];
    let message: &[u8] = &[header, payload].concat();

    assert_eq!(
        Message::from_slice(message).unwrap(),
        Message::Sd(
            Header {
                message_id: MessageId {
                    service_id: 0xFFFF,
                    method_id: 0x8100,
                },
                length: 72,
                request_id: RequestId {
                    client_id: 0x0000,
                    session_id: 0x0000,
                },
                protocol_version: 0x01,
                interface_version: 0x01,
                message_type: MessageType::Notification,
                return_code: ReturnCode::Okay,
            },
            SdPayload {
                flags: 0xC0,
                entries: vec![
                    SdEntry::SubscribeEventgroup(SdEventgroupEntry {
                        service_id: 0x0103,
                        eventgroup_id: 0x01C8,
                        instance_id: 0x0001,
                        major_version: 0x02,
                        ttl: 0x00000003,
                        options: SdOptionRef {
                            index1: 1,
                            index2: 0,
                            num1: 1,
                            num2: 0,
                        },
                    }),
                    SdEntry::SubscribeEventgroupAck(SdEventgroupEntry {
                        service_id: 0x0103,
                        eventgroup_id: 0x01C8,
                        instance_id: 0x0001,
                        major_version: 0x02,
                        ttl: 0x00000003,
                        options: SdOptionRef {
                            index1: 0,
                            index2: 1,
                            num1: 0,
                            num2: 1,
                        },
                    })
                ],
                options: vec![SdOption::Ip4Unicast(SdEndpointOption {
                    ip: IpAddr::V4(u32::from_be_bytes([127, 0, 0, 1])),
                    port: 30000,
                    proto: IpProto::UDP,
                })],
            },
        )
    );
}
