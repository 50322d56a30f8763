//! The SOME/IP message model: headers, message types, return codes and the
//! service discovery payload.

use crate::error::Error;
use vstd::prelude::*;
use vstd::std_specs::convert::FromSpecImpl;
use vstd::std_specs::convert::TryFromSpecImpl;

verus! {

/// Length trait for items with a fixed length.
pub trait Length {
    /// The fixed length of an item
    const LENGTH: usize;
}

/// Different kinds of SOME/IP messages.
#[derive(Debug, PartialEq, Eq)]
pub enum Message<'a> {
    /// RPC Message
    Rpc(Header, RpcPayload<'a>),
    /// SD Message
    Sd(Header, SdPayload),
    /// Magic Cookie Client
    CookieClient,
    /// Magic Cookie Server
    CookieServer,
}

/// The contents of a message.
pub enum MessageView {
    /// RPC Message
    Rpc(Header, Seq<u8>),
    /// SD Message
    Sd(Header, SdPayloadView),
    /// Magic Cookie Client
    CookieClient,
    /// Magic Cookie Server
    CookieServer,
}

impl<'a> View for Message<'a> {
    type V = MessageView;

    open spec fn view(&self) -> MessageView {
        match self {
            Message::Rpc(h, p) => MessageView::Rpc(*h, p@),
            Message::Sd(h, p) => MessageView::Sd(*h, p@),
            Message::CookieClient => MessageView::CookieClient,
            Message::CookieServer => MessageView::CookieServer,
        }
    }
}

/// The header of the magic cookie that a client sends.
pub open spec fn client_cookie_header() -> Header {
    Header {
        message_id: MessageId { service_id: 0xFFFF, method_id: 0x0000 },
        length: 8,
        request_id: RequestId { client_id: 0xDEAD, session_id: 0xBEEF },
        protocol_version: 0x01,
        interface_version: 0x01,
        message_type: MessageType::RequestNoReturn,
        return_code: ReturnCode::Okay,
    }
}

/// The header of the magic cookie that a server sends.
pub open spec fn server_cookie_header() -> Header {
    Header {
        message_id: MessageId { service_id: 0xFFFF, method_id: 0x8000 },
        length: 8,
        request_id: RequestId { client_id: 0xDEAD, session_id: 0xBEEF },
        protocol_version: 0x01,
        interface_version: 0x01,
        message_type: MessageType::Notification,
        return_code: ReturnCode::Okay,
    }
}

/// Represents the RpcPayload within a RPC message.
pub type RpcPayload<'a> = &'a [u8];

/// Represents the header of a SOME/IP message.
#[derive(Clone, Copy, Debug, PartialEq, Eq, Structural)]
pub struct Header {
    /// Message id
    pub message_id: MessageId,
    /// Message length
    pub length: u32,
    /// Request id
    pub request_id: RequestId,
    /// Protocol version
    pub protocol_version: ProtocolVersion,
    /// Interface version
    pub interface_version: InterfaceVersion,
    /// Message type
    pub message_type: MessageType,
    /// Return code
    pub return_code: ReturnCode,
}

/// The service id, method id, protocol version, interface version, message
/// type and return code of service discovery messages.
pub open spec fn is_sd_header(h: Header) -> bool {
    &&& h.message_id.service_id == 0xFFFF
    &&& h.message_id.method_id == 0x8100
    &&& h.protocol_version == 0x01
    &&& h.interface_version == 0x01
    &&& h.message_type == MessageType::Notification
    &&& h.return_code == ReturnCode::Okay
}

impl Header {
    /// Creates a new header with the given message id,
    /// length, request id, protocol version, interface
    /// version, message type and return code.
    pub fn new(
        message_id: MessageId,
        length: u32,
        request_id: RequestId,
        protocol_version: ProtocolVersion,
        interface_version: InterfaceVersion,
        message_type: MessageType,
        return_code: ReturnCode,
    ) -> (r: Self)
        ensures
            r == (Header {
                message_id,
                length,
                request_id,
                protocol_version,
                interface_version,
                message_type,
                return_code,
            }),
    {
        Self {
            message_id,
            length,
            request_id,
            protocol_version,
            interface_version,
            message_type,
            return_code,
        }
    }

    /// Get message id
    pub fn message_id(&self) -> (r: &MessageId)
        ensures
            *r == self.message_id,
    {
        &self.message_id
    }

    /// Raw length field
    pub fn length(&self) -> (r: u32)
        ensures
            r == self.length,
    {
        self.length
    }

    /// The length of the message associated with the header
    pub fn message_len(&self) -> (r: usize)
        requires
            self.length + 8 <= usize::MAX,
        ensures
            r == self.length + 8,
    {
        self.length as usize + 8
    }

    /// The length of the payload associated with the header
    pub fn payload_len(&self) -> (r: usize)
        requires
            self.length >= 8,
        ensures
            r == self.length - 8,
    {
        self.length as usize - 8
    }

    /// Get request id
    pub fn request_id(&self) -> (r: &RequestId)
        ensures
            *r == self.request_id,
    {
        &self.request_id
    }

    /// Get client id
    pub fn client_id(&self) -> (r: ClientId)
        ensures
            r == self.request_id.client_id,
    {
        self.request_id.client_id()
    }

    /// Get session id
    pub fn session_id(&self) -> (r: SessionId)
        ensures
            r == self.request_id.session_id,
    {
        self.request_id.session_id()
    }

    /// Get protocol version
    pub fn protocol_version(&self) -> (r: ProtocolVersion)
        ensures
            r == self.protocol_version,
    {
        self.protocol_version
    }

    /// Get interface version
    pub fn interface_version(&self) -> (r: InterfaceVersion)
        ensures
            r == self.interface_version,
    {
        self.interface_version
    }

    /// Get message type
    pub fn message_type(&self) -> (r: MessageType)
        ensures
            r == self.message_type,
    {
        self.message_type
    }

    /// Get return code
    pub fn return_code(&self) -> (r: ReturnCode)
        ensures
            r == self.return_code,
    {
        self.return_code
    }

    /// Returns true if the header indicates a SD message
    pub fn is_sd(&self) -> (r: bool)
        ensures
            r == is_sd_header(*self),
    {
        self.message_id.service_id == 0xFFFF && self.message_id.method_id == 0x8100
            && self.protocol_version == 0x01 && self.interface_version == 0x01
            && self.message_type == MessageType::Notification && self.return_code == ReturnCode::Okay
    }
}

/// Provides the fixed length of a Header
impl Length for Header {
    /// Fixed length
    const LENGTH: usize = 16;
}

/// Represents the MessageId within the header.
#[derive(Clone, Copy, Debug, Default, PartialEq, Eq, Structural)]
pub struct MessageId {
    /// Service id
    pub service_id: ServiceId,
    /// Method id
    pub method_id: MethodId,
}

impl MessageId {
    /// Construct a new MessageId
    pub fn new(service_id: ServiceId, method_id: MethodId) -> (r: Self)
        ensures
            r.service_id == service_id,
            r.method_id == method_id,
    {
        Self { service_id, method_id }
    }
}

/// Transforms a pair of a service id and a method id to a MessageId.
impl From<(ServiceId, MethodId)> for MessageId {
    fn from(value: (ServiceId, MethodId)) -> (r: Self) {
        Self { service_id: value.0, method_id: value.1 }
    }
}

impl FromSpecImpl<(ServiceId, MethodId)> for MessageId {
    open spec fn obeys_from_spec() -> bool {
        true
    }

    open spec fn from_spec(value: (ServiceId, MethodId)) -> Self {
        MessageId { service_id: value.0, method_id: value.1 }
    }
}

/// The message id whose service id is the high and whose method id is the
/// low half of `value`.
pub open spec fn message_id_of_u32(value: u32) -> MessageId {
    MessageId { service_id: (value >> 16u32) as u16, method_id: (value & 0xFFFFu32) as u16 }
}

/// Transforms a u32 to a MessageId.
impl From<u32> for MessageId {
    fn from(value: u32) -> (r: Self) {
        Self { service_id: (value >> 16u32) as u16, method_id: (value & 0xFFFFu32) as u16 }
    }
}

impl FromSpecImpl<u32> for MessageId {
    open spec fn obeys_from_spec() -> bool {
        true
    }

    open spec fn from_spec(value: u32) -> Self {
        message_id_of_u32(value)
    }
}

/// Represents the ServiceId within the MessageId.
pub type ServiceId = u16;

/// Represents the MethodId within the MessageId.
pub type MethodId = u16;

/// Represents the RequestId within the header.
#[derive(Clone, Copy, Debug, Default, PartialEq, Eq, Structural)]
pub struct RequestId {
    /// Client id
    pub client_id: ClientId,
    /// Session id
    pub session_id: SessionId,
}

impl RequestId {
    /// Construct a new RequestId
    pub fn new(client_id: ClientId, session_id: SessionId) -> (r: Self)
        ensures
            r.client_id == client_id,
            r.session_id == session_id,
    {
        Self { client_id, session_id }
    }

    /// Get client id
    pub fn client_id(&self) -> (r: ClientId)
        ensures
            r == self.client_id,
    {
        self.client_id
    }

    /// Get session id
    pub fn session_id(&self) -> (r: SessionId)
        ensures
            r == self.session_id,
    {
        self.session_id
    }
}

/// Transforms a pair of a client id and a session id to a RequestId.
impl From<(ClientId, SessionId)> for RequestId {
    fn from(value: (ClientId, SessionId)) -> (r: Self) {
        Self { client_id: value.0, session_id: value.1 }
    }
}

impl FromSpecImpl<(ClientId, SessionId)> for RequestId {
    open spec fn obeys_from_spec() -> bool {
        true
    }

    open spec fn from_spec(value: (ClientId, SessionId)) -> Self {
        RequestId { client_id: value.0, session_id: value.1 }
    }
}

/// The request id whose client id is the high and whose session id is the
/// low half of `value`.
pub open spec fn request_id_of_u32(value: u32) -> RequestId {
    RequestId { client_id: (value >> 16u32) as u16, session_id: (value & 0xFFFFu32) as u16 }
}

/// Transforms a u32 to a RequestId.
impl From<u32> for RequestId {
    fn from(value: u32) -> (r: Self) {
        Self { client_id: (value >> 16u32) as u16, session_id: (value & 0xFFFFu32) as u16 }
    }
}

impl FromSpecImpl<u32> for RequestId {
    open spec fn obeys_from_spec() -> bool {
        true
    }

    open spec fn from_spec(value: u32) -> Self {
        request_id_of_u32(value)
    }
}

/// Represents the ClientId within the RequestID.
pub type ClientId = u16;

/// Represents the SessionId within the RequestID.
pub type SessionId = u16;

/// Represents the ProtocolVersion within the header.
pub type ProtocolVersion = u8;

/// Represents the InterfaceVersion within the header.
pub type InterfaceVersion = u8;

/// Different kinds of MessageType accepted in a header.
#[derive(Copy, Clone, Debug, PartialEq, Eq, Structural)]
pub enum MessageType {
    /// Request
    Request,
    /// Rquest no return
    RequestNoReturn,
    /// Notification
    Notification,
    /// Repsonse
    Response,
    /// Error
    Error,
    /// Tp request
    TpRequest,
    /// Tp request no return
    TpRequestNoReturn,
    /// Tp notification
    TpNotification,
    /// Tp response
    TpResponse,
    /// Tp error
    TpError,
}

/// Different kinds of EntriesTyp accepted in a SdPayload.
#[derive(Copy, Clone, Debug, PartialEq, Eq, Structural)]
pub enum EntriesType {
    /// Find service
    FindService,
    /// Offer service
    OfferService,
    /// Subscribe event group
    SubscribeEventgroup,
    /// Subscribe event group ack
    SubscribeEventgroupACK,
}

/// The wire code of a message type.
pub open spec fn message_type_code(t: MessageType) -> u8 {
    match t {
        MessageType::Request => 0x00,
        MessageType::RequestNoReturn => 0x01,
        MessageType::Notification => 0x02,
        MessageType::Response => 0x80,
        MessageType::Error => 0x81,
        MessageType::TpRequest => 0x20,
        MessageType::TpRequestNoReturn => 0x21,
        MessageType::TpNotification => 0x22,
        MessageType::TpResponse => 0xa0,
        MessageType::TpError => 0xa1,
    }
}

/// The message type with the wire code `i`, or the error for an unknown code.
pub open spec fn message_type_of(i: u8) -> Result<MessageType, Error> {
    if i == 0x00 {
        Ok(MessageType::Request)
    } else if i == 0x01 {
        Ok(MessageType::RequestNoReturn)
    } else if i == 0x02 {
        Ok(MessageType::Notification)
    } else if i == 0x80 {
        Ok(MessageType::Response)
    } else if i == 0x81 {
        Ok(MessageType::Error)
    } else if i == 0x20 {
        Ok(MessageType::TpRequest)
    } else if i == 0x21 {
        Ok(MessageType::TpRequestNoReturn)
    } else if i == 0x22 {
        Ok(MessageType::TpNotification)
    } else if i == 0xa0 {
        Ok(MessageType::TpResponse)
    } else if i == 0xa1 {
        Ok(MessageType::TpError)
    } else {
        Err(Error::InvalidMessageType(i))
    }
}

/// Transforms a u8 representing the type to a MessageType.
impl TryFrom<u8> for MessageType {
    type Error = Error;

    fn try_from(i: u8) -> (r: Result<Self, Error>) {
        match i {
            0x00 => Ok(Self::Request),
            0x01 => Ok(Self::RequestNoReturn),
            0x02 => Ok(Self::Notification),
            0x80 => Ok(Self::Response),
            0x81 => Ok(Self::Error),
            0x20 => Ok(Self::TpRequest),
            0x21 => Ok(Self::TpRequestNoReturn),
            0x22 => Ok(Self::TpNotification),
            0xa0 => Ok(Self::TpResponse),
            0xa1 => Ok(Self::TpError),
            value => Err(Error::InvalidMessageType(value)),
        }
    }
}

impl TryFromSpecImpl<u8> for MessageType {
    open spec fn obeys_try_from_spec() -> bool {
        true
    }

    open spec fn try_from_spec(i: u8) -> Result<Self, Error> {
        message_type_of(i)
    }
}

/// Transforms a MessageType to a u8 representing the type.
impl From<MessageType> for u8 {
    fn from(i: MessageType) -> (r: u8) {
        match i {
            MessageType::Request => 0x00,
            MessageType::RequestNoReturn => 0x01,
            MessageType::Notification => 0x02,
            MessageType::Response => 0x80,
            MessageType::Error => 0x81,
            MessageType::TpRequest => 0x20,
            MessageType::TpRequestNoReturn => 0x21,
            MessageType::TpNotification => 0x22,
            MessageType::TpResponse => 0xa0,
            MessageType::TpError => 0xa1,
        }
    }
}

impl FromSpecImpl<MessageType> for u8 {
    open spec fn obeys_from_spec() -> bool {
        true
    }

    open spec fn from_spec(i: MessageType) -> u8 {
        message_type_code(i)
    }
}

/// Different kinds of ReturnCode accepted in a header.
#[derive(Copy, Clone, Debug, PartialEq, Eq, Structural)]
pub enum ReturnCode {
    /// No error occurred
    Okay,
    /// An unspecified error occurred
    NotOk,
    /// The requested Service ID is unknown.
    UnknownService,
    /// The requested Method ID is unknown. Service ID is known.
    UnknownMethod,
    /// Service ID and Method ID are known. Application not running.
    NotReady,
    /// System running the service is not reachable (internal error code only).
    NotReachable,
    /// A timeout occurred (internal error code only).
    Timeout,
    /// Version of SOME/IP protocol not supported
    WrongProtocolVersion,
    /// Interface version mismatch
    WrongInterfaceVersion,
    /// Deserialization error, so that payload cannot be deserialized.
    MalformedMessage,
    /// An unexpected message type was received.
    WrongMessageType,
    /// Reserved for generic SOME/IP errors.
    ReservedGeneric(u8),
    /// Reserved for specific errors of services and methods.
    ReservedSpecific(u8),
}

/// The wire code of a return code.
pub open spec fn return_code_code(r: ReturnCode) -> u8 {
    match r {
        ReturnCode::Okay => 0x00,
        ReturnCode::NotOk => 0x01,
        ReturnCode::UnknownService => 0x02,
        ReturnCode::UnknownMethod => 0x03,
        ReturnCode::NotReady => 0x04,
        ReturnCode::NotReachable => 0x05,
        ReturnCode::Timeout => 0x06,
        ReturnCode::WrongProtocolVersion => 0x07,
        ReturnCode::WrongInterfaceVersion => 0x08,
        ReturnCode::MalformedMessage => 0x09,
        ReturnCode::WrongMessageType => 0x0a,
        ReturnCode::ReservedGeneric(i) => i,
        ReturnCode::ReservedSpecific(i) => i,
    }
}

/// The return code with the wire code `i`, or the error for an unknown code.
pub open spec fn return_code_of(i: u8) -> Result<ReturnCode, Error> {
    if i == 0x00 {
        Ok(ReturnCode::Okay)
    } else if i == 0x01 {
        Ok(ReturnCode::NotOk)
    } else if i == 0x02 {
        Ok(ReturnCode::UnknownService)
    } else if i == 0x03 {
        Ok(ReturnCode::UnknownMethod)
    } else if i == 0x04 {
        Ok(ReturnCode::NotReady)
    } else if i == 0x05 {
        Ok(ReturnCode::NotReachable)
    } else if i == 0x06 {
        Ok(ReturnCode::Timeout)
    } else if i == 0x07 {
        Ok(ReturnCode::WrongProtocolVersion)
    } else if i == 0x08 {
        Ok(ReturnCode::WrongInterfaceVersion)
    } else if i == 0x09 {
        Ok(ReturnCode::MalformedMessage)
    } else if i == 0x0a {
        Ok(ReturnCode::WrongMessageType)
    } else if 0x0b <= i <= 0x1f {
        Ok(ReturnCode::ReservedGeneric(i))
    } else if 0x20 <= i <= 0x5e {
        Ok(ReturnCode::ReservedSpecific(i))
    } else {
        Err(Error::InvalidReturnCode(i))
    }
}

/// A return code that the wire format can carry: the reserved variants hold
/// a code of their own range.
pub open spec fn return_code_valid(r: ReturnCode) -> bool {
    match r {
        ReturnCode::ReservedGeneric(i) => 0x0b <= i <= 0x1f,
        ReturnCode::ReservedSpecific(i) => 0x20 <= i <= 0x5e,
        _ => true,
    }
}

/// Transforms a u8 representing the type to a ReturnCode.
impl TryFrom<u8> for ReturnCode {
    type Error = Error;

    fn try_from(i: u8) -> (r: Result<Self, Self::Error>) {
        match i {
            0x00 => Ok(Self::Okay),
            0x01 => Ok(Self::NotOk),
            0x02 => Ok(Self::UnknownService),
            0x03 => Ok(Self::UnknownMethod),
            0x04 => Ok(Self::NotReady),
            0x05 => Ok(Self::NotReachable),
            0x06 => Ok(Self::Timeout),
            0x07 => Ok(Self::WrongProtocolVersion),
            0x08 => Ok(Self::WrongInterfaceVersion),
            0x09 => Ok(Self::MalformedMessage),
            0x0a => Ok(Self::WrongMessageType),
            0x0b..=0x1f => Ok(Self::ReservedGeneric(i)),
            0x20..=0x5e => Ok(Self::ReservedSpecific(i)),
            value => Err(Error::InvalidReturnCode(value)),
        }
    }
}

impl TryFromSpecImpl<u8> for ReturnCode {
    open spec fn obeys_try_from_spec() -> bool {
        true
    }

    open spec fn try_from_spec(i: u8) -> Result<Self, Error> {
        return_code_of(i)
    }
}

/// Transforms a ReturnCode to a u8 representing the type.
impl From<ReturnCode> for u8 {
    fn from(i: ReturnCode) -> (r: u8) {
        match i {
            ReturnCode::Okay => 0x00,
            ReturnCode::NotOk => 0x01,
            ReturnCode::UnknownService => 0x02,
            ReturnCode::UnknownMethod => 0x03,
            ReturnCode::NotReady => 0x04,
            ReturnCode::NotReachable => 0x05,
            ReturnCode::Timeout => 0x06,
            ReturnCode::WrongProtocolVersion => 0x07,
            ReturnCode::WrongInterfaceVersion => 0x08,
            ReturnCode::MalformedMessage => 0x09,
            ReturnCode::WrongMessageType => 0x0a,
            ReturnCode::ReservedGeneric(i) => i,
            ReturnCode::ReservedSpecific(i) => i,
        }
    }
}

impl FromSpecImpl<ReturnCode> for u8 {
    open spec fn obeys_from_spec() -> bool {
        true
    }

    open spec fn from_spec(i: ReturnCode) -> u8 {
        return_code_code(i)
    }
}

/// Converting a message type to its code and back gives the message type.
pub proof fn lemma_message_type_roundtrip(t: MessageType)
    ensures
        message_type_of(message_type_code(t)) == Ok::<MessageType, Error>(t),
{
}

/// A code that names a message type is the code of that message type.
pub proof fn lemma_message_type_code_roundtrip(i: u8)
    ensures
        message_type_of(i) matches Ok(t) ==> message_type_code(t) == i,
{
}

/// Converting a valid return code to its code and back gives the return code.
pub proof fn lemma_return_code_roundtrip(r: ReturnCode)
    requires
        return_code_valid(r),
    ensures
        return_code_of(return_code_code(r)) == Ok::<ReturnCode, Error>(r),
{
}

/// A code that names a return code is the code of that return code, and the
/// return code is valid.
pub proof fn lemma_return_code_code_roundtrip(i: u8)
    ensures
        return_code_of(i) matches Ok(r) ==> return_code_code(r) == i && return_code_valid(r),
{
}

/// Represents the SdPayload within a SD message.
#[derive(Clone, Debug, PartialEq, Eq)]
pub struct SdPayload {
    /// Flags
    pub flags: SdFlags,
    /// Entries
    pub entries: Vec<SdEntry>,
    /// Options
    pub options: Vec<SdOption>,
}

/// The contents of a service discovery payload.
pub struct SdPayloadView {
    /// Flags
    pub flags: u8,
    /// Entries
    pub entries: Seq<SdEntry>,
    /// Options
    pub options: Seq<SdOption>,
}

impl View for SdPayload {
    type V = SdPayloadView;

    open spec fn view(&self) -> SdPayloadView {
        SdPayloadView { flags: self.flags, entries: self.entries@, options: self.options@ }
    }
}

/// The length in bytes of an option.
pub open spec fn option_len(o: SdOption) -> nat {
    match o {
        SdOption::Ip4Unicast(_) => 12,
        SdOption::Ip4Multicast(_) => 12,
        SdOption::Ip6Unicast(_) => 24,
        SdOption::Ip6Multicast(_) => 24,
    }
}

/// The summed length in bytes of a sequence of options.
pub open spec fn options_total_len(options: Seq<SdOption>) -> nat
    decreases options.len(),
{
    if options.len() == 0 {
        0
    } else {
        options_total_len(options.drop_last()) + option_len(options.last())
    }
}

/// The length in bytes of the entries of a payload.
pub open spec fn sd_entries_len(p: SdPayloadView) -> nat {
    16 * p.entries.len()
}

/// The length in bytes of a payload: flags, reserved bytes and the two
/// length fields, then the entries and the options.
pub open spec fn sd_payload_len(p: SdPayloadView) -> nat {
    12 + sd_entries_len(p) + options_total_len(p.options)
}

/// The endpoint of an option.
pub open spec fn option_endpoint(o: SdOption) -> SdEndpointOption {
    match o {
        SdOption::Ip4Unicast(e) => e,
        SdOption::Ip4Multicast(e) => e,
        SdOption::Ip6Unicast(e) => e,
        SdOption::Ip6Multicast(e) => e,
    }
}

/// The endpoints of the `num` options that start at `index`, as far as the
/// options reach.
pub open spec fn endpoints_in_run(options: Seq<SdOption>, index: int, num: int) -> Seq<
    SdEndpointOption,
> {
    let lo = if index < options.len() { index } else { options.len() as int };
    let hi = if index + num < options.len() { index + num } else { options.len() as int };
    options.subrange(lo, hi).map_values(|o: SdOption| option_endpoint(o))
}

/// The endpoints that an option reference names: its first run, then its
/// second.
pub open spec fn referenced_endpoints(options: Seq<SdOption>, r: SdOptionRef) -> Seq<
    SdEndpointOption,
> {
    endpoints_in_run(options, r.index1 as int, r.num1 as int) + endpoints_in_run(
        options,
        r.index2 as int,
        r.num2 as int,
    )
}

/// The option reference of an entry.
pub open spec fn entry_option_ref(e: SdEntry) -> SdOptionRef {
    match e {
        SdEntry::FindService(entry) => entry.options,
        SdEntry::OfferService(entry) => entry.options,
        SdEntry::SubscribeEventgroup(entry) => entry.options,
        SdEntry::SubscribeEventgroupAck(entry) => entry.options,
    }
}

impl SdPayload {
    /// Length of the payload in bytes
    pub fn len(&self) -> (r: usize)
        requires
            sd_payload_len(self@) <= usize::MAX,
        ensures
            r == sd_payload_len(self@),
    {
        let o = self.options_len();
        12 + self.entries_len() + o
    }

    /// Length of the payload's entries in bytes
    pub fn entries_len(&self) -> (r: usize)
        requires
            sd_entries_len(self@) <= usize::MAX,
        ensures
            r == sd_entries_len(self@),
    {
        16 * self.entries.len()
    }

    /// Length of the payload's options in bytes
    pub fn options_len(&self) -> (r: usize)
        requires
            options_total_len(self.options@) <= usize::MAX,
        ensures
            r == options_total_len(self.options@),
    {
        let mut sum: usize = 0;
        let mut i: usize = 0;
        while i < self.options.len()
            invariant
                i <= self.options@.len(),
                options_total_len(self.options@) <= usize::MAX,
                sum == options_total_len(self.options@.subrange(0, i as int)),
            decreases self.options@.len() - i,
        {
            proof {
                let s = self.options@;
                assert(s.subrange(0, i + 1).drop_last() =~= s.subrange(0, i as int));
                lemma_options_total_len_prefix(s, i + 1);
                lemma_options_total_len_prefix_le(s, i + 1);
            }
            sum = sum + self.options[i].len();
            i = i + 1;
        }
        proof {
            assert(self.options@.subrange(0, i as int) =~= self.options@);
        }
        sum
    }

    /// Returns true if the reboot flag is set
    pub fn reboot_flag(&self) -> (r: bool)
        ensures
            r == (self.flags & 0x80u8 != 0x00u8),
    {
        self.flags & 0x80 != 0x00
    }

    /// Returns true if the unicast flag is set
    pub fn unicast_flag(&self) -> (r: bool)
        ensures
            r == (self.flags & 0x40u8 != 0x00u8),
    {
        self.flags & 0x40 != 0x00
    }

    /// Returns the associated options of an entry
    pub fn options(&self, entry_index: usize) -> (r: Vec<&SdEndpointOption>)
        requires
            entry_index < self.entries@.len(),
        ensures
            r@.map_values(|e: &SdEndpointOption| *e) == referenced_endpoints(
                self.options@,
                entry_option_ref(self.entries@[entry_index as int]),
            ),
    {
        match &self.entries[entry_index] {
            SdEntry::FindService(entry) => self.get_options(&entry.options),
            SdEntry::OfferService(entry) => self.get_options(&entry.options),
            SdEntry::SubscribeEventgroup(entry) => self.get_options(&entry.options),
            SdEntry::SubscribeEventgroupAck(entry) => self.get_options(&entry.options),
        }
    }

    fn get_options(&self, option_ref: &SdOptionRef) -> (r: Vec<&SdEndpointOption>)
        ensures
            r@.map_values(|e: &SdEndpointOption| *e) == referenced_endpoints(
                self.options@,
                *option_ref,
            ),
    {
        let mut options: Vec<&SdEndpointOption> = Vec::new();
        self.push_run(&mut options, option_ref.index1, option_ref.num1);
        let ghost first = options@.map_values(|e: &SdEndpointOption| *e);
        self.push_run(&mut options, option_ref.index2, option_ref.num2);
        proof {
            assert(options@.map_values(|e: &SdEndpointOption| *e) =~= referenced_endpoints(
                self.options@,
                *option_ref,
            ));
        }
        options
    }

    fn push_run<'a>(&'a self, out: &mut Vec<&'a SdEndpointOption>, index: u8, num: u8)
        ensures
            final(out)@.map_values(|e: &SdEndpointOption| *e) == old(out)@.map_values(
                |e: &SdEndpointOption| *e,
            ) + endpoints_in_run(self.options@, index as int, num as int),
    {
        let ghost start = old(out)@.map_values(|e: &SdEndpointOption| *e);
        let mut i: u8 = 0;
        while i < num
            invariant
                i <= num,
                out@.map_values(|e: &SdEndpointOption| *e) == start + endpoints_in_run(
                    self.options@,
                    index as int,
                    i as int,
                ),
            decreases num - i,
        {
            let k: usize = index as usize + i as usize;
            let ghost before = out@.map_values(|e: &SdEndpointOption| *e);
            if k < self.options.len() {
                let item = match &self.options[k] {
                    SdOption::Ip4Unicast(value) => value,
                    SdOption::Ip4Multicast(value) => value,
                    SdOption::Ip6Unicast(value) => value,
                    SdOption::Ip6Multicast(value) => value,
                };
                out.push(item);
                proof {
                    let s = self.options@;
                    let lo = if index < s.len() { index as int } else { s.len() as int };
                    assert(s.subrange(lo, k + 1) =~= s.subrange(lo, k as int).push(s[k as int]));
                    assert(out@.map_values(|e: &SdEndpointOption| *e) =~= before.push(*item));
                }
            }
            proof {
                assert(out@.map_values(|e: &SdEndpointOption| *e) =~= start + endpoints_in_run(
                    self.options@,
                    index as int,
                    i + 1,
                ));
            }
            i = i + 1;
        }
    }
}

/// The length of a prefix of options grows by the length of its last option.
pub proof fn lemma_options_total_len_prefix(s: Seq<SdOption>, n: int)
    requires
        0 < n <= s.len(),
    ensures
        options_total_len(s.subrange(0, n)) == options_total_len(s.subrange(0, n - 1))
            + option_len(s[n - 1]),
{
    assert(s.subrange(0, n).drop_last() =~= s.subrange(0, n - 1));
}

/// The length of a prefix of options is at most the length of all of them.
pub proof fn lemma_options_total_len_prefix_le(s: Seq<SdOption>, n: int)
    requires
        0 <= n <= s.len(),
    ensures
        options_total_len(s.subrange(0, n)) <= options_total_len(s),
    decreases s.len() - n,
{
    if n < s.len() {
        lemma_options_total_len_prefix(s, n + 1);
        lemma_options_total_len_prefix_le(s, n + 1);
    } else {
        assert(s.subrange(0, n) =~= s);
    }
}

/// Represents the SdFlags within a SdPayload.
pub type SdFlags = u8;

/// Represents the Ttl (Time to live) within a SdPayload.
pub type Ttl = u32;

/// Different kinds of SdEntry accepted in a SdPayload.
#[derive(Clone, Copy, Debug, PartialEq, Eq, Structural)]
pub enum SdEntry {
    /// Find service entry
    FindService(SdServiceEntry),
    /// Offer service entry
    OfferService(SdServiceEntry),
    /// Subscribe eventgroup entry
    SubscribeEventgroup(SdEventgroupEntry),
    /// Subscribe eventgroup ack entry
    SubscribeEventgroupAck(SdEventgroupEntry),
}

/// The wire code of an entry's type.
pub open spec fn entry_type_code(e: SdEntry) -> u8 {
    match e {
        SdEntry::FindService(_) => 0x00,
        SdEntry::OfferService(_) => 0x01,
        SdEntry::SubscribeEventgroup(_) => 0x06,
        SdEntry::SubscribeEventgroupAck(_) => 0x07,
    }
}

/// The entry of a service type code, or the error for another code.
pub open spec fn service_entry_of(entry_type: u8, entry: SdServiceEntry) -> Result<SdEntry, Error> {
    if entry_type == 0x00 {
        Ok(SdEntry::FindService(entry))
    } else if entry_type == 0x01 {
        Ok(SdEntry::OfferService(entry))
    } else {
        Err(Error::UnknownSdEntry(entry_type))
    }
}

/// The entry of an eventgroup type code, or the error for another code.
pub open spec fn eventgroup_entry_of(entry_type: u8, entry: SdEventgroupEntry) -> Result<
    SdEntry,
    Error,
> {
    if entry_type == 0x06 {
        Ok(SdEntry::SubscribeEventgroup(entry))
    } else if entry_type == 0x07 {
        Ok(SdEntry::SubscribeEventgroupAck(entry))
    } else {
        Err(Error::UnknownSdEntry(entry_type))
    }
}

impl SdEntry {
    /// Returns true if the entry type relates to a service
    pub fn is_service(entry_type: u8) -> (r: bool)
        ensures
            r == (entry_type < 0x04),
    {
        entry_type < 0x04
    }

    /// The wire code of the entry's type.
    pub fn entry_type(&self) -> (r: u8)
        ensures
            r == entry_type_code(*self),
    {
        match self {
            SdEntry::FindService(_) => 0x00,
            SdEntry::OfferService(_) => 0x01,
            SdEntry::SubscribeEventgroup(_) => 0x06,
            SdEntry::SubscribeEventgroupAck(_) => 0x07,
        }
    }
}

/// Provides the fixed length of a SdEntry
impl Length for SdEntry {
    /// Fixed length
    const LENGTH: usize = 16;
}

/// Transforms a entry type and SdServiceEntry to a SdEntry.
impl TryFrom<(u8, SdServiceEntry)> for SdEntry {
    type Error = Error;

    fn try_from(i: (u8, SdServiceEntry)) -> (r: Result<Self, Error>) {
        let (entry_type, entry) = i;
        match entry_type {
            0x00 => Ok(SdEntry::FindService(entry)),
            0x01 => Ok(SdEntry::OfferService(entry)),
            entry_type => Err(Error::UnknownSdEntry(entry_type)),
        }
    }
}

impl TryFromSpecImpl<(u8, SdServiceEntry)> for SdEntry {
    open spec fn obeys_try_from_spec() -> bool {
        true
    }

    open spec fn try_from_spec(i: (u8, SdServiceEntry)) -> Result<Self, Error> {
        service_entry_of(i.0, i.1)
    }
}

/// Transforms a entry type and SdEventgroupEntry to a SdEntry.
impl TryFrom<(u8, SdEventgroupEntry)> for SdEntry {
    type Error = Error;

    fn try_from(i: (u8, SdEventgroupEntry)) -> (r: Result<Self, Error>) {
        let (entry_type, entry) = i;
        match entry_type {
            0x06 => Ok(SdEntry::SubscribeEventgroup(entry)),
            0x07 => Ok(SdEntry::SubscribeEventgroupAck(entry)),
            entry_type => Err(Error::UnknownSdEntry(entry_type)),
        }
    }
}

impl TryFromSpecImpl<(u8, SdEventgroupEntry)> for SdEntry {
    open spec fn obeys_try_from_spec() -> bool {
        true
    }

    open spec fn try_from_spec(i: (u8, SdEventgroupEntry)) -> Result<Self, Error> {
        eventgroup_entry_of(i.0, i.1)
    }
}

/// Represents a SdServiceEntry within a SdPayload.
#[derive(Clone, Copy, Debug, PartialEq, Eq, Structural)]
pub struct SdServiceEntry {
    /// Service id
    pub service_id: ServiceId,
    /// Instance id
    pub instance_id: InstanceId,
    /// Major version
    pub major_version: MajorVersion,
    /// Minor version
    pub minor_version: MinorVersion,
    /// TTL
    pub ttl: Ttl,
    /// The options referenced by this entry
    pub options: SdOptionRef,
}

impl SdServiceEntry {
    /// Returns true if the entry has a positive ttl
    pub fn has_ttl(&self) -> (r: bool)
        ensures
            r == (self.ttl != 0),
    {
        self.ttl != 0
    }
}

/// Represents a SdEventgroupEntry within a SdPayload.
#[derive(Clone, Copy, Debug, PartialEq, Eq, Structural)]
pub struct SdEventgroupEntry {
    /// Service id
    pub service_id: ServiceId,
    /// Instance id
    pub instance_id: InstanceId,
    /// Eventgroup id
    pub eventgroup_id: EventgroupId,
    /// Major version
    pub major_version: MajorVersion,
    /// TTL
    pub ttl: Ttl,
    /// The options referenced by this entry
    pub options: SdOptionRef,
}

impl SdEventgroupEntry {
    /// Returns true if the entry has a positive ttl
    pub fn has_ttl(&self) -> (r: bool)
        ensures
            r == (self.ttl != 0),
    {
        self.ttl != 0
    }
}

/// Represents the InstanceId within a SdEntry.
pub type InstanceId = u16;

/// Represents the EventgroupId within a SdEntry.
pub type EventgroupId = u16;

/// Represents the MajorVersion within a SdEntry.
pub type MajorVersion = u8;

/// Represents the MinorVersion within a SdEntry.
pub type MinorVersion = u32;

/// Represents the referenced options of a SdEntry.
#[derive(Clone, Copy, Debug, PartialEq, Eq, Structural)]
pub struct SdOptionRef {
    /// Index start of first options set
    pub index1: u8,
    /// Index start of second options set
    pub index2: u8,
    /// Number of options within the first options set
    pub num1: u8,
    /// Number of options within the second options set
    pub num2: u8,
}

/// Different kinds of SdOption accepted in a SdPayload.
#[derive(Clone, Copy, Debug, PartialEq, Eq, Structural)]
pub enum SdOption {
    /// Ip4 unicast endpoint option
    Ip4Unicast(SdEndpointOption),
    /// Ip4 multicast endpoint option
    Ip4Multicast(SdEndpointOption),
    /// Ip6 unicast endpoint option
    Ip6Unicast(SdEndpointOption),
    /// Ip6 multicast endpoint option
    Ip6Multicast(SdEndpointOption),
}

/// The wire code of an option's type.
pub open spec fn option_type_code(o: SdOption) -> u8 {
    match o {
        SdOption::Ip4Unicast(_) => 0x04,
        SdOption::Ip4Multicast(_) => 0x14,
        SdOption::Ip6Unicast(_) => 0x06,
        SdOption::Ip6Multicast(_) => 0x16,
    }
}

/// The option of an option type code and endpoint, or the error for an
/// unknown code.
pub open spec fn option_of(option_type: u8, option: SdEndpointOption) -> Result<SdOption, Error> {
    if option_type == 0x04 {
        Ok(SdOption::Ip4Unicast(option))
    } else if option_type == 0x14 {
        Ok(SdOption::Ip4Multicast(option))
    } else if option_type == 0x06 {
        Ok(SdOption::Ip6Unicast(option))
    } else if option_type == 0x16 {
        Ok(SdOption::Ip6Multicast(option))
    } else {
        Err(Error::UnknownSdOption(option_type))
    }
}

impl SdOption {
    /// Returns true if this is a IP option
    pub fn is_ip_option(option_type: u8) -> (r: bool)
        ensures
            r == (option_type == 0x04 || option_type == 0x14 || option_type == 0x06
                || option_type == 0x16),
    {
        Self::is_ip4_option(option_type) || Self::is_ip6_option(option_type)
    }

    /// Returns true if this is a IPv4 option
    pub fn is_ip4_option(option_type: u8) -> (r: bool)
        ensures
            r == (option_type == 0x04 || option_type == 0x14),
    {
        option_type == 0x04 || option_type == 0x14
    }

    /// Returns true if this is a IPv6 option
    pub fn is_ip6_option(option_type: u8) -> (r: bool)
        ensures
            r == (option_type == 0x06 || option_type == 0x16),
    {
        option_type == 0x06 || option_type == 0x16
    }

    /// Returns true if this is a multicast option
    pub fn is_multicast_option(option_type: u8) -> (r: bool)
        ensures
            r == (option_type == 0x14 || option_type == 0x16),
    {
        option_type == 0x14 || option_type == 0x16
    }

    /// Construct a new SD option from type and endpoint
    pub fn from(option_type: u8, option: SdEndpointOption) -> (r: Result<Self, Error>)
        ensures
            r == option_of(option_type, option),
    {
        match option_type {
            0x04 => Ok(SdOption::Ip4Unicast(option)),
            0x14 => Ok(SdOption::Ip4Multicast(option)),
            0x06 => Ok(SdOption::Ip6Unicast(option)),
            0x16 => Ok(SdOption::Ip6Multicast(option)),
            option_type => Err(Error::UnknownSdOption(option_type)),
        }
    }

    /// Length of the option in bytes
    pub fn len(&self) -> (r: usize)
        ensures
            r == option_len(*self),
    {
        match self {
            SdOption::Ip4Unicast(_) => 12,
            SdOption::Ip4Multicast(_) => 12,
            SdOption::Ip6Unicast(_) => 24,
            SdOption::Ip6Multicast(_) => 24,
        }
    }

    /// The wire code of the option's type.
    pub fn option_type(&self) -> (r: u8)
        ensures
            r == option_type_code(*self),
    {
        match self {
            SdOption::Ip4Unicast(_) => 0x04,
            SdOption::Ip4Multicast(_) => 0x14,
            SdOption::Ip6Unicast(_) => 0x06,
            SdOption::Ip6Multicast(_) => 0x16,
        }
    }
}

/// An IP address, as the number whose big-endian bytes are its octets.
#[derive(Clone, Copy, Debug, PartialEq, Eq, Structural)]
pub enum IpAddr {
    /// An IPv4 address.
    V4(u32),
    /// An IPv6 address.
    V6(u128),
}

/// Represents a SdEndpointOption within a SdPayload.
#[derive(Clone, Copy, Debug, PartialEq, Eq, Structural)]
pub struct SdEndpointOption {
    /// IP Address
    pub ip: IpAddr,
    /// Port number
    pub port: u16,
    /// IP Protocol
    pub proto: IpProto,
}

/// Different kinds of IpProto accepted in a SdEndpointOption.
#[derive(Clone, Copy, Debug, PartialEq, Eq, Structural)]
pub enum IpProto {
    /// User Datagram Protocol (UDP)
    UDP,
    /// Transmission Control Protocol (TCP)
    TCP,
}

/// The wire code of an IP protocol.
pub open spec fn ip_proto_code(p: IpProto) -> u8 {
    match p {
        IpProto::UDP => 0x11,
        IpProto::TCP => 0x06,
    }
}

/// The IP protocol of a wire code, or the error for an unknown code.
pub open spec fn ip_proto_of(i: u8) -> Result<IpProto, Error> {
    if i == 0x11 {
        Ok(IpProto::UDP)
    } else if i == 0x06 {
        Ok(IpProto::TCP)
    } else {
        Err(Error::InvalidIpProto(i))
    }
}

/// Transforms a u8 representing the type to a IpProto.
impl TryFrom<u8> for IpProto {
    type Error = Error;

    fn try_from(i: u8) -> (r: Result<Self, Error>) {
        match i {
            0x11 => Ok(Self::UDP),
            0x06 => Ok(Self::TCP),
            value => Err(Error::InvalidIpProto(value)),
        }
    }
}

impl TryFromSpecImpl<u8> for IpProto {
    open spec fn obeys_try_from_spec() -> bool {
        true
    }

    open spec fn try_from_spec(i: u8) -> Result<Self, Error> {
        ip_proto_of(i)
    }
}

/// Transforms a IpProto to a u8 representing the type.
impl From<IpProto> for u8 {
    fn from(i: IpProto) -> (r: u8) {
        match i {
            IpProto::UDP => 0x11,
            IpProto::TCP => 0x06,
        }
    }
}

impl FromSpecImpl<IpProto> for u8 {
    open spec fn obeys_from_spec() -> bool {
        true
    }

    open spec fn from_spec(i: IpProto) -> u8 {
        ip_proto_code(i)
    }
}

/// The scheme of the URL of an endpoint: `udp` or `tcp`.
pub open spec fn url_scheme_of(proto: IpProto) -> Seq<char> {
    match proto {
        IpProto::UDP => "udp"@,
        IpProto::TCP => "tcp"@,
    }
}

/// The scheme of the URL of an endpoint of the protocol `proto`.
pub fn url_scheme(proto: IpProto) -> (r: &'static str)
    ensures
        r@ == url_scheme_of(proto),
{
    match proto {
        IpProto::UDP => "udp",
        IpProto::TCP => "tcp",
    }
}

/// The host of a URL, as far as an endpoint takes it.
#[derive(Clone, Copy, Debug, PartialEq, Eq, Structural)]
pub enum UrlHost {
    /// The URL has no host.
    Missing,
    /// The host is a name that is no IP address.
    NotIp,
    /// The host is an IP address.
    Ip(IpAddr),
}

/// The endpoint of a URL of host `host`, port `port` and scheme `scheme`,
/// or the message of what it lacks: a host that is an IP address, a port,
/// and the scheme `tcp` or `udp`, in this order.
pub open spec fn endpoint_of_url_spec(host: UrlHost, port: Option<u16>, scheme: Seq<char>) -> Result<SdEndpointOption, Seq<char>> {
    match host {
        UrlHost::Missing => Err("invalid URL: missing host"@),
        UrlHost::NotIp => Err("invalid URL: host not an ip"@),
        UrlHost::Ip(ip) => match port {
            None => Err("invalid URL: missing port"@),
            Some(port) => if scheme == "tcp"@ {
                Ok(SdEndpointOption { ip, port, proto: IpProto::TCP })
            } else if scheme == "udp"@ {
                Ok(SdEndpointOption { ip, port, proto: IpProto::UDP })
            } else {
                Err("invalid URL: invalid scheme"@)
            },
        },
    }
}

/// The endpoint of a URL of host `host`, port `port` and scheme `scheme`,
/// or the message of what it lacks.
pub fn endpoint_of_url(host: UrlHost, port: Option<u16>, scheme: &str) -> (r: Result<SdEndpointOption, &'static str>)
    ensures
        match (r, endpoint_of_url_spec(host, port, scheme@)) {
            (Ok(e), Ok(f)) => e == f,
            (Err(m), Err(n)) => m@ == n,
            _ => false,
        },
{
    let ip = match host {
        UrlHost::Missing => {
            return Err("invalid URL: missing host");
        },
        UrlHost::NotIp => {
            return Err("invalid URL: host not an ip");
        },
        UrlHost::Ip(ip) => ip,
    };
    let port = match port {
        Some(p) => p,
        None => {
            return Err("invalid URL: missing port");
        },
    };
    if crate::fibex::str_eq(scheme, "tcp") {
        Ok(SdEndpointOption { ip, port, proto: IpProto::TCP })
    } else if crate::fibex::str_eq(scheme, "udp") {
        Ok(SdEndpointOption { ip, port, proto: IpProto::UDP })
    } else {
        Err("invalid URL: invalid scheme")
    }
}

/// The URL of an endpoint names the endpoint again: the scheme of its
/// protocol, its address as host and its port give it back.
pub proof fn lemma_endpoint_url_roundtrip(e: SdEndpointOption)
    ensures
        endpoint_of_url_spec(UrlHost::Ip(e.ip), Some(e.port), url_scheme_of(e.proto)) == Ok::<
            SdEndpointOption,
            Seq<char>,
        >(e),
{
    reveal_strlit("tcp");
    reveal_strlit("udp");
    assert("udp"@[0] != "tcp"@[0]);
}

} // verus!
