//! A builder of headers: each field set in turn, the protocol version one
//! where it is not set.

use crate::types::{
    Header, InterfaceVersion, MessageId, MessageType, ProtocolVersion, RequestId, ReturnCode,
};
use vstd::prelude::*;

verus! {

/// Why a header could not be built.
#[derive(Debug)]
pub enum HeaderBuilderError {
    /// A field without default was not set: its name.
    UninitializedField(&'static str),
    /// The fields do not make a valid header: why.
    ValidationError(String),
}

/// The fields of a header set so far.
#[derive(Clone, Copy, Debug, PartialEq, Eq, Structural)]
pub struct HeaderBuilder {
    /// The message id, if set.
    pub message_id: Option<MessageId>,
    /// The length, if set.
    pub length: Option<u32>,
    /// The request id, if set.
    pub request_id: Option<RequestId>,
    /// The protocol version, if set.
    pub protocol_version: Option<ProtocolVersion>,
    /// The interface version, if set.
    pub interface_version: Option<InterfaceVersion>,
    /// The message type, if set.
    pub message_type: Option<MessageType>,
    /// The return code, if set.
    pub return_code: Option<ReturnCode>,
}

impl Default for HeaderBuilder {
    fn default() -> (r: HeaderBuilder)
        ensures
            r == (HeaderBuilder {
                message_id: None,
                length: None,
                request_id: None,
                protocol_version: None,
                interface_version: None,
                message_type: None,
                return_code: None,
            }),
    {
        HeaderBuilder {
            message_id: None,
            length: None,
            request_id: None,
            protocol_version: None,
            interface_version: None,
            message_type: None,
            return_code: None,
        }
    }
}

/// The name of the first field of `b` in order that is not set and has no
/// default, if any.
pub open spec fn first_unset(b: HeaderBuilder) -> Option<Seq<char>> {
    if b.message_id is None {
        Some("message_id"@)
    } else if b.length is None {
        Some("length"@)
    } else if b.request_id is None {
        Some("request_id"@)
    } else if b.interface_version is None {
        Some("interface_version"@)
    } else if b.message_type is None {
        Some("message_type"@)
    } else if b.return_code is None {
        Some("return_code"@)
    } else {
        None
    }
}

/// The header of the fields of `b`, where each field without default is set;
/// the protocol version is one where it is not set.
pub open spec fn built(b: HeaderBuilder) -> Header {
    Header {
        message_id: b.message_id->0,
        length: b.length->0,
        request_id: b.request_id->0,
        protocol_version: match b.protocol_version {
            Some(v) => v,
            None => 1,
        },
        interface_version: b.interface_version->0,
        message_type: b.message_type->0,
        return_code: b.return_code->0,
    }
}

impl HeaderBuilder {
    /// Sets the message id.
    pub fn message_id(&mut self, value: MessageId) -> (r: &mut Self)
        ensures
            *r == (HeaderBuilder { message_id: Some(value), ..*old(self) }),
            *final(self) == *final(r),
    {
        self.message_id = Some(value);
        self
    }

    /// Sets the length.
    pub fn length(&mut self, value: u32) -> (r: &mut Self)
        ensures
            *r == (HeaderBuilder { length: Some(value), ..*old(self) }),
            *final(self) == *final(r),
    {
        self.length = Some(value);
        self
    }

    /// Sets the request id.
    pub fn request_id(&mut self, value: RequestId) -> (r: &mut Self)
        ensures
            *r == (HeaderBuilder { request_id: Some(value), ..*old(self) }),
            *final(self) == *final(r),
    {
        self.request_id = Some(value);
        self
    }

    /// Sets the protocol version.
    pub fn protocol_version(&mut self, value: ProtocolVersion) -> (r: &mut Self)
        ensures
            *r == (HeaderBuilder { protocol_version: Some(value), ..*old(self) }),
            *final(self) == *final(r),
    {
        self.protocol_version = Some(value);
        self
    }

    /// Sets the interface version.
    pub fn interface_version(&mut self, value: InterfaceVersion) -> (r: &mut Self)
        ensures
            *r == (HeaderBuilder { interface_version: Some(value), ..*old(self) }),
            *final(self) == *final(r),
    {
        self.interface_version = Some(value);
        self
    }

    /// Sets the message type.
    pub fn message_type(&mut self, value: MessageType) -> (r: &mut Self)
        ensures
            *r == (HeaderBuilder { message_type: Some(value), ..*old(self) }),
            *final(self) == *final(r),
    {
        self.message_type = Some(value);
        self
    }

    /// Sets the return code.
    pub fn return_code(&mut self, value: ReturnCode) -> (r: &mut Self)
        ensures
            *r == (HeaderBuilder { return_code: Some(value), ..*old(self) }),
            *final(self) == *final(r),
    {
        self.return_code = Some(value);
        self
    }

    /// The header of the fields set, or the error that names the first
    /// field in order without default that is not set.
    pub fn build(&self) -> (r: Result<Header, HeaderBuilderError>)
        ensures
            match first_unset(*self) {
                Some(name) => r matches Err(HeaderBuilderError::UninitializedField(n)) && n@ == name,
                None => r == Ok::<Header, HeaderBuilderError>(built(*self)),
            },
    {
        let message_id = match self.message_id {
            Some(v) => v,
            None => return Err(HeaderBuilderError::UninitializedField("message_id")),
        };
        let length = match self.length {
            Some(v) => v,
            None => return Err(HeaderBuilderError::UninitializedField("length")),
        };
        let request_id = match self.request_id {
            Some(v) => v,
            None => return Err(HeaderBuilderError::UninitializedField("request_id")),
        };
        let protocol_version = match self.protocol_version {
            Some(v) => v,
            None => 1,
        };
        let interface_version = match self.interface_version {
            Some(v) => v,
            None => return Err(HeaderBuilderError::UninitializedField("interface_version")),
        };
        let message_type = match self.message_type {
            Some(v) => v,
            None => return Err(HeaderBuilderError::UninitializedField("message_type")),
        };
        let return_code = match self.return_code {
            Some(v) => v,
            None => return Err(HeaderBuilderError::UninitializedField("return_code")),
        };
        Ok(
            Header {
                message_id,
                length,
                request_id,
                protocol_version,
                interface_version,
                message_type,
                return_code,
            },
        )
    }
}

} // verus!
