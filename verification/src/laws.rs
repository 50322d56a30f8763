//! Laws that relate the message parser and serializer.

use crate::bytes::{
    be16, be32, from_be16, from_be32, lemma_be16_roundtrip, lemma_be32_roundtrip,
};
use crate::parser::{be16_at, be32_at, header_at, header_of_slice};
use crate::serializer::header_bytes;
use crate::types::{
    lemma_message_type_roundtrip, lemma_return_code_roundtrip, message_id_of_u32, request_id_of_u32,
    return_code_valid, Header, MessageId, RequestId,
};
use crate::error::Error;
use vstd::prelude::*;
use vstd::std_specs::convert::FromSpec;

verus! {

/// Reading a header back from the bytes that it is written to gives the
/// header, at any position of the data that holds them.
pub proof fn lemma_header_roundtrip_at(h: Header, d: Seq<u8>, p: int)
    requires
        return_code_valid(h.return_code),
        0 <= p,
        p + 16 <= d.len(),
        d.subrange(p, p + 16) == header_bytes(h),
    ensures
        header_at(d, p) == Ok::<Header, Error>(h),
{
    let b = header_bytes(h);
    lemma_message_type_roundtrip(h.message_type);
    lemma_return_code_roundtrip(h.return_code);
    lemma_be16_roundtrip(h.message_id.service_id);
    lemma_be16_roundtrip(h.message_id.method_id);
    lemma_be32_roundtrip(h.length);
    lemma_be16_roundtrip(h.request_id.client_id);
    lemma_be16_roundtrip(h.request_id.session_id);
    let sid = h.message_id.service_id;
    let mid = h.message_id.method_id;
    let len = h.length;
    let cid = h.request_id.client_id;
    let ses = h.request_id.session_id;
    assert(b =~= seq![
        (sid >> 8u16) as u8,
        sid as u8,
        (mid >> 8u16) as u8,
        mid as u8,
        (len >> 24u32) as u8,
        (len >> 16u32) as u8,
        (len >> 8u32) as u8,
        len as u8,
        (cid >> 8u16) as u8,
        cid as u8,
        (ses >> 8u16) as u8,
        ses as u8,
        h.protocol_version,
        h.interface_version,
        b[14],
        b[15],
    ]);
    assert forall|i: int| 0 <= i < 16 implies d[p + i] == b[i] by {
        assert(d.subrange(p, p + 16)[i] == d[p + i]);
    }
    assert(d.subrange(p, p + 2) =~= be16(sid));
    assert(d.subrange(p + 2, p + 4) =~= be16(h.message_id.method_id));
    assert(d.subrange(p + 4, p + 8) =~= be32(h.length));
    assert(d.subrange(p + 8, p + 10) =~= be16(h.request_id.client_id));
    assert(d.subrange(p + 10, p + 12) =~= be16(h.request_id.session_id));
    assert(d[p + 12] == b[12]);
    assert(d[p + 13] == b[13]);
    assert(d[p + 14] == b[14]);
    assert(d[p + 15] == b[15]);
}

/// `Header::from_slice` reads back what `Header::to_vec` writes, for every
/// header whose return code the wire format can carry.
pub proof fn lemma_header_roundtrip(h: Header)
    requires
        return_code_valid(h.return_code),
    ensures
        header_of_slice(header_bytes(h)) == Ok::<Header, Error>(h),
{
    let b = header_bytes(h);
    assert(b.subrange(0, 16) =~= b);
    lemma_header_roundtrip_at(h, b, 0);
}

/// A message id built from a service id and a method id is the one that the
/// pair of them converts to, and the one that the 32-bit value with the
/// service id in its high and the method id in its low half converts to.
pub proof fn lemma_message_id_conversions(service_id: u16, method_id: u16)
    ensures
        (MessageId { service_id, method_id }) == <MessageId as FromSpec<(u16, u16)>>::from_spec((service_id, method_id)),
        (MessageId { service_id, method_id }) == message_id_of_u32(
            ((service_id as u32) << 16u32) | (method_id as u32),
        ),
{
    let v = ((service_id as u32) << 16u32) | (method_id as u32);
    assert((v >> 16u32) as u16 == service_id && (v & 0xFFFFu32) as u16 == method_id) by (bit_vector)
        requires
            v == ((service_id as u32) << 16u32) | (method_id as u32),
    ;
}

/// A request id built from a client id and a session id is the one that the
/// pair of them converts to, and the one that the 32-bit value with the
/// client id in its high and the session id in its low half converts to.
pub proof fn lemma_request_id_conversions(client_id: u16, session_id: u16)
    ensures
        (RequestId { client_id, session_id }) == <RequestId as FromSpec<(u16, u16)>>::from_spec((client_id, session_id)),
        (RequestId { client_id, session_id }) == request_id_of_u32(
            ((client_id as u32) << 16u32) | (session_id as u32),
        ),
{
    let v = ((client_id as u32) << 16u32) | (session_id as u32);
    assert((v >> 16u32) as u16 == client_id && (v & 0xFFFFu32) as u16 == session_id) by (bit_vector)
        requires
            v == ((client_id as u32) << 16u32) | (session_id as u32),
    ;
}

} // verus!
