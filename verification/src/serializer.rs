//! Serializing SOME/IP messages to bytes.

use crate::bytes::{be128, be16, be24, be32, push_be128, push_be16, push_be24, push_be32};
use crate::types::{
    client_cookie_header, ip_proto_code, message_type_code, option_endpoint, option_len,
    option_type_code, options_total_len, return_code_code, sd_payload_len, server_cookie_header,
    entry_type_code, Header, IpAddr, Message, MessageId, MessageType, MessageView, RequestId,
    ReturnCode, SdEndpointOption, SdEntry, SdOption, SdOptionRef, SdPayload, SdPayloadView,
};
use vstd::prelude::*;

verus! {

/// The sixteen bytes of a header.
pub open spec fn header_bytes(h: Header) -> Seq<u8> {
    be16(h.message_id.service_id) + be16(h.message_id.method_id) + be32(h.length) + be16(
        h.request_id.client_id,
    ) + be16(h.request_id.session_id) + seq![
        h.protocol_version,
        h.interface_version,
        message_type_code(h.message_type),
        return_code_code(h.return_code),
    ]
}

/// The three bytes of an option reference: the two indices, then both
/// counts in the two halves of one byte.
pub open spec fn option_ref_bytes(r: SdOptionRef) -> Seq<u8> {
    seq![r.index1, r.index2, ((r.num1 << 4u8) & 0xF0u8) | (r.num2 & 0x0Fu8)]
}

/// The sixteen bytes of an entry.
pub open spec fn entry_bytes(e: SdEntry) -> Seq<u8> {
    match e {
        SdEntry::FindService(s) | SdEntry::OfferService(s) => seq![entry_type_code(e)]
            + option_ref_bytes(s.options) + be16(s.service_id) + be16(s.instance_id) + seq![
            s.major_version,
        ] + be24(s.ttl) + be32(s.minor_version),
        SdEntry::SubscribeEventgroup(g) | SdEntry::SubscribeEventgroupAck(g) => seq![
            entry_type_code(e),
        ] + option_ref_bytes(g.options) + be16(g.service_id) + be16(g.instance_id) + seq![
            g.major_version,
        ] + be24(g.ttl) + be16(0) + be16(g.eventgroup_id),
    }
}

/// The time to live of an entry.
pub open spec fn entry_ttl(e: SdEntry) -> u32 {
    match e {
        SdEntry::FindService(s) | SdEntry::OfferService(s) => s.ttl,
        SdEntry::SubscribeEventgroup(g) | SdEntry::SubscribeEventgroupAck(g) => g.ttl,
    }
}

/// The bytes of an endpoint option of the given type and length.
pub open spec fn endpoint_bytes(option_type: u8, len: nat, e: SdEndpointOption) -> Seq<u8> {
    be16((len - 3) as u16) + seq![option_type, 0u8] + match e.ip {
        IpAddr::V4(a) => be32(a),
        IpAddr::V6(a) => be128(a),
    } + seq![0u8, ip_proto_code(e.proto)] + be16(e.port)
}

/// The bytes of an option.
pub open spec fn option_bytes(o: SdOption) -> Seq<u8> {
    endpoint_bytes(option_type_code(o), option_len(o), option_endpoint(o))
}

/// The bytes of a sequence of entries, one after the other.
pub open spec fn entries_bytes(s: Seq<SdEntry>) -> Seq<u8>
    decreases s.len(),
{
    if s.len() == 0 {
        Seq::empty()
    } else {
        entries_bytes(s.drop_last()) + entry_bytes(s.last())
    }
}

/// The bytes of a sequence of options, one after the other.
pub open spec fn options_bytes(s: Seq<SdOption>) -> Seq<u8>
    decreases s.len(),
{
    if s.len() == 0 {
        Seq::empty()
    } else {
        options_bytes(s.drop_last()) + option_bytes(s.last())
    }
}

/// The bytes of a service discovery payload: flags, three reserved bytes,
/// the length of the entries and the entries, the length of the options and
/// the options.
pub open spec fn sd_payload_bytes(p: SdPayloadView) -> Seq<u8> {
    seq![p.flags] + be24(0) + be32((16 * p.entries.len()) as u32) + entries_bytes(p.entries)
        + be32(options_total_len(p.options) as u32) + options_bytes(p.options)
}

/// The bytes of a message.
pub open spec fn message_bytes(m: MessageView) -> Seq<u8> {
    match m {
        MessageView::Rpc(h, payload) => header_bytes(h) + payload,
        MessageView::Sd(h, p) => header_bytes(h) + sd_payload_bytes(p),
        MessageView::CookieClient => header_bytes(client_cookie_header()),
        MessageView::CookieServer => header_bytes(server_cookie_header()),
    }
}

/// The entries take sixteen bytes each.
pub proof fn lemma_entries_bytes_len(s: Seq<SdEntry>)
    ensures
        entries_bytes(s).len() == 16 * s.len(),
    decreases s.len(),
{
    if s.len() > 0 {
        lemma_entries_bytes_len(s.drop_last());
    }
}

/// An option whose address is of the IP version that its type names.
pub open spec fn option_consistent(o: SdOption) -> bool {
    match o {
        SdOption::Ip4Unicast(e) | SdOption::Ip4Multicast(e) => e.ip is V4,
        SdOption::Ip6Unicast(e) | SdOption::Ip6Multicast(e) => e.ip is V6,
    }
}

/// Options whose addresses match their types take the bytes that their
/// lengths say.
pub proof fn lemma_options_bytes_len(s: Seq<SdOption>)
    requires
        forall|i: int| 0 <= i < s.len() ==> option_consistent(#[trigger] s[i]),
    ensures
        options_bytes(s).len() == options_total_len(s),
    decreases s.len(),
{
    if s.len() > 0 {
        lemma_options_bytes_len(s.drop_last());
        assert(option_consistent(s[s.len() - 1]));
    }
}

/// The length in bytes that a message reports for itself: its header and
/// the length of its payload.
pub open spec fn message_len(m: MessageView) -> nat {
    match m {
        MessageView::Rpc(_, payload) => 16 + payload.len(),
        MessageView::Sd(_, p) => 16 + sd_payload_len(p),
        _ => 16,
    }
}

/// Every entry's time to live fits the 24 bits that the wire gives it.
pub open spec fn entries_ttl_fit(s: Seq<SdEntry>) -> bool {
    forall|i: int| 0 <= i < s.len() ==> #[trigger] entry_ttl(s[i]) < 0x100_0000
}

/// A message that can be written: the times to live of its entries fit 24
/// bits and its length in bytes fits the machine.
pub open spec fn message_writable(m: MessageView) -> bool {
    match m {
        MessageView::Rpc(_, payload) => 16 + payload.len() <= usize::MAX,
        MessageView::Sd(_, p) => entries_ttl_fit(p.entries) && 16 + sd_payload_len(p)
            <= usize::MAX,
        _ => true,
    }
}

impl<'a> Message<'a> {
    /// Serializes the message into a byte array.
    pub fn to_vec(&self) -> (r: Vec<u8>)
        requires
            message_writable(self@),
        ensures
            r@ == message_bytes(self@),
    {
        let mut buffer: Vec<u8> = Vec::new();
        self.write_into(&mut buffer);
        proof {
            assert(buffer@ =~= message_bytes(self@));
        }
        buffer
    }

    /// Appends the bytes of the message, and returns their number.
    pub fn write_into(&self, out: &mut Vec<u8>) -> (r: usize)
        requires
            message_writable(self@),
        ensures
            final(out)@ == old(out)@ + message_bytes(self@),
            r == message_len(self@),
    {
        match self {
            Message::Rpc(header, payload) => {
                header.write_into(out);
                let mut i: usize = 0;
                let ghost start = out@;
                while i < payload.len()
                    invariant
                        i <= payload@.len(),
                        out@ == start + payload@.subrange(0, i as int),
                    decreases payload@.len() - i,
                {
                    out.push(payload[i]);
                    proof {
                        assert(payload@.subrange(0, i + 1) =~= payload@.subrange(0, i as int).push(
                            payload@[i as int],
                        ));
                        assert(start + payload@.subrange(0, i + 1) =~= (start + payload@.subrange(
                            0,
                            i as int,
                        )).push(payload@[i as int]));
                    }
                    i = i + 1;
                }
                proof {
                    assert(payload@.subrange(0, i as int) =~= payload@);
                    assert(final(out)@ =~= old(out)@ + message_bytes(self@));
                    assert(header_bytes(*header).len() == 16);
                }
                16 + payload.len()
            },
            Message::Sd(header, payload) => {
                header.write_into(out);
                let n = payload.write_into(out);
                proof {
                    assert(final(out)@ =~= old(out)@ + message_bytes(self@));
                }
                16 + n
            },
            Message::CookieClient => {
                let h = Header {
                    message_id: MessageId { service_id: 0xFFFF, method_id: 0x0000 },
                    length: 8,
                    request_id: RequestId { client_id: 0xDEAD, session_id: 0xBEEF },
                    protocol_version: 0x01,
                    interface_version: 0x01,
                    message_type: MessageType::RequestNoReturn,
                    return_code: ReturnCode::Okay,
                };
                h.write_into(out);
                16
            },
            Message::CookieServer => {
                let h = Header {
                    message_id: MessageId { service_id: 0xFFFF, method_id: 0x8000 },
                    length: 8,
                    request_id: RequestId { client_id: 0xDEAD, session_id: 0xBEEF },
                    protocol_version: 0x01,
                    interface_version: 0x01,
                    message_type: MessageType::Notification,
                    return_code: ReturnCode::Okay,
                };
                h.write_into(out);
                16
            },
        }
    }
}

impl Header {
    /// Serializes the header into a byte array.
    pub fn to_vec(&self) -> (r: Vec<u8>)
        ensures
            r@ == header_bytes(*self),
    {
        let mut buffer: Vec<u8> = Vec::new();
        self.write_into(&mut buffer);
        proof {
            assert(buffer@ =~= header_bytes(*self));
        }
        buffer
    }

    /// Appends the sixteen bytes of the header.
    pub fn write_into(&self, out: &mut Vec<u8>) -> (r: usize)
        ensures
            final(out)@ == old(out)@ + header_bytes(*self),
            r == 16,
    {
        push_be16(out, self.message_id.service_id);
        push_be16(out, self.message_id.method_id);
        push_be32(out, self.length);
        push_be16(out, self.request_id.client_id);
        push_be16(out, self.request_id.session_id);
        out.push(self.protocol_version);
        out.push(self.interface_version);
        out.push(self.message_type.into());
        out.push(self.return_code.into());
        proof {
            assert(final(out)@ =~= old(out)@ + header_bytes(*self));
        }
        16
    }
}

impl SdPayload {
    /// Appends the bytes of the payload, and returns their number.
    pub fn write_into(&self, out: &mut Vec<u8>) -> (r: usize)
        requires
            entries_ttl_fit(self.entries@),
            sd_payload_len(self@) <= usize::MAX,
        ensures
            final(out)@ == old(out)@ + sd_payload_bytes(self@),
            r == sd_payload_len(self@),
    {
        let ghost start = old(out)@;
        out.push(self.flags);
        push_be24(out, 0);
        let entries_len = self.entries_len();
        push_be32(out, entries_len as u32);
        let ghost mid = out@;
        let mut i: usize = 0;
        while i < self.entries.len()
            invariant
                i <= self.entries@.len(),
                entries_ttl_fit(self.entries@),
                out@ == mid + entries_bytes(self.entries@.subrange(0, i as int)),
            decreases self.entries@.len() - i,
        {
            self.entries[i].write_into(out);
            proof {
                let s = self.entries@;
                assert(s.subrange(0, i + 1).drop_last() =~= s.subrange(0, i as int));
                assert(out@ =~= mid + entries_bytes(s.subrange(0, i + 1)));
            }
            i = i + 1;
        }
        proof {
            assert(self.entries@.subrange(0, i as int) =~= self.entries@);
        }
        let options_len = self.options_len();
        push_be32(out, options_len as u32);
        let ghost mid2 = out@;
        let mut j: usize = 0;
        while j < self.options.len()
            invariant
                j <= self.options@.len(),
                out@ == mid2 + options_bytes(self.options@.subrange(0, j as int)),
            decreases self.options@.len() - j,
        {
            self.options[j].write_into(out);
            proof {
                let s = self.options@;
                assert(s.subrange(0, j + 1).drop_last() =~= s.subrange(0, j as int));
                assert(out@ =~= mid2 + options_bytes(s.subrange(0, j + 1)));
            }
            j = j + 1;
        }
        proof {
            assert(self.options@.subrange(0, j as int) =~= self.options@);
            assert(final(out)@ =~= start + sd_payload_bytes(self@));
        }
        self.len()
    }
}

impl SdEntry {
    /// Appends the sixteen bytes of the entry.
    pub fn write_into(&self, out: &mut Vec<u8>) -> (r: usize)
        requires
            entry_ttl(*self) < 0x100_0000,
        ensures
            final(out)@ == old(out)@ + entry_bytes(*self),
            r == 16,
    {
        let entry_type = self.entry_type();
        out.push(entry_type);
        match self {
            SdEntry::FindService(s) | SdEntry::OfferService(s) => {
                s.options.write_into(out);
                push_be16(out, s.service_id);
                push_be16(out, s.instance_id);
                out.push(s.major_version);
                push_be24(out, s.ttl);
                push_be32(out, s.minor_version);
            },
            SdEntry::SubscribeEventgroup(g) | SdEntry::SubscribeEventgroupAck(g) => {
                g.options.write_into(out);
                push_be16(out, g.service_id);
                push_be16(out, g.instance_id);
                out.push(g.major_version);
                push_be24(out, g.ttl);
                push_be16(out, 0x0000);
                push_be16(out, g.eventgroup_id);
            },
        }
        proof {
            assert(final(out)@ =~= old(out)@ + entry_bytes(*self));
        }
        16
    }
}

impl SdOptionRef {
    /// Appends the three bytes of the option reference.
    pub fn write_into(&self, out: &mut Vec<u8>) -> (r: usize)
        ensures
            final(out)@ == old(out)@ + option_ref_bytes(*self),
            r == 3,
    {
        out.push(self.index1);
        out.push(self.index2);
        let num: u8 = ((self.num1 << 4u8) & 0xF0u8) | (self.num2 & 0x0Fu8);
        out.push(num);
        proof {
            assert(final(out)@ =~= old(out)@ + option_ref_bytes(*self));
        }
        3
    }
}

impl SdOption {
    /// Appends the bytes of the option, and returns their number.
    pub fn write_into(&self, out: &mut Vec<u8>) -> (r: usize)
        ensures
            final(out)@ == old(out)@ + option_bytes(*self),
            r == option_len(*self),
    {
        let option_type = self.option_type();
        let option_len = self.len();
        match self {
            SdOption::Ip4Unicast(item) => item.write_into(option_type, option_len, out),
            SdOption::Ip4Multicast(item) => item.write_into(option_type, option_len, out),
            SdOption::Ip6Unicast(item) => item.write_into(option_type, option_len, out),
            SdOption::Ip6Multicast(item) => item.write_into(option_type, option_len, out),
        }
    }
}

impl SdEndpointOption {
    /// Appends the bytes of an endpoint option of the given type and length.
    pub fn write_into(&self, option_type: u8, option_len: usize, out: &mut Vec<u8>) -> (r: usize)
        requires
            3 <= option_len <= 0xFFFF,
        ensures
            final(out)@ == old(out)@ + endpoint_bytes(option_type, option_len as nat, *self),
            r == option_len,
    {
        push_be16(out, (option_len - 3) as u16);
        out.push(option_type);
        out.push(0x00);
        match self.ip {
            IpAddr::V4(a) => push_be32(out, a),
            IpAddr::V6(a) => push_be128(out, a),
        }
        out.push(0x00);
        out.push(self.proto.into());
        push_be16(out, self.port);
        proof {
            assert(final(out)@ =~= old(out)@ + endpoint_bytes(option_type, option_len as nat, *self));
        }
        option_len
    }
}

} // verus!
