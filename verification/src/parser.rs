//! Parsing SOME/IP messages from bytes.

use crate::bytes::{
    from_be128, from_be16, from_be24, from_be32, read_be128, read_be16, read_be24, read_be32,
};
use crate::error::{Error, IoErrorKind};
use crate::types::{
    client_cookie_header, is_sd_header, server_cookie_header, Message, MessageType, MessageView,
    ReturnCode, SdPayload, eventgroup_entry_of, IpProto, ip_proto_of, message_type_of, option_len, option_of, return_code_of,
    service_entry_of, Header, IpAddr, MessageId, RequestId, SdEndpointOption, SdEntry,
    SdEventgroupEntry, SdOption, SdOptionRef, SdPayloadView, SdServiceEntry,
};
use vstd::prelude::*;

verus! {

/// The error for a read past the end of the input.
pub open spec fn eof() -> Error {
    Error::Io(IoErrorKind::UnexpectedEof)
}

/// A cursor over a byte slice from which the message parts are read.
pub struct ByteReader<'a> {
    data: &'a [u8],
    pos: usize,
}

impl<'a> ByteReader<'a> {
    /// The bytes that the reader reads from.
    pub closed spec fn data(&self) -> Seq<u8> {
        self.data@
    }

    /// The position of the next byte to read.
    pub closed spec fn pos(&self) -> int {
        self.pos as int
    }

    /// The position lies within the data.
    pub closed spec fn wf(&self) -> bool {
        self.pos <= self.data@.len()
    }

    /// A reader at the start of `data`.
    pub fn new(data: &'a [u8]) -> (r: Self)
        ensures
            r.data() == data@,
            r.pos() == 0,
            r.wf(),
    {
        ByteReader { data, pos: 0 }
    }

    /// The position of the next byte to read.
    pub fn position(&self) -> (r: usize)
        ensures
            r == self.pos(),
    {
        self.pos
    }

    /// Reads `n` bytes, or fails at the end of the data without moving.
    pub fn read_bytes(&mut self, n: usize) -> (r: Result<&'a [u8], Error>)
        requires
            old(self).wf(),
        ensures
            final(self).wf(),
            final(self).data() == old(self).data(),
            old(self).pos() + n <= old(self).data().len() ==> (r matches Ok(b) && b@ == old(
                self,
            ).data().subrange(old(self).pos(), old(self).pos() + n) && final(self).pos() == old(
                self,
            ).pos() + n),
            old(self).pos() + n > old(self).data().len() ==> r == Err::<&[u8], Error>(eof())
                && final(self).pos() == old(self).pos(),
    {
        if n > self.data.len() - self.pos {
            return Err(Error::Io(IoErrorKind::UnexpectedEof));
        }
        let start = self.pos;
        self.pos = self.pos + n;
        Ok(slice_range(self.data, start, start + n))
    }

    /// Reads one byte.
    pub fn read_u8(&mut self) -> (r: Result<u8, Error>)
        requires
            old(self).wf(),
        ensures
            final(self).wf(),
            final(self).data() == old(self).data(),
            old(self).pos() + 1 <= old(self).data().len() ==> r == Ok::<u8, Error>(
                old(self).data()[old(self).pos()],
            ) && final(self).pos() == old(self).pos() + 1,
            old(self).pos() + 1 > old(self).data().len() ==> r == Err::<u8, Error>(eof())
                && final(self).pos() == old(self).pos(),
    {
        if self.pos >= self.data.len() {
            return Err(Error::Io(IoErrorKind::UnexpectedEof));
        }
        let b = self.data[self.pos];
        self.pos = self.pos + 1;
        Ok(b)
    }

    /// Reads a big-endian 16-bit value.
    pub fn read_u16(&mut self) -> (r: Result<u16, Error>)
        requires
            old(self).wf(),
        ensures
            final(self).wf(),
            final(self).data() == old(self).data(),
            old(self).pos() + 2 <= old(self).data().len() ==> r == Ok::<u16, Error>(
                from_be16(old(self).data().subrange(old(self).pos(), old(self).pos() + 2)),
            ) && final(self).pos() == old(self).pos() + 2,
            old(self).pos() + 2 > old(self).data().len() ==> r == Err::<u16, Error>(eof())
                && final(self).pos() == old(self).pos(),
    {
        if 2 > self.data.len() - self.pos {
            return Err(Error::Io(IoErrorKind::UnexpectedEof));
        }
        let v = read_be16(self.data, self.pos);
        self.pos = self.pos + 2;
        Ok(v)
    }

    /// Reads a big-endian 24-bit value.
    pub fn read_u24(&mut self) -> (r: Result<u32, Error>)
        requires
            old(self).wf(),
        ensures
            final(self).wf(),
            final(self).data() == old(self).data(),
            old(self).pos() + 3 <= old(self).data().len() ==> r == Ok::<u32, Error>(
                from_be24(old(self).data().subrange(old(self).pos(), old(self).pos() + 3)),
            ) && final(self).pos() == old(self).pos() + 3,
            old(self).pos() + 3 > old(self).data().len() ==> r == Err::<u32, Error>(eof())
                && final(self).pos() == old(self).pos(),
    {
        if 3 > self.data.len() - self.pos {
            return Err(Error::Io(IoErrorKind::UnexpectedEof));
        }
        let v = read_be24(self.data, self.pos);
        self.pos = self.pos + 3;
        Ok(v)
    }

    /// Reads a big-endian 32-bit value.
    pub fn read_u32(&mut self) -> (r: Result<u32, Error>)
        requires
            old(self).wf(),
        ensures
            final(self).wf(),
            final(self).data() == old(self).data(),
            old(self).pos() + 4 <= old(self).data().len() ==> r == Ok::<u32, Error>(
                from_be32(old(self).data().subrange(old(self).pos(), old(self).pos() + 4)),
            ) && final(self).pos() == old(self).pos() + 4,
            old(self).pos() + 4 > old(self).data().len() ==> r == Err::<u32, Error>(eof())
                && final(self).pos() == old(self).pos(),
    {
        if 4 > self.data.len() - self.pos {
            return Err(Error::Io(IoErrorKind::UnexpectedEof));
        }
        let v = read_be32(self.data, self.pos);
        self.pos = self.pos + 4;
        Ok(v)
    }

    /// Reads a big-endian 128-bit value.
    pub fn read_u128(&mut self) -> (r: Result<u128, Error>)
        requires
            old(self).wf(),
        ensures
            final(self).wf(),
            final(self).data() == old(self).data(),
            old(self).pos() + 16 <= old(self).data().len() ==> r == Ok::<u128, Error>(
                from_be128(old(self).data().subrange(old(self).pos(), old(self).pos() + 16)),
            ) && final(self).pos() == old(self).pos() + 16,
            old(self).pos() + 16 > old(self).data().len() ==> r == Err::<u128, Error>(eof())
                && final(self).pos() == old(self).pos(),
    {
        if 16 > self.data.len() - self.pos {
            return Err(Error::Io(IoErrorKind::UnexpectedEof));
        }
        let v = read_be128(self.data, self.pos);
        self.pos = self.pos + 16;
        Ok(v)
    }
}

/// The bytes of `data` from `start` up to `end`.
pub fn slice_range<'a>(data: &'a [u8], start: usize, end: usize) -> (r: &'a [u8])
    requires
        start <= end <= data@.len(),
    ensures
        r@ == data@.subrange(start as int, end as int),
{
    let (_, rest) = data.split_at(start);
    let (mid, _) = rest.split_at(end - start);
    proof {
        assert(mid@ =~= data@.subrange(start as int, end as int));
    }
    mid
}

/// The big-endian 16-bit value at `p`.
pub open spec fn be16_at(d: Seq<u8>, p: int) -> u16 {
    from_be16(d.subrange(p, p + 2))
}

/// The big-endian 24-bit value at `p`.
pub open spec fn be24_at(d: Seq<u8>, p: int) -> u32 {
    from_be24(d.subrange(p, p + 3))
}

/// The big-endian 32-bit value at `p`.
pub open spec fn be32_at(d: Seq<u8>, p: int) -> u32 {
    from_be32(d.subrange(p, p + 4))
}

/// The big-endian 128-bit value at `p`.
pub open spec fn be128_at(d: Seq<u8>, p: int) -> u128 {
    from_be128(d.subrange(p, p + 16))
}

/// The header read at `p`: its sixteen bytes, where the message type is
/// checked as soon as its byte is read and the return code after it.
pub open spec fn header_at(d: Seq<u8>, p: int) -> Result<Header, Error> {
    if p + 15 > d.len() {
        Err(eof())
    } else {
        match message_type_of(d[p + 14]) {
            Err(e) => Err(e),
            Ok(message_type) => if p + 16 > d.len() {
                Err(eof())
            } else {
                match return_code_of(d[p + 15]) {
                    Err(e) => Err(e),
                    Ok(return_code) => Ok(
                        Header {
                            message_id: MessageId {
                                service_id: be16_at(d, p),
                                method_id: be16_at(d, p + 2),
                            },
                            length: be32_at(d, p + 4),
                            request_id: RequestId {
                                client_id: be16_at(d, p + 8),
                                session_id: be16_at(d, p + 10),
                            },
                            protocol_version: d[p + 12],
                            interface_version: d[p + 13],
                            message_type,
                            return_code,
                        },
                    ),
                }
            },
        }
    }
}

/// The header that a byte slice starts with.
pub open spec fn header_of_slice(d: Seq<u8>) -> Result<Header, Error> {
    if d.len() < 16 {
        Err(Error::NotEnoughData { min: 16, actual: d.len() as usize })
    } else {
        header_at(d, 0)
    }
}

/// The option reference of the entry at `p`.
pub open spec fn option_ref_at(d: Seq<u8>, p: int) -> SdOptionRef {
    SdOptionRef {
        index1: d[p + 1],
        index2: d[p + 2],
        num1: (d[p + 3] >> 4u8) & 0x0Fu8,
        num2: d[p + 3] & 0x0Fu8,
    }
}

/// The entry read at `p`: sixteen bytes, whose type byte decides between a
/// service and an eventgroup entry.
pub open spec fn entry_at(d: Seq<u8>, p: int) -> Result<SdEntry, Error> {
    if p + 16 > d.len() {
        Err(eof())
    } else {
        let entry_type = d[p];
        if entry_type < 0x04 {
            service_entry_of(
                entry_type,
                SdServiceEntry {
                    service_id: be16_at(d, p + 4),
                    instance_id: be16_at(d, p + 6),
                    major_version: d[p + 8],
                    minor_version: be32_at(d, p + 12),
                    ttl: be24_at(d, p + 9),
                    options: option_ref_at(d, p),
                },
            )
        } else {
            eventgroup_entry_of(
                entry_type,
                SdEventgroupEntry {
                    service_id: be16_at(d, p + 4),
                    instance_id: be16_at(d, p + 6),
                    eventgroup_id: be16_at(d, p + 14),
                    major_version: d[p + 8],
                    ttl: be24_at(d, p + 9),
                    options: option_ref_at(d, p),
                },
            )
        }
    }
}

/// The `n` entries read from `p` on.
pub open spec fn entries_at(d: Seq<u8>, p: int, n: nat) -> Result<Seq<SdEntry>, Error>
    decreases n,
{
    if n == 0 {
        Ok(Seq::empty())
    } else {
        match entry_at(d, p) {
            Err(e) => Err(e),
            Ok(entry) => match entries_at(d, p + 16, (n - 1) as nat) {
                Err(e) => Err(e),
                Ok(rest) => Ok(seq![entry] + rest),
            },
        }
    }
}

/// The endpoint option read at `p`, an option of type `option_type` whose
/// three bytes of length and type are already read.
pub open spec fn endpoint_at(d: Seq<u8>, p: int, option_type: u8) -> Result<SdOption, Error> {
    let ip4 = option_type == 0x04 || option_type == 0x14;
    let ip_len: int = if ip4 { 4 } else { 16 };
    if p + 4 + ip_len + 2 > d.len() {
        Err(eof())
    } else {
        match ip_proto_of(d[p + 4 + ip_len + 1]) {
            Err(e) => Err(e),
            Ok(proto) => if p + 4 + ip_len + 4 > d.len() {
                Err(eof())
            } else {
                option_of(
                    option_type,
                    SdEndpointOption {
                        ip: if ip4 {
                            IpAddr::V4(be32_at(d, p + 4))
                        } else {
                            IpAddr::V6(be128_at(d, p + 4))
                        },
                        port: be16_at(d, p + 4 + ip_len + 2),
                        proto,
                    },
                )
            },
        }
    }
}

/// The option read at `p` and the number of bytes it takes: an IP option
/// is kept, any other is skipped by its length field.
pub open spec fn option_at(d: Seq<u8>, p: int) -> Result<(nat, Option<SdOption>), Error> {
    if p + 3 > d.len() {
        Err(eof())
    } else {
        let skip_len = be16_at(d, p);
        let option_type = d[p + 2];
        if !(option_type == 0x04 || option_type == 0x14 || option_type == 0x06 || option_type
            == 0x16) {
            if p + 3 + skip_len > d.len() {
                Err(eof())
            } else {
                Ok(((3 + skip_len) as nat, None))
            }
        } else {
            match endpoint_at(d, p, option_type) {
                Err(e) => Err(e),
                Ok(option) => Ok((option_len(option), Some(option))),
            }
        }
    }
}

/// Reading an option takes at least three bytes, all of them in the data.
pub proof fn lemma_option_at_len(d: Seq<u8>, p: int)
    requires
        0 <= p,
        option_at(d, p) is Ok,
    ensures
        3 <= option_at(d, p)->Ok_0.0,
        p + option_at(d, p)->Ok_0.0 <= d.len(),
{
}

/// The options read from `p` on while fewer than `remaining` bytes of
/// options are read, with the position after them.
pub open spec fn options_at(d: Seq<u8>, p: int, remaining: int) -> Result<
    (Seq<SdOption>, int),
    Error,
>
    decreases d.len() - p,
{
    if remaining <= 0 || p < 0 {
        Ok((Seq::empty(), p))
    } else {
        match option_at(d, p) {
            Err(e) => Err(e),
            Ok((n, option)) => if p + n <= d.len() && n >= 3 {
                match options_at(d, p + n, remaining - n) {
                    Err(e) => Err(e),
                    Ok((rest, end)) => Ok(
                        (
                            match option {
                                Some(o) => seq![o] + rest,
                                None => rest,
                            },
                            end,
                        ),
                    ),
                }
            } else {
                Err(eof())
            },
        }
    }
}

/// The service discovery payload read at `p`: flags, three reserved bytes,
/// the entries by their length field, then the options by theirs.
pub open spec fn sd_payload_at(d: Seq<u8>, p: int) -> Result<SdPayloadView, Error> {
    if p + 8 > d.len() {
        Err(eof())
    } else {
        let entries_len = be32_at(d, p + 4);
        let n = entries_len / 16;
        match entries_at(d, p + 8, n as nat) {
            Err(e) => Err(e),
            Ok(entries) => {
                let q = p + 8 + 16 * n;
                if q + 4 > d.len() {
                    Err(eof())
                } else {
                    match options_at(d, q + 4, be32_at(d, q) as int) {
                        Err(e) => Err(e),
                        Ok((options, _)) => Ok(SdPayloadView { flags: d[p], entries, options }),
                    }
                }
            },
        }
    }
}

/// The message that a byte slice holds: a magic cookie by its header, else
/// the payload that the header's length announces, read as service
/// discovery payload where the header says so.
pub open spec fn message_of(d: Seq<u8>) -> Result<MessageView, Error> {
    match header_of_slice(d) {
        Err(e) => Err(e),
        Ok(h) => if h == client_cookie_header() {
            Ok(MessageView::CookieClient)
        } else if h == server_cookie_header() {
            Ok(MessageView::CookieServer)
        } else {
            let payload_len = h.length - 8;
            if d.len() < 16 + payload_len {
                Err(Error::NotEnoughData { min: (16 + payload_len) as usize, actual: d.len() as usize })
            } else {
                let payload = d.subrange(16, 16 + payload_len);
                if is_sd_header(h) {
                    match sd_payload_at(payload, 0) {
                        Err(e) => Err(e),
                        Ok(p) => Ok(MessageView::Sd(h, p)),
                    }
                } else {
                    Ok(MessageView::Rpc(h, payload))
                }
            }
        },
    }
}

impl<'a> Message<'a> {
    /// Parse a message from a byte slice.
    pub fn from_slice(input: &'a [u8]) -> (r: Result<Message<'a>, Error>)
        requires
            header_of_slice(input@) matches Ok(h) ==> 8 <= h.length && h.length + 8 <= usize::MAX,
        ensures
            match r {
                Ok(m) => message_of(input@) == Ok::<MessageView, Error>(m@),
                Err(e) => message_of(input@) == Err::<MessageView, Error>(e),
            },
    {
        let header = match Header::from_slice(input) {
            Ok(h) => h,
            Err(e) => return Err(e),
        };
        if header.message_id.service_id == 0xFFFF && header.message_id.method_id == 0x0000
            && header.length == 8 && header.request_id.client_id == 0xDEAD
            && header.request_id.session_id == 0xBEEF && header.protocol_version == 0x01
            && header.interface_version == 0x01 && header.message_type
            == MessageType::RequestNoReturn && header.return_code == ReturnCode::Okay {
            return Ok(Message::CookieClient);
        }
        if header.message_id.service_id == 0xFFFF && header.message_id.method_id == 0x8000
            && header.length == 8 && header.request_id.client_id == 0xDEAD
            && header.request_id.session_id == 0xBEEF && header.protocol_version == 0x01
            && header.interface_version == 0x01 && header.message_type == MessageType::Notification
            && header.return_code == ReturnCode::Okay {
            return Ok(Message::CookieServer);
        }
        let payload_len = header.payload_len();
        if input.len() < 16 + payload_len {
            return Err(Error::NotEnoughData { min: 16 + payload_len, actual: input.len() });
        }
        let payload = slice_range(input, 16, 16 + payload_len);
        if header.is_sd() {
            let mut reader = ByteReader::new(payload);
            match SdPayload::from_reader(&mut reader) {
                Ok(p) => Ok(Message::Sd(header, p)),
                Err(e) => Err(e),
            }
        } else {
            Ok(Message::Rpc(header, payload))
        }
    }
}

impl Header {
    /// Parse a header from a byte slice.
    pub fn from_slice(input: &[u8]) -> (r: Result<Header, Error>)
        ensures
            r == header_of_slice(input@),
    {
        if input.len() < 16 {
            return Err(Error::NotEnoughData { min: 16, actual: input.len() });
        }
        let mut reader = ByteReader::new(input);
        Header::from_reader(&mut reader)
    }

    /// Parse a header from a reader.
    pub fn from_reader(reader: &mut ByteReader) -> (r: Result<Header, Error>)
        requires
            old(reader).wf(),
        ensures
            final(reader).wf(),
            final(reader).data() == old(reader).data(),
            r == header_at(old(reader).data(), old(reader).pos()),
            r is Ok ==> final(reader).pos() == old(reader).pos() + 16,
    {
        let ghost d = reader.data();
        let ghost p = reader.pos();
        if 15 > reader.data.len() - reader.pos {
            return Err(Error::Io(IoErrorKind::UnexpectedEof));
        }
        let service_id = match reader.read_u16() {
            Ok(v) => v,
            Err(e) => return Err(e),
        };
        let method_id = match reader.read_u16() {
            Ok(v) => v,
            Err(e) => return Err(e),
        };
        let length = match reader.read_u32() {
            Ok(v) => v,
            Err(e) => return Err(e),
        };
        let client_id = match reader.read_u16() {
            Ok(v) => v,
            Err(e) => return Err(e),
        };
        let session_id = match reader.read_u16() {
            Ok(v) => v,
            Err(e) => return Err(e),
        };
        let protocol_version = match reader.read_u8() {
            Ok(v) => v,
            Err(e) => return Err(e),
        };
        let interface_version = match reader.read_u8() {
            Ok(v) => v,
            Err(e) => return Err(e),
        };
        let message_type_code = match reader.read_u8() {
            Ok(v) => v,
            Err(e) => return Err(e),
        };
        let message_type = match MessageType::try_from(message_type_code) {
            Ok(v) => v,
            Err(e) => return Err(e),
        };
        let return_code_code = match reader.read_u8() {
            Ok(v) => v,
            Err(e) => return Err(e),
        };
        let return_code = match ReturnCode::try_from(return_code_code) {
            Ok(v) => v,
            Err(e) => return Err(e),
        };
        Ok(
            Header {
                message_id: MessageId { service_id, method_id },
                length,
                request_id: RequestId { client_id, session_id },
                protocol_version,
                interface_version,
                message_type,
                return_code,
            },
        )
    }
}

impl SdPayload {
    /// Parse SD payload from a reader.
    pub fn from_reader(reader: &mut ByteReader) -> (r: Result<SdPayload, Error>)
        requires
            old(reader).wf(),
        ensures
            final(reader).wf(),
            final(reader).data() == old(reader).data(),
            match r {
                Ok(p) => sd_payload_at(old(reader).data(), old(reader).pos()) == Ok::<
                    SdPayloadView,
                    Error,
                >(p@),
                Err(e) => sd_payload_at(old(reader).data(), old(reader).pos()) == Err::<
                    SdPayloadView,
                    Error,
                >(e),
            },
    {
        let ghost d = reader.data();
        let ghost p = reader.pos();
        if 8 > reader.data.len() - reader.pos {
            return Err(Error::Io(IoErrorKind::UnexpectedEof));
        }
        let flags = match reader.read_u8() {
            Ok(v) => v,
            Err(e) => return Err(e),
        };
        match reader.read_u24() {
            Ok(_) => {},
            Err(e) => return Err(e),
        }
        let entries_len: usize = match reader.read_u32() {
            Ok(v) => v as usize,
            Err(e) => return Err(e),
        };
        let num_entries = entries_len / 16;
        let mut entries: Vec<SdEntry> = Vec::new();
        let mut i: usize = 0;
        while i < num_entries
            invariant
                reader.wf(),
                reader.data() == d,
                d == old(reader).data(),
                p == old(reader).pos(),
                p + 8 <= d.len(),
                flags == d[p],
                num_entries == be32_at(d, p + 4) / 16,
                i <= num_entries,
                reader.pos() == p + 8 + 16 * i,
                entries_at(d, p + 8, num_entries as nat) == match entries_at(
                    d,
                    reader.pos(),
                    (num_entries - i) as nat,
                ) {
                    Ok(rest) => Ok(entries@ + rest),
                    Err(e) => Err::<Seq<SdEntry>, Error>(e),
                },
            decreases num_entries - i,
        {
            let ghost pos = reader.pos();
            let entry = match SdEntry::from_reader(reader) {
                Ok(v) => v,
                Err(e) => return Err(e),
            };
            proof {
                let k = (num_entries - i) as nat;
                match entries_at(d, pos + 16, (k - 1) as nat) {
                    Ok(rest) => {
                        assert(entries@ + (seq![entry] + rest) =~= entries@.push(entry) + rest);
                    },
                    Err(_) => {},
                }
            }
            entries.push(entry);
            i = i + 1;
        }
        proof {
            assert(entries@ + Seq::<SdEntry>::empty() =~= entries@);
        }
        let ghost q = reader.pos();
        let options_len: usize = match reader.read_u32() {
            Ok(v) => v as usize,
            Err(e) => return Err(e),
        };
        let mut options: Vec<SdOption> = Vec::new();
        let mut read_len: usize = 0;
        while read_len < options_len
            invariant
                reader.wf(),
                reader.data() == d,
                d == old(reader).data(),
                p == old(reader).pos(),
                p + 8 <= d.len(),
                flags == d[p],
                num_entries == be32_at(d, p + 4) / 16,
                q == p + 8 + 16 * num_entries,
                q + 4 <= d.len(),
                options_len == be32_at(d, q),
                entries_at(d, p + 8, num_entries as nat) == Ok::<Seq<SdEntry>, Error>(entries@),
                reader.pos() == q + 4 + read_len,
                options_at(d, q + 4, options_len as int) == match options_at(
                    d,
                    reader.pos(),
                    options_len - read_len,
                ) {
                    Ok((rest, end)) => Ok((options@ + rest, end)),
                    Err(e) => Err::<(Seq<SdOption>, int), Error>(e),
                },
            decreases d.len() - reader.pos(),
        {
            let ghost pos = reader.pos();
            let (option_len, option) = match SdOption::from_reader(reader) {
                Ok(v) => v,
                Err(e) => return Err(e),
            };
            proof {
                lemma_option_at_len(d, pos);
                let rem = options_len - read_len;
                match options_at(d, pos + option_len, rem - option_len) {
                    Ok((rest, end)) => {
                        match option {
                            Some(o) => {
                                assert(options@ + (seq![o] + rest) =~= options@.push(o) + rest);
                            },
                            None => {},
                        }
                    },
                    Err(_) => {},
                }
            }
            match option {
                Some(value) => options.push(value),
                None => {},
            }
            read_len = read_len + option_len;
        }
        proof {
            assert(options@ + Seq::<SdOption>::empty() =~= options@);
        }
        Ok(SdPayload { flags, entries, options })
    }
}

impl SdEntry {
    /// Parse an entry from a reader.
    pub fn from_reader(reader: &mut ByteReader) -> (r: Result<SdEntry, Error>)
        requires
            old(reader).wf(),
        ensures
            final(reader).wf(),
            final(reader).data() == old(reader).data(),
            r == entry_at(old(reader).data(), old(reader).pos()),
            r is Ok ==> final(reader).pos() == old(reader).pos() + 16,
    {
        let ghost d = reader.data();
        let ghost p = reader.pos();
        if 16 > reader.data.len() - reader.pos {
            return Err(Error::Io(IoErrorKind::UnexpectedEof));
        }
        let entry_type = match reader.read_u8() {
            Ok(v) => v,
            Err(e) => return Err(e),
        };
        let index1 = match reader.read_u8() {
            Ok(v) => v,
            Err(e) => return Err(e),
        };
        let index2 = match reader.read_u8() {
            Ok(v) => v,
            Err(e) => return Err(e),
        };
        let num = match reader.read_u8() {
            Ok(v) => v,
            Err(e) => return Err(e),
        };
        let num1 = (num >> 4u8) & 0x0Fu8;
        let num2 = num & 0x0Fu8;
        let service_id = match reader.read_u16() {
            Ok(v) => v,
            Err(e) => return Err(e),
        };
        let instance_id = match reader.read_u16() {
            Ok(v) => v,
            Err(e) => return Err(e),
        };
        let major_version = match reader.read_u8() {
            Ok(v) => v,
            Err(e) => return Err(e),
        };
        let ttl = match reader.read_u24() {
            Ok(v) => v,
            Err(e) => return Err(e),
        };
        let options = SdOptionRef { index1, index2, num1, num2 };
        if SdEntry::is_service(entry_type) {
            let minor_version = match reader.read_u32() {
                Ok(v) => v,
                Err(e) => return Err(e),
            };
            SdEntry::try_from(
                (
                    entry_type,
                    SdServiceEntry {
                        service_id,
                        instance_id,
                        major_version,
                        minor_version,
                        ttl,
                        options,
                    },
                ),
            )
        } else {
            match reader.read_u16() {
                Ok(_) => {},
                Err(e) => return Err(e),
            }
            let eventgroup_id = match reader.read_u16() {
                Ok(v) => v,
                Err(e) => return Err(e),
            };
            SdEntry::try_from(
                (
                    entry_type,
                    SdEventgroupEntry {
                        service_id,
                        eventgroup_id,
                        instance_id,
                        major_version,
                        ttl,
                        options,
                    },
                ),
            )
        }
    }
}

impl SdOption {
    /// Parse an option from a reader: the bytes it takes, and the option
    /// where it is an IP option.
    pub fn from_reader(reader: &mut ByteReader) -> (r: Result<(usize, Option<SdOption>), Error>)
        requires
            old(reader).wf(),
        ensures
            final(reader).wf(),
            final(reader).data() == old(reader).data(),
            match r {
                Ok((n, o)) => option_at(old(reader).data(), old(reader).pos()) == Ok::<
                    (nat, Option<SdOption>),
                    Error,
                >((n as nat, o)) && final(reader).pos() == old(reader).pos() + n,
                Err(e) => option_at(old(reader).data(), old(reader).pos()) == Err::<
                    (nat, Option<SdOption>),
                    Error,
                >(e),
            },
    {
        let ghost d = reader.data();
        let ghost p = reader.pos();
        let option_len: usize = match reader.read_u16() {
            Ok(v) => v as usize,
            Err(e) => return Err(e),
        };
        let option_type = match reader.read_u8() {
            Ok(v) => v,
            Err(e) => return Err(e),
        };
        if !SdOption::is_ip_option(option_type) {
            match reader.read_bytes(option_len) {
                Ok(_) => {},
                Err(e) => return Err(e),
            }
            return Ok((3 + option_len, None));
        }
        match reader.read_u8() {
            Ok(_) => {},
            Err(e) => return Err(e),
        }
        let ip: IpAddr;
        if SdOption::is_ip4_option(option_type) {
            ip = match reader.read_u32() {
                Ok(v) => IpAddr::V4(v),
                Err(e) => return Err(e),
            };
        } else {
            ip = match reader.read_u128() {
                Ok(v) => IpAddr::V6(v),
                Err(e) => return Err(e),
            };
        }
        match reader.read_u8() {
            Ok(_) => {},
            Err(e) => return Err(e),
        }
        let proto_code = match reader.read_u8() {
            Ok(v) => v,
            Err(e) => return Err(e),
        };
        let proto = match IpProto::try_from(proto_code) {
            Ok(v) => v,
            Err(e) => return Err(e),
        };
        let port = match reader.read_u16() {
            Ok(v) => v,
            Err(e) => return Err(e),
        };
        let option = match SdOption::from(option_type, SdEndpointOption { ip, port, proto }) {
            Ok(v) => v,
            Err(e) => return Err(e),
        };
        Ok((option.len(), Some(option)))
    }
}

} // verus!
