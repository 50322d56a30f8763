//! The fixed constants of the wire formats and of the text of values:
//! message type and return code bytes of a header, the tags that select the
//! members of an optional, the byte order of UTF-16 strings built from a
//! FIBEX declaration, and the decimal text of primitive values.

use vstd::prelude::*;
use crate::fibex::{high_low_byte_order, FibexPrimitive, FibexDatatype, FibexStringEncoding, FibexTypeDeclaration, FibexTypeInstance};
use crate::fibex2som::{dims_of, lengthfield_of, string_format_of, type_built};
use crate::som_strings::SOMStringFormat;
use crate::parser::header_of_slice;
use crate::serializer::header_bytes;
use crate::som_primitives::{WirePrim, I24, U24};
use crate::som_strings::SOMStringEncoding;
use crate::som_wrapper::{opt_find, opt_tag, OptionalItemModel, SOMTypeWrapper};
use crate::text::dec;
use crate::fibex_parser::digits_value;
use crate::types::{is_sd_header, MessageView, ip_proto_code, ip_proto_of, Header, IpProto, MessageType, ReturnCode, SdEntry, SdOption};
use crate::parser::{entry_at, option_at};
use crate::serializer::{entry_bytes, message_bytes, option_bytes};
use crate::bytes::{be16, be24, be32, be64};
use crate::som::{lengthfield_size, typefield_size, SOMEndian, SOMLengthField, SOMTypeField};
use crate::som_strings::{bom, termination};
use crate::som_wrapper::wire_size;
use crate::som_primitives::bool_text;

verus! {

/// The message type that the byte `b` of a header stands for, as the
/// SOME/IP specification numbers them.
pub open spec fn message_type_table(b: u8, t: MessageType) -> bool {
    &&& (b == 0x00 <==> t == MessageType::Request)
    &&& (b == 0x01 <==> t == MessageType::RequestNoReturn)
    &&& (b == 0x02 <==> t == MessageType::Notification)
    &&& (b == 0x80 <==> t == MessageType::Response)
    &&& (b == 0x81 <==> t == MessageType::Error)
    &&& (b == 0x20 <==> t == MessageType::TpRequest)
    &&& (b == 0x21 <==> t == MessageType::TpRequestNoReturn)
    &&& (b == 0x22 <==> t == MessageType::TpNotification)
    &&& (b == 0xa0 <==> t == MessageType::TpResponse)
    &&& (b == 0xa1 <==> t == MessageType::TpError)
}

/// The return code that the byte `b` of a header stands for, as the
/// SOME/IP specification numbers them; bytes from 0x0b to 0x1f are reserved
/// for generic and from 0x20 to 0x5e for specific errors.
pub open spec fn return_code_table(b: u8, c: ReturnCode) -> bool {
    &&& (b == 0x00 <==> c == ReturnCode::Okay)
    &&& (b == 0x01 <==> c == ReturnCode::NotOk)
    &&& (b == 0x02 <==> c == ReturnCode::UnknownService)
    &&& (b == 0x03 <==> c == ReturnCode::UnknownMethod)
    &&& (b == 0x04 <==> c == ReturnCode::NotReady)
    &&& (b == 0x05 <==> c == ReturnCode::NotReachable)
    &&& (b == 0x06 <==> c == ReturnCode::Timeout)
    &&& (b == 0x07 <==> c == ReturnCode::WrongProtocolVersion)
    &&& (b == 0x08 <==> c == ReturnCode::WrongInterfaceVersion)
    &&& (b == 0x09 <==> c == ReturnCode::MalformedMessage)
    &&& (b == 0x0a <==> c == ReturnCode::WrongMessageType)
    &&& (0x0b <= b <= 0x1f <==> c == ReturnCode::ReservedGeneric(b))
    &&& (0x20 <= b <= 0x5e <==> c == ReturnCode::ReservedSpecific(b))
}

/// A header read from bytes has the message type and return code that its
/// fifteenth and sixteenth bytes stand for; bytes that stand for none are
/// refused.
pub proof fn law_header_codes_read(d: Seq<u8>)
    requires
        d.len() >= 16,
    ensures
        header_of_slice(d) matches Ok(h) ==> message_type_table(d[14], h.message_type)
            && return_code_table(d[15], h.return_code),
        !(d[14] == 0x00 || d[14] == 0x01 || d[14] == 0x02 || d[14] == 0x80 || d[14] == 0x81 || d[14] == 0x20
            || d[14] == 0x21 || d[14] == 0x22 || d[14] == 0xa0 || d[14] == 0xa1) ==> header_of_slice(d) is Err,
        d[15] > 0x5e ==> header_of_slice(d) is Err,
        (d[14] == 0x00 || d[14] == 0x01 || d[14] == 0x02 || d[14] == 0x80 || d[14] == 0x81 || d[14] == 0x20
            || d[14] == 0x21 || d[14] == 0x22 || d[14] == 0xa0 || d[14] == 0xa1) && d[15] <= 0x5e
            ==> header_of_slice(d) is Ok,
{
}

/// The bytes of a header hold the message type and return code in its
/// fifteenth and sixteenth bytes, as the table numbers them.
pub proof fn law_header_codes_written(h: Header)
    requires
        h.return_code matches ReturnCode::ReservedGeneric(b) ==> 0x0b <= b <= 0x1f,
        h.return_code matches ReturnCode::ReservedSpecific(b) ==> 0x20 <= b <= 0x5e,
    ensures
        header_bytes(h).len() == 16,
        message_type_table(header_bytes(h)[14], h.message_type),
        return_code_table(header_bytes(h)[15], h.return_code),
{
    assert(header_bytes(h).len() == 16);
}

/// An optional being read takes a tag to a member not read yet that has
/// that tag, wherever it stands among the members: the first such one.
/// Where no member not read yet has the tag, none is taken.
pub proof fn law_optional_tag_finds(items: Seq<OptionalItemModel>, tag: u16)
    ensures
        match opt_find(items, tag, 0) {
            Some(k) => 0 <= k < items.len() && !items[k].set && opt_tag(items[k].wiretype, items[k].key) == tag
                && forall|i: int|
                0 <= i < k ==> !(!items[i].set && opt_tag(items[i].wiretype, items[i].key) == tag),
            None => forall|j: int|
                0 <= j < items.len() ==> !(!items[j].set && opt_tag(items[j].wiretype, items[j].key) == tag),
        },
{
    lemma_opt_find_from(items, tag, 0);
}

proof fn lemma_opt_find_from(items: Seq<OptionalItemModel>, tag: u16, j: int)
    requires
        0 <= j,
    ensures
        match opt_find(items, tag, j) {
            Some(k) => j <= k < items.len() && !items[k].set && opt_tag(items[k].wiretype, items[k].key) == tag
                && forall|i: int|
                j <= i < k ==> !(!items[i].set && opt_tag(items[i].wiretype, items[i].key) == tag),
            None => forall|i: int|
                j <= i < items.len() ==> !(!items[i].set && opt_tag(items[i].wiretype, items[i].key) == tag),
        },
    decreases items.len() - j,
{
    if j < items.len() && !(!items[j].set && opt_tag(items[j].wiretype, items[j].key) == tag) {
        lemma_opt_find_from(items, tag, j + 1);
    }
}

/// A string built from a declaration of a UTF-16 string type takes the
/// declaration's byte order: big endian where it says high-low, little
/// endian otherwise; a UTF-8 string type gives a UTF-8 string.
pub proof fn law_string_byte_order(
    types: Seq<FibexTypeInstance>,
    d: FibexTypeDeclaration,
    skip: nat,
    name: Seq<char>,
    fuel: nat,
    w: SOMTypeWrapper,
)
    requires
        type_built(types, d, skip, name, fuel, w),
        dims_of(d).len() <= skip,
        d.type_ref matches Some(k) && k < types.len() && types[k as int].datatype is String,
    ensures
        w matches SOMTypeWrapper::String(x) && match types[d.type_ref->0 as int].datatype->String_0.encoding {
            FibexStringEncoding::UTF16 => x.spec_model().encoding == if high_low_byte_order(d.attributes@) {
                SOMStringEncoding::Utf16Be
            } else {
                SOMStringEncoding::Utf16Le
            },
            FibexStringEncoding::UTF8 => x.spec_model().encoding == SOMStringEncoding::Utf8,
            FibexStringEncoding::Unknown => false,
        },
{
    reveal_with_fuel(type_built, 1);
}

/// The text of an unsigned value is its decimal digits.
pub proof fn law_unsigned_text(a: u8, b: u16, c: u32, d: u64, e: U24)
    ensures
        <u8 as WirePrim>::text_spec(a) == dec(a as nat),
        <u16 as WirePrim>::text_spec(b) == dec(b as nat),
        <u32 as WirePrim>::text_spec(c) == dec(c as nat),
        <u64 as WirePrim>::text_spec(d) == dec(d as nat),
        <U24 as WirePrim>::text_spec(e) == dec(e.spec_value() as nat),
{
}

/// The text of a signed value is its decimal digits, after a minus sign
/// where it is negative.
pub proof fn law_signed_text(a: i8, b: i16, c: i32, d: i64, e: I24)
    ensures
        <i8 as WirePrim>::text_spec(a) == if a < 0 { seq!['-'] + dec((-a) as nat) } else { dec(a as nat) },
        <i16 as WirePrim>::text_spec(b) == if b < 0 { seq!['-'] + dec((-b) as nat) } else { dec(b as nat) },
        <i32 as WirePrim>::text_spec(c) == if c < 0 { seq!['-'] + dec((-c) as nat) } else { dec(c as nat) },
        <i64 as WirePrim>::text_spec(d) == if d < 0 { seq!['-'] + dec((-d) as nat) } else { dec(d as nat) },
        <I24 as WirePrim>::text_spec(e) == if e.spec_value() < 0 {
            seq!['-'] + dec((-e.spec_value()) as nat)
        } else {
            dec(e.spec_value() as nat)
        },
{
}


/// The first byte of a service discovery entry gives its type: 0x00 find,
/// 0x01 offer, 0x06 subscribe, 0x07 subscribe acknowledge; it is written so
/// and read so.
pub proof fn law_entry_codes(e: SdEntry, d: Seq<u8>, p: int)
    requires
        0 <= p,
    ensures
        entry_bytes(e)[0] == match e {
            SdEntry::FindService(_) => 0x00u8,
            SdEntry::OfferService(_) => 0x01u8,
            SdEntry::SubscribeEventgroup(_) => 0x06u8,
            SdEntry::SubscribeEventgroupAck(_) => 0x07u8,
        },
        entry_at(d, p) matches Ok(x) ==> (d[p] == 0x00 <==> x is FindService) && (d[p] == 0x01 <==> x is OfferService)
            && (d[p] == 0x06 <==> x is SubscribeEventgroup) && (d[p] == 0x07 <==> x is SubscribeEventgroupAck),
        p + 16 <= d.len() && !(d[p] == 0x00 || d[p] == 0x01 || d[p] == 0x06 || d[p] == 0x07) ==> entry_at(d, p) is Err,
{
}

/// The third byte of an endpoint option gives its type: 0x04 IPv4
/// unicast, 0x14 IPv4 multicast, 0x06 IPv6 unicast, 0x16 IPv6 multicast;
/// it is written so and read so.
pub proof fn law_option_codes(o: SdOption, d: Seq<u8>, p: int)
    requires
        0 <= p,
    ensures
        option_bytes(o)[2] == match o {
            SdOption::Ip4Unicast(_) => 0x04u8,
            SdOption::Ip4Multicast(_) => 0x14u8,
            SdOption::Ip6Unicast(_) => 0x06u8,
            SdOption::Ip6Multicast(_) => 0x16u8,
        },
        option_at(d, p) matches Ok((_, Some(x))) ==> (d[p + 2] == 0x04 <==> x is Ip4Unicast) && (d[p + 2] == 0x14
            <==> x is Ip4Multicast) && (d[p + 2] == 0x06 <==> x is Ip6Unicast) && (d[p + 2] == 0x16 <==> x is Ip6Multicast),
{
}

/// The transport protocol byte: 0x11 for UDP, 0x06 for TCP, both ways.
pub proof fn law_ip_proto_codes(x: IpProto, i: u8)
    ensures
        ip_proto_code(x) == (if x == IpProto::UDP { 0x11u8 } else { 0x06u8 }),
        ip_proto_of(i) matches Ok(y) ==> (i == 0x11 <==> y == IpProto::UDP) && (i == 0x06 <==> y == IpProto::TCP),
        ip_proto_of(i) is Ok <==> (i == 0x11 || i == 0x06),
{
}

/// Multi-byte values are written most significant byte first: the bytes,
/// read as digits of base 256, give the value.
pub proof fn law_big_endian(a: u16, b: u32, c: u32, d: u64)
    ensures
        be16(a).len() == 2 && be16(a)[0] * 0x100 + be16(a)[1] == a,
        c < 0x100_0000 ==> be24(c).len() == 3 && (be24(c)[0] * 0x100 + be24(c)[1]) * 0x100 + be24(c)[2] == c,
        be32(b).len() == 4 && ((be32(b)[0] * 0x100 + be32(b)[1]) * 0x100 + be32(b)[2]) * 0x100 + be32(b)[3] == b,
        be64(d).len() == 8 && (be64(d)[0] as int) * 0x100_0000_0000_0000 + (be64(d)[1] as int) * 0x1_0000_0000_0000
            + (be64(d)[2] as int) * 0x100_0000_0000 + (be64(d)[3] as int) * 0x1_0000_0000 + (be64(d)[4] as int)
            * 0x100_0000 + (be64(d)[5] as int) * 0x1_0000 + (be64(d)[6] as int) * 0x100 + (be64(d)[7] as int) == d,
{
    let a0 = (a >> 8u16) as u8;
    let a1 = a as u8;
    assert(a0 * 0x100 + a1 == a) by (bit_vector)
        requires
            a0 == (a >> 8u16) as u8,
            a1 == a as u8,
    ;
    let c0 = (c >> 16u32) as u8;
    let c1 = (c >> 8u32) as u8;
    let c2 = c as u8;
    assert(c < 0x100_0000 ==> (c0 * 0x100 + c1) * 0x100 + c2 == c) by (bit_vector)
        requires
            c0 == (c >> 16u32) as u8,
            c1 == (c >> 8u32) as u8,
            c2 == c as u8,
    ;
    let b0 = (b >> 24u32) as u8;
    let b1 = (b >> 16u32) as u8;
    let b2 = (b >> 8u32) as u8;
    let b3 = b as u8;
    assert(((b0 * 0x100 + b1) * 0x100 + b2) * 0x100 + b3 == b) by (bit_vector)
        requires
            b0 == (b >> 24u32) as u8,
            b1 == (b >> 16u32) as u8,
            b2 == (b >> 8u32) as u8,
            b3 == b as u8,
    ;
    let d0 = (d >> 56u64) as u8;
    let d1 = (d >> 48u64) as u8;
    let d2 = (d >> 40u64) as u8;
    let d3 = (d >> 32u64) as u8;
    let d4 = (d >> 24u64) as u8;
    let d5 = (d >> 16u64) as u8;
    let d6 = (d >> 8u64) as u8;
    let d7 = d as u8;
    assert((d0 as int) * 0x100_0000_0000_0000 + (d1 as int) * 0x1_0000_0000_0000 + (d2 as int) * 0x100_0000_0000
        + (d3 as int) * 0x1_0000_0000 + (d4 as int) * 0x100_0000 + (d5 as int) * 0x1_0000 + (d6 as int) * 0x100
        + (d7 as int) == d) by (bit_vector)
        requires
            d0 == (d >> 56u64) as u8,
            d1 == (d >> 48u64) as u8,
            d2 == (d >> 40u64) as u8,
            d3 == (d >> 32u64) as u8,
            d4 == (d >> 24u64) as u8,
            d5 == (d >> 16u64) as u8,
            d6 == (d >> 8u64) as u8,
            d7 == d as u8,
    ;
}

/// A primitive value of several bytes is written most significant byte
/// first in big endian byte order, and least significant first in little
/// endian byte order.
pub proof fn law_primitive_byte_order(a: u16, b: i16, c: u32, d: i32, e: u64, f: i64)
    ensures
        <u16 as WirePrim>::encode(a, SOMEndian::Big) == be16(a),
        <u16 as WirePrim>::encode(a, SOMEndian::Little) == be16(a).reverse(),
        <i16 as WirePrim>::encode(b, SOMEndian::Big) == be16(b as u16),
        <i16 as WirePrim>::encode(b, SOMEndian::Little) == be16(b as u16).reverse(),
        <u32 as WirePrim>::encode(c, SOMEndian::Big) == be32(c),
        <u32 as WirePrim>::encode(c, SOMEndian::Little) == be32(c).reverse(),
        <i32 as WirePrim>::encode(d, SOMEndian::Big) == be32(d as u32),
        <i32 as WirePrim>::encode(d, SOMEndian::Little) == be32(d as u32).reverse(),
        <u64 as WirePrim>::encode(e, SOMEndian::Big) == be64(e),
        <u64 as WirePrim>::encode(e, SOMEndian::Little) == be64(e).reverse(),
        <i64 as WirePrim>::encode(f, SOMEndian::Big) == be64(f as u64),
        <i64 as WirePrim>::encode(f, SOMEndian::Little) == be64(f as u64).reverse(),
        <bool as WirePrim>::encode(true, SOMEndian::Big) == seq![1u8],
        <bool as WirePrim>::encode(false, SOMEndian::Big) == seq![0u8],
{
}

/// The sizes of length fields and type fields, the sizes of the values of
/// the wire types of an optional's members, and the byte order marks and
/// terminations of the string encodings.
pub proof fn law_field_sizes_and_marks(lf: SOMLengthField, tf: SOMTypeField, w: nat, enc: SOMStringEncoding)
    ensures
        lengthfield_size(lf) == match lf {
            SOMLengthField::NoField => 0nat,
            SOMLengthField::U8 => 1nat,
            SOMLengthField::U16 => 2nat,
            SOMLengthField::U32 => 4nat,
        },
        typefield_size(tf) == match tf {
            SOMTypeField::U8 => 1nat,
            SOMTypeField::U16 => 2nat,
            SOMTypeField::U32 => 4nat,
        },
        w < 4 ==> wire_size(w) == Some((if w == 0 { 1nat } else if w == 1 { 2nat } else if w == 2 { 4nat } else { 8nat })),
        w >= 4 ==> wire_size(w) is None,
        bom(enc) == match enc {
            SOMStringEncoding::Utf8 => seq![0xEFu8, 0xBBu8, 0xBFu8],
            SOMStringEncoding::Utf16Be => seq![0xFEu8, 0xFFu8],
            SOMStringEncoding::Utf16Le => seq![0xFFu8, 0xFEu8],
        },
        termination(enc) == if enc == SOMStringEncoding::Utf8 { seq![0x00u8] } else { seq![0x00u8, 0x00u8] },
{
}

/// The tag of an optional's member holds its wire type in bits 12 to 14
/// and its key in bits 0 to 11.
pub proof fn law_optional_tag(wiretype: nat, key: nat)
    requires
        wiretype < 8,
        key < 0x1000,
    ensures
        opt_tag(wiretype, key) == wiretype * 0x1000 + key,
{
    let w = wiretype as u16;
    let k = key as u16;
    assert((((w << 12u16) | (k & 0x0FFFu16)) & 0x7FFFu16) == w * 0x1000 + k) by (bit_vector)
        requires
            w < 8,
            k < 0x1000,
    ;
}

/// The text of a truth value, and the names of the primitive types.
pub proof fn law_primitive_names(v: bool)
    ensures
        bool_text(v) == if v { "true"@ } else { "false"@ },
        <bool as WirePrim>::text_spec(v) == bool_text(v),
        <bool as WirePrim>::name_spec() == "bool"@,
        <u8 as WirePrim>::name_spec() == "u8"@,
        <i8 as WirePrim>::name_spec() == "i8"@,
        <u16 as WirePrim>::name_spec() == "u16"@,
        <i16 as WirePrim>::name_spec() == "i16"@,
        <u32 as WirePrim>::name_spec() == "u32"@,
        <i32 as WirePrim>::name_spec() == "i32"@,
        <u64 as WirePrim>::name_spec() == "u64"@,
        <i64 as WirePrim>::name_spec() == "i64"@,
        <U24 as WirePrim>::name_spec() == "u24"@,
        <I24 as WirePrim>::name_spec() == "i24"@,
{
}


/// The decimal text of a number is its digits: each a character from '0'
/// to '9', read in base ten they give the number, and there is no leading
/// zero.
pub proof fn law_decimal(n: nat)
    ensures
        dec(n).len() >= 1,
        forall|i: int| 0 <= i < dec(n).len() ==> '0' <= #[trigger] dec(n)[i] <= '9',
        digits_value(dec(n)) == n,
        dec(n).len() > 1 ==> dec(n)[0] != '0',
    decreases n,
{
    if n >= 10 {
        law_decimal(n / 10);
        let p = dec(n / 10);
        let d = dec(n);
        assert(d == p.push(crate::text::digit(n % 10)));
        assert(d.drop_last() == p);
        assert(((n % 10 + 48) as u8) as char as int == n % 10 + 48);
        assert(d[0] == p[0]);
        assert(d.last() as int - '0' as int == n % 10);
        assert(digits_value(d) == digits_value(p) * 10 + (d.last() as int - '0' as int));
        assert(n == (n / 10) * 10 + n % 10);
        if n / 10 < 10 {
            assert(p == seq![crate::text::digit(n / 10)]);
            assert(((n / 10 + 48) as u8) as char as int == n / 10 + 48);
            assert(p[0] as int == n / 10 + 48);
            assert(p[0] != '0');
        } else {
            law_decimal(n / 10 / 10);
            assert(p == dec(n / 10 / 10).push(crate::text::digit((n / 10) % 10)));
            assert(p.len() > 1);
            assert(p[0] != '0');
        }
        assert forall|i: int| 0 <= i < d.len() implies '0' <= #[trigger] d[i] <= '9' by {
            if i < p.len() {
                assert(d[i] == p[i]);
            }
        }
    } else {
        assert(((n + 48) as u8) as char as int == n + 48);
        let d = dec(n);
        assert(d == seq![crate::text::digit(n)]);
        assert(d.drop_last() =~= Seq::<char>::empty());
        assert(digits_value(d) == digits_value(d.drop_last()) * 10 + (d.last() as int - '0' as int));
    }
}


/// The byte order of a value of several bytes, where it is one.
pub open spec fn value_endian(w: SOMTypeWrapper) -> Option<SOMEndian> {
    match w {
        SOMTypeWrapper::U16(x) => Some(x.endian),
        SOMTypeWrapper::I16(x) => Some(x.endian),
        SOMTypeWrapper::U24(x) => Some(x.endian),
        SOMTypeWrapper::I24(x) => Some(x.endian),
        SOMTypeWrapper::U32(x) => Some(x.endian),
        SOMTypeWrapper::I32(x) => Some(x.endian),
        SOMTypeWrapper::U64(x) => Some(x.endian),
        SOMTypeWrapper::I64(x) => Some(x.endian),
        SOMTypeWrapper::F32(x) => Some(x.endian),
        SOMTypeWrapper::F64(x) => Some(x.endian),
        _ => None,
    }
}

/// A value built from a declaration of a primitive type is of that type,
/// and where it has several bytes it takes the declaration's byte order:
/// big endian where it says high-low, little endian otherwise.
pub proof fn law_primitive_built(
    types: Seq<FibexTypeInstance>,
    d: FibexTypeDeclaration,
    skip: nat,
    name: Seq<char>,
    fuel: nat,
    w: SOMTypeWrapper,
)
    requires
        type_built(types, d, skip, name, fuel, w),
        dims_of(d).len() <= skip,
        d.type_ref matches Some(k) && k < types.len() && types[k as int].datatype is Primitive,
    ensures
        ({
            let p = types[d.type_ref->0 as int].datatype->Primitive_0;
            let e = if high_low_byte_order(d.attributes@) { SOMEndian::Big } else { SOMEndian::Little };
            &&& p == FibexPrimitive::Bool ==> w is Bool
            &&& p == FibexPrimitive::Uint8 ==> w is U8
            &&& p == FibexPrimitive::Int8 ==> w is I8
            &&& p == FibexPrimitive::Uint16 ==> w is U16
            &&& p == FibexPrimitive::Int16 ==> w is I16
            &&& p == FibexPrimitive::Uint24 ==> w is U24
            &&& p == FibexPrimitive::Int24 ==> w is I24
            &&& p == FibexPrimitive::Uint32 ==> w is U32
            &&& p == FibexPrimitive::Int32 ==> w is I32
            &&& p == FibexPrimitive::Uint64 ==> w is U64
            &&& p == FibexPrimitive::Int64 ==> w is I64
            &&& p == FibexPrimitive::Float32 ==> w is F32
            &&& p == FibexPrimitive::Float64 ==> w is F64
            &&& value_endian(w) is Some ==> value_endian(w) == Some(e)
        }),
{
    reveal_with_fuel(type_built, 1);
}


/// The magic cookies of the protocol are the sixteen bytes of their
/// headers: service 0xFFFF, method 0x0000 (client) or 0x8000 (server),
/// length 8, client 0xDEAD, session 0xBEEF, versions 1, message type
/// request without return (client) or notification (server), return code
/// 0. A service discovery header starts with service 0xFFFF and method
/// 0x8100, and is a notification.
pub proof fn law_cookies_and_sd(h: Header)
    ensures
        message_bytes(MessageView::CookieClient) == seq![
            0xFFu8, 0xFFu8, 0x00u8, 0x00u8, 0x00u8, 0x00u8, 0x00u8, 0x08u8,
            0xDEu8, 0xADu8, 0xBEu8, 0xEFu8, 0x01u8, 0x01u8, 0x01u8, 0x00u8,
        ],
        message_bytes(MessageView::CookieServer) == seq![
            0xFFu8, 0xFFu8, 0x80u8, 0x00u8, 0x00u8, 0x00u8, 0x00u8, 0x08u8,
            0xDEu8, 0xADu8, 0xBEu8, 0xEFu8, 0x01u8, 0x01u8, 0x02u8, 0x00u8,
        ],
        is_sd_header(h) ==> header_bytes(h).take(4) == seq![0xFFu8, 0xFFu8, 0x81u8, 0x00u8] && header_bytes(h)[12]
            == 0x01 && header_bytes(h)[13] == 0x01 && header_bytes(h)[14] == 0x02 && header_bytes(h)[15] == 0x00,
{
    assert((0xFFFFu16 >> 8u16) as u8 == 0xFFu8 && 0xFFFFu16 as u8 == 0xFFu8 && (0x0000u16 >> 8u16) as u8 == 0u8
        && 0x0000u16 as u8 == 0u8 && (0x8000u16 >> 8u16) as u8 == 0x80u8 && 0x8000u16 as u8 == 0u8 && (0x8100u16
        >> 8u16) as u8 == 0x81u8 && 0x8100u16 as u8 == 0u8 && (0xDEADu16 >> 8u16) as u8 == 0xDEu8 && 0xDEADu16 as u8
        == 0xADu8 && (0xBEEFu16 >> 8u16) as u8 == 0xBEu8 && 0xBEEFu16 as u8 == 0xEFu8 && (8u32 >> 24u32) as u8 == 0u8
        && (8u32 >> 16u32) as u8 == 0u8 && (8u32 >> 8u32) as u8 == 0u8 && 8u32 as u8 == 8u8) by (bit_vector);
    assert(message_bytes(MessageView::CookieClient) =~= seq![
            0xFFu8, 0xFFu8, 0x00u8, 0x00u8, 0x00u8, 0x00u8, 0x00u8, 0x08u8,
            0xDEu8, 0xADu8, 0xBEu8, 0xEFu8, 0x01u8, 0x01u8, 0x01u8, 0x00u8,
        ]);
    assert(message_bytes(MessageView::CookieServer) =~= seq![
            0xFFu8, 0xFFu8, 0x80u8, 0x00u8, 0x00u8, 0x00u8, 0x00u8, 0x08u8,
            0xDEu8, 0xADu8, 0xBEu8, 0xEFu8, 0x01u8, 0x01u8, 0x02u8, 0x00u8,
        ]);
    if is_sd_header(h) {
        assert(header_bytes(h).take(4) =~= seq![0xFFu8, 0xFFu8, 0x81u8, 0x00u8]);
    }
}

/// The length field of a declaration of a size in bytes: one byte for 1,
/// two for 2, four for 4, none for other sizes; and how a string is framed
/// by its byte order mark and termination.
pub proof fn law_lengthfield_and_format(size: usize, has_bom: bool, has_termination: bool)
    ensures
        lengthfield_of(size) == if size == 1 {
            SOMLengthField::U8
        } else if size == 2 {
            SOMLengthField::U16
        } else if size == 4 {
            SOMLengthField::U32
        } else {
            SOMLengthField::NoField
        },
        lengthfield_size(lengthfield_of(size)) == if size == 1 || size == 2 || size == 4 { size as nat } else { 0 },
        (string_format_of(has_bom, has_termination) == SOMStringFormat::Plain) <==> (!has_bom && !has_termination),
        (string_format_of(has_bom, has_termination) == SOMStringFormat::WithBOM) <==> (has_bom && !has_termination),
        (string_format_of(has_bom, has_termination) == SOMStringFormat::WithTermination) <==> (!has_bom && has_termination),
        (string_format_of(has_bom, has_termination) == SOMStringFormat::WithBOMandTermination) <==> (has_bom && has_termination),
{
}

} // verus!
