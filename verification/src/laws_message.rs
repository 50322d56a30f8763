//! The law that relates the message serializer to the parser: a message
//! read back from the bytes that it is written to is the message.

use crate::bytes::{
    be128, be16, be24, be32, from_be128, from_be16, from_be24, from_be32, lemma_be128_roundtrip,
    lemma_be16_roundtrip, lemma_be24_roundtrip, lemma_be32_roundtrip,
};
use crate::error::Error;
use crate::laws::lemma_header_roundtrip;
use crate::parser::{
    be16_at, be24_at, be32_at, entries_at, entry_at, message_of, option_at, option_ref_at,
    options_at, sd_payload_at,
};
use crate::serializer::{
    entries_bytes, entry_bytes, entry_ttl, header_bytes, lemma_entries_bytes_len,
    lemma_options_bytes_len, message_bytes, option_bytes, option_consistent, option_ref_bytes,
    options_bytes, sd_payload_bytes,
};
use crate::types::{
    client_cookie_header, entry_option_ref, entry_type_code, ip_proto_code, option_type_code, is_sd_header, option_len, options_total_len,
    return_code_valid, sd_payload_len, server_cookie_header, Header, IpAddr, MessageView, SdEntry,
    SdOption, SdOptionRef, SdPayloadView,
};
use vstd::prelude::*;

verus! {

/// An option reference whose counts fit the four bits that the wire gives
/// each.
pub open spec fn option_ref_valid(r: SdOptionRef) -> bool {
    r.num1 < 16 && r.num2 < 16
}

/// An entry that the wire can carry: its time to live fits 24 bits and its
/// option counts four bits each.
pub open spec fn entry_valid(e: SdEntry) -> bool {
    entry_ttl(e) < 0x100_0000 && option_ref_valid(entry_option_ref(e))
}

/// A service discovery payload that the wire can carry: valid entries,
/// options whose addresses are of the versions their types name, and
/// lengths of entries and options that fit their 32-bit fields.
pub open spec fn sd_payload_valid(p: SdPayloadView) -> bool {
    &&& forall|i: int| 0 <= i < p.entries.len() ==> entry_valid(#[trigger] p.entries[i])
    &&& forall|i: int| 0 <= i < p.options.len() ==> option_consistent(#[trigger] p.options[i])
    &&& 16 * p.entries.len() <= u32::MAX
    &&& options_total_len(p.options) <= u32::MAX
}

/// A message that its bytes give back: a header whose return code the wire
/// carries and whose length counts the payload; a remote procedure call
/// whose header is neither that of service discovery nor a magic cookie's;
/// a service discovery message with its header and a valid payload.
pub open spec fn message_wellformed(m: MessageView) -> bool {
    match m {
        MessageView::Rpc(h, payload) => {
            &&& return_code_valid(h.return_code)
            &&& h.length == 8 + payload.len()
            &&& !is_sd_header(h)
            &&& h != client_cookie_header()
            &&& h != server_cookie_header()
        },
        MessageView::Sd(h, p) => {
            &&& is_sd_header(h)
            &&& h.length == 8 + sd_payload_len(p)
            &&& sd_payload_valid(p)
        },
        _ => true,
    }
}

/// The bytes of `d` from `p` on are `b`, so any part of them is the part of
/// `b`.
proof fn lemma_part(d: Seq<u8>, p: int, b: Seq<u8>, i: int, j: int)
    requires
        0 <= p,
        0 <= i <= j <= b.len(),
        p + b.len() <= d.len(),
        d.subrange(p, p + b.len()) == b,
    ensures
        d.subrange(p + i, p + j) == b.subrange(i, j),
        forall|k: int| i <= k < j ==> d[p + k] == b[k],
{
    assert(d.subrange(p + i, p + j) =~= b.subrange(i, j));
    assert forall|k: int| i <= k < j implies d[p + k] == b[k] by {
        assert(d.subrange(p, p + b.len())[k] == d[p + k]);
    }
}

/// The option reference is read back from its three bytes.
proof fn lemma_option_ref_roundtrip(r: SdOptionRef, d: Seq<u8>, p: int)
    requires
        option_ref_valid(r),
        0 <= p,
        p + 4 <= d.len(),
        d.subrange(p + 1, p + 4) == option_ref_bytes(r),
    ensures
        option_ref_at(d, p) == r,
{
    let b = option_ref_bytes(r);
    assert(d.subrange(p + 1, p + 4)[0] == d[p + 1]);
    assert(d.subrange(p + 1, p + 4)[1] == d[p + 2]);
    assert(d.subrange(p + 1, p + 4)[2] == d[p + 3]);
    let n1 = r.num1;
    let n2 = r.num2;
    let x = ((n1 << 4u8) & 0xF0u8) | (n2 & 0x0Fu8);
    assert(((x >> 4u8) & 0x0Fu8) == n1 && (x & 0x0Fu8) == n2) by (bit_vector)
        requires
            n1 < 16,
            n2 < 16,
            x == ((n1 << 4u8) & 0xF0u8) | (n2 & 0x0Fu8),
    ;
}

/// An entry is read back from its sixteen bytes.
pub proof fn lemma_entry_roundtrip(e: SdEntry, d: Seq<u8>, p: int)
    requires
        entry_valid(e),
        0 <= p,
        p + 16 <= d.len(),
        d.subrange(p, p + 16) == entry_bytes(e),
    ensures
        entry_at(d, p) == Ok::<SdEntry, Error>(e),
{
    let b = entry_bytes(e);
    assert(b.len() == 16);
    lemma_part(d, p, b, 0, 16);
    lemma_part(d, p, b, 1, 4);
    lemma_part(d, p, b, 4, 6);
    lemma_part(d, p, b, 6, 8);
    lemma_part(d, p, b, 9, 12);
    lemma_part(d, p, b, 12, 16);
    lemma_part(d, p, b, 14, 16);
    assert(d[p] == b[0]) by {
        assert(d.subrange(p, p + 16)[0] == d[p]);
    }
    assert(d[p + 8] == b[8]) by {
        assert(d.subrange(p, p + 16)[8] == d[p + 8]);
    }
    match e {
        SdEntry::FindService(s) | SdEntry::OfferService(s) => {
            assert(b.subrange(1, 4) =~= option_ref_bytes(s.options));
            assert(b.subrange(4, 6) =~= be16(s.service_id));
            assert(b.subrange(6, 8) =~= be16(s.instance_id));
            assert(b.subrange(9, 12) =~= be24(s.ttl));
            assert(b.subrange(12, 16) =~= be32(s.minor_version));
            lemma_be16_roundtrip(s.service_id);
            lemma_be16_roundtrip(s.instance_id);
            lemma_be24_roundtrip(s.ttl);
            lemma_be32_roundtrip(s.minor_version);
            lemma_option_ref_roundtrip(s.options, d, p);
            assert(b[0] == entry_type_code(e));
            assert(b[8] == s.major_version);
            assert(be16_at(d, p + 4) == s.service_id);
            assert(be16_at(d, p + 6) == s.instance_id);
            assert(be24_at(d, p + 9) == s.ttl);
            assert(be32_at(d, p + 12) == s.minor_version);
        },
        SdEntry::SubscribeEventgroup(g) | SdEntry::SubscribeEventgroupAck(g) => {
            assert(b.subrange(1, 4) =~= option_ref_bytes(g.options));
            assert(b.subrange(4, 6) =~= be16(g.service_id));
            assert(b.subrange(6, 8) =~= be16(g.instance_id));
            assert(b.subrange(9, 12) =~= be24(g.ttl));
            assert(b.subrange(14, 16) =~= be16(g.eventgroup_id));
            lemma_be16_roundtrip(g.service_id);
            lemma_be16_roundtrip(g.instance_id);
            lemma_be24_roundtrip(g.ttl);
            lemma_be16_roundtrip(g.eventgroup_id);
            lemma_option_ref_roundtrip(g.options, d, p);
            assert(b[0] == entry_type_code(e));
            assert(b[8] == g.major_version);
            assert(be16_at(d, p + 4) == g.service_id);
            assert(be16_at(d, p + 6) == g.instance_id);
            assert(be24_at(d, p + 9) == g.ttl);
            assert(be16_at(d, p + 14) == g.eventgroup_id);
        },
    }
}

/// The bytes of entries are those of the first, then those of the others.
proof fn lemma_entries_bytes_first(s: Seq<SdEntry>)
    requires
        s.len() > 0,
    ensures
        entries_bytes(s) == entry_bytes(s[0]) + entries_bytes(s.drop_first()),
    decreases s.len(),
{
    if s.len() == 1 {
        assert(s.drop_last() =~= Seq::<SdEntry>::empty());
        assert(s.drop_first() =~= Seq::<SdEntry>::empty());
        assert(entries_bytes(s) =~= entry_bytes(s[0]) + entries_bytes(s.drop_first()));
    } else {
        lemma_entries_bytes_first(s.drop_last());
        assert(s.drop_last().drop_first() =~= s.drop_first().drop_last());
        assert(s.drop_first().last() == s.last());
        assert(entries_bytes(s) =~= entry_bytes(s[0]) + entries_bytes(s.drop_first()));
    }
}

/// Entries are read back from their bytes.
pub proof fn lemma_entries_roundtrip(s: Seq<SdEntry>, d: Seq<u8>, p: int)
    requires
        forall|i: int| 0 <= i < s.len() ==> entry_valid(#[trigger] s[i]),
        0 <= p,
        p + 16 * s.len() <= d.len(),
        d.subrange(p, p + 16 * s.len()) == entries_bytes(s),
    ensures
        entries_at(d, p, s.len()) == Ok::<Seq<SdEntry>, Error>(s),
    decreases s.len(),
{
    lemma_entries_bytes_len(s);
    if s.len() > 0 {
        let rest = s.drop_first();
        lemma_entries_bytes_first(s);
        lemma_entries_bytes_len(rest);
        let b = entries_bytes(s);
        lemma_part(d, p, b, 0, 16);
        lemma_part(d, p, b, 16, b.len() as int);
        assert(b.subrange(0, 16) =~= entry_bytes(s[0]));
        assert(b.subrange(16, b.len() as int) =~= entries_bytes(rest));
        assert(entry_valid(s[0]));
        lemma_entry_roundtrip(s[0], d, p);
        assert forall|i: int| 0 <= i < rest.len() implies entry_valid(#[trigger] rest[i]) by {
            assert(rest[i] == s[i + 1]);
        }
        lemma_entries_roundtrip(rest, d, p + 16);
        assert(seq![s[0]] + rest =~= s);
    } else {
        assert(s =~= Seq::<SdEntry>::empty());
    }
}

/// An option is read back from its bytes, with its length.
pub proof fn lemma_option_roundtrip(o: SdOption, d: Seq<u8>, p: int)
    requires
        option_consistent(o),
        0 <= p,
        p + option_len(o) <= d.len(),
        d.subrange(p, p + option_len(o)) == option_bytes(o),
    ensures
        option_at(d, p) == Ok::<(nat, Option<SdOption>), Error>((option_len(o), Some(o))),
{
    let b = option_bytes(o);
    let n = option_len(o) as int;
    assert(b.len() == n);
    lemma_part(d, p, b, 0, n);
    assert(d[p + 2] == b[2]) by {
        assert(d.subrange(p, p + n)[2] == d[p + 2]);
    }
    assert(b[2] == option_type_code(o));
    match o {
        SdOption::Ip4Unicast(e) | SdOption::Ip4Multicast(e) => {
            assert(d[p + 9] == b[9]) by {
                assert(d.subrange(p, p + n)[9] == d[p + 9]);
            }
            assert(b[9] == ip_proto_code(e.proto));
            let a = e.ip->V4_0;
            assert(b.subrange(4, 8) =~= be32(a));
            assert(b.subrange(10, 12) =~= be16(e.port));
            lemma_part(d, p, b, 4, 8);
            lemma_part(d, p, b, 10, 12);
            lemma_be32_roundtrip(a);
            lemma_be16_roundtrip(e.port);
        },
        SdOption::Ip6Unicast(e) | SdOption::Ip6Multicast(e) => {
            assert(d[p + 21] == b[21]) by {
                assert(d.subrange(p, p + n)[21] == d[p + 21]);
            }
            assert(b[21] == ip_proto_code(e.proto));
            let a = e.ip->V6_0;
            assert(b.subrange(4, 20) =~= be128(a));
            assert(b.subrange(22, 24) =~= be16(e.port));
            lemma_part(d, p, b, 4, 20);
            lemma_part(d, p, b, 22, 24);
            lemma_be128_roundtrip(a);
            lemma_be16_roundtrip(e.port);
        },
    }
}

/// The bytes of options are those of the first, then those of the others,
/// and so are their lengths.
proof fn lemma_options_first(s: Seq<SdOption>)
    requires
        s.len() > 0,
    ensures
        options_bytes(s) == option_bytes(s[0]) + options_bytes(s.drop_first()),
        options_total_len(s) == option_len(s[0]) + options_total_len(s.drop_first()),
    decreases s.len(),
{
    if s.len() == 1 {
        assert(s.drop_last() =~= Seq::<SdOption>::empty());
        assert(s.drop_first() =~= Seq::<SdOption>::empty());
        assert(options_bytes(s) =~= option_bytes(s[0]) + options_bytes(s.drop_first()));
    } else {
        lemma_options_first(s.drop_last());
        assert(s.drop_last().drop_first() =~= s.drop_first().drop_last());
        assert(s.drop_first().last() == s.last());
        assert(options_bytes(s) =~= option_bytes(s[0]) + options_bytes(s.drop_first()));
    }
}

/// Options are read back from their bytes, up to the position after them.
pub proof fn lemma_options_roundtrip(s: Seq<SdOption>, d: Seq<u8>, p: int)
    requires
        forall|i: int| 0 <= i < s.len() ==> option_consistent(#[trigger] s[i]),
        0 <= p,
        p + options_total_len(s) <= d.len(),
        d.subrange(p, p + options_total_len(s)) == options_bytes(s),
    ensures
        options_at(d, p, options_total_len(s) as int) == Ok::<(Seq<SdOption>, int), Error>(
            (s, p + options_total_len(s)),
        ),
    decreases s.len(),
{
    lemma_options_bytes_len(s);
    if s.len() > 0 {
        let rest = s.drop_first();
        lemma_options_first(s);
        assert forall|i: int| 0 <= i < rest.len() implies option_consistent(#[trigger] rest[i]) by {
            assert(rest[i] == s[i + 1]);
        }
        lemma_options_bytes_len(rest);
        let b = options_bytes(s);
        let n = option_len(s[0]) as int;
        assert(option_consistent(s[0]));
        lemma_part(d, p, b, 0, n);
        lemma_part(d, p, b, n, b.len() as int);
        assert(b.subrange(0, n) =~= option_bytes(s[0]));
        assert(b.subrange(n, b.len() as int) =~= options_bytes(rest));
        lemma_option_roundtrip(s[0], d, p);
        lemma_options_roundtrip(rest, d, p + n);
        assert(seq![s[0]] + rest =~= s);
    } else {
        assert(s =~= Seq::<SdOption>::empty());
    }
}

/// A service discovery payload is read back from its bytes.
#[verifier::rlimit(40)]
pub proof fn lemma_sd_payload_roundtrip(p: SdPayloadView)
    requires
        sd_payload_valid(p),
    ensures
        sd_payload_at(sd_payload_bytes(p), 0) == Ok::<SdPayloadView, Error>(p),
{
    let d = sd_payload_bytes(p);
    let n = p.entries.len() as int;
    let t = options_total_len(p.options) as int;
    lemma_entries_bytes_len(p.entries);
    lemma_options_bytes_len(p.options);
    let el = (16 * n) as u32;
    let ol = t as u32;
    let eb = entries_bytes(p.entries);
    let ob = options_bytes(p.options);
    let head = seq![p.flags] + be24(0) + be32(el);
    assert(head.len() == 8);
    assert(d == head + eb + be32(ol) + ob);
    let q: int = 8 + 16 * n;
    assert(d.len() == q + 4 + t);
    assert(d[0] == p.flags);
    assert(d.subrange(4, 8) =~= be32(el));
    lemma_be32_roundtrip(el);
    assert(d.subrange(8, q) =~= eb);
    lemma_entries_roundtrip(p.entries, d, 8);
    assert(d.subrange(q, q + 4) =~= be32(ol));
    lemma_be32_roundtrip(ol);
    assert(d.subrange(q + 4, q + 4 + t) =~= ob);
    lemma_options_roundtrip(p.options, d, q + 4);
}

/// A remote procedure call is read back from its bytes.
proof fn lemma_rpc_roundtrip(h: Header, payload: Seq<u8>)
    requires
        message_wellformed(MessageView::Rpc(h, payload)),
    ensures
        message_of(message_bytes(MessageView::Rpc(h, payload))) == Ok::<MessageView, Error>(
            MessageView::Rpc(h, payload),
        ),
{
    let d = message_bytes(MessageView::Rpc(h, payload));
    assert(d.subrange(0, 16) =~= header_bytes(h));
    crate::laws::lemma_header_roundtrip_at(h, d, 0);
    assert(d.subrange(16, 16 + payload.len() as int) =~= payload);
}

/// A service discovery message is read back from its bytes.
proof fn lemma_sd_roundtrip(h: Header, p: SdPayloadView)
    requires
        message_wellformed(MessageView::Sd(h, p)),
    ensures
        message_of(message_bytes(MessageView::Sd(h, p))) == Ok::<MessageView, Error>(
            MessageView::Sd(h, p),
        ),
{
    let d = message_bytes(MessageView::Sd(h, p));
    lemma_entries_bytes_len(p.entries);
    lemma_options_bytes_len(p.options);
    assert(d.subrange(0, 16) =~= header_bytes(h));
    crate::laws::lemma_header_roundtrip_at(h, d, 0);
    assert(d.subrange(16, d.len() as int) =~= sd_payload_bytes(p));
    lemma_sd_payload_roundtrip(p);
}

/// `Message::from_slice` reads back what `Message::to_vec` writes, for every
/// well-formed message.
pub proof fn lemma_message_roundtrip(m: MessageView)
    requires
        message_wellformed(m),
    ensures
        message_of(message_bytes(m)) == Ok::<MessageView, Error>(m),
{
    match m {
        MessageView::Rpc(h, payload) => lemma_rpc_roundtrip(h, payload),
        MessageView::Sd(h, p) => lemma_sd_roundtrip(h, p),
        MessageView::CookieClient => lemma_header_roundtrip(client_cookie_header()),
        MessageView::CookieServer => lemma_header_roundtrip(server_cookie_header()),
    }
}

} // verus!
