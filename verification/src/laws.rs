//! What holds across the builder and the parser.

use vstd::prelude::*;

use crate::builder::{
    HeaderBuilderView, be16_bytes, be32_bytes, builder_wf, spec_encode_ssl, ssl_fits, sub_str, spec_build_v1, v1_line, v1_proto, v1_unknown_line, crc_placeholder, encode_addresses, fam_proto_byte, ip_family,
    encode_entries, encode_tlv, spec_build, unix_field, v2_fits, v2_payload, v2_unsealed,
};
use crate::crc::spec_crc32c;
use crate::iptext::{dec, ip_text, run_value, spec_parse_ip, spec_parse_port};
use crate::net::SocketAddr;
use crate::parse::v1::{
    crlf_from, is_unknown_line, space_from, split_from, spec_parse_v1, unknown_info, unknown_prefix,
};
use crate::textfacts::{
    all_visible, is_dec_digit, lemma_dec_shape, lemma_dec_value, lemma_ip_text_roundtrip,
    lemma_ip_text_shape, visible,
};
use vstd::utf8::{decode_utf8, encode_utf8_decode_utf8, encode_utf8, encode_utf8_valid_utf8, is_ascii_chars, is_ascii_chars_encode_utf8, valid_utf8};
use crate::error::ParseErrorView;
use crate::net::{
    IpAddr, be16, lemma_v4_value_of_octets, lemma_v6_value_of_segments, segments_of_octets,
    v4_octets, v6_octets, v6_segments,
};
use crate::parse::tlv::{apply_tlv, parse_tlvs_from};
use crate::parse::v2::{
    AddressesView, crc_value_pos, family_of, protocol_of, spec_compute_crc32c, spec_parse_v2,
    spec_parse_v2_addresses, unix_path, v2_signature, zero_crc_field, nul_from, lemma_nul_from_bounds,
};
use crate::parse::tlv::{apply_sub_tlv, be32, parse_sub_tlvs_from, spec_parse_ssl, spec_parse_tlvs};
use crate::parse::{spec_parse, v1_prefix};
use crate::policy::{
    IpNetView, TrustedProxiesView, any_contains, host_addrs, is_host, net_contains, non_hosts, trusted,
    v4_hostmask, v4_netmask, v6_hostmask, v6_netmask,
};
use crate::text::text_of;
use crate::types::{
    SslInfoView,
    AddressFamily, Command, ProxyAddressView, ProxyInfoView, TlvsView, Transport, Version, empty_tlvs,
};

verus! {

/// Two big-endian bytes of a 16-bit value read back as that value.
pub proof fn lemma_be16_roundtrip(v: int)
    requires
        0 <= v <= 65535,
    ensures
        be16(be16_bytes(v)[0], be16_bytes(v)[1]) as int == v,
{
    let hi = v / 256;
    let lo = v % 256;
    assert(hi * 256 + lo == v && 0 <= lo < 256 && 0 <= hi < 256) by (nonlinear_arith)
        requires
            0 <= v <= 65535,
            hi == v / 256,
            lo == v % 256,
    ;
}

/// The sixteen octets of an IPv6 address read back in pairs give its segments.
pub proof fn lemma_segments_of_v6_octets(x: u128)
    ensures
        segments_of_octets(v6_octets(x)) == v6_segments(x),
{
    let s = v6_segments(x);
    let o = v6_octets(x);
    assert forall|i: int| 0 <= i < 8 implies #[trigger] segments_of_octets(o)[i] == s[i] by {
        let g = s[i] as int;
        assert(o[2 * i] == (g / 256) as u8);
        assert(o[2 * i + 1] == (g % 256) as u8);
        assert(be16_bytes(g) == seq![(g / 256) as u8, (g % 256) as u8]);
        lemma_be16_roundtrip(g);
    }
    assert(segments_of_octets(o) =~= s);
}

/// The TLV records of a list of entries start with the record of its first entry.
pub proof fn lemma_encode_entries_front(e: Seq<(u8, Seq<u8>)>)
    requires
        e.len() > 0,
    ensures
        encode_entries(e) == encode_tlv(e[0].0, e[0].1) + encode_entries(e.drop_first()),
    decreases e.len(),
{
    if e.len() == 1 {
        assert(e.drop_first() =~= Seq::<(u8, Seq<u8>)>::empty());
        assert(e.drop_last() =~= Seq::<(u8, Seq<u8>)>::empty());
        assert(encode_entries(e) =~= encode_tlv(e[0].0, e[0].1) + encode_entries(e.drop_first()));
    } else {
        lemma_encode_entries_front(e.drop_last());
        assert(e.drop_last().drop_first() =~= e.drop_first().drop_last());
        assert(e.drop_first().last() == e.last());
        assert(encode_entries(e) =~= encode_tlv(e[0].0, e[0].1) + encode_entries(e.drop_first()));
    }
}

/// The entries applied in order, as the parser applies the TLVs it reads: each
/// entry at the offset where its record starts.
pub open spec fn apply_entries(e: Seq<(u8, Seq<u8>)>, offset: int, acc: TlvsView) -> Result<TlvsView, ParseErrorView>
    decreases e.len(),
{
    if e.len() == 0 {
        Ok(acc)
    } else {
        match apply_tlv(acc, e[0].0, e[0].1, offset) {
            Ok(a) => apply_entries(e.drop_first(), offset + 3 + e[0].1.len(), a),
            Err(x) => Err(x),
        }
    }
}

/// Whether every entry value fits a 16-bit length.
pub open spec fn entries_fit(e: Seq<(u8, Seq<u8>)>) -> bool {
    forall|i: int| 0 <= i < e.len() ==> (#[trigger] e[i]).1.len() <= 65535
}

/// Reading the TLV records of some entries, followed by more bytes, applies the
/// entries in order and then reads on.
pub proof fn lemma_parse_encoded_entries(e: Seq<(u8, Seq<u8>)>, rest: Seq<u8>, offset: int, acc: TlvsView)
    requires
        entries_fit(e),
    ensures
        parse_tlvs_from(encode_entries(e) + rest, offset, acc) == match apply_entries(e, offset, acc) {
            Ok(a) => parse_tlvs_from(rest, offset + encode_entries(e).len(), a),
            Err(x) => Err(x),
        },
    decreases e.len(),
{
    if e.len() == 0 {
        assert(encode_entries(e) + rest =~= rest);
    } else {
        lemma_encode_entries_front(e);
        let t = e[0].0;
        let v = e[0].1;
        let l = v.len() as int;
        let tail = e.drop_first();
        let data = encode_entries(e) + rest;
        assert(e[0] == e[0]);
        assert(l <= 65535);
        lemma_be16_roundtrip(l);
        assert(data =~= seq![t] + be16_bytes(l) + v + (encode_entries(tail) + rest));
        assert(data[1] == be16_bytes(l)[0] && data[2] == be16_bytes(l)[1]);
        assert(data.subrange(3, 3 + l) =~= v);
        assert(data.skip(3 + l) =~= encode_entries(tail) + rest);
        assert(entries_fit(tail)) by {
            assert forall|i: int| 0 <= i < tail.len() implies (#[trigger] tail[i]).1.len() <= 65535 by {
                assert(tail[i] == e[i + 1]);
            }
        }
        match apply_tlv(acc, t, v, offset) {
            Ok(a) => {
                lemma_parse_encoded_entries(tail, rest, offset + 3 + l, a);
            },
            Err(x) => {},
        }
    }
}


/// What an address reads back as: an IP socket address as itself, a Unix path
/// as the bytes before the first NUL of its 108-byte field.
pub open spec fn read_back(a: Option<ProxyAddressView>) -> Option<ProxyAddressView> {
    match a {
        Some(ProxyAddressView::Unix(p)) => Some(ProxyAddressView::Unix(unix_path(unix_field(p)))),
        _ => a,
    }
}

/// The number of bytes the address block of a transport takes.
pub open spec fn address_block_len(t: Transport) -> int {
    match t.family {
        AddressFamily::Inet => 12,
        AddressFamily::Inet6 => 36,
        AddressFamily::Unix => 216,
    }
}

/// The address block that the builder writes reads back as the builder's
/// transport and addresses, whatever follows it.
pub proof fn lemma_addresses_roundtrip(t: Transport, s: ProxyAddressView, d: ProxyAddressView, rest: Seq<u8>)
    requires
        builder_wf(HeaderBuilderView {
            version: Version::V2,
            command: Command::Proxy,
            transport: Some(t),
            source: Some(s),
            destination: Some(d),
            tlv_entries: Seq::empty(),
            add_crc32c: false,
        }),
    ensures
        encode_addresses(Some(s), Some(d)).len() == address_block_len(t),
        spec_parse_v2_addresses(fam_proto_byte(Some(t)) / 16, fam_proto_byte(Some(t)) % 16, encode_addresses(Some(s), Some(d)) + rest)
            == Ok::<AddressesView, ParseErrorView>((Some(t), read_back(Some(s)), read_back(Some(d)), address_block_len(t))),
{
    let f = fam_proto_byte(Some(t));
    let block = encode_addresses(Some(s), Some(d));
    let payload = block + rest;
    assert(family_of(f / 16) == Some(t.family));
    assert(protocol_of(f % 16) == Some(t.protocol));
    match (s, d) {
        (ProxyAddressView::Inet(x), ProxyAddressView::Inet(y)) => {
            lemma_be16_roundtrip(x.port as int);
            lemma_be16_roundtrip(y.port as int);
            match (x.ip, y.ip) {
                (IpAddr::V4(a), IpAddr::V4(b)) => {
                    assert(t.family == AddressFamily::Inet);
                    lemma_v4_value_of_octets(a);
                    lemma_v4_value_of_octets(b);
                    assert(payload.subrange(0, 12) =~= v4_octets(a) + v4_octets(b) + be16_bytes(x.port as int) + be16_bytes(y.port as int));
                    assert(payload[0] == v4_octets(a)[0] && payload[1] == v4_octets(a)[1] && payload[2] == v4_octets(a)[2] && payload[3] == v4_octets(a)[3]);
                    assert(payload[4] == v4_octets(b)[0] && payload[5] == v4_octets(b)[1] && payload[6] == v4_octets(b)[2] && payload[7] == v4_octets(b)[3]);
                    assert(payload[8] == be16_bytes(x.port as int)[0] && payload[9] == be16_bytes(x.port as int)[1]);
                    assert(payload[10] == be16_bytes(y.port as int)[0] && payload[11] == be16_bytes(y.port as int)[1]);
                },
                (IpAddr::V6(a), IpAddr::V6(b)) => {
                    assert(t.family == AddressFamily::Inet6);
                    lemma_segments_of_v6_octets(a);
                    lemma_segments_of_v6_octets(b);
                    lemma_v6_value_of_segments(a);
                    lemma_v6_value_of_segments(b);
                    assert(payload.subrange(0, 16) =~= v6_octets(a));
                    assert(payload.subrange(16, 32) =~= v6_octets(b));
                    assert(payload[32] == be16_bytes(x.port as int)[0] && payload[33] == be16_bytes(x.port as int)[1]);
                    assert(payload[34] == be16_bytes(y.port as int)[0] && payload[35] == be16_bytes(y.port as int)[1]);
                },
                _ => {
                    assert(false);
                },
            }
        },
        (ProxyAddressView::Unix(x), ProxyAddressView::Unix(y)) => {
            assert(t.family == AddressFamily::Unix);
            assert(payload.subrange(0, 108) =~= unix_field(x));
            assert(payload.subrange(108, 216) =~= unix_field(y));
        },
        _ => {
            assert(false);
        },
    }
}

/// Whether no entry has the CRC32c type (0x03).
pub open spec fn no_crc_entry(e: Seq<(u8, Seq<u8>)>) -> bool {
    forall|i: int| 0 <= i < e.len() ==> (#[trigger] e[i]).0 != 0x03
}

/// The scan for the CRC TLV passes over TLV records of other types.
pub proof fn lemma_crc_scan(e: Seq<(u8, Seq<u8>)>, h: Seq<u8>, pos: int)
    requires
        0 <= pos,
        pos + encode_entries(e).len() <= h.len(),
        h.subrange(pos, pos + encode_entries(e).len()) == encode_entries(e),
        entries_fit(e),
        no_crc_entry(e),
    ensures
        crc_value_pos(h, pos) == crc_value_pos(h, pos + encode_entries(e).len()),
    decreases e.len(),
{
    if e.len() > 0 {
        lemma_encode_entries_front(e);
        let t = e[0].0;
        let v = e[0].1;
        let l = v.len() as int;
        let tail = e.drop_first();
        assert(e[0] == e[0]);
        lemma_be16_roundtrip(l);
        let enc = encode_entries(e);
        assert(enc =~= seq![t] + be16_bytes(l) + v + encode_entries(tail));
        assert(h[pos] == enc[0] && h[pos + 1] == enc[1] && h[pos + 2] == enc[2]);
        assert(t != 0x03);
        assert(enc.len() == 3 + l + encode_entries(tail).len());
        let start = pos + 3 + l;
        let et = encode_entries(tail);
        assert forall|k: int| 0 <= k < et.len() implies #[trigger] h.subrange(start, start + et.len())[k] == et[k] by {
            assert(h.subrange(pos, pos + enc.len())[3 + l + k] == h[start + k]);
            assert(enc[3 + l + k] == et[k]);
        }
        assert(h.subrange(start, start + et.len()) =~= et);
        assert(entries_fit(tail)) by {
            assert forall|i: int| 0 <= i < tail.len() implies (#[trigger] tail[i]).1.len() <= 65535 by {
                assert(tail[i] == e[i + 1]);
            }
        }
        assert(no_crc_entry(tail)) by {
            assert forall|i: int| 0 <= i < tail.len() implies (#[trigger] tail[i]).0 != 0x03 by {
                assert(tail[i] == e[i + 1]);
            }
        }
        lemma_crc_scan(tail, h, pos + 3 + l);
    }
}

/// Applying entries of other types than CRC32c sets no CRC value.
pub proof fn lemma_apply_entries_no_crc(e: Seq<(u8, Seq<u8>)>, offset: int, acc: TlvsView)
    requires
        no_crc_entry(e),
        acc.crc32c is None,
    ensures
        apply_entries(e, offset, acc) matches Ok(a) ==> a.crc32c is None,
    decreases e.len(),
{
    if e.len() > 0 {
        assert(e[0].0 != 0x03);
        let tail = e.drop_first();
        assert(no_crc_entry(tail)) by {
            assert forall|i: int| 0 <= i < tail.len() implies (#[trigger] tail[i]).0 != 0x03 by {
                assert(tail[i] == e[i + 1]);
            }
        }
        match apply_tlv(acc, e[0].0, e[0].1, offset) {
            Ok(a) => lemma_apply_entries_no_crc(tail, offset + 3 + e[0].1.len(), a),
            Err(_) => {},
        }
    }
}


/// The address block of a v2 builder: its addresses for PROXY, nothing for LOCAL.
pub open spec fn address_block(b: HeaderBuilderView) -> Seq<u8> {
    if b.command == Command::Proxy { encode_addresses(b.source, b.destination) } else { Seq::empty() }
}

/// The CRC32c value that a v2 header built from `b` carries.
pub open spec fn built_crc(b: HeaderBuilderView) -> u32 {
    spec_crc32c(v2_unsealed(b))
}

/// The CRC TLV with value `cv` that ends a v2 header built with a checksum.
pub open spec fn crc_tail_with(b: HeaderBuilderView, cv: u32) -> Seq<u8> {
    if b.add_crc32c { seq![0x03u8, 0x00, 0x04] + be32_bytes(cv) } else { Seq::empty() }
}

/// The CRC TLV that ends a v2 header built with a checksum.
pub open spec fn crc_tail(b: HeaderBuilderView) -> Seq<u8> {
    crc_tail_with(b, built_crc(b))
}

/// The TLVs of a v2 header of `b` whose CRC TLV (when asked for) holds `cv`,
/// as the parser reads them: its entries applied in order, then the CRC TLV.
pub open spec fn tlvs_with(b: HeaderBuilderView, cv: u32) -> TlvsView {
    let a = match apply_entries(b.tlv_entries, 0, empty_tlvs()) {
        Ok(a) => a,
        Err(_) => empty_tlvs(),
    };
    if b.add_crc32c {
        TlvsView { raw: a.raw.push((0x03u8, be32_bytes(cv))), crc32c: Some(cv), ..a }
    } else {
        a
    }
}

/// The TLVs of a v2 header built from `b`, as the parser reads them.
pub open spec fn built_tlvs(b: HeaderBuilderView) -> TlvsView {
    tlvs_with(b, built_crc(b))
}

/// The header a v2 header of `b` with CRC value `cv` reads back as.
pub open spec fn info_with(b: HeaderBuilderView, cv: u32) -> ProxyInfoView {
    ProxyInfoView {
        version: Version::V2,
        command: b.command,
        transport: b.transport,
        source: read_back(b.source),
        destination: read_back(b.destination),
        tlvs: tlvs_with(b, cv),
    }
}

/// The header a v2 header built from `b` reads back as.
pub open spec fn built_info(b: HeaderBuilderView) -> ProxyInfoView {
    info_with(b, built_crc(b))
}

/// The layout of a built v2 header.
pub proof fn lemma_v2_layout(b: HeaderBuilderView)
    requires
        b.version == Version::V2,
        v2_fits(b),
    ensures
        spec_build(b).len() == 16 + v2_payload(b).len(),
        spec_build(b).take(12) == v2_signature(),
        spec_build(b)[12] == (if b.command == Command::Proxy { 0x21u8 } else { 0x20u8 }),
        spec_build(b)[13] == fam_proto_byte(b.transport),
        be16(spec_build(b)[14], spec_build(b)[15]) as int == v2_payload(b).len(),
        spec_build(b).skip(16) == address_block(b) + encode_entries(b.tlv_entries) + crc_tail(b),
        b.add_crc32c ==> zero_crc_field(spec_build(b), spec_build(b).len() - 4) == v2_unsealed(b),
{
    let u = v2_unsealed(b);
    let p = v2_payload(b);
    let h = spec_build(b);
    let cmd: u8 = if b.command == Command::Proxy { 0x21u8 } else { 0x20u8 };
    assert(((0x20 + (if b.command == Command::Proxy { 1int } else { 0 })) as u8) == cmd);
    lemma_be16_roundtrip(p.len() as int);
    assert(u =~= v2_signature() + seq![cmd, fam_proto_byte(b.transport)] + be16_bytes(p.len() as int) + p);
    if b.add_crc32c {
        let c = built_crc(b);
        assert(p =~= address_block(b) + encode_entries(b.tlv_entries) + crc_placeholder());
        assert(h =~= u.take(u.len() - 4) + be32_bytes(c));
        assert(h.skip(16) =~= address_block(b) + encode_entries(b.tlv_entries) + crc_tail(b));
        assert(zero_crc_field(h, h.len() - 4) =~= u);
    } else {
        assert(p =~= address_block(b) + encode_entries(b.tlv_entries));
        assert(h.skip(16) =~= address_block(b) + encode_entries(b.tlv_entries) + crc_tail(b));
    }
    assert(h.take(12) =~= v2_signature());
}


/// The TLV part of a v2 header of `b` with CRC value `cv` reads back as [`tlvs_with`].
pub proof fn lemma_tlvs_with(b: HeaderBuilderView, cv: u32)
    requires
        entries_fit(b.tlv_entries),
        no_crc_entry(b.tlv_entries),
        apply_entries(b.tlv_entries, 0, empty_tlvs()) is Ok,
    ensures
        spec_parse_tlvs(encode_entries(b.tlv_entries) + crc_tail_with(b, cv)) == Ok::<TlvsView, ParseErrorView>(tlvs_with(b, cv)),
        tlvs_with(b, cv).crc32c == (if b.add_crc32c { Some(cv) } else { None }),
{
    let e = b.tlv_entries;
    lemma_parse_encoded_entries(e, crc_tail_with(b, cv), 0, empty_tlvs());
    lemma_apply_entries_no_crc(e, 0, empty_tlvs());
    let a = apply_entries(e, 0, empty_tlvs())->Ok_0;
    let off = encode_entries(e).len() as int;
    if b.add_crc32c {
        let data = crc_tail_with(b, cv);
        lemma_v4_value_of_octets(cv);
        assert(data.len() == 7);
        assert(be16(data[1], data[2]) == 4);
        assert(data.subrange(3, 7) =~= be32_bytes(cv));
        assert(be32(be32_bytes(cv)) == cv);
        assert(data.skip(7) =~= Seq::<u8>::empty());
        let a2 = TlvsView { raw: a.raw.push((0x03u8, be32_bytes(cv))), crc32c: Some(cv), ..a };
        assert(apply_tlv(a, 0x03, be32_bytes(cv), off) == Ok::<TlvsView, ParseErrorView>(a2));
        assert(parse_tlvs_from(data.skip(7), off + 7, a2) == Ok::<TlvsView, ParseErrorView>(a2));
        assert(parse_tlvs_from(data, off, a) == Ok::<TlvsView, ParseErrorView>(a2));
    }
}

/// In a header whose body is an address block, TLV records of other types and a
/// CRC TLV, the scan for the CRC TLV finds that last one.
pub proof fn lemma_crc_found(h: Seq<u8>, block: Seq<u8>, e: Seq<(u8, Seq<u8>)>, c: Seq<u8>)
    requires
        h.len() >= 16,
        h.skip(16) == block + encode_entries(e) + (seq![0x03u8, 0x00, 0x04] + c),
        c.len() == 4,
        entries_fit(e),
        no_crc_entry(e),
    ensures
        crc_value_pos(h, 16 + block.len() as int) == Some(h.len() - 4),
{
    let ab: int = block.len() as int;
    let pos: int = 16 + ab;
    let enc = encode_entries(e);
    assert(h.skip(16).len() == h.len() - 16);
    assert(h.len() == 16 + ab + enc.len() + 7);
    assert forall|k: int| 0 <= k < enc.len() implies #[trigger] h.subrange(pos, pos + enc.len())[k] == enc[k] by {
        assert(h.skip(16)[ab + k] == h[pos + k]);
        assert(h.skip(16)[ab + k] == enc[k]);
    }
    assert(h.subrange(pos, pos + enc.len()) =~= enc);
    lemma_crc_scan(e, h, pos);
    let q: int = pos + enc.len();
    assert(h[q] == 0x03 && h[q + 1] == 0x00 && h[q + 2] == 0x04) by {
        assert(h.skip(16)[ab + enc.len()] == h[q]);
        assert(h.skip(16)[ab + enc.len() + 1] == h[q + 1]);
        assert(h.skip(16)[ab + enc.len() + 2] == h[q + 2]);
    }
    assert(q + 7 == h.len());
}

/// A v2 header of `b` whose CRC value is `cv` in place of the computed one.
pub open spec fn with_crc_value(b: HeaderBuilderView, cv: u32) -> Seq<u8> {
    let h = spec_build(b);
    h.take(h.len() - 4) + be32_bytes(cv)
}

/// A built v2 header with its CRC value replaced keeps its layout, and reads
/// as zero in the same place.
pub proof fn lemma_crc_value_layout(b: HeaderBuilderView, cv: u32)
    requires
        b.version == Version::V2,
        v2_fits(b),
        b.add_crc32c,
    ensures
        with_crc_value(b, cv).len() == spec_build(b).len(),
        with_crc_value(b, cv).take(16) == spec_build(b).take(16),
        with_crc_value(b, cv).skip(16) == address_block(b) + encode_entries(b.tlv_entries) + crc_tail_with(b, cv),
        zero_crc_field(with_crc_value(b, cv), with_crc_value(b, cv).len() - 4) == v2_unsealed(b),
        with_crc_value(b, built_crc(b)) == spec_build(b),
{
    let h = spec_build(b);
    let h2 = with_crc_value(b, cv);
    lemma_v2_layout(b);
    let n = h.len() as int;
    assert(crc_tail(b) == seq![0x03u8, 0x00, 0x04] + be32_bytes(built_crc(b)));
    assert(h2.take(16) =~= h.take(16));
    assert(h.skip(16) == address_block(b) + encode_entries(b.tlv_entries) + crc_tail(b));
    assert(h2.skip(16) =~= address_block(b) + encode_entries(b.tlv_entries) + crc_tail_with(b, cv)) by {
        assert forall|k: int| 0 <= k < n - 20 implies #[trigger] h2.skip(16)[k] == h.skip(16)[k] by {
            assert(h2.skip(16)[k] == h2[16 + k]);
            assert(h.skip(16)[k] == h[16 + k]);
        }
    }
    assert(zero_crc_field(h2, n - 4) =~= zero_crc_field(h, n - 4));
    assert(h.take(n - 4) + be32_bytes(built_crc(b)) =~= h);
}

/// The CRC32c the parser computes over a v2 header of `b`, whatever CRC value
/// it carries, is the checksum of the header built from `b`.
pub proof fn lemma_computed_crc(b: HeaderBuilderView, cv: u32, extra: Seq<u8>)
    requires
        b.version == Version::V2,
        v2_fits(b),
        b.add_crc32c,
        no_crc_entry(b.tlv_entries),
    ensures
        spec_compute_crc32c(with_crc_value(b, cv) + extra, spec_build(b).len() as int, 16 + address_block(b).len() as int) == built_crc(b),
{
    let h2 = with_crc_value(b, cv);
    lemma_crc_value_layout(b, cv);
    lemma_v2_layout(b);
    assert(entries_fit(b.tlv_entries));
    assert(crc_tail_with(b, cv) == seq![0x03u8, 0x00, 0x04] + be32_bytes(cv));
    lemma_crc_found(h2, address_block(b), b.tlv_entries, be32_bytes(cv));
    assert((h2 + extra).take(h2.len() as int) =~= h2);
}

/// A buffer laid out as a v2 header of `b` whose CRC TLV (when asked for)
/// holds `cv`, with its parts read back as they should, parses as
/// [`info_with`], or fails with a CRC mismatch when `cv` is not the checksum
/// `actual` computed over it.
#[verifier::spinoff_prover]
#[verifier::rlimit(30)]
pub proof fn lemma_parse_v2_body(b: HeaderBuilderView, buf: Seq<u8>, tail: Seq<u8>, len: int, cv: u32, actual: u32)
    requires
        builder_wf(b),
        b.version == Version::V2,
        0 <= len,
        buf.len() >= 16 + len,
        buf.take(12) == v2_signature(),
        buf[12] == (if b.command == Command::Proxy { 0x21u8 } else { 0x20u8 }),
        buf[13] == fam_proto_byte(b.transport),
        be16(buf[14], buf[15]) as int == len,
        b.command == Command::Proxy ==> spec_parse_v2_addresses(buf[13] / 16, buf[13] % 16, buf.subrange(16, 16 + len))
            == Ok::<AddressesView, ParseErrorView>((b.transport, read_back(b.source), read_back(b.destination), address_block(b).len() as int)),
        buf.subrange(16, 16 + len).skip(address_block(b).len() as int) == tail,
        address_block(b).len() <= len,
        spec_parse_tlvs(tail) == Ok::<TlvsView, ParseErrorView>(tlvs_with(b, cv)),
        tlvs_with(b, cv).crc32c == (if b.add_crc32c { Some(cv) } else { None }),
        b.add_crc32c ==> spec_compute_crc32c(buf, 16 + len, 16 + address_block(b).len() as int) == actual,
    ensures
        spec_parse(buf) == (if b.add_crc32c && actual != cv {
            Err::<(ProxyInfoView, int), ParseErrorView>(ParseErrorView::CrcMismatch { expected: cv, actual })
        } else {
            Ok::<(ProxyInfoView, int), ParseErrorView>((info_with(b, cv), 16 + len))
        }),
{
    assert(buf[0] == 0x0D) by {
        assert(buf.take(12)[0] == buf[0]);
    }
    if b.command == Command::Proxy {
        assert(fam_proto_byte(b.transport) / 16 != 0 && fam_proto_byte(b.transport) % 16 != 0);
    } else {
        assert(b.transport is None && b.source is None && b.destination is None);
        assert(buf.subrange(16, 16 + len).skip(0) == buf.subrange(16, 16 + len));
    }
    if tail.len() == 0 {
        assert(tlvs_with(b, cv) == empty_tlvs());
    }
}

/// Building a v2 header and parsing it back, whatever bytes follow it, gives
/// the header that was built and its length: the command, the transport, the
/// addresses (a Unix path as the bytes before the first NUL of its 108-byte
/// field), the TLVs in order and the checksum, which the parser accepts.
/// This holds when no TLV added by hand has the CRC32c type and every TLV
/// added is one the parser accepts.
pub proof fn law_v2_roundtrip(b: HeaderBuilderView, extra: Seq<u8>)
    requires
        builder_wf(b),
        b.version == Version::V2,
        v2_fits(b),
        no_crc_entry(b.tlv_entries),
        apply_entries(b.tlv_entries, 0, empty_tlvs()) is Ok,
    ensures
        spec_parse(spec_build(b) + extra) == Ok::<(ProxyInfoView, int), ParseErrorView>((built_info(b), spec_build(b).len() as int)),
{
    lemma_v2_layout(b);
    if b.add_crc32c {
        lemma_crc_value_layout(b, built_crc(b));
    }
    lemma_v2_parse_with(b, built_crc(b), extra);
}

/// A built v2 header whose CRC value was changed is refused, whatever bytes
/// follow it: the error gives the value it carries and the checksum of the
/// header. This holds under the conditions of [`law_v2_roundtrip`].
pub proof fn law_v2_crc_detects_change(b: HeaderBuilderView, cv: u32, extra: Seq<u8>)
    requires
        builder_wf(b),
        b.version == Version::V2,
        v2_fits(b),
        b.add_crc32c,
        cv != built_crc(b),
        no_crc_entry(b.tlv_entries),
        apply_entries(b.tlv_entries, 0, empty_tlvs()) is Ok,
    ensures
        spec_parse(with_crc_value(b, cv) + extra) == Err::<(ProxyInfoView, int), ParseErrorView>(
            ParseErrorView::CrcMismatch { expected: cv, actual: built_crc(b) },
        ),
{
    lemma_crc_value_layout(b, cv);
    lemma_v2_parse_with(b, cv, extra);
}

/// The value of the last entry of type `t` among `e`, if there is one.
pub open spec fn last_value(e: Seq<(u8, Seq<u8>)>, t: u8) -> Option<Seq<u8>>
    decreases e.len(),
{
    if e.len() == 0 {
        None
    } else {
        match last_value(e.drop_first(), t) {
            Some(v) => Some(v),
            None => if e[0].0 == t { Some(e[0].1) } else { None },
        }
    }
}

/// `a` when it holds a value, else `b`.
pub open spec fn or_else<A>(a: Option<A>, b: Option<A>) -> Option<A> {
    match a {
        Some(x) => Some(x),
        None => b,
    }
}

/// Optional bytes read as text.
pub open spec fn text_opt(a: Option<Seq<u8>>) -> Option<Seq<char>> {
    match a {
        Some(v) => Some(text_of(v)),
        None => None,
    }
}

/// Applying TLV entries keeps each of them in the raw list, in order, and
/// leaves in each typed field the value of the last entry of its type.
pub proof fn lemma_apply_entries_order(e: Seq<(u8, Seq<u8>)>, offset: int, acc: TlvsView)
    requires
        apply_entries(e, offset, acc) is Ok,
    ensures
        ({
            let a = apply_entries(e, offset, acc)->Ok_0;
            &&& a.raw == acc.raw + e
            &&& a.alpn == or_else(last_value(e, 0x01), acc.alpn)
            &&& a.authority == or_else(text_opt(last_value(e, 0x02)), acc.authority)
            &&& a.unique_id == or_else(last_value(e, 0x05), acc.unique_id)
            &&& a.netns == or_else(text_opt(last_value(e, 0x30)), acc.netns)
            &&& no_crc_entry(e) ==> a.crc32c == acc.crc32c
        }),
    decreases e.len(),
{
    if e.len() > 0 {
        let a1 = apply_tlv(acc, e[0].0, e[0].1, offset)->Ok_0;
        let tail = e.drop_first();
        if no_crc_entry(e) {
            assert(e[0].0 != 0x03);
            assert forall|i: int| 0 <= i < tail.len() implies (#[trigger] tail[i]).0 != 0x03 by {
                assert(tail[i] == e[i + 1]);
            }
        }
        lemma_apply_entries_order(tail, offset + 3 + e[0].1.len(), a1);
        assert(acc.raw + e =~= acc.raw.push(e[0]) + tail);
    } else {
        assert(acc.raw + e =~= acc.raw);
    }
}

/// A v2 header built with a checksum ends with the four bytes of its CRC value.
pub proof fn lemma_crc_last_bytes(b: HeaderBuilderView)
    requires
        b.version == Version::V2,
        v2_fits(b),
        b.add_crc32c,
    ensures
        spec_build(b).len() >= 20,
        spec_build(b).skip(spec_build(b).len() - 4) == be32_bytes(built_crc(b)),
{
    let h = spec_build(b);
    lemma_v2_layout(b);
    let x = address_block(b) + encode_entries(b.tlv_entries);
    let cv = built_crc(b);
    assert(be32_bytes(cv).len() == 4);
    assert(h.skip(16) =~= x + crc_tail(b));
    assert(h.skip(h.len() - 4) =~= h.skip(16).skip(h.len() - 20));
    assert((x + crc_tail(b)).skip(x.len() + 3int) =~= be32_bytes(cv));
}

/// Reading a built v2 header back, whatever bytes follow it, gives its TLV
/// entries in the order they were added, followed, when a checksum was asked
/// for, by the CRC32c record holding the header's last four bytes; the
/// checksum read is the header's when one was asked for and none otherwise;
/// and ALPN, authority, unique ID and network namespace each hold the value
/// of the last entry of their type, or none. Under the conditions of
/// [`law_v2_roundtrip`].
#[verifier::spinoff_prover]
pub proof fn law_v2_tlv_order(b: HeaderBuilderView, extra: Seq<u8>)
    requires
        builder_wf(b),
        b.version == Version::V2,
        v2_fits(b),
        no_crc_entry(b.tlv_entries),
        apply_entries(b.tlv_entries, 0, empty_tlvs()) is Ok,
    ensures
        ({
            let h = spec_build(b);
            let r = spec_parse(h + extra);
            let e = b.tlv_entries;
            &&& r is Ok
            &&& r->Ok_0.1 == h.len()
            &&& r->Ok_0.0.tlvs.raw == e + (if b.add_crc32c { seq![(0x03u8, h.skip(h.len() - 4))] } else { Seq::empty() })
            &&& r->Ok_0.0.tlvs.crc32c == (if b.add_crc32c { Some(built_crc(b)) } else { None })
            &&& r->Ok_0.0.tlvs.alpn == last_value(e, 0x01)
            &&& r->Ok_0.0.tlvs.authority == text_opt(last_value(e, 0x02))
            &&& r->Ok_0.0.tlvs.unique_id == last_value(e, 0x05)
            &&& r->Ok_0.0.tlvs.netns == text_opt(last_value(e, 0x30))
        }),
{
    let h = spec_build(b);
    let e = b.tlv_entries;
    law_v2_roundtrip(b, extra);
    lemma_apply_entries_order(e, 0, empty_tlvs());
    assert(empty_tlvs().raw + e =~= e);
    if b.add_crc32c {
        lemma_crc_last_bytes(b);
        let cv = built_crc(b);
        let a = apply_entries(e, 0, empty_tlvs())->Ok_0;
        assert(a.raw.push((0x03u8, be32_bytes(cv))) =~= e + seq![(0x03u8, h.skip(h.len() - 4))]);
    } else {
        assert(e + Seq::<(u8, Seq<u8>)>::empty() =~= e);
    }
}

/// Parsing a v2 header of `b` with CRC value `cv` (the built header itself
/// when no checksum is asked for).
#[verifier::spinoff_prover]
#[verifier::rlimit(60)]
pub proof fn lemma_v2_parse_with(b: HeaderBuilderView, cv: u32, extra: Seq<u8>)
    requires
        builder_wf(b),
        b.version == Version::V2,
        v2_fits(b),
        no_crc_entry(b.tlv_entries),
        apply_entries(b.tlv_entries, 0, empty_tlvs()) is Ok,
        !b.add_crc32c ==> cv == built_crc(b),
    ensures
        spec_parse((if b.add_crc32c { with_crc_value(b, cv) } else { spec_build(b) }) + extra) == (if b.add_crc32c && built_crc(b) != cv {
            Err::<(ProxyInfoView, int), ParseErrorView>(ParseErrorView::CrcMismatch { expected: cv, actual: built_crc(b) })
        } else {
            Ok::<(ProxyInfoView, int), ParseErrorView>((info_with(b, cv), spec_build(b).len() as int))
        }),
{
    let h = if b.add_crc32c { with_crc_value(b, cv) } else { spec_build(b) };
    let buf = h + extra;
    let len: int = v2_payload(b).len() as int;
    lemma_v2_layout(b);
    if b.add_crc32c {
        lemma_crc_value_layout(b, cv);
        lemma_computed_crc(b, cv, extra);
    } else {
        assert(crc_tail_with(b, cv) == crc_tail(b));
    }
    assert(h.len() == 16 + len);
    assert(h.take(16) == spec_build(b).take(16));
    assert(h.skip(16) == address_block(b) + encode_entries(b.tlv_entries) + crc_tail_with(b, cv));
    assert(entries_fit(b.tlv_entries));
    assert(buf.take(12) =~= spec_build(b).take(12)) by {
        assert(buf.take(12) =~= h.take(16).take(12));
        assert(spec_build(b).take(12) =~= spec_build(b).take(16).take(12));
    }
    assert(buf[12] == spec_build(b)[12] && buf[13] == spec_build(b)[13] && buf[14] == spec_build(b)[14] && buf[15] == spec_build(b)[15]) by {
        assert(buf[12] == h.take(16)[12] && buf[13] == h.take(16)[13] && buf[14] == h.take(16)[14] && buf[15] == h.take(16)[15]);
    }
    let payload = buf.subrange(16, 16 + len);
    assert(payload =~= h.skip(16));
    let tail = encode_entries(b.tlv_entries) + crc_tail_with(b, cv);
    lemma_tlvs_with(b, cv);
    if b.command == Command::Proxy {
        let t = b.transport->Some_0;
        let sa = b.source->Some_0;
        let da = b.destination->Some_0;
        assert(builder_wf(HeaderBuilderView {
            version: Version::V2,
            command: Command::Proxy,
            transport: Some(t),
            source: Some(sa),
            destination: Some(da),
            tlv_entries: Seq::empty(),
            add_crc32c: false,
        }));
        lemma_addresses_roundtrip(t, sa, da, tail);
        assert(payload =~= encode_addresses(Some(sa), Some(da)) + tail);
        assert(payload.skip(address_block_len(t)) =~= tail);
    } else {
        assert(payload =~= tail);
        assert(payload.skip(0) =~= tail);
    }
    lemma_parse_v2_body(b, buf, tail, len, cv, built_crc(b));
}

/// A Unix path with no NUL byte reads back from its address field as itself,
/// cut to the 108 bytes of the field.
pub proof fn law_unix_path_roundtrip(p: Seq<u8>)
    requires
        forall|i: int| 0 <= i < p.len() ==> #[trigger] p[i] != 0,
    ensures
        unix_path(unix_field(p)) == p.take(if p.len() < 108 { p.len() as int } else { 108 }),
{
    let n: int = if p.len() < 108 { p.len() as int } else { 108 };
    let f = unix_field(p);
    assert(f.len() == 108);
    lemma_nul_from_bounds(f, 0);
    let z = nul_from(f, 0);
    if z < n {
        assert(f[z] == p[z]);
    }
    if n < 108 {
        assert(f[n] == 0);
    }
    assert(z == n);
    assert(f.take(z) =~= p.take(n));
}


/// Every proper prefix of a built v2 header is too short to tell: parsing it
/// asks for more bytes.
#[verifier::spinoff_prover]
pub proof fn law_v2_truncated_incomplete(b: HeaderBuilderView, k: int)
    requires
        b.version == Version::V2,
        v2_fits(b),
        1 <= k < spec_build(b).len(),
    ensures
        spec_parse(spec_build(b).take(k)) == Err::<(ProxyInfoView, int), ParseErrorView>(ParseErrorView::Incomplete),
{
    let h = spec_build(b);
    let t = h.take(k);
    lemma_v2_layout(b);
    assert(t[0] == h.take(12)[0]);
    if k >= 12 {
        assert(t.take(12) =~= h.take(12));
    }
    if k >= 16 {
        assert(t[12] == h[12] && t[13] == h[13] && t[14] == h[14] && t[15] == h[15]);
    }
}

/// A buffer whose first byte can start neither header is not a Proxy Protocol
/// header, however short it is.
pub proof fn law_not_proxy_protocol(buf: Seq<u8>)
    requires
        buf.len() >= 1,
        buf[0] != 0x0D,
        buf[0] != 0x50,
    ensures
        spec_parse(buf) == Err::<(ProxyInfoView, int), ParseErrorView>(ParseErrorView::NotProxyProtocol),
{
}


/// A single-host network contains exactly its own address.
pub proof fn lemma_host_net_contains(n: IpNetView, ip: IpAddr)
    requires
        is_host(n),
    ensures
        net_contains(n, ip) <==> ip == n.addr,
{
    match (n.addr, ip) {
        (IpAddr::V4(a), IpAddr::V4(b)) => {
            assert(v4_netmask(32) == 0xffff_ffffu32 << 0u32);
            assert(v4_hostmask(32) == 0);
            assert((a & (0xffff_ffffu32 << 0u32)) == a && (a | 0u32) == a) by (bit_vector);
        },
        (IpAddr::V6(a), IpAddr::V6(b)) => {
            assert(v6_netmask(128) == 0xffff_ffff_ffff_ffff_ffff_ffff_ffff_ffffu128 << 0u128);
            assert(v6_hostmask(128) == 0);
            assert((a & (0xffff_ffff_ffff_ffff_ffff_ffff_ffff_ffffu128 << 0u128)) == a && (a | 0u128) == a) by (bit_vector);
        },
        _ => {},
    }
}

/// Splitting networks into single hosts and the others keeps which addresses
/// they cover.
pub proof fn lemma_split_nets(s: Seq<IpNetView>, ip: IpAddr)
    ensures
        (host_addrs(s).contains(ip) || any_contains(non_hosts(s), ip)) == any_contains(s, ip),
    decreases s.len(),
{
    if s.len() > 0 {
        let init = s.drop_last();
        let l = s.last();
        lemma_split_nets(init, ip);
        assert(any_contains(s, ip) == (any_contains(init, ip) || net_contains(l, ip))) by {
            if any_contains(s, ip) {
                let k = choose|k: int| 0 <= k < s.len() && net_contains(#[trigger] s[k], ip);
                if k < init.len() {
                    assert(init[k] == s[k]);
                }
            }
            if any_contains(init, ip) {
                let k = choose|k: int| 0 <= k < init.len() && net_contains(#[trigger] init[k], ip);
                assert(s[k] == init[k]);
            }
            if net_contains(l, ip) {
                assert(s[s.len() - 1] == l);
            }
        }
        if is_host(l) {
            lemma_host_net_contains(l, ip);
        } else {
            let t = non_hosts(init);
            assert(any_contains(t.push(l), ip) == (any_contains(t, ip) || net_contains(l, ip))) by {
                if any_contains(t.push(l), ip) {
                    let k = choose|k: int| 0 <= k < t.push(l).len() && net_contains(#[trigger] t.push(l)[k], ip);
                    if k < t.len() {
                        assert(t[k] == t.push(l)[k]);
                    }
                }
                if any_contains(t, ip) {
                    let k = choose|k: int| 0 <= k < t.len() && net_contains(#[trigger] t[k], ip);
                    assert(t.push(l)[k] == t[k]);
                }
                if net_contains(l, ip) {
                    assert(t.push(l)[t.len() as int] == l);
                }
            }
        }
    }
}

/// Trusting networks through `from_ipnets` (single hosts as exact addresses,
/// the rest as networks) trusts the same addresses as giving all of them as
/// networks to `with_cidrs` with no exact address.
pub proof fn law_from_ipnets_agrees_with_with_cidrs(nets: Seq<IpNetView>, ip: IpAddr)
    ensures
        trusted(TrustedProxiesView { exact: host_addrs(nets), cidrs: non_hosts(nets) }, ip)
            == trusted(TrustedProxiesView { exact: Set::empty(), cidrs: nets }, ip),
{
    lemma_split_nets(nets, ip);
}


/// The address of every single-host network given to `from_ipnets` is trusted.
pub proof fn law_host_prefix_trusted(nets: Seq<IpNetView>, i: int)
    requires
        0 <= i < nets.len(),
        is_host(nets[i]),
    ensures
        trusted(TrustedProxiesView { exact: host_addrs(nets), cidrs: non_hosts(nets) }, nets[i].addr),
{
    lemma_host_net_contains(nets[i], nets[i].addr);
    lemma_split_nets(nets, nets[i].addr);
}


/// Bytes below 128 are valid UTF-8.
pub proof fn lemma_ascii_valid_utf8(b: Seq<u8>)
    requires
        forall|k: int| 0 <= k < b.len() ==> #[trigger] b[k] < 128,
    ensures
        valid_utf8(b),
{
    crate::text::lemma_ascii_decode(b);
}

/// The first `\r\n` is found where it stands when no `\r` comes before it.
pub proof fn lemma_crlf_found(buf: Seq<u8>, end: int, i: int, k: int)
    requires
        0 <= i <= k,
        k + 1 < end <= buf.len(),
        forall|j: int| i <= j < k ==> #[trigger] buf[j] != 0x0D,
        buf[k] == 0x0D,
        buf[k + 1] == 0x0A,
    ensures
        crlf_from(buf, end, i) == Some(k),
    decreases k - i,
{
    if i < k {
        lemma_crlf_found(buf, end, i + 1, k);
    }
}

/// The first space at or after `a` is at `e` when none comes before it.
pub proof fn lemma_space_at(s: Seq<u8>, a: int, e: int)
    requires
        0 <= a <= e <= s.len(),
        forall|j: int| a <= j < e ==> #[trigger] s[j] != 0x20,
        e == s.len() || s[e] == 0x20,
    ensures
        space_from(s, a) == e,
    decreases e - a,
{
    if a < e {
        lemma_space_at(s, a + 1, e);
    }
}

/// Splitting at a field with no space in it, followed by a space.
pub proof fn lemma_split_field(s: Seq<u8>, a: int, f: Seq<u8>)
    requires
        0 <= a,
        a + f.len() < s.len(),
        s.subrange(a, a + f.len()) == f,
        forall|j: int| 0 <= j < f.len() ==> #[trigger] f[j] != 0x20,
        s[a + f.len()] == 0x20,
    ensures
        split_from(s, a) == seq![f] + split_from(s, a + f.len() + 1),
{
    assert forall|j: int| a <= j < a + f.len() implies #[trigger] s[j] != 0x20 by {
        assert(s[j] == s.subrange(a, a + f.len())[j - a]);
    }
    lemma_space_at(s, a, a + f.len());
}

/// Splitting at a last field with no space in it.
pub proof fn lemma_split_last(s: Seq<u8>, a: int, f: Seq<u8>)
    requires
        0 <= a,
        a + f.len() == s.len(),
        s.subrange(a, a + f.len()) == f,
        forall|j: int| 0 <= j < f.len() ==> #[trigger] f[j] != 0x20,
    ensures
        split_from(s, a) == seq![f],
{
    assert forall|j: int| a <= j < a + f.len() implies #[trigger] s[j] != 0x20 by {
        assert(s[j] == s.subrange(a, a + f.len())[j - a]);
    }
    lemma_space_at(s, a, a + f.len());
}

/// The decimal text of a port reads back as the port.
pub proof fn lemma_port_roundtrip(p: u16)
    ensures
        spec_parse_port(dec(p as nat)) == Some(p),
{
    let d = dec(p as nat);
    lemma_dec_shape(p as nat);
    assert(d.subrange(0, d.len() as int) =~= d);
    lemma_dec_value(d, 0, p as nat);
    assert(d[0] != 0x2B);
}


/// The fields of a v1 address line.
pub open spec fn v1_fields(f: AddressFamily, s: SocketAddr, d: SocketAddr) -> Seq<Seq<u8>> {
    seq![
        seq![0x50u8, 0x52, 0x4F, 0x58, 0x59],
        v1_proto(f),
        ip_text(s.ip),
        ip_text(d.ip),
        dec(s.port as nat),
        dec(d.port as nat),
    ]
}

/// A v1 address line: at most 107 bytes, ASCII with no `\r` before its end,
/// and its first part split at spaces into its six fields.
#[verifier::spinoff_prover]
#[verifier::rlimit(80)]
pub proof fn lemma_v1_line_shape(f: AddressFamily, s: SocketAddr, d: SocketAddr)
    ensures
        v1_line(f, s, d).len() <= 107,
        v1_line(f, s, d).len() >= 2,
        v1_line(f, s, d)[v1_line(f, s, d).len() - 2] == 0x0D,
        v1_line(f, s, d)[v1_line(f, s, d).len() - 1] == 0x0A,
        forall|j: int| 0 <= j < v1_line(f, s, d).len() - 2 ==> #[trigger] v1_line(f, s, d)[j] != 0x0D && v1_line(f, s, d)[j] < 128,
        split_from(v1_line(f, s, d).take(v1_line(f, s, d).len() - 2), 0) == v1_fields(f, s, d),
        v1_line(f, s, d)[6] == 0x54,
{
    let line = v1_line(f, s, d);
    let w = seq![0x50u8, 0x52, 0x4F, 0x58, 0x59];
    let sp = seq![0x20u8];
    let pr = v1_proto(f);
    let a = ip_text(s.ip);
    let b = ip_text(d.ip);
    let ps = dec(s.port as nat);
    let pd = dec(d.port as nat);
    lemma_ip_text_shape(s.ip);
    lemma_ip_text_shape(d.ip);
    lemma_dec_shape(s.port as nat);
    lemma_dec_shape(d.port as nat);
    let c = w + sp + pr + sp + a + sp + b + sp + ps + sp + pd;
    assert(line =~= c + seq![0x0Du8, 0x0A]);
    assert(line.take(line.len() - 2) =~= c);
    let o1 = 6int;
    let o2 = o1 + 5;
    let o3 = o2 + a.len() + 1;
    let o4 = o3 + b.len() + 1;
    let o5 = o4 + ps.len() + 1;
    assert forall|j: int| 0 <= j < c.len() implies (#[trigger] c[j] == 0x20 || visible(c[j])) by {
        if o2 <= j < o2 + a.len() {
            assert(c[j] == a[j - o2]);
        } else if o3 <= j < o3 + b.len() {
            assert(c[j] == b[j - o3]);
        } else if o4 <= j < o4 + ps.len() {
            assert(c[j] == ps[j - o4] && is_dec_digit(ps[j - o4]));
        } else if o5 <= j < o5 + pd.len() {
            assert(c[j] == pd[j - o5] && is_dec_digit(pd[j - o5]));
        }
    }
    assert forall|j: int| 0 <= j < line.len() - 2 implies #[trigger] line[j] != 0x0D && line[j] < 128 by {
        assert(line[j] == c[j]);
        assert(c[j] == 0x20 || visible(c[j]));
    }
    assert forall|j: int| 0 <= j < a.len() implies #[trigger] a[j] != 0x20 by { assert(visible(a[j])); }
    assert forall|j: int| 0 <= j < b.len() implies #[trigger] b[j] != 0x20 by { assert(visible(b[j])); }
    assert forall|j: int| 0 <= j < ps.len() implies #[trigger] ps[j] != 0x20 by { assert(is_dec_digit(ps[j])); }
    assert forall|j: int| 0 <= j < pd.len() implies #[trigger] pd[j] != 0x20 by { assert(is_dec_digit(pd[j])); }
    assert(c.subrange(0, 5) =~= w);
    lemma_split_field(c, 0, w);
    assert(c.subrange(o1, o1 + 4) =~= pr);
    lemma_split_field(c, o1, pr);
    assert(c.subrange(o2, o2 + a.len()) =~= a);
    lemma_split_field(c, o2, a);
    assert(c.subrange(o3, o3 + b.len()) =~= b);
    lemma_split_field(c, o3, b);
    assert(c.subrange(o4, o4 + ps.len()) =~= ps);
    lemma_split_field(c, o4, ps);
    assert(c.subrange(o5, o5 + pd.len()) =~= pd);
    lemma_split_last(c, o5, pd);
    assert(split_from(c, 0) =~= v1_fields(f, s, d));
}


/// The header a v1 header built from `b` reads back as: the address line as
/// its two socket addresses over a stream of the builder's family, the UNKNOWN
/// line as a header with no address.
pub open spec fn built_v1_info(b: HeaderBuilderView) -> ProxyInfoView {
    match (b.source, b.destination, b.transport) {
        (Some(ProxyAddressView::Inet(s)), Some(ProxyAddressView::Inet(d)), Some(t)) => ProxyInfoView {
            version: Version::V1,
            command: Command::Proxy,
            transport: Some(Transport { family: t.family, protocol: crate::types::TransportProtocol::Stream }),
            source: Some(ProxyAddressView::Inet(s)),
            destination: Some(ProxyAddressView::Inet(d)),
            tlvs: empty_tlvs(),
        },
        _ => unknown_info(),
    }
}

/// A buffer that starts with a v1 line of six fields, each read back as it
/// should, parses as that header.
#[verifier::rlimit(40)]
pub proof fn lemma_parse_v1_fields(buf: Seq<u8>, n: int, fields: Seq<Seq<u8>>, f: AddressFamily, s: SocketAddr, d: SocketAddr)
    requires
        2 <= n <= 107,
        n <= buf.len(),
        buf[n - 2] == 0x0D,
        buf[n - 1] == 0x0A,
        forall|j: int| 0 <= j < n - 2 ==> #[trigger] buf[j] != 0x0D && buf[j] < 128,
        buf[6] == 0x54,
        split_from(buf.take(n - 2), 0) == fields,
        fields.len() == 6,
        crate::parse::v1::v1_family(fields[1]) == Some(f),
        spec_parse_ip(fields[2]) == Some(s.ip),
        spec_parse_ip(fields[3]) == Some(d.ip),
        crate::parse::v1::family_matches(f, s.ip),
        crate::parse::v1::family_matches(f, d.ip),
        spec_parse_port(fields[4]) == Some(s.port),
        spec_parse_port(fields[5]) == Some(d.port),
    ensures
        spec_parse_v1(buf) == Ok::<(ProxyInfoView, int), ParseErrorView>((
            ProxyInfoView {
                version: Version::V1,
                command: Command::Proxy,
                transport: Some(Transport { family: f, protocol: crate::types::TransportProtocol::Stream }),
                source: Some(ProxyAddressView::Inet(s)),
                destination: Some(ProxyAddressView::Inet(d)),
                tlvs: empty_tlvs(),
            },
            n,
        )),
{
    let end: int = if buf.len() < 107 { buf.len() as int } else { 107 };
    lemma_crlf_found(buf, end, 0, n - 2);
    let content = buf.take(n - 2);
    assert forall|k: int| 0 <= k < content.len() implies #[trigger] content[k] < 128 by {
        assert(content[k] == buf[k]);
    }
    lemma_ascii_valid_utf8(content);
    assert(!is_unknown_line(content)) by {
        if content.len() >= 13 && content.take(13) == unknown_prefix() {
            assert(content.take(13)[6] == unknown_prefix()[6]);
        }
    }
}

/// Parsing a v1 address line reads back its addresses.
#[verifier::spinoff_prover]
#[verifier::rlimit(100)]
pub proof fn lemma_parse_v1_line(f: AddressFamily, s: SocketAddr, d: SocketAddr, extra: Seq<u8>)
    requires
        f == ip_family(s.ip),
        f == ip_family(d.ip),
    ensures
        spec_parse_v1(v1_line(f, s, d) + extra) == Ok::<(ProxyInfoView, int), ParseErrorView>((
            ProxyInfoView {
                version: Version::V1,
                command: Command::Proxy,
                transport: Some(Transport { family: f, protocol: crate::types::TransportProtocol::Stream }),
                source: Some(ProxyAddressView::Inet(s)),
                destination: Some(ProxyAddressView::Inet(d)),
                tlvs: empty_tlvs(),
            },
            v1_line(f, s, d).len() as int,
        )),
{
    let line = v1_line(f, s, d);
    let buf = line + extra;
    let n = line.len() as int;
    lemma_v1_line_shape(f, s, d);
    assert forall|j: int| 0 <= j < n - 2 implies #[trigger] buf[j] != 0x0D && buf[j] < 128 by {
        assert(buf[j] == line[j]);
    }
    assert(buf[n - 2] == 0x0D && buf[n - 1] == 0x0A && buf[6] == 0x54);
    assert(buf.take(n - 2) =~= line.take(n - 2));
    lemma_ip_text_roundtrip(s.ip);
    lemma_ip_text_roundtrip(d.ip);
    lemma_port_roundtrip(s.port);
    lemma_port_roundtrip(d.port);
    let fields = v1_fields(f, s, d);
    lemma_parse_v1_fields(buf, n, fields, f, s, d);
}

/// The UNKNOWN line parses as a header with no address, whatever follows it.
pub proof fn lemma_parse_v1_unknown(extra: Seq<u8>)
    ensures
        spec_parse_v1(v1_unknown_line() + extra) == Ok::<(ProxyInfoView, int), ParseErrorView>((unknown_info(), 15)),
{
    let u = v1_unknown_line();
    let buf = u + extra;
    let end: int = if buf.len() < 107 { buf.len() as int } else { 107 };
    assert forall|j: int| 0 <= j < 13 implies #[trigger] buf[j] != 0x0D by {
        assert(buf[j] == u[j]);
    }
    assert(buf[13] == 0x0D && buf[14] == 0x0A);
    lemma_crlf_found(buf, end, 0, 13);
    let content = buf.take(13);
    assert(content =~= unknown_prefix());
    assert(content.take(13) =~= unknown_prefix());
    assert(is_unknown_line(content));
    lemma_ascii_valid_utf8(content);
    assert(crlf_from(buf, end, 0) == Some(13int));
}

/// Building a v1 header and parsing it back, whatever bytes follow it, gives
/// the header's addresses over a stream (or, for UNKNOWN, none) and its length.
#[verifier::spinoff_prover]
#[verifier::rlimit(100)]
pub proof fn law_v1_roundtrip(b: HeaderBuilderView, extra: Seq<u8>)
    requires
        builder_wf(b),
        b.version == Version::V1,
    ensures
        spec_parse(spec_build(b) + extra) == Ok::<(ProxyInfoView, int), ParseErrorView>((built_v1_info(b), spec_build(b).len() as int)),
{
    let h = spec_build(b);
    let buf = h + extra;
    assert(h == spec_build_v1(b));
    match (b.source, b.destination, b.transport) {
        (Some(ProxyAddressView::Inet(s)), Some(ProxyAddressView::Inet(d)), Some(t)) => {
            lemma_parse_v1_line(t.family, s, d, extra);
            lemma_v1_line_shape(t.family, s, d);
            assert(buf[0] == h[0]);
        },
        _ => {
            lemma_parse_v1_unknown(extra);
            assert(buf[0] == h[0]);
        },
    }
    assert(buf.take(6) =~= v1_prefix());
}


/// The first `\r\n` found in a buffer is found at the same place in any
/// longer buffer that starts with it, searching at least as far.
pub proof fn lemma_crlf_extend(buf: Seq<u8>, extra: Seq<u8>, end: int, end2: int, i: int)
    requires
        0 <= i,
        end <= end2 <= buf.len() + extra.len(),
        end <= buf.len(),
        crlf_from(buf, end, i) is Some,
    ensures
        crlf_from(buf + extra, end2, i) == crlf_from(buf, end, i),
    decreases end - i,
{
    let b2 = buf + extra;
    if i + 1 < end {
        assert(b2[i] == buf[i] && b2[i + 1] == buf[i + 1]);
        if !(buf[i] == 0x0D && buf[i + 1] == 0x0A) {
            lemma_crlf_extend(buf, extra, end, end2, i + 1);
        }
    }
}

/// Reading a v1 header does not look past it.
pub proof fn lemma_v1_prefix_stable(buf: Seq<u8>, extra: Seq<u8>)
    requires
        spec_parse_v1(buf) is Ok,
    ensures
        spec_parse_v1(buf + extra) == spec_parse_v1(buf),
{
    let b2 = buf + extra;
    let end: int = if buf.len() < 107 { buf.len() as int } else { 107 };
    let end2: int = if b2.len() < 107 { b2.len() as int } else { 107 };
    lemma_crlf_extend(buf, extra, end, end2, 0);
    let k = crlf_from(buf, end, 0)->Some_0;
    crate::parse::v1::lemma_crlf_from(buf, end, 0);
    assert(b2.take(k) =~= buf.take(k));
}

/// Reading a v2 header does not look past it.
#[verifier::rlimit(40)]
pub proof fn lemma_v2_prefix_stable(buf: Seq<u8>, extra: Seq<u8>)
    requires
        spec_parse_v2(buf) is Ok,
    ensures
        spec_parse_v2(buf + extra) == spec_parse_v2(buf),
{
    let b2 = buf + extra;
    assert(b2[12] == buf[12] && b2[13] == buf[13] && b2[14] == buf[14] && b2[15] == buf[15]);
    let total_len = 16 + be16(buf[14], buf[15]) as int;
    assert(b2.subrange(16, total_len) =~= buf.subrange(16, total_len));
    assert(b2.take(total_len) =~= buf.take(total_len));
    assert forall|t: int| 16 <= t <= 16 + total_len implies spec_compute_crc32c(b2, total_len, t) == spec_compute_crc32c(buf, total_len, t) by {
        assert(b2.take(total_len) =~= buf.take(total_len));
    }
}

/// Once a buffer holds a whole header, more bytes after it change nothing:
/// the parser gives the same header and the same length.
pub proof fn law_parse_prefix_stable(buf: Seq<u8>, extra: Seq<u8>)
    requires
        spec_parse(buf) is Ok,
    ensures
        spec_parse(buf + extra) == spec_parse(buf),
{
    let b2 = buf + extra;
    assert(b2[0] == buf[0]);
    if buf[0] == 0x0D {
        assert(b2.take(12) =~= buf.take(12));
        lemma_v2_prefix_stable(buf, extra);
    } else {
        assert(b2.take(6) =~= buf.take(6));
        lemma_v1_prefix_stable(buf, extra);
    }
}


/// A header read from a buffer takes some of its bytes and no more than it holds.
pub proof fn law_consumed_within(buf: Seq<u8>)
    requires
        spec_parse(buf) is Ok,
    ensures
        spec_parse(buf) matches Ok((_, n)) && 0 < n <= buf.len(),
{
    if buf[0] == 0x50 {
        let end: int = if buf.len() < 107 { buf.len() as int } else { 107 };
        crate::parse::v1::lemma_crlf_from(buf, end, 0);
    }
}


/// Text written as UTF-8 reads back as itself.
pub proof fn law_text_roundtrip(t: Seq<char>)
    ensures
        text_of(encode_utf8(t)) == t,
{
    encode_utf8_valid_utf8(t);
    encode_utf8_decode_utf8(t);
}

/// An optional sub-TLV: its record when present, nothing otherwise.
pub open spec fn opt_record(t: u8, v: Option<Seq<u8>>) -> Seq<u8> {
    match v {
        Some(x) => encode_tlv(t, x),
        None => Seq::empty(),
    }
}

/// The UTF-8 bytes of optional text.
pub open spec fn opt_utf8(v: Option<Seq<char>>) -> Option<Seq<u8>> {
    match v {
        Some(s) => Some(encode_utf8(s)),
        None => None,
    }
}

/// Reading an optional sub-TLV record, then more, applies it and reads on.
pub proof fn lemma_sub_record(t: u8, v: Option<Seq<u8>>, rest: Seq<u8>, off: int, acc: SslInfoView)
    requires
        v matches Some(x) ==> x.len() <= 65535,
    ensures
        parse_sub_tlvs_from(opt_record(t, v) + rest, off, acc) == parse_sub_tlvs_from(
            rest,
            off + opt_record(t, v).len(),
            match v {
                Some(x) => apply_sub_tlv(acc, t, x),
                None => acc,
            },
        ),
{
    match v {
        Some(x) => {
            let data = encode_tlv(t, x) + rest;
            let l = x.len() as int;
            lemma_be16_roundtrip(l);
            assert(data[1] == be16_bytes(l)[0] && data[2] == be16_bytes(l)[1]);
            assert(data.subrange(3, 3 + l) =~= x);
            assert(data.skip(3 + l) =~= rest);
        },
        None => {
            assert(opt_record(t, v) + rest =~= rest);
        },
    }
}

/// The records of a list of optional sub-TLVs, in order.
pub open spec fn records(ts: Seq<u8>, vs: Seq<Option<Seq<u8>>>) -> Seq<u8>
    decreases ts.len(),
{
    if ts.len() == 0 || vs.len() == 0 {
        Seq::empty()
    } else {
        opt_record(ts[0], vs[0]) + records(ts.drop_first(), vs.drop_first())
    }
}

/// A list of optional sub-TLVs applied in order.
pub open spec fn apply_subs(ts: Seq<u8>, vs: Seq<Option<Seq<u8>>>, acc: SslInfoView) -> SslInfoView
    decreases ts.len(),
{
    if ts.len() == 0 || vs.len() == 0 {
        acc
    } else {
        apply_subs(ts.drop_first(), vs.drop_first(), match vs[0] {
            Some(x) => apply_sub_tlv(acc, ts[0], x),
            None => acc,
        })
    }
}

/// Reading the records of optional sub-TLVs applies them in order.
pub proof fn lemma_records(ts: Seq<u8>, vs: Seq<Option<Seq<u8>>>, off: int, acc: SslInfoView)
    requires
        ts.len() == vs.len(),
        forall|i: int| 0 <= i < vs.len() ==> (#[trigger] vs[i] matches Some(x) ==> x.len() <= 65535),
    ensures
        parse_sub_tlvs_from(records(ts, vs), off, acc) == Ok::<SslInfoView, ParseErrorView>(apply_subs(ts, vs, acc)),
    decreases ts.len(),
{
    if ts.len() > 0 {
        let rest = records(ts.drop_first(), vs.drop_first());
        let acc2 = match vs[0] {
            Some(x) => apply_sub_tlv(acc, ts[0], x),
            None => acc,
        };
        assert(vs[0] == vs[0]);
        lemma_sub_record(ts[0], vs[0], rest, off, acc);
        assert forall|i: int| 0 <= i < vs.drop_first().len() implies (#[trigger] vs.drop_first()[i] matches Some(x) ==> x.len() <= 65535) by {
            assert(vs.drop_first()[i] == vs[i + 1]);
        }
        lemma_records(ts.drop_first(), vs.drop_first(), off + opt_record(ts[0], vs[0]).len(), acc2);
    }
}

/// The sub-TLV types of the SSL TLV in the order they are written.
pub open spec fn ssl_types() -> Seq<u8> {
    seq![0x21u8, 0x22, 0x23, 0x24, 0x25, 0x26, 0x27, 0x28]
}

/// The optional sub-TLV values of SSL metadata, in the order they are written.
pub open spec fn ssl_values(ssl: SslInfoView) -> Seq<Option<Seq<u8>>> {
    seq![
        opt_utf8(ssl.version), opt_utf8(ssl.cn), opt_utf8(ssl.cipher), opt_utf8(ssl.sig_alg),
        opt_utf8(ssl.key_alg), opt_utf8(ssl.group), opt_utf8(ssl.sig_scheme), ssl.client_cert,
    ]
}

/// The records from the `k`-th on are the `k`-th record and those after it.
pub proof fn lemma_records_step(ts: Seq<u8>, vs: Seq<Option<Seq<u8>>>, k: int)
    requires
        0 <= k < ts.len(),
        ts.len() == vs.len(),
    ensures
        records(ts.skip(k), vs.skip(k)) == opt_record(ts[k], vs[k]) + records(ts.skip(k + 1), vs.skip(k + 1)),
{
    assert(ts.skip(k).drop_first() =~= ts.skip(k + 1));
    assert(vs.skip(k).drop_first() =~= vs.skip(k + 1));
    assert(ts.skip(k)[0] == ts[k]);
    assert(vs.skip(k)[0] == vs[k]);
}

/// Concatenation regrouped to the right.
pub proof fn lemma_regroup(h: Seq<u8>, c: Seq<Seq<u8>>)
    requires
        c.len() == 8,
    ensures
        h + c[0] + c[1] + c[2] + c[3] + c[4] + c[5] + c[6] + c[7]
            == h + (c[0] + (c[1] + (c[2] + (c[3] + (c[4] + (c[5] + (c[6] + c[7]))))))),
{
    assert(h + c[0] + c[1] + c[2] + c[3] + c[4] + c[5] + c[6] + c[7]
        =~= h + (c[0] + (c[1] + (c[2] + (c[3] + (c[4] + (c[5] + (c[6] + c[7]))))))));
}

/// The SSL TLV value is its five-byte head and the records of its sub-TLVs.
pub proof fn lemma_ssl_layout(ssl: SslInfoView)
    ensures
        spec_encode_ssl(ssl) == seq![ssl.client_flags] + be32_bytes(if ssl.verified { 0 } else { 1 })
            + records(ssl_types(), ssl_values(ssl)),
{
    let ts = ssl_types();
    let vs = ssl_values(ssl);
    let h = seq![ssl.client_flags] + be32_bytes(if ssl.verified { 0 } else { 1 });
    let c = seq![
        opt_record(ts[0], vs[0]), opt_record(ts[1], vs[1]), opt_record(ts[2], vs[2]), opt_record(ts[3], vs[3]),
        opt_record(ts[4], vs[4]), opt_record(ts[5], vs[5]), opt_record(ts[6], vs[6]), opt_record(ts[7], vs[7]),
    ];
    lemma_records_step(ts, vs, 0);
    lemma_records_step(ts, vs, 1);
    lemma_records_step(ts, vs, 2);
    lemma_records_step(ts, vs, 3);
    lemma_records_step(ts, vs, 4);
    lemma_records_step(ts, vs, 5);
    lemma_records_step(ts, vs, 6);
    lemma_records_step(ts, vs, 7);
    assert(records(ts.skip(8), vs.skip(8)) == Seq::<u8>::empty());
    assert(ts.skip(0) =~= ts);
    assert(vs.skip(0) =~= vs);
    assert(c[7] + Seq::<u8>::empty() =~= c[7]);
    assert(records(ts, vs) == c[0] + (c[1] + (c[2] + (c[3] + (c[4] + (c[5] + (c[6] + c[7])))))));
    lemma_regroup(h, c);
}

/// Applying the sub-TLVs of SSL metadata to its head gives the metadata back.
pub proof fn lemma_ssl_apply(ssl: SslInfoView)
    ensures
        apply_subs(ssl_types(), ssl_values(ssl), crate::types::empty_ssl_view(ssl.client_flags, ssl.verified)) == ssl,
{
    if ssl.version is Some { law_text_roundtrip(ssl.version->Some_0); }
    if ssl.cn is Some { law_text_roundtrip(ssl.cn->Some_0); }
    if ssl.cipher is Some { law_text_roundtrip(ssl.cipher->Some_0); }
    if ssl.sig_alg is Some { law_text_roundtrip(ssl.sig_alg->Some_0); }
    if ssl.key_alg is Some { law_text_roundtrip(ssl.key_alg->Some_0); }
    if ssl.group is Some { law_text_roundtrip(ssl.group->Some_0); }
    if ssl.sig_scheme is Some { law_text_roundtrip(ssl.sig_scheme->Some_0); }
    reveal_with_fuel(apply_subs, 9);
}

/// Encoding SSL metadata and reading it back gives it back: the client flags
/// (three defined bits), whether the client was verified, and each sub-TLV.
pub proof fn law_ssl_roundtrip(ssl: SslInfoView, off: int)
    requires
        ssl.client_flags < 8,
        ssl_fits(ssl),
    ensures
        spec_parse_ssl(spec_encode_ssl(ssl), off) == Ok::<SslInfoView, ParseErrorView>(ssl),
{
    let data = spec_encode_ssl(ssl);
    let ts = ssl_types();
    let vs = ssl_values(ssl);
    lemma_ssl_layout(ssl);
    let w: u32 = if ssl.verified { 0 } else { 1 };
    assert(data.skip(5) =~= records(ts, vs));
    lemma_v4_value_of_octets(w);
    assert(data.subrange(1, 5) =~= be32_bytes(w));
    let f0: u8 = data[0];
    assert(f0 == ssl.client_flags);
    assert(f0 & 0x07 == f0) by (bit_vector)
        requires f0 < 8;
    let a0 = crate::types::empty_ssl_view(ssl.client_flags, ssl.verified);
    assert forall|i: int| 0 <= i < vs.len() implies (#[trigger] vs[i] matches Some(x) ==> x.len() <= 65535) by {}
    lemma_records(ts, vs, off + 5, a0);
    lemma_ssl_apply(ssl);
}

} // verus!
