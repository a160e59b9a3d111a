//! The text (v1) header: `PROXY TCP4 <src> <dst> <sport> <dport>\r\n` or `PROXY UNKNOWN ...\r\n`.

use vstd::prelude::*;
use vstd::utf8::valid_utf8;

use crate::error::{InvalidReason, InvalidReasonView, ParseError, ParseErrorView};
use crate::iptext::{parse_ip, parse_port, spec_parse_ip, spec_parse_port};
use crate::net::{IpAddr, SocketAddr};
use crate::parse::v2::parse_result_view;
use crate::text::{bytes_to_string, str_from_utf8, text_of};
use crate::types::{
    AddressFamily, Command, ProxyAddress, ProxyAddressView, ProxyInfo, ProxyInfoView, Tlvs,
    Transport, TransportProtocol, Version, empty_tlvs,
};

verus! {

/// The longest v1 header, `\r\n` included.
pub const V1_MAX_LEN: usize = 107;

/// The first `\r\n` that ends before `end`, searching from `i`.
pub open spec fn crlf_from(buf: Seq<u8>, end: int, i: int) -> Option<int>
    decreases end - i,
{
    if i < 0 || i + 1 >= end || end > buf.len() {
        None
    } else if buf[i] == 0x0D && buf[i + 1] == 0x0A {
        Some(i)
    } else {
        crlf_from(buf, end, i + 1)
    }
}

/// The index of the first space in `s` at or after `i`, or its length.
pub open spec fn space_from(s: Seq<u8>, i: int) -> int
    decreases s.len() - i,
{
    if i < 0 || i >= s.len() {
        s.len() as int
    } else if s[i] == 0x20 {
        i
    } else {
        space_from(s, i + 1)
    }
}

/// The space-separated fields of `s` from `start` on (empty fields included).
pub open spec fn split_from(s: Seq<u8>, start: int) -> Seq<Seq<u8>>
    decreases s.len() - start,
{
    let k = space_from(s, start);
    if start < 0 || start > s.len() || k >= s.len() || k < start {
        seq![s.subrange(start, s.len() as int)]
    } else {
        seq![s.subrange(start, k)] + split_from(s, k + 1)
    }
}

/// `PROXY UNKNOWN`
pub open spec fn unknown_prefix() -> Seq<u8> {
    seq![0x50u8, 0x52, 0x4F, 0x58, 0x59, 0x20, 0x55, 0x4E, 0x4B, 0x4E, 0x4F, 0x57, 0x4E]
}

/// A line that is `PROXY UNKNOWN`, alone or followed by a space and anything.
pub open spec fn is_unknown_line(line: Seq<u8>) -> bool {
    line.len() >= 13 && line.take(13) == unknown_prefix() && (line.len() == 13 || line[13] == 0x20)
}

/// The header of a `PROXY UNKNOWN` line.
pub open spec fn unknown_info() -> ProxyInfoView {
    ProxyInfoView {
        version: Version::V1,
        command: Command::Proxy,
        transport: None,
        source: None,
        destination: None,
        tlvs: empty_tlvs(),
    }
}

/// Whether an address belongs to a family (IPv4 for `Inet`, IPv6 for `Inet6`).
pub open spec fn family_matches(f: AddressFamily, ip: IpAddr) -> bool {
    (f == AddressFamily::Inet && ip is V4) || (f == AddressFamily::Inet6 && ip is V6)
}

/// The family named by a v1 transport field: `TCP4` or `TCP6`.
pub open spec fn v1_family(t: Seq<u8>) -> Option<AddressFamily> {
    if t == seq![0x54u8, 0x43, 0x50, 0x34] {
        Some(AddressFamily::Inet)
    } else if t == seq![0x54u8, 0x43, 0x50, 0x36] {
        Some(AddressFamily::Inet6)
    } else {
        None
    }
}

pub open spec fn invalid(r: InvalidReasonView) -> ParseErrorView {
    ParseErrorView::Invalid(r)
}

/// The header made of the six fields of a v1 line (`PROXY`, transport, source
/// and destination addresses, source and destination ports).
pub open spec fn v1_from_fields(t: Seq<u8>, s: Seq<u8>, d: Seq<u8>, sp: Seq<u8>, dp: Seq<u8>, consumed: int) -> Result<(ProxyInfoView, int), ParseErrorView> {
    match v1_family(t) {
        None => Err(invalid(InvalidReasonView::V1UnknownTransport(text_of(t)))),
        Some(f) => match spec_parse_ip(s) {
            None => Err(invalid(InvalidReasonView::InvalidIp(text_of(s)))),
            Some(src_ip) => match spec_parse_ip(d) {
                None => Err(invalid(InvalidReasonView::InvalidIp(text_of(d)))),
                Some(dst_ip) => if !family_matches(f, src_ip) {
                    Err(invalid(InvalidReasonView::InvalidIp(text_of(s))))
                } else if !family_matches(f, dst_ip) {
                    Err(invalid(InvalidReasonView::InvalidIp(text_of(d))))
                } else {
                    match spec_parse_port(sp) {
                        None => Err(invalid(InvalidReasonView::InvalidPort(text_of(sp)))),
                        Some(src_port) => match spec_parse_port(dp) {
                            None => Err(invalid(InvalidReasonView::InvalidPort(text_of(dp)))),
                            Some(dst_port) => Ok((
                                ProxyInfoView {
                                    version: Version::V1,
                                    command: Command::Proxy,
                                    transport: Some(Transport { family: f, protocol: TransportProtocol::Stream }),
                                    source: Some(ProxyAddressView::Inet(SocketAddr { ip: src_ip, port: src_port })),
                                    destination: Some(ProxyAddressView::Inet(SocketAddr { ip: dst_ip, port: dst_port })),
                                    tlvs: empty_tlvs(),
                                },
                                consumed,
                            )),
                        },
                    }
                },
            },
        },
    }
}

/// The header and the bytes it takes, parsed from `buf`, which begins with
/// `PROXY `: the line up to the first `\r\n` within 107 bytes, which must be
/// UTF-8, and either the UNKNOWN form or exactly six space-separated fields.
pub open spec fn spec_parse_v1(buf: Seq<u8>) -> Result<(ProxyInfoView, int), ParseErrorView> {
    let search_end = if buf.len() < 107 { buf.len() as int } else { 107 };
    match crlf_from(buf, search_end, 0) {
        None => if buf.len() < 107 {
            Err(ParseErrorView::Incomplete)
        } else {
            Err(invalid(InvalidReasonView::V1TooLong))
        },
        Some(line_end) => {
            let line = buf.take(line_end);
            if !valid_utf8(line) {
                Err(invalid(InvalidReasonView::V1NotUtf8))
            } else if is_unknown_line(line) {
                Ok((unknown_info(), line_end + 2))
            } else {
                let parts = split_from(line, 0);
                if parts.len() != 6 {
                    Err(invalid(InvalidReasonView::V1InvalidFormat))
                } else {
                    v1_from_fields(parts[1], parts[2], parts[3], parts[4], parts[5], line_end + 2)
                }
            }
        },
    }
}

pub proof fn lemma_crlf_from(buf: Seq<u8>, end: int, i: int)
    requires
        0 <= i,
        end <= buf.len(),
    ensures
        crlf_from(buf, end, i) matches Some(k) ==> i <= k && k + 1 < end && buf[k] == 0x0D && buf[k + 1] == 0x0A,
    decreases end - i,
{
    if i + 1 < end && !(buf[i] == 0x0D && buf[i + 1] == 0x0A) {
        lemma_crlf_from(buf, end, i + 1);
    }
}

pub proof fn lemma_space_from(s: Seq<u8>, i: int)
    requires
        0 <= i <= s.len(),
    ensures
        i <= space_from(s, i) <= s.len(),
        space_from(s, i) < s.len() ==> s[space_from(s, i)] == 0x20,
        forall|j: int| i <= j < space_from(s, i) ==> s[j] != 0x20,
    decreases s.len() - i,
{
    if i < s.len() && s[i] != 0x20 {
        lemma_space_from(s, i + 1);
    }
}

fn find_space(s: &[u8], start: usize) -> (k: usize)
    requires
        start <= s@.len(),
    ensures
        k == space_from(s@, start as int),
        start <= k <= s@.len(),
{
    proof { lemma_space_from(s@, start as int); }
    let mut k = start;
    while k < s.len() && s[k] != 0x20
        invariant
            start <= k <= s@.len(),
            space_from(s@, start as int) == space_from(s@, k as int),
        decreases s@.len() - k,
    {
        k = k + 1;
    }
    k
}

/// The fields of `line` named by (start, end) pairs.
pub open spec fn fields_view(line: Seq<u8>, f: Seq<(usize, usize)>) -> Seq<Seq<u8>> {
    f.map_values(|p: (usize, usize)| line.subrange(p.0 as int, p.1 as int))
}

/// The (start, end) pairs of the space-separated fields of `line`, when there
/// are exactly six.
fn six_fields(line: &[u8]) -> (r: Option<Vec<(usize, usize)>>)
    ensures
        match r {
            Some(f) => split_from(line@, 0).len() == 6 && fields_view(line@, f@) == split_from(line@, 0)
                && f@.len() == 6 && forall|i: int| 0 <= i < 6 ==> (#[trigger] f@[i]).0 <= f@[i].1 <= line@.len(),
            None => split_from(line@, 0).len() != 6,
        },
{
    let mut fields: Vec<(usize, usize)> = Vec::new();
    let mut start: usize = 0;
    loop
        invariant
            start <= line@.len(),
            fields@.len() < 6,
            split_from(line@, 0) == fields_view(line@, fields@) + split_from(line@, start as int),
            forall|i: int| 0 <= i < fields@.len() ==> (#[trigger] fields@[i]).0 <= fields@[i].1 <= line@.len(),
        decreases line@.len() - start,
    {
        let k = find_space(line, start);
        let ghost before = fields@;
        fields.push((start, k));
        if k >= line.len() {
            proof {
                assert(split_from(line@, start as int) == seq![line@.subrange(start as int, line@.len() as int)]);
                assert(fields_view(line@, fields@) =~= fields_view(line@, before) + seq![line@.subrange(start as int, k as int)]);
                assert(split_from(line@, 0) =~= fields_view(line@, fields@));
            }
            if fields.len() == 6 {
                return Some(fields);
            } else {
                return None;
            }
        }
        proof {
            assert(split_from(line@, start as int) == seq![line@.subrange(start as int, k as int)] + split_from(line@, k + 1));
            assert(fields_view(line@, fields@) =~= fields_view(line@, before) + seq![line@.subrange(start as int, k as int)]);
            assert(split_from(line@, 0) =~= fields_view(line@, fields@) + split_from(line@, k + 1));
        }
        if fields.len() == 6 {
            proof {
                let rest = split_from(line@, k + 1);
                assert(rest.len() >= 1);
            }
            return None;
        }
        start = k + 1;
    }
}

fn is_tcp(t: &[u8], last: u8) -> (r: bool)
    ensures
        r == (t@ == seq![0x54u8, 0x43, 0x50, last]),
{
    if t.len() == 4 && t[0] == 0x54 && t[1] == 0x43 && t[2] == 0x50 && t[3] == last {
        assert(t@ =~= seq![0x54u8, 0x43, 0x50, last]);
        true
    } else {
        false
    }
}

fn is_unknown(line: &[u8]) -> (r: bool)
    ensures
        r == is_unknown_line(line@),
{
    if line.len() < 13 {
        return false;
    }
    let p: [u8; 13] = [0x50, 0x52, 0x4F, 0x58, 0x59, 0x20, 0x55, 0x4E, 0x4B, 0x4E, 0x4F, 0x57, 0x4E];
    let mut i: usize = 0;
    while i < 13
        invariant
            i <= 13,
            line@.len() >= 13,
            p@ == unknown_prefix(),
            forall|j: int| 0 <= j < i ==> line@[j] == p@[j],
        decreases 13 - i,
    {
        if line[i] != p[i] {
            assert(line@.take(13)[i as int] != unknown_prefix()[i as int]);
            return false;
        }
        i = i + 1;
    }
    assert(line@.take(13) =~= unknown_prefix());
    line.len() == 13 || line[13] == 0x20
}

fn find_crlf(buf: &[u8], end: usize) -> (r: Option<usize>)
    requires
        end <= buf@.len(),
        end <= 107,
    ensures
        match crlf_from(buf@, end as int, 0) {
            Some(k) => r == Some(k as usize),
            None => r is None,
        },
{
    let mut i: usize = 0;
    while i + 1 < end
        invariant
            i <= end,
            end <= buf@.len(),
            end <= 107,
            crlf_from(buf@, end as int, 0) == crlf_from(buf@, end as int, i as int),
        decreases end - i,
    {
        if buf[i] == 0x0D && buf[i + 1] == 0x0A {
            return Some(i);
        }
        i = i + 1;
    }
    None
}

fn invalid_err(r: InvalidReason) -> (e: ParseError)
    ensures
        e@ == invalid(r@),
{
    ParseError::Invalid(r)
}

/// The header made of the transport, address and port fields of a v1 line.
pub fn parse_v1_fields(transport_str: &[u8], src_ip_str: &[u8], dst_ip_str: &[u8], src_port_str: &[u8], dst_port_str: &[u8], consumed: usize) -> (r: Result<(ProxyInfo, usize), ParseError>)
    ensures
        parse_result_view(r) == v1_from_fields(transport_str@, src_ip_str@, dst_ip_str@, src_port_str@, dst_port_str@, consumed as int),
{
    let family = if is_tcp(transport_str, 0x34) {
        AddressFamily::Inet
    } else if is_tcp(transport_str, 0x36) {
        AddressFamily::Inet6
    } else {
        return Err(invalid_err(InvalidReason::V1UnknownTransport(bytes_to_string(transport_str))));
    };
    let src_ip = match parse_ip(src_ip_str) {
        Some(ip) => ip,
        None => {
            return Err(invalid_err(InvalidReason::InvalidIp(bytes_to_string(src_ip_str))));
        },
    };
    let dst_ip = match parse_ip(dst_ip_str) {
        Some(ip) => ip,
        None => {
            return Err(invalid_err(InvalidReason::InvalidIp(bytes_to_string(dst_ip_str))));
        },
    };
    let src_ok = match (family, src_ip) {
        (AddressFamily::Inet, IpAddr::V4(_)) => true,
        (AddressFamily::Inet6, IpAddr::V6(_)) => true,
        _ => false,
    };
    if !src_ok {
        return Err(invalid_err(InvalidReason::InvalidIp(bytes_to_string(src_ip_str))));
    }
    let dst_ok = match (family, dst_ip) {
        (AddressFamily::Inet, IpAddr::V4(_)) => true,
        (AddressFamily::Inet6, IpAddr::V6(_)) => true,
        _ => false,
    };
    if !dst_ok {
        return Err(invalid_err(InvalidReason::InvalidIp(bytes_to_string(dst_ip_str))));
    }
    let src_port = match parse_port(src_port_str) {
        Some(p) => p,
        None => {
            return Err(invalid_err(InvalidReason::InvalidPort(bytes_to_string(src_port_str))));
        },
    };
    let dst_port = match parse_port(dst_port_str) {
        Some(p) => p,
        None => {
            return Err(invalid_err(InvalidReason::InvalidPort(bytes_to_string(dst_port_str))));
        },
    };
    let info = ProxyInfo {
        version: Version::V1,
        command: Command::Proxy,
        transport: Some(Transport { family, protocol: TransportProtocol::Stream }),
        source: Some(ProxyAddress::Inet(SocketAddr { ip: src_ip, port: src_port })),
        destination: Some(ProxyAddress::Inet(SocketAddr { ip: dst_ip, port: dst_port })),
        tlvs: Tlvs::default(),
    };
    Ok((info, consumed))
}

/// Parses a v1 header from `buf`, which begins with `PROXY `.
pub fn parse_v1(buf: &[u8]) -> (r: Result<(ProxyInfo, usize), ParseError>)
    ensures
        parse_result_view(r) == spec_parse_v1(buf@),
{
    let search_end = if buf.len() < V1_MAX_LEN { buf.len() } else { V1_MAX_LEN };
    proof { lemma_crlf_from(buf@, search_end as int, 0); }
    let line_end = match find_crlf(buf, search_end) {
        Some(k) => k,
        None => {
            if buf.len() < V1_MAX_LEN {
                return Err(ParseError::Incomplete);
            } else {
                return Err(invalid_err(InvalidReason::V1TooLong));
            }
        },
    };
    let line = &buf[0..line_end];
    assert(line@ == buf@.take(line_end as int));
    if str_from_utf8(line).is_none() {
        return Err(invalid_err(InvalidReason::V1NotUtf8));
    }
    let consumed = line_end + 2;
    if is_unknown(line) {
        let info = ProxyInfo {
            version: Version::V1,
            command: Command::Proxy,
            transport: None,
            source: None,
            destination: None,
            tlvs: Tlvs::default(),
        };
        return Ok((info, consumed));
    }
    let fields = match six_fields(line) {
        Some(f) => f,
        None => {
            return Err(invalid_err(InvalidReason::V1InvalidFormat));
        },
    };
    let ghost parts = split_from(line@, 0);
    let transport_str = &line[fields[1].0..fields[1].1];
    let src_ip_str = &line[fields[2].0..fields[2].1];
    let dst_ip_str = &line[fields[3].0..fields[3].1];
    let src_port_str = &line[fields[4].0..fields[4].1];
    let dst_port_str = &line[fields[5].0..fields[5].1];
    assert(transport_str@ == parts[1] && src_ip_str@ == parts[2] && dst_ip_str@ == parts[3]
        && src_port_str@ == parts[4] && dst_port_str@ == parts[5]);
    parse_v1_fields(transport_str, src_ip_str, dst_ip_str, src_port_str, dst_port_str, consumed)
}

} // verus!
