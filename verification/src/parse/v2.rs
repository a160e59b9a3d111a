//! The binary (v2) header.

use vstd::prelude::*;

use crate::crc::{crc32c, crc32c_append, lemma_crc32c_append, spec_crc32c};
use crate::error::{InvalidReason, InvalidReasonView, ParseError, ParseErrorView};
use crate::net::{IpAddr, SocketAddr, be16, segments_of_octets, v4_value, v6_value};
use crate::parse::tlv::{parse_tlvs, spec_parse_tlvs, tlvs_result_view};
use crate::types::{
    AddressFamily, Command, ProxyAddress, ProxyAddressView, ProxyInfo, ProxyInfoView, Tlvs,
    TlvsView, Transport, TransportProtocol, Version, empty_tlvs, opt_addr,
};

verus! {

/// The 12-byte v2 signature.
pub open spec fn v2_signature() -> Seq<u8> {
    seq![0x0Du8, 0x0A, 0x0D, 0x0A, 0x00, 0x0D, 0x0A, 0x51, 0x55, 0x49, 0x54, 0x0A]
}

/// The index of the first NUL byte of `s` at or after `i`, or its length.
pub open spec fn nul_from(s: Seq<u8>, i: int) -> int
    decreases s.len() - i,
{
    if i >= s.len() || i < 0 {
        s.len() as int
    } else if s[i] == 0 {
        i
    } else {
        nul_from(s, i + 1)
    }
}

/// The path held in a NUL-padded Unix address field: the bytes before the first NUL.
pub open spec fn unix_path(field: Seq<u8>) -> Seq<u8> {
    field.take(nul_from(field, 0))
}

pub proof fn lemma_nul_from_bounds(s: Seq<u8>, i: int)
    requires
        0 <= i <= s.len(),
    ensures
        i <= nul_from(s, i) <= s.len(),
        forall|j: int| i <= j < nul_from(s, i) ==> s[j] != 0,
        nul_from(s, i) < s.len() ==> s[nul_from(s, i)] == 0,
    decreases s.len() - i,
{
    if i < s.len() && s[i] != 0 {
        lemma_nul_from_bounds(s, i + 1);
    }
}

/// Extracts a NUL-terminated Unix path from an address field.
pub fn extract_unix_path(field: &[u8]) -> (r: Vec<u8>)
    ensures
        r@ == unix_path(field@),
{
    let mut i: usize = 0;
    while i < field.len()
        invariant
            i <= field@.len(),
            nul_from(field@, 0) == nul_from(field@, i as int),
        decreases field@.len() - i,
    {
        if field[i] == 0 {
            return vstd::slice::slice_to_vec(&field[0..i]);
        }
        i = i + 1;
    }
    assert(field@.take(field@.len() as int) =~= field@);
    vstd::slice::slice_to_vec(field)
}

/// The outcome of reading the address block: transport, source, destination and
/// how many payload bytes the addresses take.
pub type AddressesView = (Option<Transport>, Option<ProxyAddressView>, Option<ProxyAddressView>, int);

pub open spec fn payload_overflow(len: int, buf_len: int) -> ParseErrorView {
    ParseErrorView::Invalid(InvalidReasonView::PayloadOverflow { len, buf_len })
}

/// The family named by an address-family nibble.
pub open spec fn family_of(f: u8) -> Option<AddressFamily> {
    if f == 1 {
        Some(AddressFamily::Inet)
    } else if f == 2 {
        Some(AddressFamily::Inet6)
    } else if f == 3 {
        Some(AddressFamily::Unix)
    } else {
        None
    }
}

/// The protocol named by a transport-protocol nibble.
pub open spec fn protocol_of(p: u8) -> Option<TransportProtocol> {
    if p == 1 {
        Some(TransportProtocol::Stream)
    } else if p == 2 {
        Some(TransportProtocol::Datagram)
    } else {
        None
    }
}

/// The IPv4 socket address of four address bytes at `a` and two port bytes at `p`.
pub open spec fn v4_sock(b: Seq<u8>, a: int, p: int) -> SocketAddr {
    SocketAddr { ip: IpAddr::V4(v4_value(b[a], b[a + 1], b[a + 2], b[a + 3])), port: be16(b[p], b[p + 1]) }
}

/// The IPv6 socket address of sixteen address bytes at `a` and two port bytes at `p`.
pub open spec fn v6_sock(b: Seq<u8>, a: int, p: int) -> SocketAddr {
    SocketAddr { ip: IpAddr::V6(v6_value(segments_of_octets(b.subrange(a, a + 16)))), port: be16(b[p], b[p + 1]) }
}

/// The address block of a PROXY payload with the given family and protocol nibbles.
pub open spec fn spec_parse_v2_addresses(family: u8, protocol: u8, payload: Seq<u8>) -> Result<AddressesView, ParseErrorView> {
    match (family_of(family), protocol_of(protocol)) {
        (None, _) => Err(ParseErrorView::Invalid(InvalidReasonView::UnknownFamily(family))),
        (_, None) => Err(ParseErrorView::Invalid(InvalidReasonView::UnknownProtocol(protocol))),
        (Some(f), Some(p)) => {
            let t = Some(Transport { family: f, protocol: p });
            match f {
                AddressFamily::Inet => if payload.len() < 12 {
                    Err(payload_overflow(12, payload.len() as int))
                } else {
                    Ok((t, Some(ProxyAddressView::Inet(v4_sock(payload, 0, 8))), Some(ProxyAddressView::Inet(v4_sock(payload, 4, 10))), 12))
                },
                AddressFamily::Inet6 => if payload.len() < 36 {
                    Err(payload_overflow(36, payload.len() as int))
                } else {
                    Ok((t, Some(ProxyAddressView::Inet(v6_sock(payload, 0, 32))), Some(ProxyAddressView::Inet(v6_sock(payload, 16, 34))), 36))
                },
                AddressFamily::Unix => if payload.len() < 216 {
                    Err(payload_overflow(216, payload.len() as int))
                } else {
                    Ok((t, Some(ProxyAddressView::Unix(unix_path(payload.subrange(0, 108)))), Some(ProxyAddressView::Unix(unix_path(payload.subrange(108, 216)))), 216))
                },
            }
        },
    }
}

/// The start of the first CRC32c TLV (type 0x03, length 4) at or after `pos` in
/// `header`, as the offset of its value; the scan stops at a TLV that overruns.
pub open spec fn crc_value_pos(header: Seq<u8>, pos: int) -> Option<int>
    decreases header.len() - pos,
{
    if pos < 0 || pos + 3 > header.len() {
        None
    } else {
        let l = be16(header[pos + 1], header[pos + 2]) as int;
        if pos + 3 + l > header.len() {
            None
        } else if header[pos] == 0x03 && l == 4 {
            Some(pos + 3)
        } else {
            crc_value_pos(header, pos + 3 + l)
        }
    }
}

/// `header` with the four bytes at `p` set to zero.
pub open spec fn zero_crc_field(header: Seq<u8>, p: int) -> Seq<u8> {
    header.subrange(0, p) + seq![0u8, 0u8, 0u8, 0u8] + header.skip(p + 4)
}

/// The CRC32c of the first `total_len` bytes of `buf` with the value of the
/// first CRC TLV at or after `tlv_start` read as zero.
pub open spec fn spec_compute_crc32c(buf: Seq<u8>, total_len: int, tlv_start: int) -> u32 {
    let header = buf.take(total_len);
    match crc_value_pos(header, tlv_start) {
        Some(p) => spec_crc32c(zero_crc_field(header, p)),
        None => spec_crc32c(header),
    }
}

/// Computes the CRC32c of the header with the CRC TLV value read as zero.
pub fn compute_crc32c(buf: &[u8], total_len: usize, tlv_start: usize) -> (r: u32)
    requires
        total_len <= buf@.len(),
        total_len + 3 <= usize::MAX,
    ensures
        r == spec_compute_crc32c(buf@, total_len as int, tlv_start as int),
{
    let header = &buf[0..total_len];
    assert(header@ == buf@.take(total_len as int));
    let mut pos = tlv_start;
    while pos <= total_len && total_len - pos >= 3
        invariant
            total_len == header@.len(),
            header@ == buf@.take(total_len as int),
            total_len + 3 <= usize::MAX,
            crc_value_pos(header@, tlv_start as int) == crc_value_pos(header@, pos as int),
        decreases total_len - pos,
    {
        let tlv_type = header[pos];
        let tlv_len = (header[pos + 1] as usize) * 256 + (header[pos + 2] as usize);
        assert(tlv_len == be16(header@[pos + 1], header@[pos + 2]) as int);
        if total_len - pos - 3 < tlv_len {
            assert(crc_value_pos(header@, pos as int) is None);
            return crc32c(header);
        }
        if tlv_type == 0x03 && tlv_len == 4 {
            let crc_value_start = pos + 3;
            assert(crc_value_pos(header@, pos as int) == Some(crc_value_start as int));
            let crc = crc32c(&header[0..crc_value_start]);
            let zeros: [u8; 4] = [0, 0, 0, 0];
            let crc = crc32c_append(crc, zeros.as_slice());
            let crc2 = crc32c_append(crc, &header[crc_value_start + 4..total_len]);
            proof {
                let a = header@.subrange(0, crc_value_start as int);
                assert(zeros@ =~= seq![0u8, 0u8, 0u8, 0u8]);
                lemma_crc32c_append(a, seq![0u8, 0u8, 0u8, 0u8]);
                lemma_crc32c_append(a + seq![0u8, 0u8, 0u8, 0u8], header@.subrange(crc_value_start + 4, total_len as int));
                assert(crc == spec_crc32c(a + seq![0u8, 0u8, 0u8, 0u8]));
                assert(crc2 == spec_crc32c(a + seq![0u8, 0u8, 0u8, 0u8] + header@.skip(crc_value_start + 4)));
                assert(header@.subrange(crc_value_start + 4, total_len as int) =~= header@.skip(crc_value_start + 4));
            }
            return crc2;
        }
        pos = pos + 3 + tlv_len;
    }
    crc32c(header)
}

pub open spec fn addresses_result_view(r: Result<(Option<Transport>, Option<ProxyAddress>, Option<ProxyAddress>, usize), ParseError>) -> Result<AddressesView, ParseErrorView> {
    match r {
        Ok((t, s, d, n)) => Ok((t, opt_addr(s), opt_addr(d), n as int)),
        Err(e) => Err(e@),
    }
}

/// Reads the address block of a PROXY payload.
pub fn parse_v2_addresses(family_nibble: u8, proto_nibble: u8, payload: &[u8]) -> (r: Result<(Option<Transport>, Option<ProxyAddress>, Option<ProxyAddress>, usize), ParseError>)
    ensures
        addresses_result_view(r) == spec_parse_v2_addresses(family_nibble, proto_nibble, payload@),
{
    let family = if family_nibble == 1 {
        AddressFamily::Inet
    } else if family_nibble == 2 {
        AddressFamily::Inet6
    } else if family_nibble == 3 {
        AddressFamily::Unix
    } else {
        return Err(ParseError::Invalid(InvalidReason::UnknownFamily(family_nibble)));
    };
    let protocol = if proto_nibble == 1 {
        TransportProtocol::Stream
    } else if proto_nibble == 2 {
        TransportProtocol::Datagram
    } else {
        return Err(ParseError::Invalid(InvalidReason::UnknownProtocol(proto_nibble)));
    };
    let transport = Transport { family, protocol };
    match family {
        AddressFamily::Inet => {
            if payload.len() < 12 {
                return Err(ParseError::Invalid(InvalidReason::PayloadOverflow { len: 12, buf_len: payload.len() }));
            }
            let src = SocketAddr {
                ip: IpAddr::V4(((payload[0] as u32) << 24u32) | ((payload[1] as u32) << 16u32) | ((payload[2] as u32) << 8u32) | (payload[3] as u32)),
                port: ((payload[8] as u16) * 256 + (payload[9] as u16)) as u16,
            };
            let dst = SocketAddr {
                ip: IpAddr::V4(((payload[4] as u32) << 24u32) | ((payload[5] as u32) << 16u32) | ((payload[6] as u32) << 8u32) | (payload[7] as u32)),
                port: ((payload[10] as u16) * 256 + (payload[11] as u16)) as u16,
            };
            Ok((Some(transport), Some(ProxyAddress::Inet(src)), Some(ProxyAddress::Inet(dst)), 12))
        },
        AddressFamily::Inet6 => {
            if payload.len() < 36 {
                return Err(ParseError::Invalid(InvalidReason::PayloadOverflow { len: 36, buf_len: payload.len() }));
            }
            let src = SocketAddr {
                ip: IpAddr::V6(v6_from_octets(payload, 0)),
                port: ((payload[32] as u16) * 256 + (payload[33] as u16)) as u16,
            };
            let dst = SocketAddr {
                ip: IpAddr::V6(v6_from_octets(payload, 16)),
                port: ((payload[34] as u16) * 256 + (payload[35] as u16)) as u16,
            };
            Ok((Some(transport), Some(ProxyAddress::Inet(src)), Some(ProxyAddress::Inet(dst)), 36))
        },
        AddressFamily::Unix => {
            if payload.len() < 216 {
                return Err(ParseError::Invalid(InvalidReason::PayloadOverflow { len: 216, buf_len: payload.len() }));
            }
            let src_path = extract_unix_path(&payload[0..108]);
            let dst_path = extract_unix_path(&payload[108..216]);
            Ok((Some(transport), Some(ProxyAddress::Unix(src_path)), Some(ProxyAddress::Unix(dst_path)), 216))
        },
    }
}

/// The IPv6 address of the sixteen bytes of `b` at `a`.
fn v6_from_octets(b: &[u8], a: usize) -> (r: u128)
    requires
        a + 16 <= b@.len(),
    ensures
        r == v6_value(segments_of_octets(b@.subrange(a as int, a + 16))),
{
    let mut segs: [u16; 8] = [0; 8];
    let mut i: usize = 0;
    while i < 8
        invariant
            i <= 8,
            a + 16 <= b@.len(),
            b@.len() == b.len(),
            forall|j: int| 0 <= j < i ==> segs@[j] == be16(b@[a + 2 * j], b@[a + 2 * j + 1]),
        decreases 8 - i,
    {
        let hi = b[a + 2 * i] as u16;
        let lo = b[a + 2 * i + 1] as u16;
        assert(hi * 256 + lo <= 65535);
        segs.set(i, hi * 256 + lo);
        i = i + 1;
    }
    let ghost s = segments_of_octets(b@.subrange(a as int, a + 16));
    assert(forall|j: int| 0 <= j < 8 ==> s[j] == segs@[j]);
    ((segs[0] as u128) << 112u128) | ((segs[1] as u128) << 96u128) | ((segs[2] as u128) << 80u128)
        | ((segs[3] as u128) << 64u128) | ((segs[4] as u128) << 48u128) | ((segs[5] as u128) << 32u128)
        | ((segs[6] as u128) << 16u128) | (segs[7] as u128)
}

/// The header and the bytes it takes, parsed from `buf`, which begins with the v2
/// signature: version and command, family and protocol, payload length, addresses,
/// TLVs, and the CRC32c check when a CRC TLV is present.
pub open spec fn spec_parse_v2(buf: Seq<u8>) -> Result<(ProxyInfoView, int), ParseErrorView> {
    if buf.len() < 16 {
        Err(ParseErrorView::Incomplete)
    } else {
        let version_nibble = buf[12] / 16;
        let command_nibble = buf[12] % 16;
        if version_nibble != 2 {
            Err(ParseErrorView::Invalid(InvalidReasonView::UnsupportedVersion(version_nibble)))
        } else if command_nibble > 1 {
            Err(ParseErrorView::Invalid(InvalidReasonView::UnknownCommand(command_nibble)))
        } else {
            let family_nibble = buf[13] / 16;
            let proto_nibble = buf[13] % 16;
            let total_len = 16 + be16(buf[14], buf[15]) as int;
            if buf.len() < total_len {
                Err(ParseErrorView::Incomplete)
            } else {
                let payload = buf.subrange(16, total_len);
                let addrs = if command_nibble == 0 {
                    Ok((None, None, None, 0))
                } else if family_nibble == 0 || proto_nibble == 0 {
                    Err(ParseErrorView::Invalid(InvalidReasonView::UnspecWithProxy))
                } else {
                    spec_parse_v2_addresses(family_nibble, proto_nibble, payload)
                };
                match addrs {
                    Err(e) => Err(e),
                    Ok((transport, source, destination, tlv_offset)) => {
                        let tlvs = if tlv_offset < payload.len() {
                            if command_nibble == 0 {
                                match spec_parse_tlvs(payload.skip(tlv_offset)) {
                                    Ok(t) => Ok(t),
                                    Err(_) => Ok(empty_tlvs()),
                                }
                            } else {
                                spec_parse_tlvs(payload.skip(tlv_offset))
                            }
                        } else {
                            Ok(empty_tlvs())
                        };
                        match tlvs {
                            Err(e) => Err(e),
                            Ok(tlvs) => {
                                let info = ProxyInfoView {
                                    version: Version::V2,
                                    command: if command_nibble == 0 { Command::Local } else { Command::Proxy },
                                    transport,
                                    source,
                                    destination,
                                    tlvs,
                                };
                                match tlvs.crc32c {
                                    Some(expected) => {
                                        let actual = spec_compute_crc32c(buf, total_len, 16 + tlv_offset);
                                        if actual != expected {
                                            Err(ParseErrorView::CrcMismatch { expected, actual })
                                        } else {
                                            Ok((info, total_len))
                                        }
                                    },
                                    None => Ok((info, total_len)),
                                }
                            },
                        }
                    },
                }
            }
        }
    }
}

pub open spec fn parse_result_view(r: Result<(ProxyInfo, usize), ParseError>) -> Result<(ProxyInfoView, int), ParseErrorView> {
    match r {
        Ok((info, n)) => Ok((info@, n as int)),
        Err(e) => Err(e@),
    }
}

/// Parses a v2 header from `buf`, which begins with the v2 signature.
pub fn parse_v2(buf: &[u8]) -> (r: Result<(ProxyInfo, usize), ParseError>)
    ensures
        parse_result_view(r) == spec_parse_v2(buf@),
{
    if buf.len() < 16 {
        return Err(ParseError::Incomplete);
    }
    let ver_cmd = buf[12];
    let version_nibble = ver_cmd / 16;
    let command_nibble = ver_cmd % 16;
    if version_nibble != 0x02 {
        return Err(ParseError::Invalid(InvalidReason::UnsupportedVersion(version_nibble)));
    }
    let command = if command_nibble == 0 {
        Command::Local
    } else if command_nibble == 1 {
        Command::Proxy
    } else {
        return Err(ParseError::Invalid(InvalidReason::UnknownCommand(command_nibble)));
    };
    let fam_proto = buf[13];
    let family_nibble = fam_proto / 16;
    let proto_nibble = fam_proto % 16;
    let payload_len = (buf[14] as usize) * 256 + (buf[15] as usize);
    let total_len = 16 + payload_len;
    if buf.len() < total_len {
        return Err(ParseError::Incomplete);
    }
    let payload = &buf[16..total_len];
    let (transport, source, destination, tlv_offset) = match command {
        Command::Local => (None, None, None, 0),
        Command::Proxy => {
            if family_nibble == 0 || proto_nibble == 0 {
                return Err(ParseError::Invalid(InvalidReason::UnspecWithProxy));
            }
            match parse_v2_addresses(family_nibble, proto_nibble, payload) {
                Ok(a) => a,
                Err(e) => {
                    return Err(e);
                },
            }
        },
    };
    let tlvs = if tlv_offset < payload.len() {
        let rest = &payload[tlv_offset..payload.len()];
        assert(rest@ == payload@.skip(tlv_offset as int));
        match command {
            Command::Local => match parse_tlvs(rest) {
                Ok(t) => t,
                Err(_) => Tlvs::default(),
            },
            Command::Proxy => match parse_tlvs(rest) {
                Ok(t) => t,
                Err(e) => {
                    return Err(e);
                },
            },
        }
    } else {
        Tlvs::default()
    };
    if let Some(expected_crc) = tlvs.crc32c {
        let tlv_start = 16 + tlv_offset;
        let actual_crc = compute_crc32c(buf, total_len, tlv_start);
        if actual_crc != expected_crc {
            return Err(ParseError::CrcMismatch { expected: expected_crc, actual: actual_crc });
        }
    }
    Ok((ProxyInfo { version: Version::V2, command, transport, source, destination, tlvs }, total_len))
}

} // verus!
