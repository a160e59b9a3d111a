use proxy_protocol::connection::{
    AcceptAction, AcceptErrorKind, AcceptErrorResponse, IoErrorKind, ReadStep, accept_action,
    accept_error_response, is_connection_error, read_step,
};
use proxy_protocol::parse::v2::compute_crc32c;
use proxy_protocol::{ProxyAddress, TlvParseError};
use proxy_protocol::{
    HeaderBuilder, InvalidReason, IpAddr, ParseError, PolicyDecision, SocketAddr, VersionPreference,
    parse,
};

fn v2(ver_cmd: u8, fam: u8, payload: &[u8]) -> Vec<u8> {
    let mut b = vec![13, 10, 13, 10, 0, 13, 10, 81, 85, 73, 84, 10, ver_cmd, fam];
    b.extend_from_slice(&(payload.len() as u16).to_be_bytes());
    b.extend_from_slice(payload);
    b
}

#[test]
fn every_invalid_reason_has_an_input() {
    let r = |b: &[u8]| match parse(b) {
        Err(ParseError::Invalid(r)) => r,
        other => panic!("unexpected {other:?}"),
    };
    assert_eq!(r(&v2(0x11, 0x11, &[0; 12])), InvalidReason::UnsupportedVersion(1));
    assert_eq!(r(&v2(0x23, 0x11, &[0; 12])), InvalidReason::UnknownCommand(3));
    assert_eq!(r(&v2(0x21, 0x51, &[0; 12])), InvalidReason::UnknownFamily(5));
    assert_eq!(r(&v2(0x21, 0x17, &[0; 12])), InvalidReason::UnknownProtocol(7));
    assert_eq!(r(&v2(0x21, 0x00, &[])), InvalidReason::UnspecWithProxy);
    assert_eq!(r(&v2(0x21, 0x21, &[0; 20])), InvalidReason::PayloadOverflow { len: 36, buf_len: 20 });
    let mut p = vec![0u8; 12];
    p.extend_from_slice(&[0x01, 0x00]);
    assert_eq!(r(&v2(0x21, 0x11, &p)), InvalidReason::MalformedTlv { offset: 0 });
    let mut long = b"PROXY TCP4 ".to_vec();
    long.extend_from_slice(&[b'1'; 100]);
    assert_eq!(r(&long), InvalidReason::V1TooLong);
    assert_eq!(r(b"PROXY TCP4 1.2.3.\xff 5.6.7.8 1 2\r\n"), InvalidReason::V1NotUtf8);
    assert_eq!(r(b"PROXY TCP4 1.2.3.4 5.6.7.8 1\r\n"), InvalidReason::V1InvalidFormat);
    assert_eq!(r(b"PROXY TCP5 1.2.3.4 5.6.7.8 1 2\r\n"), InvalidReason::V1UnknownTransport("TCP5".to_string()));
    assert_eq!(r(b"PROXY TCP4 1.2.3.4 ::1 1 2\r\n"), InvalidReason::InvalidIp("::1".to_string()));
    assert_eq!(r(b"PROXY TCP4 01.2.3.4 5.6.7.8 1 2\r\n"), InvalidReason::InvalidIp("01.2.3.4".to_string()));
    assert_eq!(r(b"PROXY TCP4 1.2.3.4 5.6.7.8 65536 2\r\n"), InvalidReason::InvalidPort("65536".to_string()));
}

#[test]
fn v1_port_accepts_leading_zeros_and_plus() {
    let (info, _) = parse(b"PROXY TCP4 1.2.3.4 5.6.7.8 +0080 00443\r\n").unwrap();
    assert_eq!(info.source_inet().unwrap().port(), 80);
    assert_eq!(info.destination_inet().unwrap().port(), 443);
}

#[test]
fn crc_mismatch_reports_both_values() {
    let src = SocketAddr::new(IpAddr::v4(127, 0, 0, 1), 1234);
    let dst = SocketAddr::new(IpAddr::v4(10, 11, 12, 13), 23456);
    let good = HeaderBuilder::v2_proxy(src, dst).with_crc32c().build();
    let n = good.len();
    let carried = u32::from_be_bytes([good[n - 4], good[n - 3], good[n - 2], good[n - 1]]);
    let mut bad = good.clone();
    bad[n - 1] ^= 0x01;
    match parse(&bad) {
        Err(ParseError::CrcMismatch { expected, actual }) => {
            assert_eq!(expected, carried ^ 0x01);
            assert_eq!(actual, carried);
        },
        other => panic!("unexpected {other:?}"),
    }
}

#[test]
fn crc_of_known_data() {
    // The CRC32c check value of "123456789" is 0xE3069283.
    assert_eq!(compute_crc32c(b"123456789", 9, 9), 0xE306_9283);
    // A CRC TLV's value is read as zero: only the bytes around it count.
    let mut with_tlv = b"12".to_vec();
    with_tlv.extend_from_slice(&[0x03, 0x00, 0x04, 0xAA, 0xBB, 0xCC, 0xDD]);
    let mut zeroed = b"12".to_vec();
    zeroed.extend_from_slice(&[0x03, 0x00, 0x04, 0, 0, 0, 0]);
    assert_eq!(compute_crc32c(&with_tlv, 9, 2), compute_crc32c(&zeroed, 9, 9));
}

#[test]
fn accept_actions_follow_the_policy() {
    assert_eq!(accept_action(PolicyDecision::Reject), AcceptAction::Reject);
    assert_eq!(accept_action(PolicyDecision::Ignore), AcceptAction::PassThrough);
    assert_eq!(accept_action(PolicyDecision::Require), AcceptAction::ReadHeader { required: true });
    assert_eq!(accept_action(PolicyDecision::Use), AcceptAction::ReadHeader { required: false });
}

#[test]
fn read_steps() {
    let hdr = HeaderBuilder::v2_local().build();
    assert_eq!(read_step(&[], true, true, 4096, VersionPreference::Both), ReadStep::Empty);
    assert_eq!(
        read_step(&hdr[..5], true, true, 4096, VersionPreference::Both),
        ReadStep::ParseFailed(ParseError::Incomplete)
    );
    assert_eq!(read_step(&hdr[..5], false, true, 4096, VersionPreference::Both), ReadStep::ReadMore);
    assert_eq!(
        read_step(&hdr[..5], false, true, 5, VersionPreference::Both),
        ReadStep::ParseFailed(ParseError::Incomplete)
    );
    assert_eq!(read_step(b"GET /", false, false, 4096, VersionPreference::Both), ReadStep::Direct);
    assert_eq!(
        read_step(b"GET /", false, true, 4096, VersionPreference::Both),
        ReadStep::ParseFailed(ParseError::NotProxyProtocol)
    );
    assert_eq!(read_step(&hdr, false, true, 4096, VersionPreference::V1Only), ReadStep::VersionMismatch);
    match read_step(&hdr, false, true, 4096, VersionPreference::V2Only) {
        ReadStep::Header { consumed, .. } => assert_eq!(consumed, 16),
        other => panic!("unexpected {other:?}"),
    }
}

#[test]
fn accept_error_responses() {
    assert!(is_connection_error(IoErrorKind::ConnectionReset));
    assert!(is_connection_error(IoErrorKind::ConnectionAborted));
    assert!(is_connection_error(IoErrorKind::ConnectionRefused));
    assert!(!is_connection_error(IoErrorKind::Other));
    assert_eq!(accept_error_response(AcceptErrorKind::Rejected), AcceptErrorResponse::LogDebug);
    assert_eq!(accept_error_response(AcceptErrorKind::EmptyConnection), AcceptErrorResponse::LogDebug);
    assert_eq!(accept_error_response(AcceptErrorKind::HeaderTimeout), AcceptErrorResponse::LogWarning);
    assert_eq!(accept_error_response(AcceptErrorKind::Parse), AcceptErrorResponse::LogWarning);
    assert_eq!(accept_error_response(AcceptErrorKind::ValidationFailed), AcceptErrorResponse::LogWarning);
    assert_eq!(accept_error_response(AcceptErrorKind::VersionMismatch), AcceptErrorResponse::LogWarning);
    assert_eq!(accept_error_response(AcceptErrorKind::Io(IoErrorKind::ConnectionReset)), AcceptErrorResponse::Silent);
    assert_eq!(
        accept_error_response(AcceptErrorKind::Io(IoErrorKind::Other)),
        AcceptErrorResponse::LogErrorAndPause
    );
}

#[test]
fn builder_fits_limits() {
    let src = SocketAddr::new(IpAddr::v4(1, 1, 1, 1), 1);
    let dst = SocketAddr::new(IpAddr::v4(2, 2, 2, 2), 2);
    assert!(HeaderBuilder::v2_proxy(src, dst).with_raw_tlv(0xE1, vec![0; 65535 - 12 - 3]).fits());
    assert!(!HeaderBuilder::v2_proxy(src, dst).with_raw_tlv(0xE1, vec![0; 65535 - 12 - 2]).fits());
    assert!(!HeaderBuilder::v2_proxy(src, dst).with_raw_tlv(0xE1, vec![0; 65536]).fits());
    assert!(HeaderBuilder::v1_proxy(src, dst).with_raw_tlv(0xE1, vec![0; 70000]).fits());
    let max = HeaderBuilder::v2_proxy(src, dst).with_raw_tlv(0xE1, vec![0; 65535 - 12 - 3]).build();
    assert_eq!(max.len(), 16 + 65535);
    assert_eq!(&max[14..16], &[0xFF, 0xFF]);
}

#[test]
fn vendor_error_messages() {
    let t = |ty: u8, v: &[u8]| {
        let mut tlv = vec![ty];
        tlv.extend_from_slice(&(v.len() as u16).to_be_bytes());
        tlv.extend_from_slice(v);
        let mut p = vec![127, 0, 0, 1, 10, 0, 0, 1, 0, 80, 0, 81];
        p.extend_from_slice(&tlv);
        parse(&v2(0x21, 0x11, &p)).unwrap().0.tlvs
    };
    assert_eq!(
        t(0xEE, &[1, 2, 3]).azure().unwrap().unwrap_err(),
        TlvParseError::InvalidValue { reason: "Azure Private Endpoint LinkID must be 4 bytes, got 2".to_string() }
    );
    assert_eq!(
        t(0xE0, &[1; 12]).gcp().unwrap().unwrap_err(),
        TlvParseError::InvalidValue { reason: "GCP PSC connection ID must be 8 bytes, got 12".to_string() }
    );
    assert_eq!(
        t(0xEA, b"\x01a b").aws().unwrap().unwrap_err(),
        TlvParseError::InvalidValue { reason: "VPC endpoint ID contains invalid characters: \"a b\"".to_string() }
    );
    assert_eq!(
        t(0xEA, b"\x01\xff").aws().unwrap().unwrap_err(),
        TlvParseError::InvalidValue { reason: "VPC endpoint ID is not valid UTF-8".to_string() }
    );
    assert_eq!(t(0xEA, b"").aws().unwrap().unwrap_err(), TlvParseError::MalformedSubTlv { offset: 0 });
    assert_eq!(t(0xE0, &[0, 0, 0, 0, 0, 0, 1, 2]).gcp().unwrap().unwrap().psc_connection_id, 258);
}

#[test]
fn display_of_addresses() {
    let a = ProxyAddress::Inet(SocketAddr::new(IpAddr::v6(0, 0, 0, 0, 0, 0, 0, 1), 8080));
    assert_eq!(a.to_string(), "[::1]:8080");
    let b = ProxyAddress::Inet(SocketAddr::new(IpAddr::v6(0x2001, 0xdb8, 0, 0, 0, 0, 0, 0), 1));
    assert_eq!(b.to_string(), "[2001:db8::]:1");
}

fn feed(bytes: &[u8], chunk: usize, required: bool, pref: VersionPreference) -> (ReadStep, usize) {
    let mut buf: Vec<u8> = Vec::new();
    let mut reads = 0;
    let mut pos = 0;
    loop {
        let end = (pos + chunk).min(bytes.len());
        let eof = pos == bytes.len();
        buf.extend_from_slice(&bytes[pos..end]);
        pos = end;
        reads += 1;
        let step = read_step(&buf, eof, required, 4096, pref);
        if step != ReadStep::ReadMore {
            return (step, reads);
        }
    }
}

#[test]
fn read_loop_byte_at_a_time_finds_header() {
    let src = SocketAddr::new(IpAddr::v4(203, 0, 113, 42), 54321);
    let dst = SocketAddr::new(IpAddr::v4(10, 0, 0, 1), 8080);
    for hdr in [HeaderBuilder::v1_proxy(src, dst).build(), HeaderBuilder::v2_proxy(src, dst).build()] {
        let mut stream = hdr.clone();
        stream.extend_from_slice(b"GET / HTTP/1.1\r\n");
        let (step, reads) = feed(&stream, 1, true, VersionPreference::Both);
        match step {
            ReadStep::Header { info, consumed } => {
                assert_eq!(consumed, hdr.len());
                assert_eq!(reads, hdr.len());
                assert_eq!(info.source_inet(), Some(src));
            },
            other => panic!("unexpected {other:?}"),
        }
    }
}

#[test]
fn read_loop_truncated_header_fails_at_end_of_stream() {
    let hdr = HeaderBuilder::v2_local().build();
    let (step, _) = feed(&hdr[..10], 3, true, VersionPreference::Both);
    assert_eq!(step, ReadStep::ParseFailed(ParseError::Incomplete));
    let (step, reads) = feed(&[], 3, true, VersionPreference::Both);
    assert_eq!(step, ReadStep::Empty);
    assert_eq!(reads, 1);
}

#[test]
fn read_loop_version_preference() {
    let src = SocketAddr::new(IpAddr::v4(1, 2, 3, 4), 1);
    let dst = SocketAddr::new(IpAddr::v4(5, 6, 7, 8), 2);
    let v1 = HeaderBuilder::v1_proxy(src, dst).build();
    let v2 = HeaderBuilder::v2_proxy(src, dst).build();
    assert_eq!(feed(&v1, 16, true, VersionPreference::V2Only).0, ReadStep::VersionMismatch);
    assert_eq!(feed(&v2, 16, true, VersionPreference::V1Only).0, ReadStep::VersionMismatch);
    assert!(matches!(feed(&v2, 16, true, VersionPreference::V2Only).0, ReadStep::Header { .. }));
}
