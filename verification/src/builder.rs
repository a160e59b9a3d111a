//! Building Proxy Protocol headers.

use vstd::prelude::*;
use vstd::utf8::encode_utf8;

use crate::crc::{crc32c, spec_crc32c};
use crate::iptext::{dec, dec_bytes, ip_text, ip_text_bytes};
use crate::net::{IpAddr, SocketAddr, v4_octets, v6_octets};
use crate::parse::V2_SIGNATURE;
use crate::parse::v2::v2_signature;
use crate::types::{
    AddressFamily, Command, ProxyAddress, ProxyAddressView, SslInfo, SslInfoView, Transport,
    TransportProtocol, Version, opt_addr,
};

verus! {

/// A Proxy Protocol header builder.
pub struct HeaderBuilder {
    version: Version,
    command: Command,
    transport: Option<Transport>,
    source: Option<ProxyAddress>,
    destination: Option<ProxyAddress>,
    tlv_entries: Vec<(u8, Vec<u8>)>,
    add_crc32c: bool,
}

/// The mathematical value of a [`HeaderBuilder`].
pub struct HeaderBuilderView {
    pub version: Version,
    pub command: Command,
    pub transport: Option<Transport>,
    pub source: Option<ProxyAddressView>,
    pub destination: Option<ProxyAddressView>,
    pub tlv_entries: Seq<(u8, Seq<u8>)>,
    pub add_crc32c: bool,
}

impl View for HeaderBuilder {
    type V = HeaderBuilderView;

    closed spec fn view(&self) -> HeaderBuilderView {
        HeaderBuilderView {
            version: self.version,
            command: self.command,
            transport: self.transport,
            source: opt_addr(self.source),
            destination: opt_addr(self.destination),
            tlv_entries: crate::types::raw_view(self.tlv_entries@),
            add_crc32c: self.add_crc32c,
        }
    }
}

/// The family of an IP address.
pub open spec fn ip_family(ip: IpAddr) -> AddressFamily {
    match ip {
        IpAddr::V4(_) => AddressFamily::Inet,
        IpAddr::V6(_) => AddressFamily::Inet6,
    }
}

/// The transport and addresses a builder can hold: none, two IP addresses of the
/// family of the transport, or (for v2) two Unix paths with the Unix family.
pub open spec fn builder_wf(b: HeaderBuilderView) -> bool {
    &&& (b.version == Version::V1 ==> b.command == Command::Proxy)
    &&& (b.version == Version::V2 && b.command == Command::Local ==> b.transport is None && b.source is None && b.destination is None)
    &&& (b.transport is None ==> b.source is None && b.destination is None)
    &&& (b.version == Version::V2 && b.command == Command::Proxy ==> b.transport is Some)
    &&& (b.transport matches Some(t) ==> match (b.source, b.destination) {
        (Some(ProxyAddressView::Inet(s)), Some(ProxyAddressView::Inet(d))) => t.family == ip_family(s.ip) && t.family == ip_family(d.ip),
        (Some(ProxyAddressView::Unix(_)), Some(ProxyAddressView::Unix(_))) => t.family == AddressFamily::Unix && b.version == Version::V2,
        _ => false,
    })
}

impl HeaderBuilder {
    #[verifier::type_invariant]
    closed spec fn inv(self) -> bool {
        builder_wf(self@)
    }
}

/// A builder with the given fields and no TLV.
pub open spec fn plain_builder(version: Version, command: Command, transport: Option<Transport>, source: Option<ProxyAddressView>, destination: Option<ProxyAddressView>) -> HeaderBuilderView {
    HeaderBuilderView { version, command, transport, source, destination, tlv_entries: Seq::empty(), add_crc32c: false }
}

/// The builder view with one more TLV entry.
pub open spec fn with_entry(b: HeaderBuilderView, t: u8, v: Seq<u8>) -> HeaderBuilderView {
    HeaderBuilderView { tlv_entries: b.tlv_entries.push((t, v)), ..b }
}

// ------------------------------------------------------------------ encoding

/// A 16-bit value as two big-endian bytes.
pub open spec fn be16_bytes(v: int) -> Seq<u8> {
    seq![(v / 256) as u8, (v % 256) as u8]
}

/// A 32-bit value as four big-endian bytes.
pub open spec fn be32_bytes(v: u32) -> Seq<u8> {
    v4_octets(v)
}

/// One TLV record: type, 16-bit length and value.
pub open spec fn encode_tlv(t: u8, v: Seq<u8>) -> Seq<u8> {
    seq![t] + be16_bytes(v.len() as int) + v
}

/// The TLV records of `entries`, in order.
pub open spec fn encode_entries(entries: Seq<(u8, Seq<u8>)>) -> Seq<u8>
    decreases entries.len(),
{
    if entries.len() == 0 {
        Seq::empty()
    } else {
        encode_entries(entries.drop_last()) + encode_tlv(entries.last().0, entries.last().1)
    }
}

/// A Unix path in its 108-byte field: truncated to 108 bytes, padded with NULs.
pub open spec fn unix_field(p: Seq<u8>) -> Seq<u8> {
    let n = if p.len() < 108 { p.len() as int } else { 108 };
    p.take(n) + Seq::new((108 - n) as nat, |i: int| 0u8)
}

/// The address block of a PROXY header.
pub open spec fn encode_addresses(source: Option<ProxyAddressView>, destination: Option<ProxyAddressView>) -> Seq<u8> {
    match (source, destination) {
        (Some(ProxyAddressView::Inet(s)), Some(ProxyAddressView::Inet(d))) => match (s.ip, d.ip) {
            (IpAddr::V4(a), IpAddr::V4(b)) => v4_octets(a) + v4_octets(b) + be16_bytes(s.port as int) + be16_bytes(d.port as int),
            (IpAddr::V6(a), IpAddr::V6(b)) => v6_octets(a) + v6_octets(b) + be16_bytes(s.port as int) + be16_bytes(d.port as int),
            _ => Seq::empty(),
        },
        (Some(ProxyAddressView::Unix(s)), Some(ProxyAddressView::Unix(d))) => unix_field(s) + unix_field(d),
        _ => Seq::empty(),
    }
}

/// The family and protocol byte.
pub open spec fn fam_proto_byte(t: Option<Transport>) -> u8 {
    match t {
        None => 0,
        Some(t) => {
            let f: u8 = match t.family {
                AddressFamily::Inet => 1,
                AddressFamily::Inet6 => 2,
                AddressFamily::Unix => 3,
            };
            let p: u8 = match t.protocol {
                TransportProtocol::Stream => 1,
                TransportProtocol::Datagram => 2,
            };
            (f * 16 + p) as u8
        },
    }
}

/// The placeholder CRC TLV: type 0x03, length 4, value zero.
pub open spec fn crc_placeholder() -> Seq<u8> {
    seq![0x03u8, 0x00, 0x04, 0x00, 0x00, 0x00, 0x00]
}

/// The payload of a v2 header: addresses (PROXY only), the TLV entries and,
/// when asked for, the CRC TLV with a zero value.
pub open spec fn v2_payload(b: HeaderBuilderView) -> Seq<u8> {
    (if b.command == Command::Proxy { encode_addresses(b.source, b.destination) } else { Seq::empty() })
        + encode_entries(b.tlv_entries) + (if b.add_crc32c { crc_placeholder() } else { Seq::empty() })
}

/// The v2 header with the CRC field still zero.
pub open spec fn v2_unsealed(b: HeaderBuilderView) -> Seq<u8> {
    let payload = v2_payload(b);
    v2_signature() + seq![(0x20 + (if b.command == Command::Proxy { 1int } else { 0 })) as u8, fam_proto_byte(b.transport)]
        + be16_bytes(payload.len() as int) + payload
}

/// The v2 header: when a CRC is asked for, its value is the CRC32c of the
/// header with that value zero.
pub open spec fn spec_build_v2(b: HeaderBuilderView) -> Seq<u8> {
    let h = v2_unsealed(b);
    if b.add_crc32c {
        h.take(h.len() - 4) + be32_bytes(spec_crc32c(h))
    } else {
        h
    }
}

/// Whether every TLV value, and the whole v2 payload, fit a 16-bit length.
pub open spec fn v2_fits(b: HeaderBuilderView) -> bool {
    &&& forall|i: int| 0 <= i < b.tlv_entries.len() ==> (#[trigger] b.tlv_entries[i]).1.len() <= 65535
    &&& v2_payload(b).len() <= 65535
}

/// Whether the header can be encoded: a v1 header always can (it carries no
/// TLV), a v2 header when its lengths fit their 16-bit fields.
pub open spec fn fits(b: HeaderBuilderView) -> bool {
    b.version == Version::V2 ==> v2_fits(b)
}

/// A prefix of the entries encodes to no more bytes than all of them.
pub proof fn lemma_entries_prefix(s: Seq<(u8, Seq<u8>)>, k: int)
    requires
        0 <= k <= s.len(),
    ensures
        encode_entries(s.take(k)).len() <= encode_entries(s).len(),
    decreases s.len(),
{
    if k < s.len() {
        lemma_entries_prefix(s.drop_last(), k);
        assert(s.drop_last().take(k) =~= s.take(k));
    } else {
        assert(s.take(k) =~= s);
    }
}

/// `TCP4` or `TCP6`.
pub open spec fn v1_proto(f: AddressFamily) -> Seq<u8> {
    if f == AddressFamily::Inet { seq![0x54u8, 0x43, 0x50, 0x34] } else { seq![0x54u8, 0x43, 0x50, 0x36] }
}

/// The v1 line of two socket addresses.
pub open spec fn v1_line(f: AddressFamily, s: SocketAddr, d: SocketAddr) -> Seq<u8> {
    seq![0x50u8, 0x52, 0x4F, 0x58, 0x59, 0x20] + v1_proto(f) + seq![0x20u8] + ip_text(s.ip) + seq![0x20u8]
        + ip_text(d.ip) + seq![0x20u8] + dec(s.port as nat) + seq![0x20u8] + dec(d.port as nat) + seq![0x0Du8, 0x0A]
}

/// `PROXY UNKNOWN\r\n`
pub open spec fn v1_unknown_line() -> Seq<u8> {
    seq![0x50u8, 0x52, 0x4F, 0x58, 0x59, 0x20, 0x55, 0x4E, 0x4B, 0x4E, 0x4F, 0x57, 0x4E, 0x0D, 0x0A]
}

/// The v1 header: the address line when the builder holds IP addresses, the
/// UNKNOWN line otherwise.
pub open spec fn spec_build_v1(b: HeaderBuilderView) -> Seq<u8> {
    match (b.source, b.destination, b.transport) {
        (Some(ProxyAddressView::Inet(s)), Some(ProxyAddressView::Inet(d)), Some(t)) => v1_line(t.family, s, d),
        _ => v1_unknown_line(),
    }
}

/// The bytes of the header.
pub open spec fn spec_build(b: HeaderBuilderView) -> Seq<u8> {
    if b.version == Version::V1 { spec_build_v1(b) } else { spec_build_v2(b) }
}

/// The sub-TLV for an optional string.
pub open spec fn sub_str(t: u8, v: Option<Seq<char>>) -> Seq<u8> {
    match v {
        Some(s) => encode_tlv(t, encode_utf8(s)),
        None => Seq::empty(),
    }
}

/// The value of the SSL TLV: client flags, verify word (0 when verified), then
/// the sub-TLVs present, in type order but for the common name, which comes second.
pub open spec fn spec_encode_ssl(ssl: SslInfoView) -> Seq<u8> {
    seq![ssl.client_flags] + be32_bytes(if ssl.verified { 0 } else { 1 })
        + sub_str(0x21, ssl.version) + sub_str(0x22, ssl.cn) + sub_str(0x23, ssl.cipher)
        + sub_str(0x24, ssl.sig_alg) + sub_str(0x25, ssl.key_alg) + sub_str(0x26, ssl.group)
        + sub_str(0x27, ssl.sig_scheme)
        + (match ssl.client_cert {
            Some(c) => encode_tlv(0x28, c),
            None => Seq::empty(),
        })
}

/// Whether every sub-TLV value of the SSL metadata fits a 16-bit length.
pub open spec fn ssl_fits(ssl: SslInfoView) -> bool {
    &&& (ssl.version matches Some(s) ==> encode_utf8(s).len() <= 65535)
    &&& (ssl.cn matches Some(s) ==> encode_utf8(s).len() <= 65535)
    &&& (ssl.cipher matches Some(s) ==> encode_utf8(s).len() <= 65535)
    &&& (ssl.sig_alg matches Some(s) ==> encode_utf8(s).len() <= 65535)
    &&& (ssl.key_alg matches Some(s) ==> encode_utf8(s).len() <= 65535)
    &&& (ssl.group matches Some(s) ==> encode_utf8(s).len() <= 65535)
    &&& (ssl.sig_scheme matches Some(s) ==> encode_utf8(s).len() <= 65535)
    &&& (ssl.client_cert matches Some(c) ==> c.len() <= 65535)
}

/// Appends a sub-TLV (type, 16-bit length, value) to `buf`.
pub fn encode_sub_tlv(buf: &mut Vec<u8>, type_byte: u8, value: &[u8])
    requires
        value@.len() <= 65535,
    ensures
        final(buf)@ == old(buf)@ + encode_tlv(type_byte, value@),
{
    buf.push(type_byte);
    let len = value.len();
    buf.push((len / 256) as u8);
    buf.push((len % 256) as u8);
    let ghost mid = buf@;
    buf.extend_from_slice(value);
    assert(buf@ =~= old(buf)@ + encode_tlv(type_byte, value@));
}

fn push_opt_str(buf: &mut Vec<u8>, type_byte: u8, v: &Option<String>)
    requires
        v matches Some(s) ==> encode_utf8(s@).len() <= 65535,
    ensures
        final(buf)@ == old(buf)@ + sub_str(type_byte, crate::types::opt_str(*v)),
{
    match v {
        Some(s) => {
            encode_sub_tlv(buf, type_byte, s.as_str().as_bytes());
        },
        None => {
            assert(buf@ =~= old(buf)@ + Seq::<u8>::empty());
        },
    }
}

/// The value of the SSL TLV for `ssl`.
pub fn encode_ssl_tlv_value(ssl: &SslInfo) -> (r: Vec<u8>)
    requires
        ssl_fits(ssl@),
    ensures
        r@ == spec_encode_ssl(ssl@),
{
    let mut buf: Vec<u8> = Vec::new();
    buf.push(ssl.client_flags.bits());
    let verify: u32 = if ssl.verified { 0 } else { 1 };
    buf.push(((verify >> 24u32) & 0xffu32) as u8);
    buf.push(((verify >> 16u32) & 0xffu32) as u8);
    buf.push(((verify >> 8u32) & 0xffu32) as u8);
    buf.push((verify & 0xffu32) as u8);
    assert(buf@ =~= seq![ssl@.client_flags] + be32_bytes(verify));
    push_opt_str(&mut buf, 0x21, &ssl.version);
    push_opt_str(&mut buf, 0x22, &ssl.cn);
    push_opt_str(&mut buf, 0x23, &ssl.cipher);
    push_opt_str(&mut buf, 0x24, &ssl.sig_alg);
    push_opt_str(&mut buf, 0x25, &ssl.key_alg);
    push_opt_str(&mut buf, 0x26, &ssl.group);
    push_opt_str(&mut buf, 0x27, &ssl.sig_scheme);
    let ghost before_cert = buf@;
    match &ssl.client_cert {
        Some(c) => {
            encode_sub_tlv(&mut buf, 0x28, c.as_slice());
        },
        None => {},
    }
    assert(buf@ =~= spec_encode_ssl(ssl@));
    buf
}

fn push_be16(buf: &mut Vec<u8>, v: u16)
    ensures
        final(buf)@ == old(buf)@ + be16_bytes(v as int),
{
    buf.push((v / 256) as u8);
    buf.push((v % 256) as u8);
    assert(buf@ =~= old(buf)@ + be16_bytes(v as int));
}

fn push_v4(buf: &mut Vec<u8>, x: u32)
    ensures
        final(buf)@ == old(buf)@ + v4_octets(x),
{
    buf.push(((x >> 24u32) & 0xffu32) as u8);
    buf.push(((x >> 16u32) & 0xffu32) as u8);
    buf.push(((x >> 8u32) & 0xffu32) as u8);
    buf.push((x & 0xffu32) as u8);
    assert(buf@ =~= old(buf)@ + v4_octets(x));
}

fn push_v6(buf: &mut Vec<u8>, x: u128)
    ensures
        final(buf)@ == old(buf)@ + v6_octets(x),
{
    let segs = crate::iptext::segments_of(x);
    let mut i: usize = 0;
    while i < 8
        invariant
            i <= 8,
            segs@ == crate::net::v6_segments(x),
            buf@ == old(buf)@ + v6_octets(x).take(2 * i as int),
        decreases 8 - i,
    {
        let g = segs[i];
        buf.push((g / 256) as u8);
        buf.push((g % 256) as u8);
        assert(v6_octets(x).take(2 * (i + 1) as int) =~= v6_octets(x).take(2 * i as int) + seq![(g / 256) as u8, (g % 256) as u8]);
        i = i + 1;
    }
    assert(v6_octets(x).take(16) =~= v6_octets(x));
}

fn push_unix_field(buf: &mut Vec<u8>, p: &Vec<u8>)
    ensures
        final(buf)@ == old(buf)@ + unix_field(p@),
{
    let n = if p.len() < 108 { p.len() } else { 108 };
    let mut i: usize = 0;
    while i < n
        invariant
            i <= n,
            n <= p@.len(),
            n == (if p@.len() < 108 { p@.len() as int } else { 108 }),
            buf@ == old(buf)@ + p@.take(i as int),
        decreases n - i,
    {
        buf.push(p[i]);
        assert(p@.take(i + 1) =~= p@.take(i as int).push(p@[i as int]));
        i = i + 1;
    }
    let mut j: usize = n;
    while j < 108
        invariant
            n <= j <= 108,
            n == (if p@.len() < 108 { p@.len() as int } else { 108 }),
            buf@ == old(buf)@ + p@.take(n as int) + Seq::new((j - n) as nat, |k: int| 0u8),
        decreases 108 - j,
    {
        buf.push(0);
        assert(Seq::new((j + 1 - n) as nat, |k: int| 0u8) =~= Seq::new((j - n) as nat, |k: int| 0u8).push(0u8));
        j = j + 1;
    }
}

impl HeaderBuilder {
    /// A v2 PROXY header for two socket addresses of the same family, over a stream.
    pub fn v2_proxy(source: SocketAddr, destination: SocketAddr) -> (r: HeaderBuilder)
        requires
            (source.ip is V4) == (destination.ip is V4),
        ensures
            r@ == plain_builder(Version::V2, Command::Proxy,
                Some(Transport { family: ip_family(source.ip), protocol: TransportProtocol::Stream }),
                Some(ProxyAddressView::Inet(source)), Some(ProxyAddressView::Inet(destination))),
    {
        let family = if source.is_ipv4() { AddressFamily::Inet } else { AddressFamily::Inet6 };
        let r = HeaderBuilder {
            version: Version::V2,
            command: Command::Proxy,
            transport: Some(Transport { family, protocol: TransportProtocol::Stream }),
            source: Some(ProxyAddress::Inet(source)),
            destination: Some(ProxyAddress::Inet(destination)),
            tlv_entries: Vec::new(),
            add_crc32c: false,
        };
        assert(r@.tlv_entries =~= Seq::<(u8, Seq<u8>)>::empty());
        r
    }

    /// A v2 LOCAL header (health check or proxy to self).
    pub fn v2_local() -> (r: HeaderBuilder)
        ensures
            r@ == plain_builder(Version::V2, Command::Local, None, None, None),
    {
        let r = HeaderBuilder {
            version: Version::V2,
            command: Command::Local,
            transport: None,
            source: None,
            destination: None,
            tlv_entries: Vec::new(),
            add_crc32c: false,
        };
        assert(r@.tlv_entries =~= Seq::<(u8, Seq<u8>)>::empty());
        r
    }

    /// A v1 header for two socket addresses of the same family.
    pub fn v1_proxy(source: SocketAddr, destination: SocketAddr) -> (r: HeaderBuilder)
        requires
            (source.ip is V4) == (destination.ip is V4),
        ensures
            r@ == plain_builder(Version::V1, Command::Proxy,
                Some(Transport { family: ip_family(source.ip), protocol: TransportProtocol::Stream }),
                Some(ProxyAddressView::Inet(source)), Some(ProxyAddressView::Inet(destination))),
    {
        let family = if source.is_ipv4() { AddressFamily::Inet } else { AddressFamily::Inet6 };
        let r = HeaderBuilder {
            version: Version::V1,
            command: Command::Proxy,
            transport: Some(Transport { family, protocol: TransportProtocol::Stream }),
            source: Some(ProxyAddress::Inet(source)),
            destination: Some(ProxyAddress::Inet(destination)),
            tlv_entries: Vec::new(),
            add_crc32c: false,
        };
        assert(r@.tlv_entries =~= Seq::<(u8, Seq<u8>)>::empty());
        r
    }

    /// A v1 UNKNOWN header (no addresses).
    pub fn v1_unknown() -> (r: HeaderBuilder)
        ensures
            r@ == plain_builder(Version::V1, Command::Proxy, None, None, None),
    {
        let r = HeaderBuilder {
            version: Version::V1,
            command: Command::Proxy,
            transport: None,
            source: None,
            destination: None,
            tlv_entries: Vec::new(),
            add_crc32c: false,
        };
        assert(r@.tlv_entries =~= Seq::<(u8, Seq<u8>)>::empty());
        r
    }

    /// A v2 PROXY header for two Unix socket paths.
    pub fn v2_unix(source: Vec<u8>, destination: Vec<u8>, protocol: TransportProtocol) -> (r: HeaderBuilder)
        ensures
            r@ == plain_builder(Version::V2, Command::Proxy,
                Some(Transport { family: AddressFamily::Unix, protocol }),
                Some(ProxyAddressView::Unix(source@)), Some(ProxyAddressView::Unix(destination@))),
    {
        let r = HeaderBuilder {
            version: Version::V2,
            command: Command::Proxy,
            transport: Some(Transport { family: AddressFamily::Unix, protocol }),
            source: Some(ProxyAddress::Unix(source)),
            destination: Some(ProxyAddress::Unix(destination)),
            tlv_entries: Vec::new(),
            add_crc32c: false,
        };
        assert(r@.tlv_entries =~= Seq::<(u8, Seq<u8>)>::empty());
        r
    }

    /// Sets the transport protocol (the default is `Stream`); a builder without
    /// addresses is left as it is.
    pub fn with_transport_protocol(self, protocol: TransportProtocol) -> (r: HeaderBuilder)
        ensures
            r@ == (HeaderBuilderView {
                transport: match self@.transport {
                    Some(t) => Some(Transport { family: t.family, protocol }),
                    None => None,
                },
                ..self@
            }),
    {
        proof { use_type_invariant(&self); }
        let HeaderBuilder { version, command, transport, source, destination, tlv_entries, add_crc32c } = self;
        let transport = match transport {
            Some(t) => Some(Transport { family: t.family, protocol }),
            None => None,
        };
        HeaderBuilder { version, command, transport, source, destination, tlv_entries, add_crc32c }
    }

    fn with_entry(self, t: u8, v: Vec<u8>) -> (r: HeaderBuilder)
        ensures
            r@ == with_entry(self@, t, v@),
    {
        proof { use_type_invariant(&self); }
        let HeaderBuilder { version, command, transport, source, destination, tlv_entries, add_crc32c } = self;
        let mut tlv_entries = tlv_entries;
        let ghost before = tlv_entries@;
        tlv_entries.push((t, v));
        let r = HeaderBuilder { version, command, transport, source, destination, tlv_entries, add_crc32c };
        assert(r@.tlv_entries =~= with_entry(self@, t, v@).tlv_entries);
        r
    }

    /// Adds an authority TLV (0x02).
    pub fn with_authority(self, authority: String) -> (r: HeaderBuilder)
        ensures
            r@ == with_entry(self@, 0x02, encode_utf8(authority@)),
    {
        let v = vstd::slice::slice_to_vec(authority.as_str().as_bytes());
        self.with_entry(0x02, v)
    }

    /// Adds a unique ID TLV (0x05) of at most 128 bytes.
    pub fn with_unique_id(self, id: Vec<u8>) -> (r: HeaderBuilder)
        requires
            id@.len() <= 128,
        ensures
            r@ == with_entry(self@, 0x05, id@),
    {
        self.with_entry(0x05, id)
    }

    /// Adds an ALPN TLV (0x01).
    pub fn with_alpn(self, alpn: Vec<u8>) -> (r: HeaderBuilder)
        ensures
            r@ == with_entry(self@, 0x01, alpn@),
    {
        self.with_entry(0x01, alpn)
    }

    /// Adds an SSL TLV (0x20).
    pub fn with_ssl(self, ssl: SslInfo) -> (r: HeaderBuilder)
        requires
            ssl_fits(ssl@),
        ensures
            r@ == with_entry(self@, 0x20, spec_encode_ssl(ssl@)),
    {
        let v = encode_ssl_tlv_value(&ssl);
        self.with_entry(0x20, v)
    }

    /// Adds a network namespace TLV (0x30).
    pub fn with_netns(self, netns: String) -> (r: HeaderBuilder)
        ensures
            r@ == with_entry(self@, 0x30, encode_utf8(netns@)),
    {
        let v = vstd::slice::slice_to_vec(netns.as_str().as_bytes());
        self.with_entry(0x30, v)
    }

    /// Adds any TLV.
    pub fn with_raw_tlv(self, type_byte: u8, value: Vec<u8>) -> (r: HeaderBuilder)
        ensures
            r@ == with_entry(self@, type_byte, value@),
    {
        self.with_entry(type_byte, value)
    }

    /// Adds a NOOP TLV (0x04) of `len` zero bytes.
    pub fn with_padding(self, len: u16) -> (r: HeaderBuilder)
        ensures
            r@ == with_entry(self@, 0x04, Seq::new(len as nat, |i: int| 0u8)),
    {
        let v = vec![0u8; len as usize];
        assert(v@ =~= Seq::new(len as nat, |i: int| 0u8));
        self.with_entry(0x04, v)
    }

    /// Asks for a CRC32c TLV, computed when the header is built.
    pub fn with_crc32c(self) -> (r: HeaderBuilder)
        ensures
            r@ == (HeaderBuilderView { add_crc32c: true, ..self@ }),
    {
        proof { use_type_invariant(&self); }
        let HeaderBuilder { version, command, transport, source, destination, tlv_entries, add_crc32c } = self;
        HeaderBuilder { version, command, transport, source, destination, tlv_entries, add_crc32c: true }
    }
}


fn push_addresses(buf: &mut Vec<u8>, source: &Option<ProxyAddress>, destination: &Option<ProxyAddress>)
    ensures
        final(buf)@ == old(buf)@ + encode_addresses(opt_addr(*source), opt_addr(*destination)),
{
    match (source, destination) {
        (Some(ProxyAddress::Inet(s)), Some(ProxyAddress::Inet(d))) => {
            match (s.ip, d.ip) {
                (IpAddr::V4(a), IpAddr::V4(b)) => {
                    push_v4(buf, a);
                    push_v4(buf, b);
                    push_be16(buf, s.port);
                    push_be16(buf, d.port);
                    assert(buf@ =~= old(buf)@ + encode_addresses(opt_addr(*source), opt_addr(*destination)));
                },
                (IpAddr::V6(a), IpAddr::V6(b)) => {
                    push_v6(buf, a);
                    push_v6(buf, b);
                    push_be16(buf, s.port);
                    push_be16(buf, d.port);
                    assert(buf@ =~= old(buf)@ + encode_addresses(opt_addr(*source), opt_addr(*destination)));
                },
                _ => {
                    assert(buf@ =~= old(buf)@ + Seq::<u8>::empty());
                },
            }
        },
        (Some(ProxyAddress::Unix(s)), Some(ProxyAddress::Unix(d))) => {
            push_unix_field(buf, s);
            push_unix_field(buf, d);
            assert(buf@ =~= old(buf)@ + encode_addresses(opt_addr(*source), opt_addr(*destination)));
        },
        _ => {
            assert(buf@ =~= old(buf)@ + Seq::<u8>::empty());
        },
    }
}

fn fam_proto(t: &Option<Transport>) -> (r: u8)
    ensures
        r == fam_proto_byte(*t),
{
    match t {
        None => 0,
        Some(t) => {
            let f: u8 = match t.family {
                AddressFamily::Inet => 1,
                AddressFamily::Inet6 => 2,
                AddressFamily::Unix => 3,
            };
            let p: u8 = match t.protocol {
                TransportProtocol::Stream => 1,
                TransportProtocol::Datagram => 2,
            };
            f * 16 + p
        },
    }
}

fn addresses_len(source: &Option<ProxyAddress>, destination: &Option<ProxyAddress>) -> (r: usize)
    ensures
        r == encode_addresses(opt_addr(*source), opt_addr(*destination)).len(),
{
    match (source, destination) {
        (Some(ProxyAddress::Inet(s)), Some(ProxyAddress::Inet(d))) => {
            match (s.ip, d.ip) {
                (IpAddr::V4(a), IpAddr::V4(b)) => 12,
                (IpAddr::V6(a), IpAddr::V6(b)) => 36,
                _ => 0,
            }
        },
        (Some(ProxyAddress::Unix(s)), Some(ProxyAddress::Unix(d))) => 216,
        _ => 0,
    }
}

impl HeaderBuilder {
    /// The number of bytes of the v2 payload (addresses, TLVs, CRC TLV), or
    /// `None` when it passes 65535 or a TLV value does not fit a 16-bit length.
    fn payload_len(&self) -> (r: Option<usize>)
        ensures
            r is Some <==> v2_fits(self@),
            r matches Some(n) ==> n == v2_payload(self@).len(),
    {
        let addr: usize = match self.command {
            Command::Proxy => addresses_len(&self.source, &self.destination),
            Command::Local => 0,
        };
        let mut total: usize = addr;
        let mut i: usize = 0;
        let ghost entries = self@.tlv_entries;
        let ghost head = if self@.command == Command::Proxy { encode_addresses(self@.source, self@.destination) } else { Seq::<u8>::empty() };
        assert(entries.take(0) =~= Seq::<(u8, Seq<u8>)>::empty());
        while i < self.tlv_entries.len()
            invariant
                i <= self.tlv_entries@.len(),
                entries == self@.tlv_entries,
                entries.len() == self.tlv_entries@.len(),
                forall|j: int| 0 <= j < entries.len() ==> (#[trigger] entries[j]).1 == self.tlv_entries@[j].1@,
                head == (if self@.command == Command::Proxy { encode_addresses(self@.source, self@.destination) } else { Seq::<u8>::empty() }),
                total == head.len() + encode_entries(entries.take(i as int)).len(),
                total <= 65535,
                forall|j: int| 0 <= j < i ==> (#[trigger] entries[j]).1.len() <= 65535,
            decreases self.tlv_entries@.len() - i,
        {
            let vlen = self.tlv_entries[i].1.len();
            assert(entries[i as int].1 == self.tlv_entries@[i as int].1@);
            if vlen > 65535 {
                return None;
            }
            assert(entries.take(i + 1).drop_last() =~= entries.take(i as int));
            if 65535 - total < 3 + vlen {
                proof { lemma_entries_prefix(entries, i + 1); }
                return None;
            }
            total = total + 3 + vlen;
            i = i + 1;
        }
        assert(entries.take(i as int) =~= entries);
        if self.add_crc32c {
            if total > 65535 - 7 {
                return None;
            }
            total = total + 7;
        }
        Some(total)
    }

    /// Whether [`build`](Self::build) can encode this header: always for v1;
    /// for v2 when every TLV value and the whole payload fit 65535 bytes.
    pub fn fits(&self) -> (r: bool)
        ensures
            r == fits(self@),
    {
        match self.version {
            Version::V1 => true,
            Version::V2 => self.payload_len().is_some(),
        }
    }

    /// Encodes the header. A v1 header is the text line of its addresses, or
    /// `PROXY UNKNOWN\r\n`; a v2 header is the signature, the version and
    /// command byte, the family and protocol byte, the payload length, the
    /// addresses, the TLVs in the order they were added and, when asked for,
    /// a CRC32c TLV last, whose value is the checksum of the whole header with
    /// that value zero.
    pub fn build(&self) -> (r: Vec<u8>)
        requires
            fits(self@),
        ensures
            r@ == spec_build(self@),
    {
        match self.version {
            Version::V1 => self.build_v1(),
            Version::V2 => self.build_v2(),
        }
    }

    fn build_v1(&self) -> (r: Vec<u8>)
        requires
            self@.version == Version::V1,
        ensures
            r@ == spec_build_v1(self@),
    {
        proof { use_type_invariant(self); }
        match (&self.source, &self.destination, &self.transport) {
            (Some(ProxyAddress::Inet(src)), Some(ProxyAddress::Inet(dst)), Some(transport)) => {
                let mut buf: Vec<u8> = Vec::new();
                buf.push(0x50);
                buf.push(0x52);
                buf.push(0x4F);
                buf.push(0x58);
                buf.push(0x59);
                buf.push(0x20);
                buf.push(0x54);
                buf.push(0x43);
                buf.push(0x50);
                match transport.family {
                    AddressFamily::Inet => buf.push(0x34),
                    _ => buf.push(0x36),
                }
                buf.push(0x20);
                let mut s = ip_text_bytes(src.ip);
                buf.append(&mut s);
                buf.push(0x20);
                let mut d = ip_text_bytes(dst.ip);
                buf.append(&mut d);
                buf.push(0x20);
                let mut sp = dec_bytes(src.port as u32);
                buf.append(&mut sp);
                buf.push(0x20);
                let mut dp = dec_bytes(dst.port as u32);
                buf.append(&mut dp);
                buf.push(0x0D);
                buf.push(0x0A);
                assert(buf@ =~= spec_build_v1(self@));
                buf
            },
            _ => {
                let mut buf: Vec<u8> = Vec::new();
                buf.push(0x50);
                buf.push(0x52);
                buf.push(0x4F);
                buf.push(0x58);
                buf.push(0x59);
                buf.push(0x20);
                buf.push(0x55);
                buf.push(0x4E);
                buf.push(0x4B);
                buf.push(0x4E);
                buf.push(0x4F);
                buf.push(0x57);
                buf.push(0x4E);
                buf.push(0x0D);
                buf.push(0x0A);
                assert(buf@ =~= spec_build_v1(self@));
                buf
            },
        }
    }

    /// Appends the v2 payload: addresses (PROXY only), the TLVs, the CRC TLV
    /// with a zero value when asked for.
    fn push_payload(&self, buf: &mut Vec<u8>)
        requires
            forall|j: int| 0 <= j < self@.tlv_entries.len() ==> (#[trigger] self@.tlv_entries[j]).1.len() <= 65535,
        ensures
            final(buf)@ == old(buf)@ + v2_payload(self@),
    {
        let ghost start = buf@;
        match self.command {
            Command::Proxy => push_addresses(buf, &self.source, &self.destination),
            Command::Local => {},
        }
        let ghost entries = self@.tlv_entries;
        let ghost head = if self@.command == Command::Proxy { encode_addresses(self@.source, self@.destination) } else { Seq::<u8>::empty() };
        assert(buf@ =~= start + head);
        assert(entries.take(0) =~= Seq::<(u8, Seq<u8>)>::empty());
        let mut i: usize = 0;
        while i < self.tlv_entries.len()
            invariant
                i <= self.tlv_entries@.len(),
                entries == self@.tlv_entries,
                entries.len() == self.tlv_entries@.len(),
                forall|j: int| 0 <= j < entries.len() ==> (#[trigger] entries[j]) == (self.tlv_entries@[j].0, self.tlv_entries@[j].1@),
                forall|j: int| 0 <= j < entries.len() ==> (#[trigger] entries[j]).1.len() <= 65535,
                buf@ == start + head + encode_entries(entries.take(i as int)),
            decreases self.tlv_entries@.len() - i,
        {
            let entry = &self.tlv_entries[i];
            assert(entries[i as int] == (entry.0, entry.1@));
            encode_sub_tlv(buf, entry.0, entry.1.as_slice());
            assert(entries.take(i + 1).drop_last() =~= entries.take(i as int));
            i = i + 1;
        }
        assert(entries.take(i as int) =~= entries);
        let ghost before_crc = buf@;
        if self.add_crc32c {
            buf.push(0x03);
            buf.push(0x00);
            buf.push(0x04);
            buf.push(0x00);
            buf.push(0x00);
            buf.push(0x00);
            buf.push(0x00);
            assert(buf@ =~= before_crc + crc_placeholder());
        } else {
            assert(buf@ =~= before_crc + Seq::<u8>::empty());
        }
        assert(buf@ =~= start + v2_payload(self@));
    }

    fn build_v2(&self) -> (r: Vec<u8>)
        requires
            self@.version == Version::V2,
            v2_fits(self@),
        ensures
            r@ == spec_build_v2(self@),
    {
        let mut buf: Vec<u8> = Vec::new();
        let sig = V2_SIGNATURE;
        assert(sig@ == v2_signature());
        buf.extend_from_slice(sig.as_slice());
        let cmd: u8 = match self.command {
            Command::Local => 0x20,
            Command::Proxy => 0x21,
        };
        buf.push(cmd);
        buf.push(fam_proto(&self.transport));
        buf.push(0);
        buf.push(0);
        let ghost start = buf@;
        assert(start.len() == 16);
        self.push_payload(&mut buf);
        let ghost payload = v2_payload(self@);
        let payload_len: usize = buf.len() - 16;
        assert(payload_len == payload.len());
        buf.set(14, (payload_len / 256) as u8);
        buf.set(15, (payload_len % 256) as u8);
        assert(buf@ =~= v2_unsealed(self@));
        if self.add_crc32c {
            let crc = crc32c(buf.as_slice());
            let ghost h = buf@;
            let n = buf.len();
            buf.set(n - 4, ((crc >> 24u32) & 0xffu32) as u8);
            buf.set(n - 3, ((crc >> 16u32) & 0xffu32) as u8);
            buf.set(n - 2, ((crc >> 8u32) & 0xffu32) as u8);
            buf.set(n - 1, (crc & 0xffu32) as u8);
            assert(buf@ =~= h.take(h.len() - 4) + be32_bytes(crc));
        }
        buf
    }
}

} // verus!
