//! The values that a parsed Proxy Protocol header carries.

use vstd::prelude::*;

use crate::net::SocketAddr;

verus! {

/// An address from a Proxy Protocol header.
#[derive(Debug, Clone, PartialEq, Eq, Hash)]
#[non_exhaustive]
pub enum ProxyAddress {
    /// IPv4 or IPv6 socket address (IP and port)
    Inet(SocketAddr),
    /// Unix domain socket path (up to 108 bytes)
    Unix(Vec<u8>),
}

/// The mathematical value of a [`ProxyAddress`].
pub enum ProxyAddressView {
    Inet(SocketAddr),
    Unix(Seq<u8>),
}

impl View for ProxyAddress {
    type V = ProxyAddressView;

    open spec fn view(&self) -> ProxyAddressView {
        match self {
            ProxyAddress::Inet(a) => ProxyAddressView::Inet(*a),
            ProxyAddress::Unix(p) => ProxyAddressView::Unix(p@),
        }
    }
}

/// Protocol version of a header.
#[derive(Debug, Clone, Copy, PartialEq, Eq, Hash, Structural)]
#[non_exhaustive]
pub enum Version {
    V1,
    V2,
}

/// PROXY (forwarded) or LOCAL (health-check).
#[derive(Debug, Clone, Copy, PartialEq, Eq, Hash, Structural)]
#[non_exhaustive]
pub enum Command {
    Local,
    Proxy,
}

/// Transport family and protocol of the proxied connection.
#[derive(Debug, Clone, Copy, PartialEq, Eq, Hash, Structural)]
pub struct Transport {
    pub family: AddressFamily,
    pub protocol: TransportProtocol,
}

#[derive(Debug, Clone, Copy, PartialEq, Eq, Hash, Structural)]
#[non_exhaustive]
pub enum AddressFamily {
    Inet,
    Inet6,
    Unix,
}

#[derive(Debug, Clone, Copy, PartialEq, Eq, Hash, Structural)]
#[non_exhaustive]
pub enum TransportProtocol {
    Stream,
    Datagram,
}

/// Flags from the client field of the SSL TLV; only the three defined bits are kept.
#[derive(Debug, Clone, Copy, PartialEq, Eq, Hash, Structural)]
pub struct SslClientFlags {
    bits: u8,
}

impl SslClientFlags {
    /// The bits of the flags.
    pub closed spec fn spec_bits(self) -> u8 {
        self.bits
    }

    /// The flags are always a subset of the three defined ones.
    #[verifier::type_invariant]
    pub closed spec fn wf(self) -> bool {
        self.bits < 8
    }

    /// No flag set.
    pub fn empty() -> (r: SslClientFlags)
        ensures
            r.spec_bits() == 0,
            r.wf(),
    {
        SslClientFlags { bits: 0 }
    }

    /// Client connected over SSL/TLS (0x01).
    pub fn ssl() -> (r: SslClientFlags)
        ensures
            r.spec_bits() == 1,
            r.wf(),
    {
        SslClientFlags { bits: 0x01 }
    }

    /// Client provided a certificate on this connection (0x02).
    pub fn cert_conn() -> (r: SslClientFlags)
        ensures
            r.spec_bits() == 2,
            r.wf(),
    {
        SslClientFlags { bits: 0x02 }
    }

    /// Client provided a certificate during the TLS session (0x04).
    pub fn cert_sess() -> (r: SslClientFlags)
        ensures
            r.spec_bits() == 4,
            r.wf(),
    {
        SslClientFlags { bits: 0x04 }
    }

    /// The flags of `bits`, dropping undefined bits.
    pub fn from_bits_truncate(bits: u8) -> (r: SslClientFlags)
        ensures
            r.spec_bits() == bits & 0x07,
            r.wf(),
    {
        assert(bits & 0x07 < 8) by (bit_vector);
        SslClientFlags { bits: bits & 0x07 }
    }

    /// The raw bits.
    pub fn bits(&self) -> (r: u8)
        ensures
            r == self.spec_bits(),
    {
        self.bits
    }

    /// Whether every flag of `other` is set in `self`.
    pub fn contains(&self, other: SslClientFlags) -> (r: bool)
        ensures
            r == (self.spec_bits() & other.spec_bits() == other.spec_bits()),
    {
        self.bits & other.bits == other.bits
    }

    /// The flags set in either `self` or `other`.
    pub fn union(self, other: SslClientFlags) -> (r: SslClientFlags)
        ensures
            r.spec_bits() == self.spec_bits() | other.spec_bits(),
            r.wf(),
    {
        proof {
            use_type_invariant(&self);
            use_type_invariant(&other);
        }
        let a = self.bits;
        let b = other.bits;
        assert(a < 8 && b < 8 ==> a | b < 8) by (bit_vector);
        SslClientFlags { bits: a | b }
    }
}

impl Default for SslClientFlags {
    fn default() -> (r: SslClientFlags)
        ensures
            r.spec_bits() == 0,
    {
        SslClientFlags { bits: 0 }
    }
}

/// SSL/TLS metadata from the PP2_TYPE_SSL TLV (0x20).
#[derive(Debug, Clone, PartialEq, Eq, Hash)]
pub struct SslInfo {
    pub client_flags: SslClientFlags,
    pub verified: bool,
    pub version: Option<String>,
    pub cipher: Option<String>,
    pub sig_alg: Option<String>,
    pub key_alg: Option<String>,
    pub cn: Option<String>,
    pub group: Option<String>,
    pub sig_scheme: Option<String>,
    pub client_cert: Option<Vec<u8>>,
}

/// The mathematical value of an [`SslInfo`].
pub struct SslInfoView {
    pub client_flags: u8,
    pub verified: bool,
    pub version: Option<Seq<char>>,
    pub cipher: Option<Seq<char>>,
    pub sig_alg: Option<Seq<char>>,
    pub key_alg: Option<Seq<char>>,
    pub cn: Option<Seq<char>>,
    pub group: Option<Seq<char>>,
    pub sig_scheme: Option<Seq<char>>,
    pub client_cert: Option<Seq<u8>>,
}

pub open spec fn opt_str(o: Option<String>) -> Option<Seq<char>> {
    match o {
        Some(s) => Some(s@),
        None => None,
    }
}

pub open spec fn opt_bytes(o: Option<Vec<u8>>) -> Option<Seq<u8>> {
    match o {
        Some(v) => Some(v@),
        None => None,
    }
}

impl View for SslInfo {
    type V = SslInfoView;

    open spec fn view(&self) -> SslInfoView {
        SslInfoView {
            client_flags: self.client_flags.spec_bits(),
            verified: self.verified,
            version: opt_str(self.version),
            cipher: opt_str(self.cipher),
            sig_alg: opt_str(self.sig_alg),
            key_alg: opt_str(self.key_alg),
            cn: opt_str(self.cn),
            group: opt_str(self.group),
            sig_scheme: opt_str(self.sig_scheme),
            client_cert: opt_bytes(self.client_cert),
        }
    }
}

impl Default for SslInfo {
    fn default() -> (r: SslInfo)
        ensures
            r@ == empty_ssl_view(0, false),
    {
        SslInfo {
            client_flags: SslClientFlags { bits: 0 },
            verified: false,
            version: None,
            cipher: None,
            sig_alg: None,
            key_alg: None,
            cn: None,
            group: None,
            sig_scheme: None,
            client_cert: None,
        }
    }
}

/// SSL metadata with the given flags and verification result and no sub-TLVs.
pub open spec fn empty_ssl_view(client_flags: u8, verified: bool) -> SslInfoView {
    SslInfoView {
        client_flags,
        verified,
        version: None,
        cipher: None,
        sig_alg: None,
        key_alg: None,
        cn: None,
        group: None,
        sig_scheme: None,
        client_cert: None,
    }
}

/// Parsed TLV extensions of a v2 header.
#[derive(Debug, Clone, PartialEq, Eq, Hash)]
pub struct Tlvs {
    /// ALPN protocol (PP2_TYPE_ALPN, 0x01)
    pub alpn: Option<Vec<u8>>,
    /// SNI hostname / authority (PP2_TYPE_AUTHORITY, 0x02)
    pub authority: Option<String>,
    /// CRC32c of the whole header (PP2_TYPE_CRC32C, 0x03)
    pub crc32c: Option<u32>,
    /// Unique connection ID (PP2_TYPE_UNIQUE_ID, 0x05)
    pub unique_id: Option<Vec<u8>>,
    /// Network namespace (PP2_TYPE_NETNS, 0x30)
    pub netns: Option<String>,
    /// SSL/TLS information (PP2_TYPE_SSL, 0x20)
    pub ssl: Option<SslInfo>,
    /// Every TLV as (type, value), typed ones included
    pub raw: Vec<(u8, Vec<u8>)>,
}

/// The mathematical value of [`Tlvs`].
pub struct TlvsView {
    pub alpn: Option<Seq<u8>>,
    pub authority: Option<Seq<char>>,
    pub crc32c: Option<u32>,
    pub unique_id: Option<Seq<u8>>,
    pub netns: Option<Seq<char>>,
    pub ssl: Option<SslInfoView>,
    pub raw: Seq<(u8, Seq<u8>)>,
}

/// The (type, value) pairs of `raw` as mathematical values.
pub open spec fn raw_view(raw: Seq<(u8, Vec<u8>)>) -> Seq<(u8, Seq<u8>)> {
    raw.map_values(|p: (u8, Vec<u8>)| (p.0, p.1@))
}

impl View for Tlvs {
    type V = TlvsView;

    open spec fn view(&self) -> TlvsView {
        TlvsView {
            alpn: opt_bytes(self.alpn),
            authority: opt_str(self.authority),
            crc32c: self.crc32c,
            unique_id: opt_bytes(self.unique_id),
            netns: opt_str(self.netns),
            ssl: match self.ssl {
                Some(s) => Some(s@),
                None => None,
            },
            raw: raw_view(self.raw@),
        }
    }
}

/// No TLV at all.
pub open spec fn empty_tlvs() -> TlvsView {
    TlvsView {
        alpn: None,
        authority: None,
        crc32c: None,
        unique_id: None,
        netns: None,
        ssl: None,
        raw: Seq::empty(),
    }
}

impl Default for Tlvs {
    fn default() -> (r: Tlvs)
        ensures
            r@ == empty_tlvs(),
    {
        let r = Tlvs {
            alpn: None,
            authority: None,
            crc32c: None,
            unique_id: None,
            netns: None,
            ssl: None,
            raw: Vec::new(),
        };
        assert(r@.raw =~= Seq::<(u8, Seq<u8>)>::empty());
        r
    }
}

/// A parsed Proxy Protocol header.
#[derive(Debug, Clone, PartialEq, Eq, Hash)]
pub struct ProxyInfo {
    /// Protocol version (V1 or V2)
    pub version: Version,
    /// PROXY (forwarded) or LOCAL (health-check)
    pub command: Command,
    /// Transport of the original connection; `None` for LOCAL and v1 UNKNOWN
    pub transport: Option<Transport>,
    /// Original source (client) address
    pub source: Option<ProxyAddress>,
    /// Original destination address
    pub destination: Option<ProxyAddress>,
    /// Parsed TLV extensions (v2 only)
    pub tlvs: Tlvs,
}

/// The mathematical value of a [`ProxyInfo`].
pub struct ProxyInfoView {
    pub version: Version,
    pub command: Command,
    pub transport: Option<Transport>,
    pub source: Option<ProxyAddressView>,
    pub destination: Option<ProxyAddressView>,
    pub tlvs: TlvsView,
}

pub open spec fn opt_addr(o: Option<ProxyAddress>) -> Option<ProxyAddressView> {
    match o {
        Some(a) => Some(a@),
        None => None,
    }
}

impl View for ProxyInfo {
    type V = ProxyInfoView;

    open spec fn view(&self) -> ProxyInfoView {
        ProxyInfoView {
            version: self.version,
            command: self.command,
            transport: self.transport,
            source: opt_addr(self.source),
            destination: opt_addr(self.destination),
            tlvs: self.tlvs@,
        }
    }
}

/// The socket address of an address, when it is an IP one.
pub open spec fn inet_of(a: Option<ProxyAddressView>) -> Option<SocketAddr> {
    match a {
        Some(ProxyAddressView::Inet(s)) => Some(s),
        _ => None,
    }
}

impl ProxyAddress {
    /// If this is an `Inet` address, the socket address.
    pub fn as_inet(&self) -> (r: Option<SocketAddr>)
        ensures
            r == inet_of(Some(self@)),
    {
        match self {
            ProxyAddress::Inet(a) => Some(*a),
            _ => None,
        }
    }

    /// If this is a `Unix` address, the path bytes.
    pub fn as_unix(&self) -> (r: Option<&[u8]>)
        ensures
            match self@ {
                ProxyAddressView::Unix(p) => r matches Some(s) && s@ == p,
                _ => r is None,
            },
    {
        match self {
            ProxyAddress::Unix(p) => Some(p.as_slice()),
            _ => None,
        }
    }

    /// If this is an `Inet` address, just its IP.
    pub fn ip(&self) -> (r: Option<crate::net::IpAddr>)
        ensures
            r == (match inet_of(Some(self@)) {
                Some(s) => Some(s.ip),
                None => None,
            }),
    {
        match self.as_inet() {
            Some(a) => Some(a.ip),
            None => None,
        }
    }
}

impl From<SocketAddr> for ProxyAddress {
    fn from(addr: SocketAddr) -> (r: ProxyAddress) {
        ProxyAddress::Inet(addr)
    }
}

impl vstd::std_specs::convert::FromSpecImpl<SocketAddr> for ProxyAddress {
    open spec fn obeys_from_spec() -> bool {
        true
    }

    open spec fn from_spec(addr: SocketAddr) -> ProxyAddress {
        ProxyAddress::Inet(addr)
    }
}

impl ProxyInfo {
    /// The source as a socket address, when it is an IP one.
    pub fn source_inet(&self) -> (r: Option<SocketAddr>)
        ensures
            r == inet_of(self@.source),
    {
        match &self.source {
            Some(a) => a.as_inet(),
            None => None,
        }
    }

    /// The destination as a socket address, when it is an IP one.
    pub fn destination_inet(&self) -> (r: Option<SocketAddr>)
        ensures
            r == inet_of(self@.destination),
    {
        match &self.destination {
            Some(a) => a.as_inet(),
            None => None,
        }
    }

    /// The source IP, when the source is an IP address.
    pub fn source_ip(&self) -> (r: Option<crate::net::IpAddr>)
        ensures
            r == (match inet_of(self@.source) {
                Some(s) => Some(s.ip),
                None => None,
            }),
    {
        match self.source_inet() {
            Some(a) => Some(a.ip),
            None => None,
        }
    }

    /// The destination IP, when the destination is an IP address.
    pub fn destination_ip(&self) -> (r: Option<crate::net::IpAddr>)
        ensures
            r == (match inet_of(self@.destination) {
                Some(s) => Some(s.ip),
                None => None,
            }),
    {
        match self.destination_inet() {
            Some(a) => Some(a.ip),
            None => None,
        }
    }
}

} // verus!
