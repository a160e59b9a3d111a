//! Human-readable text of header values and addresses.

use vstd::prelude::*;
use vstd::string::StringExecFns;
use vstd::utf8::{decode_utf8, valid_utf8};

use crate::iptext::{dec, dec_bytes, ip_text, ip_text_bytes};
use crate::net::{IpAddr, SocketAddr};
use crate::text::{bytes_to_string, dec_chars, decimal_string, str_from_utf8, text_of};
use crate::connection::ProxyConnectInfo;
use crate::types::{AddressFamily, Command, ProxyAddress, ProxyAddressView, TransportProtocol, Version};

verus! {

/// `ip:port` for IPv4, `[ip]:port` for IPv6, as bytes.
pub open spec fn socket_text(s: SocketAddr) -> Seq<u8> {
    match s.ip {
        IpAddr::V4(_) => ip_text(s.ip) + seq![0x3Au8] + dec(s.port as nat),
        IpAddr::V6(_) => seq![0x5Bu8] + ip_text(s.ip) + seq![0x5Du8, 0x3A] + dec(s.port as nat),
    }
}

/// The bytes of the text of a socket address.
pub fn socket_text_bytes(s: SocketAddr) -> (r: Vec<u8>)
    ensures
        r@ == socket_text(s),
{
    let mut out: Vec<u8> = Vec::new();
    let v6 = !s.ip.is_ipv4();
    if v6 {
        out.push(0x5B);
    }
    let mut ip = ip_text_bytes(s.ip);
    out.append(&mut ip);
    if v6 {
        out.push(0x5D);
    }
    out.push(0x3A);
    let mut port = dec_bytes(s.port as u32);
    out.append(&mut port);
    assert(out@ =~= socket_text(s));
    out
}

/// The text of an address: a socket address as `ip:port` (`[ip]:port` for
/// IPv6); a Unix path as itself when it is UTF-8, `<unix:N bytes>` otherwise.
pub open spec fn address_text(a: ProxyAddressView) -> Seq<char> {
    match a {
        ProxyAddressView::Inet(s) => text_of(socket_text(s)),
        ProxyAddressView::Unix(p) => if valid_utf8(p) {
            decode_utf8(p)
        } else {
            "<unix:"@ + dec_chars(p.len()) + " bytes>"@
        },
    }
}

impl ProxyAddress {
    /// The text of the address (see [`address_text`]).
    pub fn to_string(&self) -> (r: String)
        ensures
            r@ == address_text(self@),
    {
        match self {
            ProxyAddress::Inet(s) => {
                let b = socket_text_bytes(*s);
                bytes_to_string(b.as_slice())
            },
            ProxyAddress::Unix(p) => match str_from_utf8(p.as_slice()) {
                Some(s) => s.to_owned(),
                None => {
                    let mut t = String::from_str("<unix:");
                    let n = decimal_string(p.len());
                    t.append(n.as_str());
                    t.append(" bytes>");
                    t
                },
            },
        }
    }
}

impl Version {
    /// `v1` or `v2`.
    pub fn to_string(&self) -> (r: String)
        ensures
            r@ == (match self {
                Version::V1 => "v1"@,
                Version::V2 => "v2"@,
            }),
    {
        match self {
            Version::V1 => String::from_str("v1"),
            Version::V2 => String::from_str("v2"),
        }
    }
}

impl Command {
    /// `LOCAL` or `PROXY`.
    pub fn to_string(&self) -> (r: String)
        ensures
            r@ == (match self {
                Command::Local => "LOCAL"@,
                Command::Proxy => "PROXY"@,
            }),
    {
        match self {
            Command::Local => String::from_str("LOCAL"),
            Command::Proxy => String::from_str("PROXY"),
        }
    }
}

impl AddressFamily {
    /// `IPv4`, `IPv6` or `Unix`.
    pub fn to_string(&self) -> (r: String)
        ensures
            r@ == (match self {
                AddressFamily::Inet => "IPv4"@,
                AddressFamily::Inet6 => "IPv6"@,
                AddressFamily::Unix => "Unix"@,
            }),
    {
        match self {
            AddressFamily::Inet => String::from_str("IPv4"),
            AddressFamily::Inet6 => String::from_str("IPv6"),
            AddressFamily::Unix => String::from_str("Unix"),
        }
    }
}

impl TransportProtocol {
    /// `stream` or `datagram`.
    pub fn to_string(&self) -> (r: String)
        ensures
            r@ == (match self {
                TransportProtocol::Stream => "stream"@,
                TransportProtocol::Datagram => "datagram"@,
            }),
    {
        match self {
            TransportProtocol::Stream => String::from_str("stream"),
            TransportProtocol::Datagram => String::from_str("datagram"),
        }
    }
}

impl ProxyConnectInfo {
    /// `client via peer` when a header was read, `client (direct)` otherwise.
    pub fn to_string(&self) -> (r: String)
        ensures
            r@ == (if self.proxy_info is Some {
                text_of(socket_text(self.client_addr)) + " via "@ + text_of(socket_text(self.peer_addr))
            } else {
                text_of(socket_text(self.client_addr)) + " (direct)"@
            }),
    {
        let cb = socket_text_bytes(self.client_addr);
        let mut t = bytes_to_string(cb.as_slice());
        if self.proxy_info.is_some() {
            t.append(" via ");
            let pb = socket_text_bytes(self.peer_addr);
            let p = bytes_to_string(pb.as_slice());
            t.append(p.as_str());
        } else {
            t.append(" (direct)");
        }
        t
    }
}

} // verus!
