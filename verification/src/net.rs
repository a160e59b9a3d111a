//! IP addresses and socket addresses as plain values.

use vstd::prelude::*;

verus! {

/// An IP address: IPv4 as a big-endian `u32`, IPv6 as a big-endian `u128`.
#[derive(Clone, Copy, Debug, PartialEq, Eq, Hash, Structural)]
pub enum IpAddr {
    V4(u32),
    V6(u128),
}

/// An IP address together with a port.
#[derive(Clone, Copy, Debug, PartialEq, Eq, Hash, Structural)]
pub struct SocketAddr {
    pub ip: IpAddr,
    pub port: u16,
}

/// The IPv4 address with the four given octets.
pub open spec fn v4_value(a: u8, b: u8, c: u8, d: u8) -> u32 {
    ((a as u32) << 24u32) | ((b as u32) << 16u32) | ((c as u32) << 8u32) | (d as u32)
}

/// The four octets of an IPv4 address, most significant first.
pub open spec fn v4_octets(x: u32) -> Seq<u8> {
    seq![
        ((x >> 24u32) & 0xffu32) as u8,
        ((x >> 16u32) & 0xffu32) as u8,
        ((x >> 8u32) & 0xffu32) as u8,
        (x & 0xffu32) as u8,
    ]
}

/// The 16-bit big-endian value of two bytes.
pub open spec fn be16(hi: u8, lo: u8) -> u16 {
    ((hi as u16) * 256 + (lo as u16)) as u16
}

/// The IPv6 address with the eight given 16-bit segments.
pub open spec fn v6_value(s: Seq<u16>) -> u128 {
    ((s[0] as u128) << 112u128) | ((s[1] as u128) << 96u128) | ((s[2] as u128) << 80u128)
        | ((s[3] as u128) << 64u128) | ((s[4] as u128) << 48u128) | ((s[5] as u128) << 32u128)
        | ((s[6] as u128) << 16u128) | (s[7] as u128)
}

/// The eight 16-bit segments of an IPv6 address, most significant first.
pub open spec fn v6_segments(x: u128) -> Seq<u16> {
    seq![
        ((x >> 112u128) & 0xffffu128) as u16,
        ((x >> 96u128) & 0xffffu128) as u16,
        ((x >> 80u128) & 0xffffu128) as u16,
        ((x >> 64u128) & 0xffffu128) as u16,
        ((x >> 48u128) & 0xffffu128) as u16,
        ((x >> 32u128) & 0xffffu128) as u16,
        ((x >> 16u128) & 0xffffu128) as u16,
        (x & 0xffffu128) as u16,
    ]
}

/// The sixteen octets of an IPv6 address, most significant first.
pub open spec fn v6_octets(x: u128) -> Seq<u8> {
    let s = v6_segments(x);
    Seq::new(16, |i: int| if i % 2 == 0 { (s[i / 2] / 256) as u8 } else { (s[i / 2] % 256) as u8 })
}

/// The eight segments made of sixteen octets taken in pairs.
pub open spec fn segments_of_octets(b: Seq<u8>) -> Seq<u16> {
    Seq::new(8, |i: int| be16(b[2 * i], b[2 * i + 1]))
}

/// The octets of an IP address: four for IPv4, sixteen for IPv6.
pub open spec fn ip_octets(ip: IpAddr) -> Seq<u8> {
    match ip {
        IpAddr::V4(x) => v4_octets(x),
        IpAddr::V6(x) => v6_octets(x),
    }
}

pub proof fn lemma_v4_roundtrip(a: u8, b: u8, c: u8, d: u8)
    ensures
        v4_octets(v4_value(a, b, c, d)) == seq![a, b, c, d],
{
    let x = v4_value(a, b, c, d);
    assert(((x >> 24u32) & 0xffu32) as u8 == a && ((x >> 16u32) & 0xffu32) as u8 == b
        && ((x >> 8u32) & 0xffu32) as u8 == c && (x & 0xffu32) as u8 == d) by (bit_vector)
        requires x == ((a as u32) << 24u32) | ((b as u32) << 16u32) | ((c as u32) << 8u32) | (d as u32);
    assert(v4_octets(x) =~= seq![a, b, c, d]);
}

pub proof fn lemma_v4_value_of_octets(x: u32)
    ensures
        v4_value(v4_octets(x)[0], v4_octets(x)[1], v4_octets(x)[2], v4_octets(x)[3]) == x,
{
    assert(((((x >> 24u32) & 0xffu32) as u8) as u32) << 24u32 | ((((x >> 16u32) & 0xffu32) as u8) as u32) << 16u32
        | ((((x >> 8u32) & 0xffu32) as u8) as u32) << 8u32 | (((x & 0xffu32) as u8) as u32) == x) by (bit_vector);
}

pub proof fn lemma_v6_segments_of_value(s0: u16, s1: u16, s2: u16, s3: u16, s4: u16, s5: u16, s6: u16, s7: u16)
    ensures
        v6_segments(v6_value(seq![s0, s1, s2, s3, s4, s5, s6, s7])) == seq![s0, s1, s2, s3, s4, s5, s6, s7],
{
    let s = seq![s0, s1, s2, s3, s4, s5, s6, s7];
    let x = v6_value(s);
    assert(x == ((s0 as u128) << 112u128) | ((s1 as u128) << 96u128) | ((s2 as u128) << 80u128)
        | ((s3 as u128) << 64u128) | ((s4 as u128) << 48u128) | ((s5 as u128) << 32u128)
        | ((s6 as u128) << 16u128) | (s7 as u128));
    assert(((x >> 112u128) & 0xffffu128) as u16 == s0 && ((x >> 96u128) & 0xffffu128) as u16 == s1
        && ((x >> 80u128) & 0xffffu128) as u16 == s2 && ((x >> 64u128) & 0xffffu128) as u16 == s3
        && ((x >> 48u128) & 0xffffu128) as u16 == s4 && ((x >> 32u128) & 0xffffu128) as u16 == s5
        && ((x >> 16u128) & 0xffffu128) as u16 == s6 && (x & 0xffffu128) as u16 == s7) by (bit_vector)
        requires x == ((s0 as u128) << 112u128) | ((s1 as u128) << 96u128) | ((s2 as u128) << 80u128)
            | ((s3 as u128) << 64u128) | ((s4 as u128) << 48u128) | ((s5 as u128) << 32u128)
            | ((s6 as u128) << 16u128) | (s7 as u128);
    assert(v6_segments(x) =~= s);
}

pub proof fn lemma_v6_value_of_segments(x: u128)
    ensures
        v6_value(v6_segments(x)) == x,
{
    let s = v6_segments(x);
    assert(((((x >> 112u128) & 0xffffu128) as u16) as u128) << 112u128
        | ((((x >> 96u128) & 0xffffu128) as u16) as u128) << 96u128
        | ((((x >> 80u128) & 0xffffu128) as u16) as u128) << 80u128
        | ((((x >> 64u128) & 0xffffu128) as u16) as u128) << 64u128
        | ((((x >> 48u128) & 0xffffu128) as u16) as u128) << 48u128
        | ((((x >> 32u128) & 0xffffu128) as u16) as u128) << 32u128
        | ((((x >> 16u128) & 0xffffu128) as u16) as u128) << 16u128
        | (((x & 0xffffu128) as u16) as u128) == x) by (bit_vector);
}

impl IpAddr {
    /// The IPv4 address `a.b.c.d`.
    pub fn v4(a: u8, b: u8, c: u8, d: u8) -> (r: IpAddr)
        ensures
            r == IpAddr::V4(v4_value(a, b, c, d)),
            ip_octets(r) == seq![a, b, c, d],
    {
        proof { lemma_v4_roundtrip(a, b, c, d); }
        IpAddr::V4(((a as u32) << 24u32) | ((b as u32) << 16u32) | ((c as u32) << 8u32) | (d as u32))
    }

    /// The IPv6 address with the eight given segments.
    pub fn v6(s0: u16, s1: u16, s2: u16, s3: u16, s4: u16, s5: u16, s6: u16, s7: u16) -> (r: IpAddr)
        ensures
            r == IpAddr::V6(v6_value(seq![s0, s1, s2, s3, s4, s5, s6, s7])),
            r matches IpAddr::V6(x) && v6_segments(x) == seq![s0, s1, s2, s3, s4, s5, s6, s7],
    {
        proof { lemma_v6_segments_of_value(s0, s1, s2, s3, s4, s5, s6, s7); }
        IpAddr::V6(((s0 as u128) << 112u128) | ((s1 as u128) << 96u128) | ((s2 as u128) << 80u128)
            | ((s3 as u128) << 64u128) | ((s4 as u128) << 48u128) | ((s5 as u128) << 32u128)
            | ((s6 as u128) << 16u128) | (s7 as u128))
    }

    /// Whether this is an IPv4 address.
    pub fn is_ipv4(&self) -> (r: bool)
        ensures
            r == (*self is V4),
    {
        match self {
            IpAddr::V4(_) => true,
            IpAddr::V6(_) => false,
        }
    }
}

impl SocketAddr {
    /// The socket address of `ip` and `port`.
    pub fn new(ip: IpAddr, port: u16) -> (r: SocketAddr)
        ensures
            r.ip == ip,
            r.port == port,
    {
        SocketAddr { ip, port }
    }

    /// Whether the address is an IPv4 one.
    pub fn is_ipv4(&self) -> (r: bool)
        ensures
            r == (self.ip is V4),
    {
        self.ip.is_ipv4()
    }

    /// The IP part of the address.
    pub fn ip(&self) -> (r: IpAddr)
        ensures
            r == self.ip,
    {
        self.ip
    }

    /// The port part of the address.
    pub fn port(&self) -> (r: u16)
        ensures
            r == self.port,
    {
        self.port
    }
}

} // verus!
