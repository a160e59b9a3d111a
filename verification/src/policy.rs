//! Connection policies: which peers must, may or may not send a Proxy
//! Protocol header, and which are refused.

use vstd::prelude::*;

use crate::net::{IpAddr, SocketAddr};

verus! {

/// What to do with a new connection before reading from it.
#[derive(Debug, Clone, Copy, PartialEq, Eq, Structural)]
#[non_exhaustive]
pub enum PolicyDecision {
    /// Read and parse the header; fail if it is absent or malformed.
    Require,
    /// Try to read a header; if the first bytes do not match, treat the
    /// connection as direct.
    Use,
    /// Ignore any header; pass the bytes through unmodified.
    Ignore,
    /// Reject the connection at once.
    Reject,
}

/// Decides, from the peer's address, how to handle a new connection.
pub trait ConnPolicy: Send + Sync {
    /// The decision for a connection from `peer_addr`.
    fn evaluate(&self, peer_addr: SocketAddr) -> PolicyDecision;
}

/// Requires a header from every peer.
#[derive(Debug, Clone, Copy)]
pub struct AcceptAll;

impl ConnPolicy for AcceptAll {
    fn evaluate(&self, peer_addr: SocketAddr) -> (r: PolicyDecision)
        ensures
            r == PolicyDecision::Require,
    {
        PolicyDecision::Require
    }
}

/// Reads a header when one is sent, from any peer.
#[derive(Debug, Clone, Copy)]
pub struct OptionalProxy;

impl ConnPolicy for OptionalProxy {
    fn evaluate(&self, peer_addr: SocketAddr) -> (r: PolicyDecision)
        ensures
            r == PolicyDecision::Use,
    {
        PolicyDecision::Use
    }
}

// ------------------------------------------------------------------ networks

/// The largest prefix length of an address's family: 32 or 128.
pub open spec fn max_prefix(ip: IpAddr) -> u8 {
    match ip {
        IpAddr::V4(_) => 32,
        IpAddr::V6(_) => 128,
    }
}

/// An IP network: an address and a prefix length no larger than its family's.
#[derive(Debug, Clone, Copy, PartialEq, Eq, Hash, Structural)]
pub struct IpNet {
    addr: IpAddr,
    prefix_len: u8,
}

/// The mathematical value of an [`IpNet`].
pub struct IpNetView {
    pub addr: IpAddr,
    pub prefix_len: u8,
}

impl View for IpNet {
    type V = IpNetView;

    closed spec fn view(&self) -> IpNetView {
        IpNetView { addr: self.addr, prefix_len: self.prefix_len }
    }
}

impl IpNet {
    #[verifier::type_invariant]
    closed spec fn inv(self) -> bool {
        self.prefix_len <= max_prefix(self.addr)
    }
}

/// The IPv4 network mask of a prefix length (all ones shifted left, nothing for 0).
pub open spec fn v4_netmask(p: u8) -> u32 {
    if p == 0 { 0 } else { 0xffff_ffffu32 << ((32 - p) as u32) }
}

/// The IPv4 host mask of a prefix length (all ones shifted right, nothing for 32).
pub open spec fn v4_hostmask(p: u8) -> u32 {
    if p >= 32 { 0 } else { 0xffff_ffffu32 >> (p as u32) }
}

/// The IPv6 network mask of a prefix length.
pub open spec fn v6_netmask(p: u8) -> u128 {
    if p == 0 { 0 } else { 0xffff_ffff_ffff_ffff_ffff_ffff_ffff_ffffu128 << ((128 - p) as u128) }
}

/// The IPv6 host mask of a prefix length.
pub open spec fn v6_hostmask(p: u8) -> u128 {
    if p >= 128 { 0 } else { 0xffff_ffff_ffff_ffff_ffff_ffff_ffff_ffffu128 >> (p as u128) }
}

/// Whether `net` contains `ip`: same family, and `ip` between the network
/// address (`addr & netmask`) and the last address (`addr | hostmask`).
pub open spec fn net_contains(net: IpNetView, ip: IpAddr) -> bool {
    match (net.addr, ip) {
        (IpAddr::V4(a), IpAddr::V4(b)) => (a & v4_netmask(net.prefix_len)) <= b && b <= (a | v4_hostmask(net.prefix_len)),
        (IpAddr::V6(a), IpAddr::V6(b)) => (a & v6_netmask(net.prefix_len)) <= b && b <= (a | v6_hostmask(net.prefix_len)),
        _ => false,
    }
}

/// Whether a network is a single host (`/32` or `/128`).
pub open spec fn is_host(net: IpNetView) -> bool {
    net.prefix_len == max_prefix(net.addr)
}

/// Calls `ipnet::IpNet::contains` with the network and address made of the
/// plain values. In the crate's source a network of one family never contains
/// an address of the other, and an IPv4 or IPv6 network contains the addresses
/// from its network address (`addr & netmask`) to its broadcast address
/// (`addr | hostmask`), both included; the masks are all ones shifted by the
/// prefix length, with a shift by the whole width giving zero.
#[verifier::external_body]
fn ipnet_contains(net: IpNet, ip: IpAddr) -> (r: bool)
    requires
        net@.prefix_len <= max_prefix(net@.addr),
    ensures
        r == net_contains(net@, ip),
{
    let a = match net.addr {
        IpAddr::V4(x) => core::net::IpAddr::V4(x.into()),
        IpAddr::V6(x) => core::net::IpAddr::V6(x.into()),
    };
    let b = match ip {
        IpAddr::V4(x) => core::net::IpAddr::V4(x.into()),
        IpAddr::V6(x) => core::net::IpAddr::V6(x.into()),
    };
    match ipnet::IpNet::new(a, net.prefix_len) {
        Ok(n) => n.contains(&b),
        Err(_) => false,
    }
}

impl IpNet {
    /// The network of `addr` with `prefix_len` bits, or `None` when the
    /// prefix is longer than the family's addresses (32 or 128 bits).
    pub fn new(addr: IpAddr, prefix_len: u8) -> (r: Option<IpNet>)
        ensures
            r is Some <==> prefix_len <= max_prefix(addr),
            r matches Some(n) ==> n@ == (IpNetView { addr, prefix_len }),
    {
        let max: u8 = match addr {
            IpAddr::V4(_) => 32,
            IpAddr::V6(_) => 128,
        };
        if prefix_len > max {
            None
        } else {
            Some(IpNet { addr, prefix_len })
        }
    }

    /// The address the network was made with.
    pub fn addr(&self) -> (r: IpAddr)
        ensures
            r == self@.addr,
    {
        self.addr
    }

    /// The prefix length.
    pub fn prefix_len(&self) -> (r: u8)
        ensures
            r == self@.prefix_len,
    {
        self.prefix_len
    }

    /// The largest prefix length of the network's family: 32 or 128.
    pub fn max_prefix_len(&self) -> (r: u8)
        ensures
            r == max_prefix(self@.addr),
    {
        match self.addr {
            IpAddr::V4(_) => 32,
            IpAddr::V6(_) => 128,
        }
    }

    /// Whether the network contains `ip`.
    pub fn contains(&self, ip: IpAddr) -> (r: bool)
        ensures
            r == net_contains(self@, ip),
    {
        proof { use_type_invariant(self); }
        ipnet_contains(*self, ip)
    }
}

// ------------------------------------------------------------- trusted peers

/// Peers trusted to send a header: exact addresses and networks.
#[derive(Debug)]
pub struct TrustedProxies {
    exact: Vec<IpAddr>,
    cidrs: Vec<IpNet>,
}

/// The mathematical value of a [`TrustedProxies`]: the set of exact
/// addresses and the networks in order.
pub struct TrustedProxiesView {
    pub exact: Set<IpAddr>,
    pub cidrs: Seq<IpNetView>,
}

/// The views of a sequence of networks.
pub open spec fn nets_view(s: Seq<IpNet>) -> Seq<IpNetView> {
    s.map_values(|n: IpNet| n@)
}

impl View for TrustedProxies {
    type V = TrustedProxiesView;

    closed spec fn view(&self) -> TrustedProxiesView {
        TrustedProxiesView { exact: self.exact@.to_set(), cidrs: nets_view(self.cidrs@) }
    }
}

impl TrustedProxies {
    #[verifier::type_invariant]
    closed spec fn inv(self) -> bool {
        self.exact@.no_duplicates()
    }
}

/// Whether some network of `s` contains `ip`.
pub open spec fn any_contains(s: Seq<IpNetView>, ip: IpAddr) -> bool {
    exists|i: int| 0 <= i < s.len() && net_contains(#[trigger] s[i], ip)
}

/// Whether `ip` is trusted: one of the exact addresses, or in one of the networks.
pub open spec fn trusted(tp: TrustedProxiesView, ip: IpAddr) -> bool {
    tp.exact.contains(ip) || any_contains(tp.cidrs, ip)
}

/// The addresses of the single-host networks of `s`.
pub open spec fn host_addrs(s: Seq<IpNetView>) -> Set<IpAddr>
    decreases s.len(),
{
    if s.len() == 0 {
        Set::empty()
    } else if is_host(s.last()) {
        host_addrs(s.drop_last()).insert(s.last().addr)
    } else {
        host_addrs(s.drop_last())
    }
}

/// The networks of `s` that are not single hosts, in order.
pub open spec fn non_hosts(s: Seq<IpNetView>) -> Seq<IpNetView>
    decreases s.len(),
{
    if s.len() == 0 {
        Seq::empty()
    } else if is_host(s.last()) {
        non_hosts(s.drop_last())
    } else {
        non_hosts(s.drop_last()).push(s.last())
    }
}

/// Adds `x` to `v` unless it is there already.
fn push_unique(v: &mut Vec<IpAddr>, x: IpAddr)
    requires
        old(v)@.no_duplicates(),
    ensures
        final(v)@.no_duplicates(),
        final(v)@.to_set() == old(v)@.to_set().insert(x),
{
    let mut i: usize = 0;
    while i < v.len()
        invariant
            i <= v@.len(),
            v@ == old(v)@,
            old(v)@.no_duplicates(),
            forall|j: int| 0 <= j < i ==> v@[j] != x,
        decreases v@.len() - i,
    {
        if v[i] == x {
            assert(v@.to_set().contains(x)) by {
                assert(v@.contains(x));
            }
            assert(v@.to_set().insert(x) =~= v@.to_set());
            return;
        }
        i = i + 1;
    }
    let ghost before = v@;
    v.push(x);
    assert(!before.contains(x));
    assert(v@.to_set() =~= before.to_set().insert(x)) by {
        assert forall|y: IpAddr| #[trigger] v@.to_set().contains(y) == before.to_set().insert(x).contains(y) by {
            if y == x {
                assert(v@[before.len() as int] == x);
            } else if before.contains(y) {
                let k = choose|k: int| 0 <= k < before.len() && before[k] == y;
                assert(v@[k] == y);
            } else if v@.contains(y) {
                let k = choose|k: int| 0 <= k < v@.len() && v@[k] == y;
                assert(k < before.len());
            }
        }
    }
}

/// The addresses of `addrs` without repetitions.
fn unique_addrs(addrs: Vec<IpAddr>) -> (r: Vec<IpAddr>)
    ensures
        r@.no_duplicates(),
        r@.to_set() == addrs@.to_set(),
{
    let mut out: Vec<IpAddr> = Vec::new();
    let mut i: usize = 0;
    assert(out@.to_set() =~= addrs@.take(0).to_set());
    while i < addrs.len()
        invariant
            i <= addrs@.len(),
            out@.no_duplicates(),
            out@.to_set() == addrs@.take(i as int).to_set(),
        decreases addrs@.len() - i,
    {
        push_unique(&mut out, addrs[i]);
        assert(addrs@.take(i + 1) =~= addrs@.take(i as int).push(addrs@[i as int]));
        assert(addrs@.take(i as int).push(addrs@[i as int]).to_set() =~= addrs@.take(i as int).to_set().insert(addrs@[i as int])) by {
            let t = addrs@.take(i as int);
            let y = addrs@[i as int];
            assert forall|z: IpAddr| #[trigger] t.push(y).to_set().contains(z) == t.to_set().insert(y).contains(z) by {
                if t.push(y).contains(z) {
                    let k = choose|k: int| 0 <= k < t.push(y).len() && t.push(y)[k] == z;
                    if k < t.len() {
                        assert(t[k] == z);
                    }
                }
                if t.contains(z) {
                    let k = choose|k: int| 0 <= k < t.len() && t[k] == z;
                    assert(t.push(y)[k] == z);
                }
                if z == y {
                    assert(t.push(y)[t.len() as int] == y);
                }
            }
        }
        i = i + 1;
    }
    assert(addrs@.take(addrs@.len() as int) =~= addrs@);
    out
}

impl TrustedProxies {
    /// Trusts exactly the given addresses.
    pub fn new(addrs: Vec<IpAddr>) -> (r: TrustedProxies)
        ensures
            r@.exact == addrs@.to_set(),
            r@.cidrs == Seq::<IpNetView>::empty(),
    {
        let exact = unique_addrs(addrs);
        let r = TrustedProxies { exact, cidrs: Vec::new() };
        assert(r@.cidrs =~= Seq::<IpNetView>::empty());
        r
    }

    /// Trusts the given addresses and every address in the given networks.
    pub fn with_cidrs(addrs: Vec<IpAddr>, cidrs: Vec<IpNet>) -> (r: TrustedProxies)
        ensures
            r@.exact == addrs@.to_set(),
            r@.cidrs == nets_view(cidrs@),
    {
        let exact = unique_addrs(addrs);
        TrustedProxies { exact, cidrs }
    }

    /// Trusts the given networks: single hosts (`/32`, `/128`) become exact
    /// addresses, the others stay networks, in order.
    pub fn from_ipnets(nets: Vec<IpNet>) -> (r: TrustedProxies)
        ensures
            r@.exact == host_addrs(nets_view(nets@)),
            r@.cidrs == non_hosts(nets_view(nets@)),
    {
        let ghost nv = nets_view(nets@);
        let mut exact: Vec<IpAddr> = Vec::new();
        let mut cidrs: Vec<IpNet> = Vec::new();
        let mut i: usize = 0;
        assert(nv.take(0) =~= Seq::<IpNetView>::empty());
        assert(exact@.to_set() =~= Set::<IpAddr>::empty());
        assert(nets_view(cidrs@) =~= Seq::<IpNetView>::empty());
        while i < nets.len()
            invariant
                i <= nets@.len(),
                nv == nets_view(nets@),
                nv.len() == nets@.len(),
                exact@.no_duplicates(),
                exact@.to_set() == host_addrs(nv.take(i as int)),
                nets_view(cidrs@) == non_hosts(nv.take(i as int)),
            decreases nets@.len() - i,
        {
            let net = nets[i];
            assert(nv[i as int] == net@);
            assert(nv.take(i + 1).drop_last() =~= nv.take(i as int));
            assert(nv.take(i + 1).last() == net@);
            if net.prefix_len() == net.max_prefix_len() {
                push_unique(&mut exact, net.addr());
            } else {
                let ghost before = cidrs@;
                cidrs.push(net);
                assert(nets_view(cidrs@) =~= nets_view(before).push(net@));
            }
            i = i + 1;
        }
        assert(nv.take(i as int) =~= nv);
        TrustedProxies { exact, cidrs }
    }

    /// Whether `ip` is trusted.
    pub fn contains(&self, ip: IpAddr) -> (r: bool)
        ensures
            r == trusted(self@, ip),
    {
        let mut i: usize = 0;
        while i < self.exact.len()
            invariant
                i <= self.exact@.len(),
                forall|j: int| 0 <= j < i ==> self.exact@[j] != ip,
            decreases self.exact@.len() - i,
        {
            if self.exact[i] == ip {
                assert(self.exact@.contains(ip));
                assert(self@.exact.contains(ip));
                return true;
            }
            i = i + 1;
        }
        assert(!self@.exact.contains(ip));
        let ghost cv = self@.cidrs;
        let mut k: usize = 0;
        while k < self.cidrs.len()
            invariant
                k <= self.cidrs@.len(),
                cv == nets_view(self.cidrs@),
                cv.len() == self.cidrs@.len(),
                forall|j: int| 0 <= j < k ==> !net_contains(#[trigger] cv[j], ip),
            decreases self.cidrs@.len() - k,
        {
            assert(cv[k as int] == self.cidrs@[k as int]@);
            if self.cidrs[k].contains(ip) {
                assert(net_contains(cv[k as int], ip));
                return true;
            }
            k = k + 1;
        }
        false
    }
}

impl ConnPolicy for TrustedProxies {
    fn evaluate(&self, peer_addr: SocketAddr) -> (r: PolicyDecision)
        ensures
            r == (if trusted(self@, peer_addr.ip) { PolicyDecision::Require } else { PolicyDecision::Reject }),
    {
        if self.contains(peer_addr.ip()) {
            PolicyDecision::Require
        } else {
            PolicyDecision::Reject
        }
    }
}

impl Clone for TrustedProxies {
    fn clone(&self) -> (r: TrustedProxies)
        ensures
            r@ == self@,
    {
        proof { use_type_invariant(self); }
        let exact = self.exact.clone();
        let cidrs = self.cidrs.clone();
        assert(exact@ == self.exact@);
        assert(cidrs@ == self.cidrs@);
        TrustedProxies { exact, cidrs }
    }
}

/// Requires a header from trusted peers and ignores headers from the others,
/// whose connections are taken as direct.
#[derive(Debug)]
pub struct MixedMode {
    trusted: TrustedProxies,
}

impl View for MixedMode {
    type V = TrustedProxiesView;

    closed spec fn view(&self) -> TrustedProxiesView {
        self.trusted@
    }
}

impl Clone for MixedMode {
    fn clone(&self) -> (r: MixedMode)
        ensures
            r@ == self@,
    {
        MixedMode { trusted: self.trusted.clone() }
    }
}

impl MixedMode {
    /// Mixed mode over the given trusted peers.
    pub fn new(trusted: TrustedProxies) -> (r: MixedMode)
        ensures
            r@ == trusted@,
    {
        MixedMode { trusted }
    }
}

impl From<TrustedProxies> for MixedMode {
    fn from(trusted: TrustedProxies) -> (r: MixedMode) {
        MixedMode { trusted }
    }
}

impl vstd::std_specs::convert::FromSpecImpl<TrustedProxies> for MixedMode {
    open spec fn obeys_from_spec() -> bool {
        true
    }

    closed spec fn from_spec(v: TrustedProxies) -> MixedMode {
        MixedMode { trusted: v }
    }
}

impl ConnPolicy for MixedMode {
    fn evaluate(&self, peer_addr: SocketAddr) -> (r: PolicyDecision)
        ensures
            r == (if trusted(self@, peer_addr.ip) { PolicyDecision::Require } else { PolicyDecision::Ignore }),
    {
        if self.trusted.contains(peer_addr.ip()) {
            PolicyDecision::Require
        } else {
            PolicyDecision::Ignore
        }
    }
}

} // verus!
