
use proxy_protocol::{
    IpAddr, SocketAddr, AcceptAll, ConnPolicy, IpNet, MixedMode, OptionalProxy, PolicyDecision, TrustedProxies,
};

#[test]
fn accept_all_returns_require() {
    let policy = AcceptAll;
    let addr: SocketAddr = SocketAddr::new(IpAddr::v4(1, 2, 3, 4), 5678);
    assert_eq!(policy.evaluate(addr), PolicyDecision::Require);
}

#[test]
fn accept_all_any_address() {
    let policy = AcceptAll;
    let addrs: Vec<SocketAddr> = vec![
        SocketAddr::new(IpAddr::v4(127, 0, 0, 1), 80),
        SocketAddr::new(IpAddr::v4(10, 0, 0, 1), 443),
        SocketAddr::new(IpAddr::v6(0x0, 0x0, 0x0, 0x0, 0x0, 0x0, 0x0, 0x1), 8080),
    ];
    for addr in addrs {
        assert_eq!(policy.evaluate(addr), PolicyDecision::Require);
    }
}

#[test]
fn trusted_proxies_exact_match() {
    let policy = TrustedProxies::new(vec![IpAddr::v4(10, 0, 1, 100)]);
    assert_eq!(
        policy.evaluate(SocketAddr::new(IpAddr::v4(10, 0, 1, 100), 1234)),
        PolicyDecision::Require
    );
}

#[test]
fn trusted_proxies_rejection() {
    let policy = TrustedProxies::new(vec![IpAddr::v4(10, 0, 1, 100)]);
    assert_eq!(
        policy.evaluate(SocketAddr::new(IpAddr::v4(10, 0, 1, 101), 1234)),
        PolicyDecision::Reject
    );
}

#[test]
fn trusted_proxies_cidr_match() {
    let policy = TrustedProxies::with_cidrs(Vec::new(), vec![IpNet::new(IpAddr::v4(10, 0, 0, 0), 8).unwrap()]);
    assert_eq!(
        policy.evaluate(SocketAddr::new(IpAddr::v4(10, 255, 255, 255), 1234)),
        PolicyDecision::Require
    );
    assert_eq!(
        policy.evaluate(SocketAddr::new(IpAddr::v4(192, 168, 1, 1), 1234)),
        PolicyDecision::Reject
    );
}

#[test]
fn mixed_mode_trusted_require() {
    let trusted = TrustedProxies::new(vec![IpAddr::v4(10, 0, 1, 100)]);
    let policy = MixedMode::new(trusted);
    assert_eq!(
        policy.evaluate(SocketAddr::new(IpAddr::v4(10, 0, 1, 100), 1234)),
        PolicyDecision::Require
    );
}

#[test]
fn mixed_mode_untrusted_ignore() {
    let trusted = TrustedProxies::new(vec![IpAddr::v4(10, 0, 1, 100)]);
    let policy = MixedMode::new(trusted);
    assert_eq!(
        policy.evaluate(SocketAddr::new(IpAddr::v4(192, 168, 1, 1), 1234)),
        PolicyDecision::Ignore
    );
}

#[test]
fn optional_proxy_returns_use() {
    let policy = OptionalProxy;
    let addrs: Vec<SocketAddr> = vec![
        SocketAddr::new(IpAddr::v4(127, 0, 0, 1), 80),
        SocketAddr::new(IpAddr::v4(10, 0, 1, 100), 443),
        SocketAddr::new(IpAddr::v6(0x0, 0x0, 0x0, 0x0, 0x0, 0x0, 0x0, 0x1), 8080),
    ];
    for addr in addrs {
        assert_eq!(policy.evaluate(addr), PolicyDecision::Use);
    }
}

#[test]
fn from_ipnets_splits_host_prefix_to_exact() {
    let nets: Vec<IpNet> = vec![
        IpNet::new(IpAddr::v4(10, 0, 0, 1), 32).unwrap(),
        IpNet::new(IpAddr::v4(192, 168, 1, 0), 24).unwrap(),
    ];
    let tp = TrustedProxies::from_ipnets(nets);

    assert!(tp.contains(IpAddr::v4(10, 0, 0, 1)));
    assert!(tp.contains(IpAddr::v4(192, 168, 1, 42)));
    assert!(!tp.contains(IpAddr::v4(10, 0, 0, 2)));
    assert!(!tp.contains(IpAddr::v4(192, 168, 2, 1)));
}

#[test]
fn from_ipnets_ipv6_host_prefix() {
    let nets: Vec<IpNet> = vec![IpNet::new(IpAddr::v6(0x0, 0x0, 0x0, 0x0, 0x0, 0x0, 0x0, 0x1), 128).unwrap(), IpNet::new(IpAddr::v6(0xfd00, 0x0, 0x0, 0x0, 0x0, 0x0, 0x0, 0x0), 64).unwrap()];
    let tp = TrustedProxies::from_ipnets(nets);

    assert!(tp.contains(IpAddr::v6(0x0, 0x0, 0x0, 0x0, 0x0, 0x0, 0x0, 0x1)));
    assert!(tp.contains(IpAddr::v6(0xfd00, 0x0, 0x0, 0x0, 0x0, 0x0, 0x0, 0xabcd)));
    assert!(!tp.contains(IpAddr::v6(0x0, 0x0, 0x0, 0x0, 0x0, 0x0, 0x0, 0x2)));
    assert!(!tp.contains(IpAddr::v6(0xfd01, 0x0, 0x0, 0x0, 0x0, 0x0, 0x0, 0x1)));
}

#[test]
fn from_ipnets_empty() {
    let tp = TrustedProxies::from_ipnets(Vec::new());
    assert!(!tp.contains(IpAddr::v4(127, 0, 0, 1)));
}

#[test]
fn from_ipnets_all_exact() {
    let nets: Vec<IpNet> = vec![
        IpNet::new(IpAddr::v4(10, 0, 0, 1), 32).unwrap(),
        IpNet::new(IpAddr::v4(10, 0, 0, 2), 32).unwrap(),
    ];
    let tp = TrustedProxies::from_ipnets(nets);

    assert!(tp.contains(IpAddr::v4(10, 0, 0, 1)));
    assert!(tp.contains(IpAddr::v4(10, 0, 0, 2)));
    assert!(!tp.contains(IpAddr::v4(10, 0, 0, 3)));
}

#[test]
fn from_ipnets_mixed_v4_and_v6() {
    let nets: Vec<IpNet> = vec![
        IpNet::new(IpAddr::v4(10, 0, 0, 1), 32).unwrap(),
        IpNet::new(IpAddr::v6(0xfd00, 0x0, 0x0, 0x0, 0x0, 0x0, 0x0, 0x0), 64).unwrap(),
        IpNet::new(IpAddr::v4(192, 168, 0, 0), 16).unwrap(),
        IpNet::new(IpAddr::v6(0x0, 0x0, 0x0, 0x0, 0x0, 0x0, 0x0, 0x1), 128).unwrap(),
    ];
    let tp = TrustedProxies::from_ipnets(nets);

    assert!(tp.contains(IpAddr::v4(10, 0, 0, 1)));
    assert!(tp.contains(IpAddr::v6(0x0, 0x0, 0x0, 0x0, 0x0, 0x0, 0x0, 0x1)));
    assert!(tp.contains(IpAddr::v4(192, 168, 1, 1)));
    assert!(tp.contains(IpAddr::v6(0xfd00, 0x0, 0x0, 0x0, 0x0, 0x0, 0x0, 0x99)));
    assert!(!tp.contains(IpAddr::v4(10, 0, 0, 2)));
    assert!(!tp.contains(IpAddr::v6(0xfe80, 0x0, 0x0, 0x0, 0x0, 0x0, 0x0, 0x1)));
}

#[test]
fn from_ipnets_all_cidrs() {
    let nets: Vec<IpNet> = vec![
        IpNet::new(IpAddr::v4(10, 0, 0, 0), 8).unwrap(),
        IpNet::new(IpAddr::v4(172, 16, 0, 0), 12).unwrap(),
    ];
    let tp = TrustedProxies::from_ipnets(nets);

    assert!(tp.contains(IpAddr::v4(10, 255, 0, 1)));
    assert!(tp.contains(IpAddr::v4(172, 31, 255, 255)));
    assert!(!tp.contains(IpAddr::v4(192, 168, 1, 1)));
}

#[test]
fn from_ipnets_works_with_evaluate() {
    let nets: Vec<IpNet> = vec![
        IpNet::new(IpAddr::v4(10, 0, 0, 1), 32).unwrap(),
        IpNet::new(IpAddr::v4(172, 16, 0, 0), 12).unwrap(),
    ];
    let policy = TrustedProxies::from_ipnets(nets);

    assert_eq!(
        policy.evaluate(SocketAddr::new(IpAddr::v4(10, 0, 0, 1), 8080)),
        PolicyDecision::Require
    );
    assert_eq!(
        policy.evaluate(SocketAddr::new(IpAddr::v4(172, 20, 1, 1), 443)),
        PolicyDecision::Require
    );
    assert_eq!(
        policy.evaluate(SocketAddr::new(IpAddr::v4(192, 168, 1, 1), 80)),
        PolicyDecision::Reject
    );
}

#[test]
fn from_ipnets_mixed_mode() {
    let nets: Vec<IpNet> = vec![
        IpNet::new(IpAddr::v4(10, 0, 0, 1), 32).unwrap(),
        IpNet::new(IpAddr::v4(172, 16, 0, 0), 12).unwrap(),
    ];
    let policy = MixedMode::new(TrustedProxies::from_ipnets(nets));

    assert_eq!(
        policy.evaluate(SocketAddr::new(IpAddr::v4(10, 0, 0, 1), 80)),
        PolicyDecision::Require
    );
    assert_eq!(
        policy.evaluate(SocketAddr::new(IpAddr::v4(172, 20, 1, 1), 443)),
        PolicyDecision::Require
    );
    assert_eq!(
        policy.evaluate(SocketAddr::new(IpAddr::v4(192, 168, 1, 1), 80)),
        PolicyDecision::Ignore
    );
}

#[test]
fn contains_exact_match() {
    let tp = TrustedProxies::new(vec![IpAddr::v4(10, 0, 0, 1)]);
    let ip: IpAddr = IpAddr::v4(10, 0, 0, 1);
    assert!(tp.contains(ip));
}

#[test]
fn contains_cidr_match() {
    let tp = TrustedProxies::with_cidrs(Vec::new(), vec![IpNet::new(IpAddr::v4(10, 0, 0, 0), 8).unwrap()]);
    let ip: IpAddr = IpAddr::v4(10, 1, 2, 3);
    assert!(tp.contains(ip));
}

#[test]
fn contains_no_match() {
    let tp = TrustedProxies::new(vec![IpAddr::v4(10, 0, 0, 1)]);
    let ip: IpAddr = IpAddr::v4(10, 0, 0, 2);
    assert!(!tp.contains(ip));
}
