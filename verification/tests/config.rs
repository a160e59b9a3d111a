use proxy_protocol::config::check_limits;
use proxy_protocol::{ConfigError, IpAddr, ProxyInfo, SocketAddr, VersionPreference};
use proxy_protocol::{HeaderBuilder, parse};
use proxy_protocol::config::version_accepted;
use proxy_protocol::Version;

#[test]
fn builder_rejects_zero_timeout() {
    let err = check_limits(0, 4096, 1024);
    assert!(err.is_err());
}

#[test]
fn builder_rejects_zero_header_size() {
    let err = check_limits(5_000_000_000, 0, 1024);
    assert!(err.is_err());
}

#[test]
fn builder_rejects_zero_pending_handshakes() {
    let err = check_limits(5_000_000_000, 4096, 0);
    assert!(err.is_err());
}

#[test]
fn config_error_displays_message() {
    match check_limits(0, 4096, 1024) {
        Err(err) => assert_eq!(err.0, "header_timeout must be greater than zero"),
        Ok(_) => panic!("expected ConfigError"),
    }
}

#[test]
fn config_error_eq() {
    match check_limits(0, 4096, 1024) {
        Err(err) => assert_eq!(err, ConfigError("header_timeout must be greater than zero")),
        Ok(_) => panic!("expected ConfigError"),
    }
}

#[test]
fn limits_default_values_accepted() {
    assert!(check_limits(5_000_000_000, 4096, 1024).is_ok());
    assert!(check_limits(1, 1, 1).is_ok());
}

#[test]
fn limits_first_zero_is_reported() {
    assert_eq!(check_limits(0, 0, 0), Err(ConfigError("header_timeout must be greater than zero")));
    assert_eq!(check_limits(1, 0, 0), Err(ConfigError("max_header_size must be greater than zero")));
    assert_eq!(
        check_limits(1, 1, 0),
        Err(ConfigError("max_pending_handshakes must be greater than zero"))
    );
}

#[test]
fn version_preference_filters_versions() {
    assert!(version_accepted(VersionPreference::Both, Version::V1));
    assert!(version_accepted(VersionPreference::Both, Version::V2));
    assert!(version_accepted(VersionPreference::V1Only, Version::V1));
    assert!(!version_accepted(VersionPreference::V1Only, Version::V2));
    assert!(!version_accepted(VersionPreference::V2Only, Version::V1));
    assert!(version_accepted(VersionPreference::V2Only, Version::V2));
}

#[test]
fn version_preference_of_parsed_header() {
    let src = SocketAddr::new(IpAddr::v4(1, 2, 3, 4), 10);
    let dst = SocketAddr::new(IpAddr::v4(5, 6, 7, 8), 20);
    let bytes = HeaderBuilder::v1_proxy(src, dst).build();
    let (info, _): (ProxyInfo, usize) = parse(&bytes).unwrap();
    assert!(!version_accepted(VersionPreference::V2Only, info.version));
}
