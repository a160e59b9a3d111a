//! Proxy Protocol (v1 and v2): parsing and building headers, TLV extensions,
//! vendor TLVs, connection policies and the decisions of an accepting
//! listener, with their contracts proved.

pub mod builder;
pub mod config;
pub mod connection;
pub mod crc;
pub mod error;
pub mod framing;
pub mod iptext;
pub mod laws;
pub mod net;
pub mod parse;
pub mod policy;
pub mod show;
pub mod text;
pub mod types;
pub mod vendor;

pub use builder::HeaderBuilder;
pub use config::{ConfigError, VersionPreference};
pub use connection::ProxyConnectInfo;
pub use error::{InvalidReason, ParseError, TlvParseError};
pub use net::{IpAddr, SocketAddr};
pub use parse::{V2_SIGNATURE, parse};
pub use policy::{
    AcceptAll, ConnPolicy, IpNet, MixedMode, OptionalProxy, PolicyDecision, TrustedProxies,
};
pub use types::{
    AddressFamily, Command, ProxyAddress, ProxyInfo, SslClientFlags, SslInfo, Tlvs, Transport,
    TransportProtocol, Version,
};
pub use vendor::{AwsTlvs, AzureTlvs, GcpTlvs};
pub mod textfacts;
