//! Listener settings that can be checked without I/O.

use vstd::prelude::*;

use crate::types::Version;

verus! {

/// Which protocol versions a listener accepts.
#[derive(Debug, Clone, Copy, PartialEq, Eq, Structural)]
#[non_exhaustive]
pub enum VersionPreference {
    Both,
    V1Only,
    /// Accept only v2 headers, which carry CRC32c checks and binary TLVs.
    V2Only,
}

/// A configuration value that is out of range.
#[derive(Debug, Clone, Copy, PartialEq, Eq)]
pub struct ConfigError(pub &'static str);

/// Why a set of limits is refused, checked in order: a zero header timeout, a
/// zero maximum header size, a zero bound on pending handshakes.
pub enum LimitError {
    ZeroHeaderTimeout,
    ZeroMaxHeaderSize,
    ZeroMaxPendingHandshakes,
}

/// The first limit that is zero, if any.
pub open spec fn spec_check_limits(header_timeout_nanos: u128, max_header_size: usize, max_pending_handshakes: usize) -> Option<LimitError> {
    if header_timeout_nanos == 0 {
        Some(LimitError::ZeroHeaderTimeout)
    } else if max_header_size == 0 {
        Some(LimitError::ZeroMaxHeaderSize)
    } else if max_pending_handshakes == 0 {
        Some(LimitError::ZeroMaxPendingHandshakes)
    } else {
        None
    }
}

/// The message of a refused limit.
pub open spec fn limit_message(e: LimitError) -> Seq<char> {
    match e {
        LimitError::ZeroHeaderTimeout => "header_timeout must be greater than zero"@,
        LimitError::ZeroMaxHeaderSize => "max_header_size must be greater than zero"@,
        LimitError::ZeroMaxPendingHandshakes => "max_pending_handshakes must be greater than zero"@,
    }
}

/// Checks the limits of a listener configuration: the header timeout (in
/// nanoseconds), the largest header buffer and the number of handshakes in
/// flight must all be above zero. The error names the first that is not.
pub fn check_limits(header_timeout_nanos: u128, max_header_size: usize, max_pending_handshakes: usize) -> (r: Result<(), ConfigError>)
    ensures
        match spec_check_limits(header_timeout_nanos, max_header_size, max_pending_handshakes) {
            None => r is Ok,
            Some(e) => r matches Err(ConfigError(m)) && m@ == limit_message(e),
        },
{
    if header_timeout_nanos == 0 {
        return Err(ConfigError("header_timeout must be greater than zero"));
    }
    if max_header_size == 0 {
        return Err(ConfigError("max_header_size must be greater than zero"));
    }
    if max_pending_handshakes == 0 {
        return Err(ConfigError("max_pending_handshakes must be greater than zero"));
    }
    Ok(())
}

/// Whether a header of `version` is accepted under `pref`.
pub open spec fn spec_version_accepted(pref: VersionPreference, version: Version) -> bool {
    match pref {
        VersionPreference::Both => true,
        VersionPreference::V1Only => version == Version::V1,
        VersionPreference::V2Only => version == Version::V2,
    }
}

/// Whether a header of `version` is accepted under `pref`.
pub fn version_accepted(pref: VersionPreference, version: Version) -> (r: bool)
    ensures
        r == spec_version_accepted(pref, version),
{
    match pref {
        VersionPreference::Both => true,
        VersionPreference::V1Only => version == Version::V1,
        VersionPreference::V2Only => version == Version::V2,
    }
}

} // verus!
