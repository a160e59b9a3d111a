//! What a listener decides while it accepts a connection: the policy's
//! verdict, each read of the header, the address to report, and how an
//! accept error is answered. The listener performs the I/O these decisions
//! ask for.

use vstd::prelude::*;

use crate::config::{VersionPreference, spec_version_accepted, version_accepted};
use crate::error::{ParseError, ParseErrorView};
use crate::net::{IpAddr, SocketAddr};
use crate::parse::{parse, spec_parse};
use crate::parse::v2::parse_result_view;
use crate::policy::PolicyDecision;
use crate::types::{ProxyAddressView, ProxyInfo, ProxyInfoView, inet_of};

verus! {

// ------------------------------------------------------------ connect info

/// The addresses of an accepted connection.
#[derive(Debug, Clone)]
pub struct ProxyConnectInfo {
    /// The original client address (from a header, or the TCP peer).
    pub client_addr: SocketAddr,
    /// The TCP peer address (the proxy's address).
    pub peer_addr: SocketAddr,
    /// The header, when one was read.
    pub proxy_info: Option<ProxyInfo>,
}

/// The client address of a connection: the header's source when it is an IP
/// socket address, the TCP peer otherwise.
pub open spec fn spec_client_addr(info: Option<ProxyInfoView>, peer: SocketAddr) -> SocketAddr {
    match info {
        Some(i) => match inet_of(i.source) {
            Some(s) => s,
            None => peer,
        },
        None => peer,
    }
}

/// The views of an optional header.
pub open spec fn opt_info(o: Option<ProxyInfo>) -> Option<ProxyInfoView> {
    match o {
        Some(i) => Some(i@),
        None => None,
    }
}

/// The client address of a connection with this header (if any) and peer.
pub fn client_addr_of(info: &Option<ProxyInfo>, peer: SocketAddr) -> (r: SocketAddr)
    ensures
        r == spec_client_addr(opt_info(*info), peer),
        (match *info {
            Some(i) => match i@.source {
                Some(ProxyAddressView::Inet(s)) => r == s,
                _ => r == peer,
            },
            None => r == peer,
        }),
{
    match info {
        Some(i) => match i.source_inet() {
            Some(s) => s,
            None => peer,
        },
        None => peer,
    }
}

impl ProxyConnectInfo {
    /// The client IP without the port.
    pub fn client_ip(&self) -> (r: IpAddr)
        ensures
            r == self.client_addr.ip,
    {
        self.client_addr.ip
    }

    /// Whether a header was read on this connection.
    pub fn is_proxied(&self) -> (r: bool)
        ensures
            r == self.proxy_info is Some,
    {
        self.proxy_info.is_some()
    }
}

impl From<SocketAddr> for ProxyConnectInfo {
    fn from(addr: SocketAddr) -> (r: ProxyConnectInfo) {
        ProxyConnectInfo { client_addr: addr, peer_addr: addr, proxy_info: None }
    }
}

impl vstd::std_specs::convert::FromSpecImpl<SocketAddr> for ProxyConnectInfo {
    open spec fn obeys_from_spec() -> bool {
        true
    }

    open spec fn from_spec(addr: SocketAddr) -> ProxyConnectInfo {
        ProxyConnectInfo { client_addr: addr, peer_addr: addr, proxy_info: None }
    }
}

impl From<(ProxyInfo, SocketAddr)> for ProxyConnectInfo {
    fn from(p: (ProxyInfo, SocketAddr)) -> (r: ProxyConnectInfo)
        ensures
            r.peer_addr == p.1,
            r.proxy_info == Some(p.0),
            (match p.0@.source {
                Some(ProxyAddressView::Inet(s)) => r.client_addr == s,
                _ => r.client_addr == p.1,
            }),
    {
        let (info, peer_addr) = p;
        let client_addr = match info.source_inet() {
            Some(s) => s,
            None => peer_addr,
        };
        ProxyConnectInfo { client_addr, peer_addr, proxy_info: Some(info) }
    }
}

impl vstd::std_specs::convert::FromSpecImpl<(ProxyInfo, SocketAddr)> for ProxyConnectInfo {
    open spec fn obeys_from_spec() -> bool {
        true
    }

    open spec fn from_spec(p: (ProxyInfo, SocketAddr)) -> ProxyConnectInfo {
        ProxyConnectInfo { client_addr: spec_client_addr(Some(p.0@), p.1), peer_addr: p.1, proxy_info: Some(p.0) }
    }
}

/// The client address reported for a header is the header's source when that
/// is an IP socket address, and the TCP peer otherwise or without a header;
/// the header's destination never changes it.
pub proof fn law_client_addr_is_header_source(info: ProxyInfoView, peer: SocketAddr, d: Option<ProxyAddressView>)
    ensures
        info.source matches Some(ProxyAddressView::Inet(s)) ==> spec_client_addr(Some(info), peer) == s,
        !(info.source matches Some(ProxyAddressView::Inet(_))) ==> spec_client_addr(Some(info), peer) == peer,
        spec_client_addr(Some(ProxyInfoView { destination: d, ..info }), peer) == spec_client_addr(Some(info), peer),
        spec_client_addr(None, peer) == peer,
{
}

// --------------------------------------------------------------- handshake

/// What to do with a new connection, from the policy's decision.
#[derive(Debug, Clone, Copy, PartialEq, Eq, Structural)]
pub enum AcceptAction {
    /// Close it and report the peer as rejected.
    Reject,
    /// Hand it over as it is, with no header.
    PassThrough,
    /// Read a header; `required` says whether a connection without one fails.
    ReadHeader { required: bool },
}

/// What to do with a new connection, from the policy's decision: `Reject`
/// rejects, `Ignore` passes it through, `Require` and `Use` read a header,
/// which only `Require` insists on.
pub fn accept_action(decision: PolicyDecision) -> (r: AcceptAction)
    ensures
        r == (match decision {
            PolicyDecision::Reject => AcceptAction::Reject,
            PolicyDecision::Ignore => AcceptAction::PassThrough,
            PolicyDecision::Require => AcceptAction::ReadHeader { required: true },
            PolicyDecision::Use => AcceptAction::ReadHeader { required: false },
        }),
{
    match decision {
        PolicyDecision::Reject => AcceptAction::Reject,
        PolicyDecision::Ignore => AcceptAction::PassThrough,
        PolicyDecision::Require => AcceptAction::ReadHeader { required: true },
        PolicyDecision::Use => AcceptAction::ReadHeader { required: false },
    }
}

/// What the header read loop does after a read.
#[derive(Debug, Clone, PartialEq, Eq)]
pub enum ReadStep {
    /// A header was read, taking `consumed` bytes; the bytes after it are the
    /// first bytes of the stream.
    Header { info: ProxyInfo, consumed: usize },
    /// Read more bytes.
    ReadMore,
    /// No header and none required: all bytes read are the stream's.
    Direct,
    /// The peer closed the connection without sending anything.
    Empty,
    /// The header could not be read.
    ParseFailed(ParseError),
    /// The header's version is not accepted.
    VersionMismatch,
}

/// The mathematical value of a [`ReadStep`].
pub enum ReadStepView {
    Header { info: ProxyInfoView, consumed: int },
    ReadMore,
    Direct,
    Empty,
    ParseFailed(ParseErrorView),
    VersionMismatch,
}

impl View for ReadStep {
    type V = ReadStepView;

    open spec fn view(&self) -> ReadStepView {
        match self {
            ReadStep::Header { info, consumed } => ReadStepView::Header { info: info@, consumed: *consumed as int },
            ReadStep::ReadMore => ReadStepView::ReadMore,
            ReadStep::Direct => ReadStepView::Direct,
            ReadStep::Empty => ReadStepView::Empty,
            ReadStep::ParseFailed(e) => ReadStepView::ParseFailed(e@),
            ReadStep::VersionMismatch => ReadStepView::VersionMismatch,
        }
    }
}

/// The step after a read, given all bytes read so far and whether the read
/// found the end of the stream: at the end, nothing read is an empty
/// connection and something read an incomplete header; otherwise a header is
/// taken if its version is accepted, an incomplete one is read on while the
/// buffer is below `max_header_size`, a non-header passes as direct when no
/// header is required, and any other error fails.
pub open spec fn spec_read_step(buf: Seq<u8>, eof: bool, required: bool, max_header_size: int, pref: VersionPreference) -> ReadStepView {
    if eof {
        if buf.len() == 0 {
            ReadStepView::Empty
        } else {
            ReadStepView::ParseFailed(ParseErrorView::Incomplete)
        }
    } else {
        match spec_parse(buf) {
            Ok((info, consumed)) => if spec_version_accepted(pref, info.version) {
                ReadStepView::Header { info, consumed }
            } else {
                ReadStepView::VersionMismatch
            },
            Err(ParseErrorView::Incomplete) => if buf.len() < max_header_size {
                ReadStepView::ReadMore
            } else {
                ReadStepView::ParseFailed(ParseErrorView::Incomplete)
            },
            Err(ParseErrorView::NotProxyProtocol) => if !required {
                ReadStepView::Direct
            } else {
                ReadStepView::ParseFailed(ParseErrorView::NotProxyProtocol)
            },
            Err(e) => ReadStepView::ParseFailed(e),
        }
    }
}

/// What each read of the header loop leads to. At the end of the stream an
/// empty buffer is an empty connection and anything else an incomplete header.
/// Otherwise: a parsed header is taken, with what the parser read and the bytes
/// it took, when its version is accepted; an incomplete header is read on only
/// while the buffer is below the limit; the connection passes as direct only
/// when the parser finds no Proxy Protocol and no header is required; and any
/// other parse error (an invalid header, a CRC mismatch, or a missing required
/// header) fails with that same error.
pub proof fn law_read_step_outcomes(buf: Seq<u8>, eof: bool, required: bool, max_header_size: int, pref: VersionPreference)
    ensures
        ({
            let r = spec_read_step(buf, eof, required, max_header_size, pref);
            let p = spec_parse(buf);
            &&& (r is Empty <==> (eof && buf.len() == 0))
            &&& (eof && buf.len() > 0 ==> r == ReadStepView::ParseFailed(ParseErrorView::Incomplete))
            &&& (r is Direct <==> (!eof && !required && p == Err::<(ProxyInfoView, int), ParseErrorView>(ParseErrorView::NotProxyProtocol)))
            &&& (r is ReadMore <==> (!eof && p == Err::<(ProxyInfoView, int), ParseErrorView>(ParseErrorView::Incomplete) && buf.len() < max_header_size))
            &&& (!eof ==> (p matches Err(e) ==> (!(e is Incomplete) && !(e is NotProxyProtocol) ==> r == ReadStepView::ParseFailed(e))))
            &&& (!eof && required && p == Err::<(ProxyInfoView, int), ParseErrorView>(ParseErrorView::NotProxyProtocol)
                ==> r == ReadStepView::ParseFailed(ParseErrorView::NotProxyProtocol))
            &&& (r matches ReadStepView::Header { info, consumed } ==> !eof && p == Ok::<(ProxyInfoView, int), ParseErrorView>((info, consumed))
                && spec_version_accepted(pref, info.version))
            &&& (r is VersionMismatch <==> (!eof && p is Ok && !spec_version_accepted(pref, p->Ok_0.0.version)))
        }),
{
}

/// The step after a read (see [`spec_read_step`]).
pub fn read_step(buf: &[u8], eof: bool, required: bool, max_header_size: usize, pref: VersionPreference) -> (r: ReadStep)
    ensures
        r@ == spec_read_step(buf@, eof, required, max_header_size as int, pref),
        r is Direct <==> (!eof && !required && spec_parse(buf@) == Err::<(ProxyInfoView, int), ParseErrorView>(ParseErrorView::NotProxyProtocol)),
        !eof ==> (spec_parse(buf@) matches Err(e) ==> (!(e is Incomplete) && !(e is NotProxyProtocol) ==> r@ == ReadStepView::ParseFailed(e))),
        eof ==> r@ == (if buf@.len() == 0 { ReadStepView::Empty } else { ReadStepView::ParseFailed(ParseErrorView::Incomplete) }),
        !eof && spec_parse(buf@) == Err::<(ProxyInfoView, int), ParseErrorView>(ParseErrorView::Incomplete) ==> r@ == (if buf@.len() < max_header_size {
            ReadStepView::ReadMore
        } else {
            ReadStepView::ParseFailed(ParseErrorView::Incomplete)
        }),
        !eof && required && spec_parse(buf@) == Err::<(ProxyInfoView, int), ParseErrorView>(ParseErrorView::NotProxyProtocol)
            ==> r@ == ReadStepView::ParseFailed(ParseErrorView::NotProxyProtocol),
        !eof ==> (spec_parse(buf@) matches Ok((info, n)) ==> r@ == (if spec_version_accepted(pref, info.version) {
            ReadStepView::Header { info, consumed: n }
        } else {
            ReadStepView::VersionMismatch
        })),
{
    if eof {
        if buf.len() == 0 {
            return ReadStep::Empty;
        }
        return ReadStep::ParseFailed(ParseError::Incomplete);
    }
    let parsed = parse(buf);
    assert(parse_result_view(parsed) == spec_parse(buf@));
    match parsed {
        Ok((info, consumed)) => {
            if version_accepted(pref, info.version) {
                ReadStep::Header { info, consumed }
            } else {
                ReadStep::VersionMismatch
            }
        },
        Err(ParseError::Incomplete) => {
            if buf.len() < max_header_size {
                ReadStep::ReadMore
            } else {
                ReadStep::ParseFailed(ParseError::Incomplete)
            }
        },
        Err(ParseError::NotProxyProtocol) => {
            if !required {
                ReadStep::Direct
            } else {
                ReadStep::ParseFailed(ParseError::NotProxyProtocol)
            }
        },
        Err(e) => ReadStep::ParseFailed(e),
    }
}

// ------------------------------------------------------------ accept errors

/// The kinds of I/O error that matter to the accept loop.
#[derive(Debug, Clone, Copy, PartialEq, Eq, Structural)]
pub enum IoErrorKind {
    ConnectionReset,
    ConnectionAborted,
    ConnectionRefused,
    Other,
}

/// Whether an I/O error of this kind only concerns the one connection
/// (reset, aborted or refused by the peer).
pub fn is_connection_error(kind: IoErrorKind) -> (r: bool)
    ensures
        r == (kind != IoErrorKind::Other),
{
    match kind {
        IoErrorKind::ConnectionReset | IoErrorKind::ConnectionAborted | IoErrorKind::ConnectionRefused => true,
        IoErrorKind::Other => false,
    }
}

/// The kinds of accept error.
#[derive(Debug, Clone, Copy, PartialEq, Eq, Structural)]
pub enum AcceptErrorKind {
    Io(IoErrorKind),
    Rejected,
    HeaderTimeout,
    EmptyConnection,
    Parse,
    ValidationFailed,
    VersionMismatch,
}

/// How a server loop answers an accept error before accepting again.
#[derive(Debug, Clone, Copy, PartialEq, Eq, Structural)]
pub enum AcceptErrorResponse {
    /// Log at debug level.
    LogDebug,
    /// Log a warning.
    LogWarning,
    /// Say nothing.
    Silent,
    /// Log an error and pause for a second before accepting again.
    LogErrorAndPause,
}

/// How an accept error is answered: rejected peers and empty connections are
/// logged at debug level; timeouts, parse and validation failures and version
/// mismatches as warnings; I/O errors of a single connection are passed over
/// silently; any other I/O error is logged and followed by a pause.
pub fn accept_error_response(kind: AcceptErrorKind) -> (r: AcceptErrorResponse)
    ensures
        r == (match kind {
            AcceptErrorKind::Rejected | AcceptErrorKind::EmptyConnection => AcceptErrorResponse::LogDebug,
            AcceptErrorKind::HeaderTimeout | AcceptErrorKind::Parse | AcceptErrorKind::ValidationFailed
            | AcceptErrorKind::VersionMismatch => AcceptErrorResponse::LogWarning,
            AcceptErrorKind::Io(k) => if k != IoErrorKind::Other {
                AcceptErrorResponse::Silent
            } else {
                AcceptErrorResponse::LogErrorAndPause
            },
        }),
{
    match kind {
        AcceptErrorKind::Rejected | AcceptErrorKind::EmptyConnection => AcceptErrorResponse::LogDebug,
        AcceptErrorKind::HeaderTimeout | AcceptErrorKind::Parse | AcceptErrorKind::ValidationFailed
        | AcceptErrorKind::VersionMismatch => AcceptErrorResponse::LogWarning,
        AcceptErrorKind::Io(k) => if is_connection_error(k) {
            AcceptErrorResponse::Silent
        } else {
            AcceptErrorResponse::LogErrorAndPause
        },
    }
}

} // verus!
