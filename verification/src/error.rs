//! Errors reported while parsing headers and vendor TLVs.

use vstd::prelude::*;

verus! {

/// Why parsing a Proxy Protocol header failed.
#[derive(Debug, Clone, PartialEq, Eq)]
#[non_exhaustive]
pub enum ParseError {
    /// The data does not begin with a Proxy Protocol signature.
    NotProxyProtocol,
    /// The header is not complete yet: more data is needed.
    Incomplete,
    /// The header is malformed.
    Invalid(InvalidReason),
    /// A CRC32c TLV is present and the checksum does not match.
    CrcMismatch { expected: u32, actual: u32 },
}

/// How a Proxy Protocol header is malformed.
#[derive(Debug, Clone, PartialEq, Eq)]
#[non_exhaustive]
pub enum InvalidReason {
    UnsupportedVersion(u8),
    UnknownCommand(u8),
    UnknownFamily(u8),
    UnknownProtocol(u8),
    V1TooLong,
    V1NotUtf8,
    V1InvalidFormat,
    V1UnknownTransport(String),
    InvalidIp(String),
    InvalidPort(String),
    UnspecWithProxy,
    PayloadOverflow { len: usize, buf_len: usize },
    MalformedTlv { offset: usize },
}

/// Why a vendor-specific TLV value could not be parsed.
#[derive(Debug, Clone, PartialEq, Eq)]
#[non_exhaustive]
pub enum TlvParseError {
    MalformedSubTlv { offset: usize },
    InvalidValue { reason: String },
}

/// The mathematical value of a [`ParseError`]: strings become character sequences.
pub enum ParseErrorView {
    NotProxyProtocol,
    Incomplete,
    Invalid(InvalidReasonView),
    CrcMismatch { expected: u32, actual: u32 },
}

/// The mathematical value of an [`InvalidReason`].
pub enum InvalidReasonView {
    UnsupportedVersion(u8),
    UnknownCommand(u8),
    UnknownFamily(u8),
    UnknownProtocol(u8),
    V1TooLong,
    V1NotUtf8,
    V1InvalidFormat,
    V1UnknownTransport(Seq<char>),
    InvalidIp(Seq<char>),
    InvalidPort(Seq<char>),
    UnspecWithProxy,
    PayloadOverflow { len: int, buf_len: int },
    MalformedTlv { offset: int },
}

/// The mathematical value of a [`TlvParseError`].
pub enum TlvParseErrorView {
    MalformedSubTlv { offset: int },
    InvalidValue { reason: Seq<char> },
}

impl View for InvalidReason {
    type V = InvalidReasonView;

    open spec fn view(&self) -> InvalidReasonView {
        match self {
            InvalidReason::UnsupportedVersion(v) => InvalidReasonView::UnsupportedVersion(*v),
            InvalidReason::UnknownCommand(v) => InvalidReasonView::UnknownCommand(*v),
            InvalidReason::UnknownFamily(v) => InvalidReasonView::UnknownFamily(*v),
            InvalidReason::UnknownProtocol(v) => InvalidReasonView::UnknownProtocol(*v),
            InvalidReason::V1TooLong => InvalidReasonView::V1TooLong,
            InvalidReason::V1NotUtf8 => InvalidReasonView::V1NotUtf8,
            InvalidReason::V1InvalidFormat => InvalidReasonView::V1InvalidFormat,
            InvalidReason::V1UnknownTransport(s) => InvalidReasonView::V1UnknownTransport(s@),
            InvalidReason::InvalidIp(s) => InvalidReasonView::InvalidIp(s@),
            InvalidReason::InvalidPort(s) => InvalidReasonView::InvalidPort(s@),
            InvalidReason::UnspecWithProxy => InvalidReasonView::UnspecWithProxy,
            InvalidReason::PayloadOverflow { len, buf_len } => InvalidReasonView::PayloadOverflow {
                len: *len as int,
                buf_len: *buf_len as int,
            },
            InvalidReason::MalformedTlv { offset } => InvalidReasonView::MalformedTlv {
                offset: *offset as int,
            },
        }
    }
}

impl View for ParseError {
    type V = ParseErrorView;

    open spec fn view(&self) -> ParseErrorView {
        match self {
            ParseError::NotProxyProtocol => ParseErrorView::NotProxyProtocol,
            ParseError::Incomplete => ParseErrorView::Incomplete,
            ParseError::Invalid(r) => ParseErrorView::Invalid(r@),
            ParseError::CrcMismatch { expected, actual } => ParseErrorView::CrcMismatch {
                expected: *expected,
                actual: *actual,
            },
        }
    }
}

impl View for TlvParseError {
    type V = TlvParseErrorView;

    open spec fn view(&self) -> TlvParseErrorView {
        match self {
            TlvParseError::MalformedSubTlv { offset } => TlvParseErrorView::MalformedSubTlv {
                offset: *offset as int,
            },
            TlvParseError::InvalidValue { reason } => TlvParseErrorView::InvalidValue {
                reason: reason@,
            },
        }
    }
}

/// The error for a malformed TLV at `offset`.
pub open spec fn malformed_tlv(offset: int) -> ParseErrorView {
    ParseErrorView::Invalid(InvalidReasonView::MalformedTlv { offset })
}

} // verus!
