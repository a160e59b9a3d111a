//! Reading Proxy Protocol headers (v1 and v2) from bytes.

pub mod tlv;
pub mod v1;
pub mod v2;

use vstd::prelude::*;

use crate::error::{ParseError, ParseErrorView};
use crate::types::{ProxyInfo, ProxyInfoView};
use crate::parse::v1::{parse_v1, spec_parse_v1};
use crate::parse::v2::{parse_result_view, parse_v2, spec_parse_v2, v2_signature};

verus! {

/// The 12-byte v2 Proxy Protocol signature.
pub const V2_SIGNATURE: [u8; 12] = [0x0D, 0x0A, 0x0D, 0x0A, 0x00, 0x0D, 0x0A, 0x51, 0x55, 0x49, 0x54, 0x0A];

/// `PROXY `, the start of every v1 header.
pub open spec fn v1_prefix() -> Seq<u8> {
    seq![0x50u8, 0x52, 0x4F, 0x58, 0x59, 0x20]
}

/// The header at the start of `buf` and the number of bytes it takes: a v2
/// header after the 12-byte signature, a v1 header after `PROXY `; too few
/// bytes to tell give `Incomplete`, any other start `NotProxyProtocol`.
pub open spec fn spec_parse(buf: Seq<u8>) -> Result<(ProxyInfoView, int), ParseErrorView> {
    if buf.len() == 0 {
        Err(ParseErrorView::Incomplete)
    } else if buf[0] == 0x0D {
        if buf.len() < 12 {
            Err(ParseErrorView::Incomplete)
        } else if buf.take(12) == v2_signature() {
            spec_parse_v2(buf)
        } else {
            Err(ParseErrorView::NotProxyProtocol)
        }
    } else if buf[0] == 0x50 {
        if buf.len() < 6 {
            Err(ParseErrorView::Incomplete)
        } else if buf.take(6) == v1_prefix() {
            spec_parse_v1(buf)
        } else {
            Err(ParseErrorView::NotProxyProtocol)
        }
    } else {
        Err(ParseErrorView::NotProxyProtocol)
    }
}

fn starts_with(buf: &[u8], prefix: &[u8]) -> (r: bool)
    requires
        prefix@.len() <= buf@.len(),
    ensures
        r == (buf@.take(prefix@.len() as int) == prefix@),
{
    let mut i: usize = 0;
    while i < prefix.len()
        invariant
            i <= prefix@.len(),
            prefix@.len() <= buf@.len(),
            forall|j: int| 0 <= j < i ==> buf@[j] == prefix@[j],
        decreases prefix@.len() - i,
    {
        if buf[i] != prefix[i] {
            assert(buf@.take(prefix@.len() as int)[i as int] != prefix@[i as int]);
            return false;
        }
        i = i + 1;
    }
    assert(buf@.take(prefix@.len() as int) =~= prefix@);
    true
}

/// Parses a Proxy Protocol header (v1 or v2) at the start of `buf`; gives the
/// header and the number of bytes it takes.
pub fn parse(buf: &[u8]) -> (r: Result<(ProxyInfo, usize), ParseError>)
    ensures
        parse_result_view(r) == spec_parse(buf@),
{
    if buf.len() == 0 {
        return Err(ParseError::Incomplete);
    }
    if buf[0] == 0x0D {
        if buf.len() < 12 {
            return Err(ParseError::Incomplete);
        }
        let sig = V2_SIGNATURE;
        assert(sig@ == v2_signature());
        if starts_with(buf, sig.as_slice()) {
            parse_v2(buf)
        } else {
            Err(ParseError::NotProxyProtocol)
        }
    } else if buf[0] == 0x50 {
        if buf.len() < 6 {
            return Err(ParseError::Incomplete);
        }
        let prefix: [u8; 6] = [0x50, 0x52, 0x4F, 0x58, 0x59, 0x20];
        assert(prefix@ == v1_prefix());
        if starts_with(buf, prefix.as_slice()) {
            parse_v1(buf)
        } else {
            Err(ParseError::NotProxyProtocol)
        }
    } else {
        Err(ParseError::NotProxyProtocol)
    }
}

} // verus!
