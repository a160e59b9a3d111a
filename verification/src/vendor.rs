//! Vendor-specific TLVs: AWS VPC endpoint ID (0xEA), Azure Private Link ID
//! (0xEE) and GCP Private Service Connect connection ID (0xE0).

use vstd::prelude::*;
use vstd::string::StringExecFns;
use vstd::utf8::{decode_utf8, valid_utf8};

use crate::error::{TlvParseError, TlvParseErrorView};
use crate::text::{debug_string, decimal_string, dec_chars, spec_debug_text, str_from_utf8};
use crate::types::{Tlvs, raw_view};

verus! {

/// The AWS TLV (0xEA).
#[derive(Debug, Clone, PartialEq, Eq)]
pub struct AwsTlvs {
    /// VPC endpoint ID (sub-type 0x01), made of ASCII letters, digits and `-`.
    pub vpc_endpoint_id: Option<String>,
    /// The sub-type and the bytes after it.
    pub raw: Vec<(u8, Vec<u8>)>,
}

/// The Azure TLV (0xEE).
#[derive(Debug, Clone, PartialEq, Eq)]
pub struct AzureTlvs {
    /// Private Endpoint LinkID (sub-type 0x01, a little-endian `u32`).
    pub private_endpoint_link_id: Option<u32>,
    /// The sub-type and the bytes after it.
    pub raw: Vec<(u8, Vec<u8>)>,
}

/// The GCP TLV (0xE0).
#[derive(Debug, Clone, Copy, PartialEq, Eq)]
pub struct GcpTlvs {
    /// Private Service Connect connection ID (a big-endian `u64`).
    pub psc_connection_id: u64,
}

/// The mathematical value of an [`AwsTlvs`].
pub struct AwsTlvsView {
    pub vpc_endpoint_id: Option<Seq<char>>,
    pub raw: Seq<(u8, Seq<u8>)>,
}

/// The mathematical value of an [`AzureTlvs`].
pub struct AzureTlvsView {
    pub private_endpoint_link_id: Option<u32>,
    pub raw: Seq<(u8, Seq<u8>)>,
}

impl View for AwsTlvs {
    type V = AwsTlvsView;

    open spec fn view(&self) -> AwsTlvsView {
        AwsTlvsView { vpc_endpoint_id: crate::types::opt_str(self.vpc_endpoint_id), raw: raw_view(self.raw@) }
    }
}

impl View for AzureTlvs {
    type V = AzureTlvsView;

    open spec fn view(&self) -> AzureTlvsView {
        AzureTlvsView { private_endpoint_link_id: self.private_endpoint_link_id, raw: raw_view(self.raw@) }
    }
}

/// Whether a byte is an ASCII letter, an ASCII digit or `-`.
pub open spec fn vpce_byte(b: u8) -> bool {
    (0x30 <= b <= 0x39) || (0x41 <= b <= 0x5A) || (0x61 <= b <= 0x7A) || b == 0x2D
}

/// Whether a VPC endpoint ID is made of ASCII letters, digits and `-` only.
pub open spec fn valid_vpce_id(s: Seq<u8>) -> bool {
    forall|i: int| 0 <= i < s.len() ==> vpce_byte(#[trigger] s[i])
}

/// The first entry of `raw` with type `t`.
pub open spec fn first_of_type(raw: Seq<(u8, Seq<u8>)>, t: u8) -> Option<int> {
    if exists|i: int| 0 <= i < raw.len() && #[trigger] raw[i].0 == t {
        Some(choose|i: int| 0 <= i < raw.len() && raw[i].0 == t && forall|j: int| 0 <= j < i ==> #[trigger] raw[j].0 != t)
    } else {
        None
    }
}

/// The AWS TLV value `data`: a sub-type, then its bytes; sub-type 0x01 holds
/// the VPC endpoint ID, which must be UTF-8 made of letters, digits and `-`.
pub open spec fn spec_parse_aws(data: Seq<u8>) -> Result<AwsTlvsView, TlvParseErrorView> {
    if data.len() == 0 {
        Err(TlvParseErrorView::MalformedSubTlv { offset: 0 })
    } else {
        let st = data[0];
        let v = data.skip(1);
        if st != 0x01 {
            Ok(AwsTlvsView { vpc_endpoint_id: None, raw: seq![(st, v)] })
        } else if !valid_utf8(v) {
            Err(TlvParseErrorView::InvalidValue { reason: "VPC endpoint ID is not valid UTF-8"@ })
        } else if !valid_vpce_id(v) {
            Err(TlvParseErrorView::InvalidValue {
                reason: "VPC endpoint ID contains invalid characters: "@ + spec_debug_text(decode_utf8(v)),
            })
        } else {
            Ok(AwsTlvsView { vpc_endpoint_id: Some(decode_utf8(v)), raw: seq![(st, v)] })
        }
    }
}

/// The Azure TLV value `data`: a sub-type, then its bytes; sub-type 0x01 holds
/// the LinkID as four little-endian bytes.
pub open spec fn spec_parse_azure(data: Seq<u8>) -> Result<AzureTlvsView, TlvParseErrorView> {
    if data.len() == 0 {
        Err(TlvParseErrorView::MalformedSubTlv { offset: 0 })
    } else {
        let st = data[0];
        let v = data.skip(1);
        if st != 0x01 {
            Ok(AzureTlvsView { private_endpoint_link_id: None, raw: seq![(st, v)] })
        } else if v.len() != 4 {
            Err(TlvParseErrorView::InvalidValue {
                reason: "Azure Private Endpoint LinkID must be 4 bytes, got "@ + dec_chars(v.len()),
            })
        } else {
            Ok(AzureTlvsView {
                private_endpoint_link_id: Some(crate::net::v4_value(v[3], v[2], v[1], v[0])),
                raw: seq![(st, v)],
            })
        }
    }
}

/// The big-endian `u64` of eight bytes.
pub open spec fn be64(v: Seq<u8>) -> u64 {
    (((crate::net::v4_value(v[0], v[1], v[2], v[3]) as int) * 0x1_0000_0000 + crate::net::v4_value(v[4], v[5], v[6], v[7]) as int)) as u64
}

/// The GCP TLV value `data`: exactly eight bytes, the connection ID.
pub open spec fn spec_parse_gcp(data: Seq<u8>) -> Result<GcpTlvs, TlvParseErrorView> {
    if data.len() != 8 {
        Err(TlvParseErrorView::InvalidValue {
            reason: "GCP PSC connection ID must be 8 bytes, got "@ + dec_chars(data.len()),
        })
    } else {
        Ok(GcpTlvs { psc_connection_id: be64(data) })
    }
}

fn is_valid_vpce_id(s: &[u8]) -> (r: bool)
    ensures
        r == valid_vpce_id(s@),
{
    let mut i: usize = 0;
    while i < s.len()
        invariant
            i <= s@.len(),
            forall|j: int| 0 <= j < i ==> vpce_byte(#[trigger] s@[j]),
        decreases s@.len() - i,
    {
        let b = s[i];
        if !((0x30 <= b && b <= 0x39) || (0x41 <= b && b <= 0x5A) || (0x61 <= b && b <= 0x7A) || b == 0x2D) {
            return false;
        }
        i = i + 1;
    }
    true
}

pub open spec fn aws_result_view(r: Result<AwsTlvs, TlvParseError>) -> Result<AwsTlvsView, TlvParseErrorView> {
    match r {
        Ok(a) => Ok(a@),
        Err(e) => Err(e@),
    }
}

pub open spec fn azure_result_view(r: Result<AzureTlvs, TlvParseError>) -> Result<AzureTlvsView, TlvParseErrorView> {
    match r {
        Ok(a) => Ok(a@),
        Err(e) => Err(e@),
    }
}

pub open spec fn gcp_result_view(r: Result<GcpTlvs, TlvParseError>) -> Result<GcpTlvs, TlvParseErrorView> {
    match r {
        Ok(a) => Ok(a),
        Err(e) => Err(e@),
    }
}

/// Parses the value of an AWS TLV.
pub fn parse_aws_tlv(data: &[u8]) -> (r: Result<AwsTlvs, TlvParseError>)
    ensures
        aws_result_view(r) == spec_parse_aws(data@),
{
    if data.len() == 0 {
        return Err(TlvParseError::MalformedSubTlv { offset: 0 });
    }
    let sub_type = data[0];
    let value = &data[1..data.len()];
    assert(value@ =~= data@.skip(1));
    let raw_value = vstd::slice::slice_to_vec(value);
    let mut raw: Vec<(u8, Vec<u8>)> = Vec::new();
    raw.push((sub_type, raw_value));
    assert(raw_view(raw@) =~= seq![(sub_type, value@)]);
    if sub_type != 0x01 {
        return Ok(AwsTlvs { vpc_endpoint_id: None, raw });
    }
    match str_from_utf8(value) {
        None => Err(TlvParseError::InvalidValue { reason: String::from_str("VPC endpoint ID is not valid UTF-8") }),
        Some(vpce) => {
            if !is_valid_vpce_id(value) {
                let mut reason = String::from_str("VPC endpoint ID contains invalid characters: ");
                let shown = debug_string(vpce);
                reason.append(shown.as_str());
                return Err(TlvParseError::InvalidValue { reason });
            }
            Ok(AwsTlvs { vpc_endpoint_id: Some(vpce.to_owned()), raw })
        },
    }
}

/// Parses the value of an Azure TLV.
pub fn parse_azure_tlv(data: &[u8]) -> (r: Result<AzureTlvs, TlvParseError>)
    ensures
        azure_result_view(r) == spec_parse_azure(data@),
{
    if data.len() == 0 {
        return Err(TlvParseError::MalformedSubTlv { offset: 0 });
    }
    let sub_type = data[0];
    let value = &data[1..data.len()];
    assert(value@ =~= data@.skip(1));
    let raw_value = vstd::slice::slice_to_vec(value);
    let mut raw: Vec<(u8, Vec<u8>)> = Vec::new();
    raw.push((sub_type, raw_value));
    assert(raw_view(raw@) =~= seq![(sub_type, value@)]);
    if sub_type != 0x01 {
        return Ok(AzureTlvs { private_endpoint_link_id: None, raw });
    }
    if value.len() != 4 {
        let mut reason = String::from_str("Azure Private Endpoint LinkID must be 4 bytes, got ");
        let n = decimal_string(value.len());
        reason.append(n.as_str());
        return Err(TlvParseError::InvalidValue { reason });
    }
    let id: u32 = ((value[3] as u32) << 24u32) | ((value[2] as u32) << 16u32) | ((value[1] as u32) << 8u32) | (value[0] as u32);
    Ok(AzureTlvs { private_endpoint_link_id: Some(id), raw })
}

/// Parses the value of a GCP TLV.
pub fn parse_gcp_tlv(data: &[u8]) -> (r: Result<GcpTlvs, TlvParseError>)
    ensures
        gcp_result_view(r) == spec_parse_gcp(data@),
{
    if data.len() != 8 {
        let mut reason = String::from_str("GCP PSC connection ID must be 8 bytes, got ");
        let n = decimal_string(data.len());
        reason.append(n.as_str());
        return Err(TlvParseError::InvalidValue { reason });
    }
    let hi: u32 = ((data[0] as u32) << 24u32) | ((data[1] as u32) << 16u32) | ((data[2] as u32) << 8u32) | (data[3] as u32);
    let lo: u32 = ((data[4] as u32) << 24u32) | ((data[5] as u32) << 16u32) | ((data[6] as u32) << 8u32) | (data[7] as u32);
    let id: u64 = (hi as u64) * 0x1_0000_0000u64 + (lo as u64);
    Ok(GcpTlvs { psc_connection_id: id })
}

/// The index of the first entry of `raw` with type `t`.
fn find_type(raw: &Vec<(u8, Vec<u8>)>, t: u8) -> (r: Option<usize>)
    ensures
        match first_of_type(raw_view(raw@), t) {
            Some(i) => r matches Some(k) && k as int == i,
            None => r is None,
        },
        r matches Some(i) ==> i < raw@.len(),
{
    let ghost rv = raw_view(raw@);
    let mut i: usize = 0;
    while i < raw.len()
        invariant
            i <= raw@.len(),
            rv == raw_view(raw@),
            rv.len() == raw@.len(),
            forall|j: int| 0 <= j < i ==> #[trigger] rv[j].0 != t,
        decreases raw@.len() - i,
    {
        assert(rv[i as int].0 == raw@[i as int].0);
        if raw[i].0 == t {
            assert(exists|k: int| 0 <= k < rv.len() && #[trigger] rv[k].0 == t);
            let ghost c = first_of_type(rv, t)->Some_0;
            assert(c == i) by {
                if c < i {
                    assert(rv[c].0 != t);
                } else if c > i {
                    assert(rv[i as int].0 != t);
                }
            }
            return Some(i);
        }
        i = i + 1;
    }
    None
}

impl Tlvs {
    /// The AWS TLV (0xEA), parsed: `None` when absent, the first one otherwise.
    pub fn aws(&self) -> (r: Option<Result<AwsTlvs, TlvParseError>>)
        ensures
            match first_of_type(self@.raw, 0xEA) {
                Some(i) => r matches Some(x) && aws_result_view(x) == spec_parse_aws(self@.raw[i].1),
                None => r is None,
            },
    {
        match find_type(&self.raw, 0xEA) {
            Some(i) => {
                assert(self@.raw[i as int].1 == self.raw@[i as int].1@);
                Some(parse_aws_tlv(self.raw[i].1.as_slice()))
            },
            None => None,
        }
    }

    /// The Azure TLV (0xEE), parsed: `None` when absent, the first one otherwise.
    pub fn azure(&self) -> (r: Option<Result<AzureTlvs, TlvParseError>>)
        ensures
            match first_of_type(self@.raw, 0xEE) {
                Some(i) => r matches Some(x) && azure_result_view(x) == spec_parse_azure(self@.raw[i].1),
                None => r is None,
            },
    {
        match find_type(&self.raw, 0xEE) {
            Some(i) => {
                assert(self@.raw[i as int].1 == self.raw@[i as int].1@);
                Some(parse_azure_tlv(self.raw[i].1.as_slice()))
            },
            None => None,
        }
    }

    /// The GCP Private Service Connect TLV (0xE0), parsed: `None` when absent,
    /// an error when the first one is not exactly 8 bytes.
    pub fn gcp(&self) -> (r: Option<Result<GcpTlvs, TlvParseError>>)
        ensures
            match first_of_type(self@.raw, 0xE0) {
                Some(i) => r matches Some(x) && gcp_result_view(x) == spec_parse_gcp(self@.raw[i].1),
                None => r is None,
            },
    {
        match find_type(&self.raw, 0xE0) {
            Some(i) => {
                assert(self@.raw[i as int].1 == self.raw@[i as int].1@);
                Some(parse_gcp_tlv(self.raw[i].1.as_slice()))
            },
            None => None,
        }
    }
}

} // verus!
