//! TLV extensions of a v2 header.

use vstd::prelude::*;

use crate::error::{InvalidReason, ParseError, ParseErrorView, malformed_tlv};
use crate::net::{be16, v4_value};
use crate::text::{bytes_to_string, text_of};
use crate::types::{
    SslClientFlags, SslInfo, SslInfoView, Tlvs, TlvsView, empty_ssl_view, empty_tlvs,
};

verus! {

/// The length field of the TLV at the start of `data`.
pub open spec fn tlv_len_at(data: Seq<u8>) -> int {
    be16(data[1], data[2]) as int
}

/// The big-endian `u32` made of four bytes.
pub open spec fn be32(b: Seq<u8>) -> u32 {
    v4_value(b[0], b[1], b[2], b[3])
}

/// What one sub-TLV of the SSL TLV sets.
pub open spec fn apply_sub_tlv(acc: SslInfoView, t: u8, v: Seq<u8>) -> SslInfoView {
    if t == 0x21 {
        SslInfoView { version: Some(text_of(v)), ..acc }
    } else if t == 0x22 {
        SslInfoView { cn: Some(text_of(v)), ..acc }
    } else if t == 0x23 {
        SslInfoView { cipher: Some(text_of(v)), ..acc }
    } else if t == 0x24 {
        SslInfoView { sig_alg: Some(text_of(v)), ..acc }
    } else if t == 0x25 {
        SslInfoView { key_alg: Some(text_of(v)), ..acc }
    } else if t == 0x26 {
        SslInfoView { group: Some(text_of(v)), ..acc }
    } else if t == 0x27 {
        SslInfoView { sig_scheme: Some(text_of(v)), ..acc }
    } else if t == 0x28 {
        SslInfoView { client_cert: Some(v), ..acc }
    } else {
        acc
    }
}

/// The sub-TLVs in `data`, which starts at `offset`, applied in order to `acc`.
pub open spec fn parse_sub_tlvs_from(data: Seq<u8>, offset: int, acc: SslInfoView) -> Result<
    SslInfoView,
    ParseErrorView,
>
    decreases data.len(),
{
    if data.len() == 0 {
        Ok(acc)
    } else if data.len() < 3 || data.len() < 3 + tlv_len_at(data) {
        Err(malformed_tlv(offset))
    } else {
        let l = tlv_len_at(data);
        parse_sub_tlvs_from(
            data.skip(3 + l),
            offset + 3 + l,
            apply_sub_tlv(acc, data[0], data.subrange(3, 3 + l)),
        )
    }
}

/// The SSL TLV value `data` (at least five bytes), found at `outer_offset`:
/// client flags, a verify word that is zero when verified, then sub-TLVs.
pub open spec fn spec_parse_ssl(data: Seq<u8>, outer_offset: int) -> Result<SslInfoView, ParseErrorView> {
    parse_sub_tlvs_from(
        data.skip(5),
        outer_offset + 5,
        empty_ssl_view(data[0] & 0x07, be32(data.subrange(1, 5)) == 0),
    )
}

/// What one TLV sets; every TLV is kept in `raw`.
pub open spec fn apply_tlv(acc0: TlvsView, t: u8, v: Seq<u8>, offset: int) -> Result<TlvsView, ParseErrorView> {
    let acc = TlvsView { raw: acc0.raw.push((t, v)), ..acc0 };
    if t == 0x01 {
        Ok(TlvsView { alpn: Some(v), ..acc })
    } else if t == 0x02 {
        Ok(TlvsView { authority: Some(text_of(v)), ..acc })
    } else if t == 0x03 {
        if v.len() != 4 {
            Err(malformed_tlv(offset))
        } else {
            Ok(TlvsView { crc32c: Some(be32(v)), ..acc })
        }
    } else if t == 0x05 {
        if v.len() > 128 {
            Err(malformed_tlv(offset))
        } else {
            Ok(TlvsView { unique_id: Some(v), ..acc })
        }
    } else if t == 0x20 {
        if v.len() < 5 {
            Err(malformed_tlv(offset))
        } else {
            match spec_parse_ssl(v, offset + 3) {
                Ok(s) => Ok(TlvsView { ssl: Some(s), ..acc }),
                Err(e) => Err(e),
            }
        }
    } else if t == 0x30 {
        Ok(TlvsView { netns: Some(text_of(v)), ..acc })
    } else {
        Ok(acc)
    }
}

/// The TLVs in `data`, which starts at `offset`, applied in order to `acc`.
pub open spec fn parse_tlvs_from(data: Seq<u8>, offset: int, acc: TlvsView) -> Result<
    TlvsView,
    ParseErrorView,
>
    decreases data.len(),
{
    if data.len() == 0 {
        Ok(acc)
    } else if data.len() < 3 || data.len() < 3 + tlv_len_at(data) {
        Err(malformed_tlv(offset))
    } else {
        let l = tlv_len_at(data);
        match apply_tlv(acc, data[0], data.subrange(3, 3 + l), offset) {
            Ok(a) => parse_tlvs_from(data.skip(3 + l), offset + 3 + l, a),
            Err(e) => Err(e),
        }
    }
}

/// The TLVs of `data`, the part of a v2 payload after the addresses.
pub open spec fn spec_parse_tlvs(data: Seq<u8>) -> Result<TlvsView, ParseErrorView> {
    parse_tlvs_from(data, 0, empty_tlvs())
}

pub open spec fn tlvs_result_view(r: Result<Tlvs, ParseError>) -> Result<TlvsView, ParseErrorView> {
    match r {
        Ok(t) => Ok(t@),
        Err(e) => Err(e@),
    }
}

pub open spec fn ssl_result_view(r: Result<SslInfo, ParseError>) -> Result<SslInfoView, ParseErrorView> {
    match r {
        Ok(s) => Ok(s@),
        Err(e) => Err(e@),
    }
}

/// Parses the SSL TLV value `data`, found at `outer_offset` of the TLV area.
pub fn parse_ssl(data: &[u8], outer_offset: usize) -> (r: Result<SslInfo, ParseError>)
    requires
        data@.len() >= 5,
        outer_offset + data@.len() + 3 <= usize::MAX,
    ensures
        ssl_result_view(r) == spec_parse_ssl(data@, outer_offset as int),
{
    let client_byte = data[0];
    let verify: u32 = ((data[1] as u32) << 24u32) | ((data[2] as u32) << 16u32) | ((data[3] as u32)
        << 8u32) | (data[4] as u32);
    assert(data@.subrange(1, 5)[0] == data[1] && data@.subrange(1, 5)[1] == data[2]
        && data@.subrange(1, 5)[2] == data[3] && data@.subrange(1, 5)[3] == data[4]);
    let client_flags = SslClientFlags::from_bits_truncate(client_byte);
    let mut ssl = SslInfo {
        client_flags,
        verified: verify == 0,
        version: None,
        cipher: None,
        sig_alg: None,
        key_alg: None,
        cn: None,
        group: None,
        sig_scheme: None,
        client_cert: None,
    };
    let mut pos: usize = 5;
    assert(ssl@ == empty_ssl_view(data@[0] & 0x07, be32(data@.subrange(1, 5)) == 0));
    while pos < data.len()
        invariant
            5 <= pos <= data@.len(),
            outer_offset + data@.len() + 3 <= usize::MAX,
            spec_parse_ssl(data@, outer_offset as int) == parse_sub_tlvs_from(
                data@.skip(pos as int),
                outer_offset + pos,
                ssl@,
            ),
        decreases data@.len() - pos,
    {
        let ghost rest = data@.skip(pos as int);
        if data.len() - pos < 3 {
            return Err(ParseError::Invalid(InvalidReason::MalformedTlv { offset: outer_offset + pos }));
        }
        let sub_type = data[pos];
        let sub_len = (data[pos + 1] as usize) * 256 + (data[pos + 2] as usize);
        assert(rest[0] == data@[pos as int] && rest[1] == data@[pos + 1] && rest[2] == data@[pos + 2]);
        assert(sub_len == tlv_len_at(rest));
        if data.len() - pos - 3 < sub_len {
            return Err(ParseError::Invalid(InvalidReason::MalformedTlv { offset: outer_offset + pos }));
        }
        let value = &data[pos + 3..pos + 3 + sub_len];
        assert(value@ == rest.subrange(3, 3 + sub_len));
        let ghost before = ssl@;
        if sub_type == 0x21 {
            ssl.version = Some(bytes_to_string(value));
        } else if sub_type == 0x22 {
            ssl.cn = Some(bytes_to_string(value));
        } else if sub_type == 0x23 {
            ssl.cipher = Some(bytes_to_string(value));
        } else if sub_type == 0x24 {
            ssl.sig_alg = Some(bytes_to_string(value));
        } else if sub_type == 0x25 {
            ssl.key_alg = Some(bytes_to_string(value));
        } else if sub_type == 0x26 {
            ssl.group = Some(bytes_to_string(value));
        } else if sub_type == 0x27 {
            ssl.sig_scheme = Some(bytes_to_string(value));
        } else if sub_type == 0x28 {
            ssl.client_cert = Some(vstd::slice::slice_to_vec(value));
        }
        assert(ssl@ == apply_sub_tlv(before, sub_type, value@));
        assert(rest.skip(3 + sub_len) =~= data@.skip(pos + 3 + sub_len));
        pos = pos + 3 + sub_len;
    }
    assert(data@.skip(pos as int) =~= Seq::<u8>::empty());
    Ok(ssl)
}

/// Parses the TLV extensions in `data` (the part of a v2 payload after the addresses).
pub fn parse_tlvs(data: &[u8]) -> (r: Result<Tlvs, ParseError>)
    requires
        data@.len() + 3 <= usize::MAX,
    ensures
        tlvs_result_view(r) == spec_parse_tlvs(data@),
{
    let mut tlvs = Tlvs::default();
    let mut pos: usize = 0;
    assert(data@.skip(0) =~= data@);
    while pos < data.len()
        invariant
            pos <= data@.len(),
            data@.len() + 3 <= usize::MAX,
            spec_parse_tlvs(data@) == parse_tlvs_from(data@.skip(pos as int), pos as int, tlvs@),
        decreases data@.len() - pos,
    {
        let ghost rest = data@.skip(pos as int);
        if data.len() - pos < 3 {
            return Err(ParseError::Invalid(InvalidReason::MalformedTlv { offset: pos }));
        }
        let tlv_type = data[pos];
        let tlv_len = (data[pos + 1] as usize) * 256 + (data[pos + 2] as usize);
        assert(rest[0] == data@[pos as int] && rest[1] == data@[pos + 1] && rest[2] == data@[pos + 2]);
        assert(tlv_len == tlv_len_at(rest));
        if data.len() - pos - 3 < tlv_len {
            return Err(ParseError::Invalid(InvalidReason::MalformedTlv { offset: pos }));
        }
        let value = &data[pos + 3..pos + 3 + tlv_len];
        assert(value@ == rest.subrange(3, 3 + tlv_len));
        let ghost before = tlvs@;
        tlvs.raw.push((tlv_type, vstd::slice::slice_to_vec(value)));
        assert(tlvs@.raw =~= before.raw.push((tlv_type, value@)));
        if tlv_type == 0x01 {
            tlvs.alpn = Some(vstd::slice::slice_to_vec(value));
        } else if tlv_type == 0x02 {
            tlvs.authority = Some(bytes_to_string(value));
        } else if tlv_type == 0x03 {
            if tlv_len != 4 {
                return Err(ParseError::Invalid(InvalidReason::MalformedTlv { offset: pos }));
            }
            let crc: u32 = ((value[0] as u32) << 24u32) | ((value[1] as u32) << 16u32) | ((
            value[2] as u32) << 8u32) | (value[3] as u32);
            tlvs.crc32c = Some(crc);
        } else if tlv_type == 0x05 {
            if tlv_len > 128 {
                return Err(ParseError::Invalid(InvalidReason::MalformedTlv { offset: pos }));
            }
            tlvs.unique_id = Some(vstd::slice::slice_to_vec(value));
        } else if tlv_type == 0x20 {
            if tlv_len < 5 {
                return Err(ParseError::Invalid(InvalidReason::MalformedTlv { offset: pos }));
            }
            match parse_ssl(value, pos + 3) {
                Ok(s) => {
                    tlvs.ssl = Some(s);
                },
                Err(e) => {
                    return Err(e);
                },
            }
        } else if tlv_type == 0x30 {
            tlvs.netns = Some(bytes_to_string(value));
        }
        assert(apply_tlv(before, tlv_type, value@, pos as int) == Ok::<TlvsView, ParseErrorView>(tlvs@));
        assert(rest.skip(3 + tlv_len) =~= data@.skip(pos + 3 + tlv_len));
        pos = pos + 3 + tlv_len;
    }
    assert(data@.skip(pos as int) =~= Seq::<u8>::empty());
    Ok(tlvs)
}

} // verus!
