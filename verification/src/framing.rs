//! How much of a buffer a header takes: the parser reads the bytes of the
//! header it returns and no others, and asks for more on any shorter piece.

use vstd::prelude::*;

use crate::error::ParseErrorView;
use crate::net::be16;
use crate::parse::{spec_parse, v1_prefix};
use crate::parse::v1::{crlf_from, lemma_crlf_from, spec_parse_v1};
use crate::parse::v2::{spec_compute_crc32c, spec_parse_v2, v2_signature};
use crate::types::ProxyInfoView;

verus! {

/// A `\r\n` found in one buffer is found at the same place in another that
/// agrees with it up to the end of the `\r\n`.
pub proof fn lemma_crlf_agree(b1: Seq<u8>, e1: int, b2: Seq<u8>, e2: int, i: int, m: int)
    requires
        0 <= i,
        e1 <= b1.len(),
        e2 <= b2.len(),
        crlf_from(b1, e1, i) == Some(m),
        m + 1 < e2,
        forall|j: int| 0 <= j < m + 2 ==> b1[j] == b2[j],
    ensures
        crlf_from(b2, e2, i) == Some(m),
    decreases e1 - i,
{
    lemma_crlf_from(b1, e1, i);
    assert(b2[i] == b1[i] && b2[i + 1] == b1[i + 1]);
    if i < m {
        lemma_crlf_agree(b1, e1, b2, e2, i + 1, m);
    }
}

/// No `\r\n` is found in a piece that ends before the end of the first
/// `\r\n` of a buffer it agrees with.
pub proof fn lemma_crlf_none_before(b1: Seq<u8>, e1: int, t: Seq<u8>, e2: int, i: int, m: int)
    requires
        0 <= i,
        e1 <= b1.len(),
        crlf_from(b1, e1, i) == Some(m),
        e2 <= m + 1,
        e2 <= t.len(),
        forall|j: int| 0 <= j < e2 ==> t[j] == b1[j],
    ensures
        crlf_from(t, e2, i) is None,
    decreases e1 - i,
{
    lemma_crlf_from(b1, e1, i);
    if i + 1 < e2 {
        assert(t[i] == b1[i] && t[i + 1] == b1[i + 1]);
        lemma_crlf_none_before(b1, e1, t, e2, i + 1, m);
    }
}

/// The first `\r\n` of an accepted v1 header ends its line: the header takes
/// the line and the `\r\n`, and the line starts after `PROXY `.
pub proof fn lemma_v1_line_end(buf: Seq<u8>)
    requires
        buf.len() >= 6,
        buf.take(6) == v1_prefix(),
        spec_parse_v1(buf) is Ok,
    ensures
        ({
            let end = if buf.len() < 107 { buf.len() as int } else { 107 };
            let n = spec_parse_v1(buf)->Ok_0.1;
            &&& crlf_from(buf, end, 0) == Some(n - 2)
            &&& 8 <= n <= end
        }),
{
    let end: int = if buf.len() < 107 { buf.len() as int } else { 107 };
    lemma_crlf_from(buf, end, 0);
    let m = crlf_from(buf, end, 0)->Some_0;
    if m < 6 {
        assert(buf.take(6)[m] == buf[m]);
        assert(v1_prefix()[m] != 0x0D);
    }
}

/// A v1 header is read from the bytes it takes alone.
pub proof fn lemma_v1_agree(b1: Seq<u8>, b2: Seq<u8>)
    requires
        b1.len() >= 6,
        b1.take(6) == v1_prefix(),
        spec_parse_v1(b1) is Ok,
        b2.len() >= spec_parse_v1(b1)->Ok_0.1,
        b2.take(spec_parse_v1(b1)->Ok_0.1) == b1.take(spec_parse_v1(b1)->Ok_0.1),
    ensures
        spec_parse_v1(b2) == spec_parse_v1(b1),
{
    lemma_v1_line_end(b1);
    let n = spec_parse_v1(b1)->Ok_0.1;
    let m = n - 2;
    let e1: int = if b1.len() < 107 { b1.len() as int } else { 107 };
    let e2: int = if b2.len() < 107 { b2.len() as int } else { 107 };
    assert forall|j: int| 0 <= j < m + 2 implies b1[j] == b2[j] by {
        assert(b1.take(n)[j] == b1[j] && b2.take(n)[j] == b2[j]);
    }
    lemma_crlf_agree(b1, e1, b2, e2, 0, m);
    assert(b2.take(m) =~= b1.take(m));
}

/// A v2 header is read from the bytes it takes alone.
#[verifier::rlimit(40)]
pub proof fn lemma_v2_agree(b1: Seq<u8>, b2: Seq<u8>)
    requires
        spec_parse_v2(b1) is Ok,
        b2.len() >= spec_parse_v2(b1)->Ok_0.1,
        b2.take(spec_parse_v2(b1)->Ok_0.1) == b1.take(spec_parse_v2(b1)->Ok_0.1),
    ensures
        spec_parse_v2(b2) == spec_parse_v2(b1),
{
    let total_len = 16 + be16(b1[14], b1[15]) as int;
    assert(spec_parse_v2(b1)->Ok_0.1 == total_len);
    assert(b2[12] == b2.take(total_len)[12] && b2[13] == b2.take(total_len)[13]);
    assert(b2[14] == b2.take(total_len)[14] && b2[15] == b2.take(total_len)[15]);
    assert(b1[12] == b1.take(total_len)[12] && b1[13] == b1.take(total_len)[13]);
    assert(b1[14] == b1.take(total_len)[14] && b1[15] == b1.take(total_len)[15]);
    assert(b2.subrange(16, total_len) =~= b1.subrange(16, total_len)) by {
        assert(b2.subrange(16, total_len) =~= b2.take(total_len).subrange(16, total_len));
        assert(b1.subrange(16, total_len) =~= b1.take(total_len).subrange(16, total_len));
    }
    assert forall|t: int| 16 <= t <= 16 + total_len implies spec_compute_crc32c(b2, total_len, t) == spec_compute_crc32c(b1, total_len, t) by {}
}

/// A header is read from the bytes it takes alone: any buffer that starts
/// with them gives the same header and the same length.
pub proof fn lemma_parse_agree(b1: Seq<u8>, b2: Seq<u8>)
    requires
        spec_parse(b1) is Ok,
        b2.len() >= spec_parse(b1)->Ok_0.1,
        b2.take(spec_parse(b1)->Ok_0.1) == b1.take(spec_parse(b1)->Ok_0.1),
    ensures
        spec_parse(b2) == spec_parse(b1),
{
    let n = spec_parse(b1)->Ok_0.1;
    if b1[0] == 0x0D {
        assert(spec_parse_v2(b1) is Ok);
        assert(n >= 16);
        assert(b2.take(12) =~= b1.take(12)) by {
            assert(b2.take(12) =~= b2.take(n).take(12));
            assert(b1.take(12) =~= b1.take(n).take(12));
        }
        assert(b2[0] == b2.take(12)[0] && b1[0] == b1.take(12)[0]);
        lemma_v2_agree(b1, b2);
    } else {
        assert(b1[0] == 0x50);
        assert(spec_parse_v1(b1) is Ok);
        lemma_v1_line_end(b1);
        assert(b2.take(6) =~= b1.take(6)) by {
            assert(b2.take(6) =~= b2.take(n).take(6));
            assert(b1.take(6) =~= b1.take(n).take(6));
        }
        assert(b2[0] == b2.take(6)[0] && b1[0] == b1.take(6)[0]);
        lemma_v1_agree(b1, b2);
    }
}

/// What follows a header is never read: the bytes the header takes, followed
/// by any other bytes, give the same header and the same length.
pub proof fn law_leftover_ignored(buf: Seq<u8>, extra: Seq<u8>)
    requires
        spec_parse(buf) is Ok,
    ensures
        spec_parse(buf) matches Ok((info, n)) && n <= buf.len()
            && spec_parse(buf.take(n) + extra) == Ok::<(ProxyInfoView, int), ParseErrorView>((info, n)),
{
    let n = spec_parse(buf)->Ok_0.1;
    crate::laws::law_consumed_within(buf);
    let b2 = buf.take(n) + extra;
    assert(b2.take(n) =~= buf.take(n));
    lemma_parse_agree(buf, b2);
}

/// Every strict prefix of an accepted header, the empty one included, is too
/// short to tell: parsing it asks for more bytes.
pub proof fn law_truncated_incomplete(buf: Seq<u8>, k: int)
    requires
        spec_parse(buf) is Ok,
        0 <= k < spec_parse(buf)->Ok_0.1,
    ensures
        spec_parse(buf.take(k)) == Err::<(ProxyInfoView, int), ParseErrorView>(ParseErrorView::Incomplete),
{
    let n = spec_parse(buf)->Ok_0.1;
    crate::laws::law_consumed_within(buf);
    let t = buf.take(k);
    if k > 0 {
        assert(t[0] == buf[0]);
        if buf[0] == 0x0D {
            if k >= 12 {
                assert(t.take(12) =~= buf.take(12));
                if k >= 16 {
                    assert(t[12] == buf[12] && t[13] == buf[13] && t[14] == buf[14] && t[15] == buf[15]);
                }
            }
        } else {
            assert(buf[0] == 0x50);
            if k >= 6 {
                assert(t.take(6) =~= buf.take(6));
                lemma_v1_line_end(buf);
                let end: int = if buf.len() < 107 { buf.len() as int } else { 107 };
                lemma_crlf_none_before(buf, end, t, k, 0, n - 2);
            }
        }
    }
}

} // verus!
