//! Facts about the text forms of numbers and addresses: what the writers
//! produce, the readers read back.

use vstd::prelude::*;

use crate::iptext::{
    dec, digit_value, has_at, hex, hex_char, join_hex, read_dec_u8, read_groups, read_hex_u16,
    read_ipv4, read_ipv6, read_sep_hex, read_sep_ipv4, run_end, run_value, v4_text, v6_text,
    v4_groups, zero_run_scan, longest_zero_run, is_v4_mapped, spec_parse_ip, ip_text,
};
use crate::net::{IpAddr, v6_segments, v6_value, lemma_v6_value_of_segments};
use crate::net::{lemma_v4_value_of_octets, v4_octets, v4_value};

verus! {

/// Whether a byte is a decimal digit.
pub open spec fn is_dec_digit(b: u8) -> bool {
    0x30 <= b <= 0x39
}

/// The decimal text of a number: digits only, one to five of them below
/// 100000, and no leading zero.
pub proof fn lemma_dec_shape(n: nat)
    ensures
        dec(n).len() >= 1,
        forall|i: int| 0 <= i < dec(n).len() ==> is_dec_digit(#[trigger] dec(n)[i]),
        n >= 1 ==> dec(n)[0] != 0x30,
        n < 10 ==> dec(n).len() == 1,
        n < 100 ==> dec(n).len() <= 2,
        n < 1000 ==> dec(n).len() <= 3,
        n < 10000 ==> dec(n).len() <= 4,
        n < 100000 ==> dec(n).len() <= 5,
    decreases n,
{
    if n >= 10 {
        lemma_dec_shape(n / 10);
        let p = dec(n / 10);
        assert(dec(n) == p.push((0x30 + n % 10) as u8));
        assert forall|i: int| 0 <= i < dec(n).len() implies is_dec_digit(#[trigger] dec(n)[i]) by {
            if i < p.len() {
                assert(dec(n)[i] == p[i]);
            }
        }
        assert(dec(n)[0] == p[0]);
    }
}

/// A run of digits that ends where the next byte is no digit.
pub proof fn lemma_run_end_at(s: Seq<u8>, a: int, e: int, hex: bool)
    requires
        0 <= a <= e <= s.len(),
        forall|j: int| a <= j < e ==> digit_value(#[trigger] s[j], hex) is Some,
        e == s.len() || digit_value(s[e], hex) is None,
    ensures
        run_end(s, a, hex) == e,
    decreases e - a,
{
    if a < e {
        lemma_run_end_at(s, a + 1, e, hex);
    }
}

/// The decimal text of `n` reads back as `n`.
pub proof fn lemma_dec_value(s: Seq<u8>, a: int, n: nat)
    requires
        0 <= a,
        a + dec(n).len() <= s.len(),
        s.subrange(a, a + dec(n).len()) == dec(n),
    ensures
        run_value(s, a, a + dec(n).len(), false) == n,
    decreases n,
{
    let e = a + dec(n).len();
    assert(s[e - 1] == s.subrange(a, e)[e - 1 - a]);
    if n < 10 {
        assert(run_value(s, a, a, false) == 0);
    } else {
        let p = dec(n / 10);
        assert(dec(n) == p.push((0x30 + n % 10) as u8));
        assert(s.subrange(a, a + p.len()) =~= p) by {
            assert forall|k: int| 0 <= k < p.len() implies #[trigger] s.subrange(a, a + p.len())[k] == p[k] by {
                assert(s.subrange(a, e)[k] == dec(n)[k]);
            }
        }
        lemma_dec_value(s, a, n / 10);
        assert(n == (n / 10) * 10 + n % 10);
    }
}

/// The hexadecimal digit of `d` is a digit of value `d`.
pub proof fn lemma_hex_char(d: nat)
    requires
        d < 16,
    ensures
        digit_value(hex_char(d), true) == Some(d as int),
        digit_value(hex_char(d), false) is Some <==> d < 10,
{
}

/// The hexadecimal text of a number: hex digits only, one to four of them
/// below 65536.
pub proof fn lemma_hex_shape(n: nat)
    ensures
        hex(n).len() >= 1,
        forall|i: int| 0 <= i < hex(n).len() ==> digit_value(#[trigger] hex(n)[i], true) is Some,
        n < 16 ==> hex(n).len() == 1,
        n < 256 ==> hex(n).len() <= 2,
        n < 4096 ==> hex(n).len() <= 3,
        n < 65536 ==> hex(n).len() <= 4,
    decreases n,
{
    if n >= 16 {
        lemma_hex_shape(n / 16);
        let p = hex(n / 16);
        lemma_hex_char(n % 16);
        assert(hex(n) == p.push(hex_char(n % 16)));
        assert forall|i: int| 0 <= i < hex(n).len() implies digit_value(#[trigger] hex(n)[i], true) is Some by {
            if i < p.len() {
                assert(hex(n)[i] == p[i]);
            }
        }
    } else {
        lemma_hex_char(n);
    }
}

/// The hexadecimal text of `n` reads back as `n`.
pub proof fn lemma_hex_value(s: Seq<u8>, a: int, n: nat)
    requires
        0 <= a,
        a + hex(n).len() <= s.len(),
        s.subrange(a, a + hex(n).len()) == hex(n),
    ensures
        run_value(s, a, a + hex(n).len(), true) == n,
    decreases n,
{
    let e = a + hex(n).len();
    assert(s[e - 1] == s.subrange(a, e)[e - 1 - a]);
    if n < 16 {
        lemma_hex_char(n);
        assert(run_value(s, a, a, true) == 0);
    } else {
        let p = hex(n / 16);
        lemma_hex_char(n % 16);
        assert(hex(n) == p.push(hex_char(n % 16)));
        assert(s.subrange(a, a + p.len()) =~= p) by {
            assert forall|k: int| 0 <= k < p.len() implies #[trigger] s.subrange(a, a + p.len())[k] == p[k] by {
                assert(s.subrange(a, e)[k] == hex(n)[k]);
            }
        }
        lemma_hex_value(s, a, n / 16);
        assert(n == (n / 16) * 16 + n % 16);
    }
}

/// A decimal byte value written at `a`, followed by no digit, reads back.
pub proof fn lemma_read_dec_u8(s: Seq<u8>, a: int, o: u8)
    requires
        0 <= a,
        a + dec(o as nat).len() <= s.len(),
        s.subrange(a, a + dec(o as nat).len()) == dec(o as nat),
        a + dec(o as nat).len() == s.len() || !is_dec_digit(s[a + dec(o as nat).len()]),
    ensures
        read_dec_u8(s, a) == Some((o, a + dec(o as nat).len())),
{
    let t = dec(o as nat);
    let e = a + t.len();
    lemma_dec_shape(o as nat);
    assert forall|j: int| a <= j < e implies digit_value(#[trigger] s[j], false) is Some by {
        assert(s[j] == s.subrange(a, e)[j - a]);
        assert(is_dec_digit(t[j - a]));
    }
    lemma_run_end_at(s, a, e, false);
    lemma_dec_value(s, a, o as nat);
    assert(s[a] == t[0]) by {
        assert(s.subrange(a, e)[0] == s[a]);
    }
}

/// A hexadecimal group written at `a`, followed by no hex digit, reads back.
pub proof fn lemma_read_hex_u16(s: Seq<u8>, a: int, g: u16)
    requires
        0 <= a,
        a + hex(g as nat).len() <= s.len(),
        s.subrange(a, a + hex(g as nat).len()) == hex(g as nat),
        a + hex(g as nat).len() == s.len() || digit_value(s[a + hex(g as nat).len()], true) is None,
    ensures
        read_hex_u16(s, a) == Some((g, a + hex(g as nat).len())),
{
    let t = hex(g as nat);
    let e = a + t.len();
    lemma_hex_shape(g as nat);
    assert forall|j: int| a <= j < e implies digit_value(#[trigger] s[j], true) is Some by {
        assert(s[j] == s.subrange(a, e)[j - a]);
        assert(digit_value(t[j - a], true) is Some);
    }
    lemma_run_end_at(s, a, e, true);
    lemma_hex_value(s, a, g as nat);
}

/// The dotted-quad text of an IPv4 address, at the end of `s`, reads back.
pub proof fn lemma_read_v4_text(pre: Seq<u8>, x: u32)
    ensures
        read_ipv4(pre + v4_text(x), pre.len() as int) == Some((x, (pre + v4_text(x)).len() as int)),
{
    let o = v4_octets(x);
    let d0 = dec(o[0] as nat);
    let d1 = dec(o[1] as nat);
    let d2 = dec(o[2] as nat);
    let d3 = dec(o[3] as nat);
    let dot = seq![0x2Eu8];
    let s = pre + v4_text(x);
    assert(s =~= pre + d0 + dot + d1 + dot + d2 + dot + d3);
    let a0 = pre.len() as int;
    let a1 = a0 + d0.len() + 1;
    let a2 = a1 + d1.len() + 1;
    let a3 = a2 + d2.len() + 1;
    lemma_dec_shape(o[0] as nat);
    lemma_dec_shape(o[1] as nat);
    lemma_dec_shape(o[2] as nat);
    lemma_dec_shape(o[3] as nat);
    assert(s.subrange(a0, a0 + d0.len()) =~= d0);
    assert(s[a0 + d0.len()] == 0x2E);
    lemma_read_dec_u8(s, a0, o[0]);
    assert(s.subrange(a1, a1 + d1.len()) =~= d1);
    assert(s[a1 + d1.len()] == 0x2E);
    lemma_read_dec_u8(s, a1, o[1]);
    assert(s.subrange(a2, a2 + d2.len()) =~= d2);
    assert(s[a2 + d2.len()] == 0x2E);
    lemma_read_dec_u8(s, a2, o[2]);
    assert(s.subrange(a3, a3 + d3.len()) =~= d3);
    assert(a3 + d3.len() == s.len());
    lemma_read_dec_u8(s, a3, o[3]);
    assert(has_at(s, a0 + d0.len(), 0x2E));
    assert(has_at(s, a1 + d1.len(), 0x2E));
    assert(has_at(s, a2 + d2.len(), 0x2E));
    lemma_v4_value_of_octets(x);
}


/// Whether `s` holds no `.`.
pub open spec fn no_dot(s: Seq<u8>) -> bool {
    forall|k: int| 0 <= k < s.len() ==> #[trigger] s[k] != 0x2E
}

/// Without a `.`, no IPv4 address can be read.
pub proof fn lemma_no_ipv4(s: Seq<u8>, pos: int)
    requires
        no_dot(s),
    ensures
        read_ipv4(s, pos) is None,
{
}

/// The text of hexadecimal groups as they follow group `i` of an address:
/// a colon first unless it is the first group.
pub open spec fn groups_text(i: int, g: Seq<u16>) -> Seq<u8> {
    if g.len() == 0 {
        Seq::empty()
    } else if i > 0 {
        seq![0x3Au8] + join_hex(g)
    } else {
        join_hex(g)
    }
}

/// The text of groups is the first group's text, after a colon unless it is
/// the first group, then the text of the others.
pub proof fn lemma_groups_text_front(i: int, g: Seq<u16>)
    requires
        g.len() > 0,
        i >= 0,
    ensures
        groups_text(i, g) == (if i > 0 { seq![0x3Au8] } else { Seq::<u8>::empty() }) + hex(g[0] as nat) + groups_text(i + 1, g.drop_first()),
{
    if g.len() == 1 {
        assert(g.drop_first().len() == 0);
        assert(join_hex(g) == hex(g[0] as nat));
    } else {
        assert(join_hex(g) == hex(g[0] as nat) + seq![0x3Au8] + join_hex(g.drop_first()));
    }
    let r = g.drop_first();
    if r.len() == 0 {
        assert(groups_text(i + 1, r) == Seq::<u8>::empty());
    } else {
        assert(groups_text(i + 1, r) == seq![0x3Au8] + join_hex(r));
    }
    if i > 0 {
        assert(groups_text(i, g) == seq![0x3Au8] + join_hex(g));
        assert(groups_text(i, g) =~= seq![0x3Au8] + hex(g[0] as nat) + groups_text(i + 1, r));
    } else {
        assert(groups_text(i, g) == join_hex(g));
        assert(groups_text(i, g) =~= Seq::<u8>::empty() + hex(g[0] as nat) + groups_text(i + 1, r));
    }
}

/// Where a run of groups stops: the end of the text, or a `::`.
pub open spec fn stops_at(s: Seq<u8>, p: int) -> bool {
    p == s.len() || (p + 1 < s.len() && s[p] == 0x3A && s[p + 1] == 0x3A)
}

/// Reading groups at a stop finds nothing more.
pub proof fn lemma_groups_stop(s: Seq<u8>, p: int, i: int, limit: int)
    requires
        0 <= p <= s.len(),
        no_dot(s),
        stops_at(s, p),
        0 <= i < limit,
    ensures
        read_groups(s, p, i, limit) == (Seq::<u16>::empty(), p, false),
{
    lemma_no_ipv4(s, p);
    lemma_no_ipv4(s, p + 1);
    if p < s.len() {
        lemma_run_end_at(s, p + 1, p + 1, true);
        lemma_run_end_at(s, p, p, true);
    } else {
        lemma_run_end_at(s, p, p, true);
    }
    assert(read_sep_ipv4(s, p, i) is None);
    assert(read_sep_hex(s, p, i) is None);
}

/// Hexadecimal groups written from `pos` read back as those groups, up to the
/// stop that follows them.
pub proof fn lemma_read_groups(s: Seq<u8>, pos: int, i: int, limit: int, g: Seq<u16>)
    requires
        0 <= pos,
        0 <= i,
        i + g.len() <= limit,
        pos + groups_text(i, g).len() <= s.len(),
        s.subrange(pos, pos + groups_text(i, g).len()) == groups_text(i, g),
        no_dot(s),
        i + g.len() < limit ==> stops_at(s, pos + groups_text(i, g).len()),
        i + g.len() == limit ==> pos + groups_text(i, g).len() == s.len() || s[pos + groups_text(i, g).len()] == 0x3A,
    ensures
        read_groups(s, pos, i, limit) == (g, pos + groups_text(i, g).len(), false),
    decreases g.len(),
{
    let t = groups_text(i, g);
    if g.len() == 0 {
        if i < limit {
            lemma_groups_stop(s, pos, i, limit);
        }
        assert(g =~= Seq::<u16>::empty());
    } else {
        lemma_groups_text_front(i, g);
        let sep: int = if i > 0 { 1 } else { 0 };
        let h = hex(g[0] as nat);
        let rest = groups_text(i + 1, g.drop_first());
        let q = pos + sep + h.len();
        lemma_hex_shape(g[0] as nat);
        assert(t.len() == sep + h.len() + rest.len());
        assert forall|k: int| 0 <= k < t.len() implies #[trigger] s[pos + k] == t[k] by {
            assert(s.subrange(pos, pos + t.len())[k] == s[pos + k]);
        }
        if i > 0 {
            assert(s[pos] == t[0]);
        }
        assert(s.subrange(pos + sep, q) =~= h) by {
            assert forall|k: int| 0 <= k < h.len() implies #[trigger] s.subrange(pos + sep, q)[k] == h[k] by {
                assert(s[pos + sep + k] == t[sep + k]);
            }
        }
        assert(q == s.len() || s[q] == 0x3A) by {
            if rest.len() > 0 {
                assert(s[q] == t[sep + h.len()]);
            } else {
                assert(q == pos + t.len());
                if i + g.len() < limit {
                    assert(stops_at(s, q));
                }
            }
        }
        lemma_read_hex_u16(s, pos + sep, g[0]);
        assert(read_sep_hex(s, pos, i) == Some((g[0], q)));
        lemma_no_ipv4(s, pos);
        lemma_no_ipv4(s, pos + 1);
        assert(s.subrange(q, q + rest.len()) =~= rest) by {
            assert forall|k: int| 0 <= k < rest.len() implies #[trigger] s.subrange(q, q + rest.len())[k] == rest[k] by {
                assert(s[q + k] == t[sep + h.len() + k]);
            }
        }
        lemma_read_groups(s, q, i + 1, limit, g.drop_first());
        assert(seq![g[0]] + g.drop_first() =~= g);
    }
}


/// Whether `r` is a run of zero groups of `segs` that ends by `i`.
pub open spec fn zero_run(segs: Seq<u16>, r: (int, int), i: int) -> bool {
    r.1 >= 0 && (r.1 > 0 ==> 0 <= r.0 && r.0 + r.1 <= i && forall|j: int| r.0 <= j < r.0 + r.1 ==> #[trigger] segs[j] == 0)
}

/// The longest zero run found by the scan is a run of zero groups.
pub proof fn lemma_zero_run_scan(segs: Seq<u16>, i: int, cur: (int, int), best: (int, int))
    requires
        0 <= i <= segs.len(),
        zero_run(segs, cur, i),
        cur.1 > 0 ==> cur.0 + cur.1 == i,
        zero_run(segs, best, i),
        best.0 >= 0,
    ensures
        zero_run(segs, zero_run_scan(segs, i, cur, best), segs.len() as int),
        zero_run_scan(segs, i, cur, best).0 >= 0,
    decreases segs.len() - i,
{
    if i < segs.len() {
        if segs[i] == 0 {
            let cur2 = if cur.1 == 0 { (i, 1) } else { (cur.0, cur.1 + 1) };
            let best2 = if cur2.1 > best.1 { cur2 } else { best };
            assert(zero_run(segs, cur2, i + 1));
            assert(zero_run(segs, best2, i + 1));
            lemma_zero_run_scan(segs, i + 1, cur2, best2);
        } else {
            lemma_zero_run_scan(segs, i + 1, (0, 0), best);
        }
    }
}

/// Every byte of the joined hexadecimal text of groups is a hex digit or a colon.
pub proof fn lemma_join_hex_bytes(g: Seq<u16>)
    ensures
        forall|k: int| 0 <= k < join_hex(g).len() ==> #[trigger] join_hex(g)[k] == 0x3A || digit_value(join_hex(g)[k], true) is Some,
    decreases g.len(),
{
    if g.len() > 0 {
        lemma_hex_shape(g[0] as nat);
        if g.len() > 1 {
            lemma_join_hex_bytes(g.drop_first());
            let h = hex(g[0] as nat);
            let t = join_hex(g.drop_first());
            assert(join_hex(g) == h + seq![0x3Au8] + t);
            assert forall|k: int| 0 <= k < join_hex(g).len() implies #[trigger] join_hex(g)[k] == 0x3A || digit_value(join_hex(g)[k], true) is Some by {
                if k < h.len() {
                    assert(join_hex(g)[k] == h[k]);
                } else if k > h.len() {
                    assert(join_hex(g)[k] == t[k - h.len() - 1]);
                }
            }
        }
    }
}

/// The two groups of a `u32` split in halves read back as those halves.
pub proof fn lemma_v4_groups_halves(a: u16, b: u16)
    ensures
        v4_groups(((a as u32) * 65536 + b as u32) as u32) == seq![a, b],
{
    let v = ((a as u32) * 65536 + b as u32) as u32;
    assert(((((v >> 24u32) & 0xffu32) as u8) as u16) * 256 + ((((v >> 16u32) & 0xffu32) as u8) as u16) == a
        && ((((v >> 8u32) & 0xffu32) as u8) as u16) * 256 + (((v & 0xffu32) as u8) as u16) == b) by (bit_vector)
        requires v == ((a as u32) * 65536 + b as u32) as u32;
    assert(v4_groups(v) =~= seq![a, b]);
}


/// A text made of hexadecimal digits and colons holds no `.`.
pub proof fn lemma_hex_text_no_dot(s: Seq<u8>)
    requires
        forall|k: int| 0 <= k < s.len() ==> #[trigger] s[k] == 0x3A || digit_value(s[k], true) is Some,
    ensures
        no_dot(s),
{
    assert forall|k: int| 0 <= k < s.len() implies #[trigger] s[k] != 0x2E by {
        assert(s[k] == 0x3A || digit_value(s[k], true) is Some);
    }
}

/// The IPv6 text with no `::` reads back.
pub proof fn lemma_v6_full(x: u128)
    requires
        !is_v4_mapped(v6_segments(x)),
        longest_zero_run(v6_segments(x)).1 <= 1,
    ensures
        spec_parse_ip(v6_text(x)) == Some(IpAddr::V6(x)),
{
    let segs = v6_segments(x);
    let s = v6_text(x);
    assert(s == join_hex(segs));
    lemma_join_hex_bytes(segs);
    lemma_hex_text_no_dot(s);
    lemma_no_ipv4(s, 0);
    assert(groups_text(0, segs) == s);
    assert(s.subrange(0, s.len() as int) =~= s);
    lemma_read_groups(s, 0, 0, 8, segs);
    lemma_v6_value_of_segments(x);
}

/// The IPv6 text with the longest run of zero groups written `::` reads back.
#[verifier::rlimit(30)]
pub proof fn lemma_v6_compressed(x: u128)
    requires
        !is_v4_mapped(v6_segments(x)),
        longest_zero_run(v6_segments(x)).1 > 1,
    ensures
        spec_parse_ip(v6_text(x)) == Some(IpAddr::V6(x)),
{
    let segs = v6_segments(x);
    let (start, len) = longest_zero_run(segs);
    lemma_zero_run_scan(segs, 0, (0, 0), (0, 0));
    let a = segs.take(start);
    let b = segs.skip(start + len);
    let ja = join_hex(a);
    let jb = join_hex(b);
    let s = v6_text(x);
    assert(s == ja + seq![0x3Au8, 0x3A] + jb);
    lemma_join_hex_bytes(a);
    lemma_join_hex_bytes(b);
    assert forall|k: int| 0 <= k < s.len() implies #[trigger] s[k] == 0x3A || digit_value(s[k], true) is Some by {
        if k < ja.len() {
            assert(s[k] == ja[k]);
        } else if k >= ja.len() + 2 {
            assert(s[k] == jb[k - ja.len() - 2]);
        }
    }
    lemma_hex_text_no_dot(s);
    lemma_no_ipv4(s, 0);
    let p = ja.len() as int;
    assert(groups_text(0, a) == ja);
    assert(s.subrange(0, p) =~= ja);
    assert(s[p] == 0x3A && s[p + 1] == 0x3A);
    lemma_read_groups(s, 0, 0, 8, a);
    assert(groups_text(0, b) == jb);
    assert(s.subrange(p + 2, p + 2 + jb.len()) =~= jb);
    lemma_read_groups(s, p + 2, 0, 8 - (a.len() + 1), b);
    let filled = a + Seq::new((8 - a.len() - b.len()) as nat, |j: int| 0u16) + b;
    assert(filled =~= segs) by {
        assert forall|j: int| 0 <= j < 8 implies #[trigger] filled[j] == segs[j] by {
            if j < start {
                assert(filled[j] == a[j]);
            } else if j < start + len {
                assert(segs[j] == 0);
            } else {
                assert(filled[j] == b[j - start - len]);
            }
        }
    }
    lemma_v6_value_of_segments(x);
}

/// An IPv4-mapped IPv6 address, written `::ffff:a.b.c.d`, reads back.
#[verifier::rlimit(30)]
pub proof fn lemma_v6_mapped(x: u128)
    requires
        is_v4_mapped(v6_segments(x)),
    ensures
        spec_parse_ip(v6_text(x)) == Some(IpAddr::V6(x)),
{
    let segs = v6_segments(x);
    let v = ((segs[6] as u32) * 65536 + segs[7] as u32) as u32;
    let pre = seq![0x3Au8, 0x3A, 0x66, 0x66, 0x66, 0x66, 0x3A];
    let s = v6_text(x);
    assert(s == pre + v4_text(v));
    assert(s[0] == 0x3A && s[1] == 0x3A && s[2] == 0x66 && s[3] == 0x66 && s[4] == 0x66 && s[5] == 0x66 && s[6] == 0x3A);
    lemma_run_end_at(s, 0, 0, false);
    lemma_run_end_at(s, 0, 0, true);
    lemma_run_end_at(s, 2, 2, false);
    assert(read_ipv4(s, 0) is None);
    assert(read_groups(s, 0, 0, 8) == (Seq::<u16>::empty(), 0int, false));
    assert(hex(65535) == seq![0x66u8, 0x66, 0x66, 0x66]) by {
        reveal_with_fuel(hex, 5);
    }
    assert(s.subrange(2, 6) =~= hex(65535));
    lemma_read_hex_u16(s, 2, 0xffff);
    assert(read_ipv4(s, 2) is None);
    lemma_read_v4_text(pre, v);
    lemma_v4_groups_halves(segs[6], segs[7]);
    assert(read_groups(s, 6, 1, 7) == (v4_groups(v), s.len() as int, true));
    assert(read_groups(s, 2, 0, 7) == (seq![0xffffu16] + v4_groups(v), s.len() as int, true));
    let filled = Seq::<u16>::empty() + Seq::new(5, |j: int| 0u16) + (seq![0xffffu16] + v4_groups(v));
    assert(filled =~= segs);
    lemma_v6_value_of_segments(x);
}

/// The text of an IP address reads back as that address.
pub proof fn lemma_ip_text_roundtrip(ip: IpAddr)
    ensures
        spec_parse_ip(ip_text(ip)) == Some(ip),
{
    reveal(ip_text);
    match ip {
        IpAddr::V4(x) => {
            lemma_read_v4_text(Seq::empty(), x);
            assert(Seq::<u8>::empty() + v4_text(x) =~= v4_text(x));
        },
        IpAddr::V6(x) => {
            if is_v4_mapped(v6_segments(x)) {
                lemma_v6_mapped(x);
            } else if longest_zero_run(v6_segments(x)).1 > 1 {
                lemma_v6_compressed(x);
            } else {
                lemma_v6_full(x);
            }
        },
    }
}


/// Whether a byte is printable ASCII other than a space.
pub open spec fn visible(b: u8) -> bool {
    0x21 <= b <= 0x7E
}

/// Whether every byte of `s` is visible.
pub open spec fn all_visible(s: Seq<u8>) -> bool {
    forall|k: int| 0 <= k < s.len() ==> visible(#[trigger] s[k])
}

/// The joined hexadecimal text of groups is visible and at most five bytes a group.
pub proof fn lemma_join_hex_len(g: Seq<u16>)
    ensures
        join_hex(g).len() <= 5 * g.len(),
        all_visible(join_hex(g)),
    decreases g.len(),
{
    lemma_join_hex_bytes(g);
    if g.len() > 0 {
        lemma_hex_shape(g[0] as nat);
        if g.len() > 1 {
            lemma_join_hex_len(g.drop_first());
            assert(join_hex(g) == hex(g[0] as nat) + seq![0x3Au8] + join_hex(g.drop_first()));
        }
    }
    assert forall|k: int| 0 <= k < join_hex(g).len() implies visible(#[trigger] join_hex(g)[k]) by {
        assert(join_hex(g)[k] == 0x3A || digit_value(join_hex(g)[k], true) is Some);
    }
}

/// The dotted-quad text of an IPv4 address is visible, seven to fifteen bytes.
pub proof fn lemma_v4_text_shape(x: u32)
    ensures
        all_visible(v4_text(x)),
        1 <= v4_text(x).len() <= 15,
{
    let o = crate::net::v4_octets(x);
    lemma_dec_shape(o[0] as nat);
    lemma_dec_shape(o[1] as nat);
    lemma_dec_shape(o[2] as nat);
    lemma_dec_shape(o[3] as nat);
    let d0 = dec(o[0] as nat);
    let d1 = dec(o[1] as nat);
    let d2 = dec(o[2] as nat);
    let d3 = dec(o[3] as nat);
    let t = v4_text(x);
    assert(t == d0 + seq![0x2Eu8] + d1 + seq![0x2Eu8] + d2 + seq![0x2Eu8] + d3);
    assert forall|k: int| 0 <= k < t.len() implies visible(#[trigger] t[k]) by {
        let a1 = d0.len() + 1;
        let a2 = a1 + d1.len() + 1;
        let a3 = a2 + d2.len() + 1;
        if k < d0.len() {
            assert(t[k] == d0[k] && is_dec_digit(d0[k]));
        } else if d0.len() < k < a1 + d1.len() {
            assert(t[k] == d1[k - a1] && is_dec_digit(d1[k - a1]));
        } else if a1 + d1.len() < k < a2 + d2.len() {
            assert(t[k] == d2[k - a2] && is_dec_digit(d2[k - a2]));
        } else if a2 + d2.len() < k < a3 + d3.len() {
            assert(t[k] == d3[k - a3] && is_dec_digit(d3[k - a3]));
        }
    }
}

/// The text of an IP address is visible ASCII, one to forty bytes.
pub proof fn lemma_ip_text_shape(ip: IpAddr)
    ensures
        all_visible(ip_text(ip)),
        1 <= ip_text(ip).len() <= 40,
{
    reveal(ip_text);
    match ip {
        IpAddr::V4(x) => lemma_v4_text_shape(x),
        IpAddr::V6(x) => {
            let segs = v6_segments(x);
            let t = v6_text(x);
            if is_v4_mapped(segs) {
                let v = ((segs[6] as u32) * 65536 + segs[7] as u32) as u32;
                let pre = seq![0x3Au8, 0x3A, 0x66, 0x66, 0x66, 0x66, 0x3A];
                lemma_v4_text_shape(v);
                assert(t == pre + v4_text(v));
                assert forall|k: int| 0 <= k < t.len() implies visible(#[trigger] t[k]) by {
                    if k >= 7 {
                        assert(t[k] == v4_text(v)[k - 7]);
                    }
                }
            } else {
                let (start, len) = longest_zero_run(segs);
                lemma_zero_run_scan(segs, 0, (0, 0), (0, 0));
                if len > 1 {
                    let a = segs.take(start);
                    let b = segs.skip(start + len);
                    lemma_join_hex_len(a);
                    lemma_join_hex_len(b);
                    let ja = join_hex(a);
                    let jb = join_hex(b);
                    assert(t == ja + seq![0x3Au8, 0x3A] + jb);
                    assert forall|k: int| 0 <= k < t.len() implies visible(#[trigger] t[k]) by {
                        if k < ja.len() {
                            assert(t[k] == ja[k]);
                        } else if k >= ja.len() + 2 {
                            assert(t[k] == jb[k - ja.len() - 2]);
                        }
                    }
                } else {
                    lemma_join_hex_len(segs);
                    lemma_hex_shape(segs[0] as nat);
                    assert(join_hex(segs) == hex(segs[0] as nat) + seq![0x3Au8] + join_hex(segs.drop_first()));
                }
            }
        },
    }
}

} // verus!
