//! The textual forms of IP addresses and ports used by v1 headers: reading
//! them the way the standard library's address parser does, and writing them
//! the way its `Display` implementations do.

use vstd::prelude::*;

use crate::net::{IpAddr, v4_octets, v4_value, v6_segments, v6_value};

verus! {

/// The value of `c` as a digit in base 10 or 16 (either letter case), if it is one.
pub open spec fn digit_value(c: u8, hex: bool) -> Option<int> {
    if 0x30 <= c <= 0x39 {
        Some(c - 0x30)
    } else if hex && 0x61 <= c <= 0x66 {
        Some(c - 0x61 + 10)
    } else if hex && 0x41 <= c <= 0x46 {
        Some(c - 0x41 + 10)
    } else {
        None
    }
}

pub open spec fn radix(hex: bool) -> int {
    if hex { 16 } else { 10 }
}

/// The end of the run of digits that starts at `pos`.
pub open spec fn run_end(s: Seq<u8>, pos: int, hex: bool) -> int
    decreases s.len() - pos,
{
    if 0 <= pos < s.len() && digit_value(s[pos], hex) is Some {
        run_end(s, pos + 1, hex)
    } else {
        pos
    }
}

/// The number written by the digits of `s` from `start` up to `end`.
pub open spec fn run_value(s: Seq<u8>, start: int, end: int, hex: bool) -> int
    decreases end - start,
{
    if end <= start {
        0
    } else {
        run_value(s, start, end - 1, hex) * radix(hex) + digit_value(s[end - 1], hex).unwrap()
    }
}

/// A decimal IPv4 part at `pos`: one to three digits, no leading zero, at most 255.
pub open spec fn read_dec_u8(s: Seq<u8>, pos: int) -> Option<(u8, int)> {
    let e = run_end(s, pos, false);
    let k = e - pos;
    if k == 0 || k > 3 {
        None
    } else if s[pos] == 0x30 && k > 1 {
        None
    } else if run_value(s, pos, e, false) > 255 {
        None
    } else {
        Some((run_value(s, pos, e, false) as u8, e))
    }
}

/// A hexadecimal IPv6 group at `pos`: one to four digits.
pub open spec fn read_hex_u16(s: Seq<u8>, pos: int) -> Option<(u16, int)> {
    let e = run_end(s, pos, true);
    let k = e - pos;
    if k == 0 || k > 4 {
        None
    } else {
        Some((run_value(s, pos, e, true) as u16, e))
    }
}

/// Whether `s` holds `c` at `pos`.
pub open spec fn has_at(s: Seq<u8>, pos: int, c: u8) -> bool {
    0 <= pos < s.len() && s[pos] == c
}

/// A dotted-quad IPv4 address at `pos`.
pub open spec fn read_ipv4(s: Seq<u8>, pos: int) -> Option<(u32, int)> {
    match read_dec_u8(s, pos) {
        None => None,
        Some((a, p1)) => if !has_at(s, p1, 0x2E) {
            None
        } else {
            match read_dec_u8(s, p1 + 1) {
                None => None,
                Some((b, p2)) => if !has_at(s, p2, 0x2E) {
                    None
                } else {
                    match read_dec_u8(s, p2 + 1) {
                        None => None,
                        Some((c, p3)) => if !has_at(s, p3, 0x2E) {
                            None
                        } else {
                            match read_dec_u8(s, p3 + 1) {
                                None => None,
                                Some((d, p4)) => Some((v4_value(a, b, c, d), p4)),
                            }
                        },
                    }
                },
            }
        },
    }
}

/// An IPv4 address preceded by a colon unless it is the first group.
pub open spec fn read_sep_ipv4(s: Seq<u8>, pos: int, i: int) -> Option<(u32, int)> {
    if i > 0 {
        if has_at(s, pos, 0x3A) { read_ipv4(s, pos + 1) } else { None }
    } else {
        read_ipv4(s, pos)
    }
}

/// A hexadecimal group preceded by a colon unless it is the first group.
pub open spec fn read_sep_hex(s: Seq<u8>, pos: int, i: int) -> Option<(u16, int)> {
    if i > 0 {
        if has_at(s, pos, 0x3A) { read_hex_u16(s, pos + 1) } else { None }
    } else {
        read_hex_u16(s, pos)
    }
}

/// The two 16-bit groups of an embedded IPv4 address.
pub open spec fn v4_groups(v: u32) -> Seq<u16> {
    let o = v4_octets(v);
    seq![((o[0] as u16) * 256 + o[1] as u16) as u16, ((o[2] as u16) * 256 + o[3] as u16) as u16]
}

/// Groups `i` up to `limit` of an IPv6 address: each group may be an embedded
/// IPv4 address, which ends the groups, when at least two groups are left.
/// Gives the groups read, where reading stopped, and whether an IPv4 address ended them.
pub open spec fn read_groups(s: Seq<u8>, pos: int, i: int, limit: int) -> (Seq<u16>, int, bool)
    decreases limit - i,
{
    if i >= limit {
        (Seq::empty(), pos, false)
    } else {
        match (if i < limit - 1 { read_sep_ipv4(s, pos, i) } else { None }) {
            Some((v, p)) => (v4_groups(v), p, true),
            None => match read_sep_hex(s, pos, i) {
                None => (Seq::empty(), pos, false),
                Some((g, p)) => {
                    let rest = read_groups(s, p, i + 1, limit);
                    (seq![g] + rest.0, rest.1, rest.2)
                },
            },
        }
    }
}

/// An IPv6 address at `pos`: up to eight groups, or groups, `::` and more groups.
pub open spec fn read_ipv6(s: Seq<u8>, pos: int) -> Option<(u128, int)> {
    let (head, p, head_ipv4) = read_groups(s, pos, 0, 8);
    if head.len() == 8 {
        Some((v6_value(head), p))
    } else if head_ipv4 {
        None
    } else if !(has_at(s, p, 0x3A) && has_at(s, p + 1, 0x3A)) {
        None
    } else {
        let (tail, p2, _) = read_groups(s, p + 2, 0, 8 - (head.len() + 1));
        let segs = head + Seq::new((8 - head.len() - tail.len()) as nat, |j: int| 0u16) + tail;
        Some((v6_value(segs), p2))
    }
}

/// The IP address written in `s`: an IPv4 address when one starts `s` (then it
/// must be all of `s`), otherwise an IPv6 address that is all of `s`.
pub open spec fn spec_parse_ip(s: Seq<u8>) -> Option<IpAddr> {
    match read_ipv4(s, 0) {
        Some((v, p)) => if p == s.len() { Some(IpAddr::V4(v)) } else { None },
        None => match read_ipv6(s, 0) {
            Some((v, p)) => if p == s.len() { Some(IpAddr::V6(v)) } else { None },
            None => None,
        },
    }
}

/// Decimal digits of `n`, without leading zeros.
pub open spec fn dec(n: nat) -> Seq<u8>
    decreases n,
{
    if n < 10 {
        seq![(0x30 + n) as u8]
    } else {
        dec(n / 10).push((0x30 + n % 10) as u8)
    }
}

/// The ASCII lowercase hexadecimal digit of `d` (below 16).
pub open spec fn hex_char(d: nat) -> u8 {
    if d < 10 { (0x30 + d) as u8 } else { (0x61 + d - 10) as u8 }
}

/// Lowercase hexadecimal digits of `n`, without leading zeros.
pub open spec fn hex(n: nat) -> Seq<u8>
    decreases n,
{
    if n < 16 {
        seq![hex_char(n)]
    } else {
        hex(n / 16).push(hex_char(n % 16))
    }
}

/// `a.b.c.d`.
pub open spec fn v4_text(x: u32) -> Seq<u8> {
    let o = v4_octets(x);
    dec(o[0] as nat) + seq![0x2Eu8] + dec(o[1] as nat) + seq![0x2Eu8] + dec(o[2] as nat) + seq![0x2Eu8] + dec(o[3] as nat)
}

/// Groups in hexadecimal joined by colons.
pub open spec fn join_hex(segs: Seq<u16>) -> Seq<u8>
    decreases segs.len(),
{
    if segs.len() == 0 {
        Seq::empty()
    } else if segs.len() == 1 {
        hex(segs[0] as nat)
    } else {
        hex(segs[0] as nat) + seq![0x3Au8] + join_hex(segs.drop_first())
    }
}

/// The first longest run of zero groups at or after `i`, given the current run
/// and the longest so far, as (start, length).
pub open spec fn zero_run_scan(segs: Seq<u16>, i: int, cur: (int, int), best: (int, int)) -> (int, int)
    decreases segs.len() - i,
{
    if i >= segs.len() || i < 0 {
        best
    } else if segs[i] == 0 {
        let cur2 = if cur.1 == 0 { (i, 1) } else { (cur.0, cur.1 + 1) };
        let best2 = if cur2.1 > best.1 { cur2 } else { best };
        zero_run_scan(segs, i + 1, cur2, best2)
    } else {
        zero_run_scan(segs, i + 1, (0, 0), best)
    }
}

/// The first longest run of zero groups, as (start, length).
pub open spec fn longest_zero_run(segs: Seq<u16>) -> (int, int) {
    zero_run_scan(segs, 0, (0, 0), (0, 0))
}

/// Whether the address is an IPv4-mapped one (`::ffff:a.b.c.d`).
pub open spec fn is_v4_mapped(segs: Seq<u16>) -> bool {
    segs[0] == 0 && segs[1] == 0 && segs[2] == 0 && segs[3] == 0 && segs[4] == 0 && segs[5] == 0xffff
}

/// The IPv6 text form: IPv4-mapped addresses as `::ffff:a.b.c.d`; otherwise the
/// groups in hexadecimal, the first longest run of two or more zero groups written `::`.
pub open spec fn v6_text(x: u128) -> Seq<u8> {
    let segs = v6_segments(x);
    if is_v4_mapped(segs) {
        seq![0x3Au8, 0x3A, 0x66, 0x66, 0x66, 0x66, 0x3A] + v4_text(((segs[6] as u32) * 65536 + segs[7] as u32) as u32)
    } else {
        let (start, len) = longest_zero_run(segs);
        if len > 1 {
            join_hex(segs.take(start)) + seq![0x3Au8, 0x3A] + join_hex(segs.skip(start + len))
        } else {
            join_hex(segs)
        }
    }
}

/// The text form of an IP address.
#[verifier::opaque]
pub open spec fn ip_text(ip: IpAddr) -> Seq<u8> {
    match ip {
        IpAddr::V4(x) => v4_text(x),
        IpAddr::V6(x) => v6_text(x),
    }
}

// ---------------------------------------------------------------- reading

fn digit_of(c: u8, hex: bool) -> (r: Option<u32>)
    ensures
        match digit_value(c, hex) {
            Some(d) => r == Some(d as u32),
            None => r is None,
        },
        r matches Some(d) ==> d < radix(hex),
{
    if 0x30 <= c && c <= 0x39 {
        Some((c - 0x30) as u32)
    } else if hex && 0x61 <= c && c <= 0x66 {
        Some((c - 0x61 + 10) as u32)
    } else if hex && 0x41 <= c && c <= 0x46 {
        Some((c - 0x41 + 10) as u32)
    } else {
        None
    }
}

/// `radix(hex)` to the power `n`.
pub open spec fn rpow(hex: bool, n: nat) -> int
    decreases n,
{
    if n == 0 { 1 } else { rpow(hex, (n - 1) as nat) * radix(hex) }
}

proof fn lemma_run_value_bound(s: Seq<u8>, start: int, end: int, hex: bool)
    requires
        start <= end,
        forall|j: int| start <= j < end ==> 0 <= j < s.len() && digit_value(#[trigger] s[j], hex) is Some,
    ensures
        0 <= run_value(s, start, end, hex) < rpow(hex, (end - start) as nat),
    decreases end - start,
{
    if end > start {
        lemma_run_value_bound(s, start, end - 1, hex);
        let v = run_value(s, start, end - 1, hex);
        let d = digit_value(s[end - 1], hex).unwrap();
        let p = rpow(hex, (end - 1 - start) as nat);
        let r = radix(hex);
        assert(0 <= d < r);
        assert(v * r + d < p * r) by (nonlinear_arith)
            requires 0 <= v < p, 0 <= d < r;
        assert(0 <= v * r + d) by (nonlinear_arith)
            requires 0 <= v, 0 <= d, 0 < r;
    }
}

proof fn lemma_run_end(s: Seq<u8>, pos: int, hex: bool)
    requires
        0 <= pos <= s.len(),
    ensures
        pos <= run_end(s, pos, hex) <= s.len(),
        forall|j: int| pos <= j < run_end(s, pos, hex) ==> digit_value(#[trigger] s[j], hex) is Some,
        run_end(s, pos, hex) < s.len() ==> digit_value(s[run_end(s, pos, hex)], hex) is None,
    decreases s.len() - pos,
{
    if pos < s.len() && digit_value(s[pos], hex) is Some {
        lemma_run_end(s, pos + 1, hex);
    }
}

/// Reads a run of digits at `pos` as the standard parser does; `max` is the
/// most digits allowed.
fn read_number(s: &[u8], pos: usize, hex: bool) -> (r: Option<(u32, usize)>)
    requires
        pos <= s@.len(),
    ensures
        r is None <==> (run_end(s@, pos as int, hex) == pos || run_end(s@, pos as int, hex) - pos > 4),
        r matches Some((v, e)) ==> e == run_end(s@, pos as int, hex) && v == run_value(s@, pos as int, e as int, hex)
            && pos < e <= s@.len() && e - pos <= 4 && v < rpow(hex, (e - pos) as nat),
{
    proof { lemma_run_end(s@, pos as int, hex); }
    let mut e = pos;
    while e < s.len() && digit_of(s[e], hex).is_some()
        invariant
            pos <= e <= s@.len(),
            run_end(s@, pos as int, hex) == run_end(s@, e as int, hex),
        decreases s@.len() - e,
    {
        e = e + 1;
    }
    if e == pos || e - pos > 4 {
        return None;
    }
    proof {
        lemma_run_value_bound(s@, pos as int, e as int, hex);
        reveal_with_fuel(rpow, 5);
        assert(rpow(hex, 4) <= 65536);
    }
    let mut v: u32 = 0;
    let mut j = pos;
    while j < e
        invariant
            pos <= j <= e,
            e - pos <= 4,
            e == run_end(s@, pos as int, hex),
            e <= s@.len(),
            forall|i: int| pos <= i < e ==> digit_value(#[trigger] s@[i], hex) is Some,
            v == run_value(s@, pos as int, j as int, hex),
            rpow(hex, 4) <= 65536,
        decreases e - j,
    {
        proof {
            lemma_run_value_bound(s@, pos as int, j + 1, hex);
            lemma_rpow_mono(hex, (j + 1 - pos) as nat, 4);
        }
        let d = digit_of(s[j], hex).unwrap();
        let r: u32 = if hex { 16 } else { 10 };
        assert(v * r + d == run_value(s@, pos as int, j + 1, hex));
        v = v * r + d;
        j = j + 1;
    }
    Some((v, e))
}

proof fn lemma_rpow_mono(hex: bool, a: nat, b: nat)
    requires
        a <= b,
    ensures
        1 <= rpow(hex, a) <= rpow(hex, b),
    decreases b,
{
    if b > a {
        lemma_rpow_mono(hex, a, (b - 1) as nat);
        assert(rpow(hex, (b - 1) as nat) <= rpow(hex, (b - 1) as nat) * radix(hex)) by (nonlinear_arith)
            requires rpow(hex, (b - 1) as nat) >= 1, radix(hex) >= 10;
    } else if a > 0 {
        lemma_rpow_mono(hex, 0, (a - 1) as nat);
        assert(rpow(hex, (a - 1) as nat) <= rpow(hex, (a - 1) as nat) * radix(hex)) by (nonlinear_arith)
            requires rpow(hex, (a - 1) as nat) >= 1, radix(hex) >= 10;
    }
}

fn exec_read_dec_u8(s: &[u8], pos: usize) -> (r: Option<(u8, usize)>)
    requires
        pos <= s@.len(),
    ensures
        match read_dec_u8(s@, pos as int) {
            Some((v, p)) => r == Some((v, p as usize)),
            None => r is None,
        },
{
    proof { lemma_run_end(s@, pos as int, false); }
    match read_number(s, pos, false) {
        None => None,
        Some((v, e)) => {
            if e - pos > 3 {
                None
            } else if s[pos] == 0x30 && e - pos > 1 {
                None
            } else if v > 255 {
                None
            } else {
                Some((v as u8, e))
            }
        },
    }
}

fn exec_read_hex_u16(s: &[u8], pos: usize) -> (r: Option<(u16, usize)>)
    requires
        pos <= s@.len(),
    ensures
        match read_hex_u16(s@, pos as int) {
            Some((v, p)) => r == Some((v, p as usize)),
            None => r is None,
        },
{
    proof { lemma_run_end(s@, pos as int, true); }
    match read_number(s, pos, true) {
        None => None,
        Some((v, e)) => {
            proof {
                lemma_rpow_mono(true, (e - pos) as nat, 4);
                reveal_with_fuel(rpow, 5);
                assert(rpow(true, 4) == 65536);
            }
            Some((v as u16, e))
        },
    }
}

fn exec_read_ipv4(s: &[u8], pos: usize) -> (r: Option<(u32, usize)>)
    requires
        pos <= s@.len(),
    ensures
        match read_ipv4(s@, pos as int) {
            Some((v, p)) => r == Some((v, p as usize)),
            None => r is None,
        },
{
    proof { lemma_run_end(s@, pos as int, false); }
    let (a, p1) = match exec_read_dec_u8(s, pos) {
        Some(x) => x,
        None => return None,
    };
    if !(p1 < s.len() && s[p1] == 0x2E) {
        return None;
    }
    proof { lemma_run_end(s@, p1 + 1, false); }
    let (b, p2) = match exec_read_dec_u8(s, p1 + 1) {
        Some(x) => x,
        None => return None,
    };
    if !(p2 < s.len() && s[p2] == 0x2E) {
        return None;
    }
    proof { lemma_run_end(s@, p2 + 1, false); }
    let (c, p3) = match exec_read_dec_u8(s, p2 + 1) {
        Some(x) => x,
        None => return None,
    };
    if !(p3 < s.len() && s[p3] == 0x2E) {
        return None;
    }
    let (d, p4) = match exec_read_dec_u8(s, p3 + 1) {
        Some(x) => x,
        None => return None,
    };
    Some((((a as u32) << 24u32) | ((b as u32) << 16u32) | ((c as u32) << 8u32) | (d as u32), p4))
}

proof fn lemma_read_dec_u8_bound(s: Seq<u8>, pos: int)
    requires
        0 <= pos <= s.len(),
    ensures
        read_dec_u8(s, pos) matches Some((v, p)) ==> pos < p <= s.len(),
{
    lemma_run_end(s, pos, false);
}

proof fn lemma_read_ipv4_bound(s: Seq<u8>, pos: int)
    requires
        0 <= pos <= s.len(),
    ensures
        read_ipv4(s, pos) matches Some((v, p)) ==> pos < p <= s.len(),
{
    lemma_read_dec_u8_bound(s, pos);
    if let Some((a, p1)) = read_dec_u8(s, pos) {
        if has_at(s, p1, 0x2E) {
            lemma_read_dec_u8_bound(s, p1 + 1);
            if let Some((b, p2)) = read_dec_u8(s, p1 + 1) {
                if has_at(s, p2, 0x2E) {
                    lemma_read_dec_u8_bound(s, p2 + 1);
                    if let Some((c, p3)) = read_dec_u8(s, p2 + 1) {
                        if has_at(s, p3, 0x2E) {
                            lemma_read_dec_u8_bound(s, p3 + 1);
                        }
                    }
                }
            }
        }
    }
}

proof fn lemma_read_hex_bound(s: Seq<u8>, pos: int)
    requires
        0 <= pos <= s.len(),
    ensures
        read_hex_u16(s, pos) matches Some((v, p)) ==> pos < p <= s.len(),
{
    lemma_run_end(s, pos, true);
}

proof fn lemma_read_groups_bound(s: Seq<u8>, pos: int, i: int, limit: int)
    requires
        0 <= pos <= s.len(),
        0 <= i,
    ensures
        pos <= read_groups(s, pos, i, limit).1 <= s.len(),
        i <= limit ==> i + read_groups(s, pos, i, limit).0.len() <= limit,
        i > limit ==> read_groups(s, pos, i, limit).0.len() == 0,
    decreases limit - i,
{
    if i < limit {
        if i < limit - 1 {
            if i > 0 {
                if has_at(s, pos, 0x3A) {
                    lemma_read_ipv4_bound(s, pos + 1);
                }
            } else {
                lemma_read_ipv4_bound(s, pos);
            }
        }
        if i > 0 {
            if has_at(s, pos, 0x3A) {
                lemma_read_hex_bound(s, pos + 1);
            }
        } else {
            lemma_read_hex_bound(s, pos);
        }
        if let Some((g, p)) = read_sep_hex(s, pos, i) {
            lemma_read_groups_bound(s, p, i + 1, limit);
        }
    }
}

fn groups_of_v4(v: u32) -> (g: Vec<u16>)
    ensures
        g@ == v4_groups(v),
{
    let mut g: Vec<u16> = Vec::new();
    g.push(((v >> 16u32) & 0xffffu32) as u16);
    g.push((v & 0xffffu32) as u16);
    proof {
        let o = v4_octets(v);
        let (o0, o1, o2, o3) = (o[0], o[1], o[2], o[3]);
        assert(((v >> 16u32) & 0xffffu32) as u16 == ((o0 as u16) * 256 + o1 as u16) as u16
            && (v & 0xffffu32) as u16 == ((o2 as u16) * 256 + o3 as u16) as u16) by (bit_vector)
            requires o0 == ((v >> 24u32) & 0xffu32) as u8, o1 == ((v >> 16u32) & 0xffu32) as u8,
                o2 == ((v >> 8u32) & 0xffu32) as u8, o3 == (v & 0xffu32) as u8;
        assert(g@ =~= v4_groups(v));
    }
    g
}

/// `o` with its position as a `usize`.
pub open spec fn at_usize<T>(o: Option<(T, int)>) -> Option<(T, usize)> {
    match o {
        Some((v, p)) => Some((v, p as usize)),
        None => None,
    }
}

fn exec_read_sep_ipv4(s: &[u8], pos: usize, i: usize) -> (r: Option<(u32, usize)>)
    requires
        pos <= s@.len(),
    ensures
        r == at_usize(read_sep_ipv4(s@, pos as int, i as int)),
        r matches Some((_, p)) ==> pos <= p <= s@.len(),
{
    let _len = s.len();
    proof {
        lemma_read_ipv4_bound(s@, pos as int);
        if pos < s@.len() {
            lemma_read_ipv4_bound(s@, pos + 1);
        }
    }
    if i > 0 {
        if pos < s.len() && s[pos] == 0x3A {
            exec_read_ipv4(s, pos + 1)
        } else {
            None
        }
    } else {
        exec_read_ipv4(s, pos)
    }
}

fn exec_read_sep_hex(s: &[u8], pos: usize, i: usize) -> (r: Option<(u16, usize)>)
    requires
        pos <= s@.len(),
    ensures
        r == at_usize(read_sep_hex(s@, pos as int, i as int)),
        r matches Some((_, p)) ==> pos <= p <= s@.len(),
{
    let _len = s.len();
    proof {
        lemma_read_hex_bound(s@, pos as int);
        if pos < s@.len() {
            lemma_read_hex_bound(s@, pos + 1);
        }
    }
    if i > 0 {
        if pos < s.len() && s[pos] == 0x3A {
            exec_read_hex_u16(s, pos + 1)
        } else {
            None
        }
    } else {
        exec_read_hex_u16(s, pos)
    }
}

fn exec_read_groups(s: &[u8], pos: usize, i: usize, limit: usize) -> (r: (Vec<u16>, usize, bool))
    requires
        pos <= s@.len(),
        limit <= 8,
    ensures
        r.0@ == read_groups(s@, pos as int, i as int, limit as int).0,
        r.1 == read_groups(s@, pos as int, i as int, limit as int).1,
        r.2 == read_groups(s@, pos as int, i as int, limit as int).2,
    decreases limit - i,
{
    let ghost spec_r = read_groups(s@, pos as int, i as int, limit as int);
    let _len = s.len();
    proof {
        lemma_read_ipv4_bound(s@, pos as int);
        lemma_read_hex_bound(s@, pos as int);
        if pos < s@.len() {
            lemma_read_ipv4_bound(s@, pos + 1);
            lemma_read_hex_bound(s@, pos + 1);
        }
    }
    if i >= limit {
        let empty: Vec<u16> = Vec::new();
        assert(empty@ =~= spec_r.0);
        return (empty, pos, false);
    }
    let v4 = if i + 1 < limit {
        exec_read_sep_ipv4(s, pos, i)
    } else {
        None
    };
    if let Some((v, p)) = v4 {
        let g = groups_of_v4(v);
        return (g, p, true);
    }
    match exec_read_sep_hex(s, pos, i) {
        None => {
            let empty: Vec<u16> = Vec::new();
            assert(empty@ =~= spec_r.0);
            (empty, pos, false)
        },
        Some((g, p)) => {
            let (rest, p2, f) = exec_read_groups(s, p, i + 1, limit);
            let mut out: Vec<u16> = Vec::new();
            out.push(g);
            let mut rest = rest;
            out.append(&mut rest);
            assert(out@ =~= spec_r.0);
            (out, p2, f)
        },
    }
}

proof fn lemma_read_ipv6_bound(s: Seq<u8>, pos: int)
    requires
        0 <= pos <= s.len(),
    ensures
        read_ipv6(s, pos) matches Some((v, p)) ==> pos <= p <= s.len(),
{
    lemma_read_groups_bound(s, pos, 0, 8);
    let (head, p, _) = read_groups(s, pos, 0, 8);
    if p + 2 <= s.len() {
        lemma_read_groups_bound(s, p + 2, 0, 8 - (head.len() + 1));
    }
}

fn exec_read_ipv6(s: &[u8], pos: usize) -> (r: Option<(u128, usize)>)
    requires
        pos <= s@.len(),
    ensures
        match read_ipv6(s@, pos as int) {
            Some((v, p)) => r == Some((v, p as usize)),
            None => r is None,
        },
{
    proof { lemma_read_groups_bound(s@, pos as int, 0, 8); }
    let (head, p, head_ipv4) = exec_read_groups(s, pos, 0, 8);
    let mut segs: Vec<u16> = Vec::new();
    let mut p_end = p;
    if head.len() == 8 {
        segs = head;
    } else {
        if head_ipv4 {
            return None;
        }
        if !(p < s.len() && s[p] == 0x3A && p + 1 < s.len() && s[p + 1] == 0x3A) {
            return None;
        }
        proof { lemma_read_groups_bound(s@, p + 2, 0, 8 - (head@.len() + 1)); }
        let (tail, p2, _) = exec_read_groups(s, p + 2, 0, 8 - (head.len() + 1));
        let ghost zeros = Seq::new((8 - head@.len() - tail@.len()) as nat, |j: int| 0u16);
        let nz = 8 - head.len() - tail.len();
        let mut k: usize = 0;
        let mut head = head;
        segs.append(&mut head);
        while k < nz
            invariant
                k <= nz,
                nz == 8 - read_groups(s@, pos as int, 0, 8).0.len() - tail@.len(),
                segs@ == read_groups(s@, pos as int, 0, 8).0 + Seq::new(k as nat, |j: int| 0u16),
            decreases nz - k,
        {
            segs.push(0);
            k = k + 1;
            assert(segs@ =~= read_groups(s@, pos as int, 0, 8).0 + Seq::new(k as nat, |j: int| 0u16));
        }
        let mut tail = tail;
        segs.append(&mut tail);
        p_end = p2;
    }
    assert(segs@.len() == 8);
    let v = ((segs[0] as u128) << 112u128) | ((segs[1] as u128) << 96u128) | ((segs[2] as u128) << 80u128)
        | ((segs[3] as u128) << 64u128) | ((segs[4] as u128) << 48u128) | ((segs[5] as u128) << 32u128)
        | ((segs[6] as u128) << 16u128) | (segs[7] as u128);
    Some((v, p_end))
}

/// Reads an IP address written in `s` as the standard library's parser does.
pub fn parse_ip(s: &[u8]) -> (r: Option<IpAddr>)
    ensures
        r == spec_parse_ip(s@),
{
    proof {
        lemma_read_ipv4_bound(s@, 0);
        lemma_read_ipv6_bound(s@, 0);
    }
    match exec_read_ipv4(s, 0) {
        Some((v, p)) => if p == s.len() {
            Some(IpAddr::V4(v))
        } else {
            None
        },
        None => match exec_read_ipv6(s, 0) {
            Some((v, p)) => if p == s.len() {
                Some(IpAddr::V6(v))
            } else {
                None
            },
            None => None,
        },
    }
}

// ---------------------------------------------------------------- writing

/// The decimal digits of `n`.
pub fn dec_bytes(n: u32) -> (r: Vec<u8>)
    ensures
        r@ == dec(n as nat),
    decreases n,
{
    if n < 10 {
        let mut v: Vec<u8> = Vec::new();
        v.push((0x30 + n) as u8);
        v
    } else {
        let mut v = dec_bytes(n / 10);
        v.push((0x30 + n % 10) as u8);
        v
    }
}

/// The lowercase hexadecimal digits of `n`.
pub fn hex_bytes(n: u32) -> (r: Vec<u8>)
    ensures
        r@ == hex(n as nat),
    decreases n,
{
    if n < 16 {
        let mut v: Vec<u8> = Vec::new();
        v.push(if n < 10 { (0x30 + n) as u8 } else { (0x61 + n - 10) as u8 });
        v
    } else {
        let mut v = hex_bytes(n / 16);
        let d = n % 16;
        v.push(if d < 10 { (0x30 + d) as u8 } else { (0x61 + d - 10) as u8 });
        v
    }
}

/// Appends `b` to `out`.
fn push_all(out: &mut Vec<u8>, b: Vec<u8>)
    ensures
        final(out)@ == old(out)@ + b@,
{
    let mut b = b;
    out.append(&mut b);
}

/// `a.b.c.d` for an IPv4 address.
pub fn v4_text_bytes(x: u32) -> (r: Vec<u8>)
    ensures
        r@ == v4_text(x),
{
    let mut out = dec_bytes((x >> 24u32) & 0xffu32);
    out.push(0x2E);
    push_all(&mut out, dec_bytes((x >> 16u32) & 0xffu32));
    out.push(0x2E);
    push_all(&mut out, dec_bytes((x >> 8u32) & 0xffu32));
    out.push(0x2E);
    push_all(&mut out, dec_bytes(x & 0xffu32));
    proof {
        let o = v4_octets(x);
        assert(((x >> 24u32) & 0xffu32) < 256 && ((x >> 16u32) & 0xffu32) < 256 && ((x >> 8u32) & 0xffu32) < 256 && (x & 0xffu32) < 256) by (bit_vector);
        assert(o[0] as nat == ((x >> 24u32) & 0xffu32) as nat);
        assert(out@ =~= v4_text(x));
    }
    out
}

/// The groups `segs[i..end]` in hexadecimal joined by colons.
fn join_hex_bytes(segs: &Vec<u16>, i: usize, end: usize) -> (r: Vec<u8>)
    requires
        i <= end <= segs@.len(),
    ensures
        r@ == join_hex(segs@.subrange(i as int, end as int)),
    decreases end - i,
{
    let ghost part = segs@.subrange(i as int, end as int);
    if i == end {
        let v: Vec<u8> = Vec::new();
        assert(v@ =~= join_hex(part));
        v
    } else if i + 1 == end {
        hex_bytes(segs[i] as u32)
    } else {
        let mut out = hex_bytes(segs[i] as u32);
        out.push(0x3A);
        push_all(&mut out, join_hex_bytes(segs, i + 1, end));
        assert(part.drop_first() =~= segs@.subrange(i + 1, end as int));
        out
    }
}

/// The eight segments of an IPv6 address.
pub fn segments_of(x: u128) -> (r: Vec<u16>)
    ensures
        r@ == v6_segments(x),
{
    let mut v: Vec<u16> = Vec::new();
    v.push(((x >> 112u128) & 0xffffu128) as u16);
    v.push(((x >> 96u128) & 0xffffu128) as u16);
    v.push(((x >> 80u128) & 0xffffu128) as u16);
    v.push(((x >> 64u128) & 0xffffu128) as u16);
    v.push(((x >> 48u128) & 0xffffu128) as u16);
    v.push(((x >> 32u128) & 0xffffu128) as u16);
    v.push(((x >> 16u128) & 0xffffu128) as u16);
    v.push((x & 0xffffu128) as u16);
    assert(v@ =~= v6_segments(x));
    v
}

/// The first longest run of zero segments, as (start, length).
fn longest_zero_run_exec(segs: &Vec<u16>) -> (r: (usize, usize))
    requires
        segs@.len() == 8,
    ensures
        r.0 as int == longest_zero_run(segs@).0,
        r.1 as int == longest_zero_run(segs@).1,
        r.0 + r.1 <= 8,
{
    let mut best: (usize, usize) = (0, 0);
    let mut cur: (usize, usize) = (0, 0);
    let mut i: usize = 0;
    while i < 8
        invariant
            i <= 8,
            segs@.len() == 8,
            longest_zero_run(segs@) == zero_run_scan(segs@, i as int, (cur.0 as int, cur.1 as int), (best.0 as int, best.1 as int)),
            cur.0 + cur.1 == i || (cur.0 == 0 && cur.1 == 0),
            best.0 + best.1 <= i,
        decreases 8 - i,
    {
        if segs[i] == 0 {
            if cur.1 == 0 {
                cur = (i, 1);
            } else {
                cur = (cur.0, cur.1 + 1);
            }
            if cur.1 > best.1 {
                best = cur;
            }
        } else {
            cur = (0, 0);
        }
        i = i + 1;
    }
    best
}

/// The text of an IPv6 address (see [`v6_text`]).
pub fn v6_text_bytes(x: u128) -> (r: Vec<u8>)
    ensures
        r@ == v6_text(x),
{
    let segs = segments_of(x);
    if segs[0] == 0 && segs[1] == 0 && segs[2] == 0 && segs[3] == 0 && segs[4] == 0 && segs[5] == 0xffff {
        let mut out: Vec<u8> = Vec::new();
        out.push(0x3A);
        out.push(0x3A);
        out.push(0x66);
        out.push(0x66);
        out.push(0x66);
        out.push(0x66);
        out.push(0x3A);
        let v4 = (segs[6] as u32) * 65536 + segs[7] as u32;
        push_all(&mut out, v4_text_bytes(v4));
        assert(out@ =~= v6_text(x));
        out
    } else {
        let (start, len) = longest_zero_run_exec(&segs);
        if len > 1 {
            let mut out = join_hex_bytes(&segs, 0, start);
            out.push(0x3A);
            out.push(0x3A);
            push_all(&mut out, join_hex_bytes(&segs, start + len, 8));
            assert(segs@.subrange(0, start as int) =~= segs@.take(start as int));
            assert(segs@.subrange((start + len) as int, 8) =~= segs@.skip((start + len) as int));
            assert(out@ =~= v6_text(x));
            out
        } else {
            let out = join_hex_bytes(&segs, 0, 8);
            assert(segs@.subrange(0, 8) =~= segs@);
            out
        }
    }
}

/// The text form of an IP address.
pub fn ip_text_bytes(ip: IpAddr) -> (r: Vec<u8>)
    ensures
        r@ == ip_text(ip),
{
    proof { reveal(ip_text); }
    match ip {
        IpAddr::V4(x) => v4_text_bytes(x),
        IpAddr::V6(x) => v6_text_bytes(x),
    }
}

// ---------------------------------------------------------------- ports

/// Whether every byte of `s` is a decimal digit.
pub open spec fn all_digits(s: Seq<u8>) -> bool {
    forall|i: int| 0 <= i < s.len() ==> 0x30 <= #[trigger] s[i] <= 0x39
}

/// The port written in `s`, as `u16::from_str` reads it: an optional `+`, then
/// one or more decimal digits (leading zeros allowed) with a value below 65536.
pub open spec fn spec_parse_port(s: Seq<u8>) -> Option<u16> {
    let d = if s.len() > 0 && s[0] == 0x2B { s.skip(1) } else { s };
    if d.len() == 0 || !all_digits(d) || run_value(d, 0, d.len() as int, false) > 65535 {
        None
    } else {
        Some(run_value(d, 0, d.len() as int, false) as u16)
    }
}

/// Reads a port number written in decimal.
pub fn parse_port(s: &[u8]) -> (r: Option<u16>)
    ensures
        r == spec_parse_port(s@),
{
    let start: usize = if s.len() > 0 && s[0] == 0x2B { 1 } else { 0 };
    let ghost d = if s@.len() > 0 && s@[0] == 0x2B { s@.skip(1) } else { s@ };
    assert(d =~= s@.subrange(start as int, s@.len() as int));
    if start == s.len() {
        return None;
    }
    let mut v: u32 = 0;
    let mut j = start;
    while j < s.len()
        invariant
            start <= j <= s@.len(),
            d == s@.subrange(start as int, s@.len() as int),
            d == (if s@.len() > 0 && s@[0] == 0x2B { s@.skip(1) } else { s@ }),
            forall|i: int| 0 <= i < j - start ==> 0x30 <= #[trigger] d[i] <= 0x39,
            v == run_value(d, 0, j - start, false),
            v <= 65535,
        decreases s@.len() - j,
    {
        if !(0x30 <= s[j] && s[j] <= 0x39) {
            assert(d[j - start] == s@[j as int]);
            assert(!all_digits(d));
            assert(spec_parse_port(s@) is None);
            return None;
        }
        assert(d[j - start] == s@[j as int]);
        assert(run_value(d, 0, j + 1 - start, false) == v * 10 + (s@[j as int] - 0x30));
        let nv = v * 10 + (s[j] - 0x30) as u32;
        if nv > 65535 {
            proof { lemma_run_value_grows(d, (j + 1 - start) as int, d.len() as int); }
            assert(spec_parse_port(s@) is None);
            return None;
        }
        v = nv;
        j = j + 1;
    }
    Some(v as u16)
}

proof fn lemma_run_value_grows(d: Seq<u8>, a: int, b: int)
    requires
        0 <= a <= b <= d.len(),
        forall|i: int| 0 <= i < a ==> 0x30 <= #[trigger] d[i] <= 0x39,
    ensures
        all_digits(d) ==> run_value(d, 0, a, false) <= run_value(d, 0, b, false),
    decreases b - a,
{
    if b > a && all_digits(d) {
        lemma_run_value_grows(d, a, b - 1);
        assert(0x30 <= d[b - 1] <= 0x39);
        lemma_run_value_nonneg(d, b - 1);
        let w = run_value(d, 0, b - 1, false);
        assert(w <= w * 10 + (d[b - 1] - 0x30)) by (nonlinear_arith)
            requires w >= 0, d[b - 1] >= 0x30;
        lemma_run_value_nonneg(d, b - 1);
    }
}

proof fn lemma_run_value_nonneg(d: Seq<u8>, b: int)
    requires
        0 <= b <= d.len(),
        forall|i: int| 0 <= i < b ==> 0x30 <= #[trigger] d[i] <= 0x39,
    ensures
        run_value(d, 0, b, false) >= 0,
    decreases b,
{
    if b > 0 {
        lemma_run_value_nonneg(d, b - 1);
        let w = run_value(d, 0, b - 1, false);
        assert(w * 10 >= 0) by (nonlinear_arith) requires w >= 0;
    }
}

} // verus!
