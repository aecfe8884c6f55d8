//! Textual address notation: dotted-quad IPv4 and colon-form IPv6 parsing,
//! CIDR specifications, and the proof that formatting and re-parsing a CIDR
//! specification round-trips.

use vstd::prelude::*;
use vstd::string::*;
use crate::addr::{AddrError, XAddr, ntop_str};
use crate::numtext::{
    all_digits, all_hex, dec_str, hex_str, is_digit, is_hex_digit, lemma_dec_loose_round_trip,
    lemma_dec_round_trip, lemma_dec_str_val, lemma_hex_round_trip, lemma_hex_str_val,
    parse_dec_loose, parse_dec_loose_spec, parse_dec_spec, parse_dec_u32, parse_hex16_spec,
    parse_hex_u16, push_dec,
};
use crate::strutil::{
    chars_to_string, contains_char, lemma_split_cons, lemma_split_seq_len, lemma_split_whole,
    split_seq, split_str, str_contains_char,
};

verus! {

// ---------------------------------------------------------------------------
// IPv4 text
// ---------------------------------------------------------------------------

/// A dotted-quad octet: a canonical decimal numeral no greater than 255.
pub open spec fn parse_octet_spec(s: Seq<char>) -> Option<u32> {
    match parse_dec_spec(s) {
        Some(v) => if v <= 255 {
            Some(v)
        } else {
            None
        },
        None => None,
    }
}

pub open spec fn pack_v4(a: u32, b: u32, c: u32, d: u32) -> u32
    recommends
        a <= 255 && b <= 255 && c <= 255 && d <= 255,
{
    (a << 24) | (b << 16) | (c << 8) | d
}

/// The address denoted by a dotted-quad IPv4 text, if well-formed.
pub open spec fn parse_ipv4_spec(s: Seq<char>) -> Option<XAddr> {
    let parts = split_seq(s, '.');
    if parts.len() == 4 {
        match (
            parse_octet_spec(parts[0]),
            parse_octet_spec(parts[1]),
            parse_octet_spec(parts[2]),
            parse_octet_spec(parts[3]),
        ) {
            (Some(a), Some(b), Some(c), Some(d)) => Some(XAddr::V4 { addr: pack_v4(a, b, c, d) }),
            _ => None,
        }
    } else {
        None
    }
}

fn parse_octet(t: &str) -> (r: Option<u32>)
    ensures
        r == parse_octet_spec(t@),
{
    match parse_dec_u32(t) {
        Some(v) => if v <= 255 {
            Some(v)
        } else {
            None
        },
        None => None,
    }
}

pub fn parse_ipv4(s: &str) -> (r: Option<XAddr>)
    ensures
        r == parse_ipv4_spec(s@),
{
    let parts = split_str(s, '.');
    if parts.len() != 4 {
        return None;
    }
    let a = parse_octet(parts[0].as_str());
    let b = parse_octet(parts[1].as_str());
    let c = parse_octet(parts[2].as_str());
    let d = parse_octet(parts[3].as_str());
    match (a, b, c, d) {
        (Some(a), Some(b), Some(c), Some(d)) => Some(XAddr::V4 { addr: (a << 24) | (b << 16) | (c
            << 8) | d }),
        _ => None,
    }
}

// ---------------------------------------------------------------------------
// IPv6 text
// ---------------------------------------------------------------------------

/// Parses a sequence of colon-separated fields as hexadecimal groups; every
/// field must be a group of one to four hex digits.
pub open spec fn groups_of(parts: Seq<Seq<char>>) -> Option<Seq<u16>>
    decreases parts.len(),
{
    if parts.len() == 0 {
        Some(Seq::<u16>::empty())
    } else {
        match (parse_hex16_spec(parts.first()), groups_of(parts.drop_first())) {
            (Some(g), Some(gs)) => Some(seq![g] + gs),
            _ => None,
        }
    }
}

/// Like `groups_of`, but the last field may instead be an embedded
/// dotted-quad IPv4 address, standing for the final two 16-bit groups.
pub open spec fn groups_of_tail(parts: Seq<Seq<char>>) -> Option<Seq<u16>> {
    if parts.len() == 0 {
        Some(Seq::<u16>::empty())
    } else if contains_char(parts.last(), '.') {
        match (groups_of(parts.drop_last()), parse_ipv4_spec(parts.last())) {
            (Some(gs), Some(XAddr::V4 { addr })) => Some(
                gs + seq![(addr >> 16) as u16, (addr & 0xffff) as u16],
            ),
            _ => None,
        }
    } else {
        groups_of(parts)
    }
}

/// The first position at or after `i` where two colons stand adjacent.
pub open spec fn find_dcolon(s: Seq<char>, i: int) -> Option<int>
    recommends
        0 <= i,
    decreases s.len() - i,
{
    if i + 2 > s.len() {
        None
    } else if s[i] == ':' && s[i + 1] == ':' {
        Some(i)
    } else {
        find_dcolon(s, i + 1)
    }
}

pub open spec fn zero_groups(n: int) -> Seq<u16> {
    Seq::new(n as nat, |i: int| 0u16)
}

pub open spec fn pack16(a: u16, b: u16) -> u32 {
    ((a as u32) << 16) | (b as u32)
}

/// The address with the eight given 16-bit groups, most significant first.
pub open spec fn make_v6(g: Seq<u16>) -> XAddr
    recommends
        g.len() == 8,
{
    XAddr::V6 {
        w0: pack16(g[0], g[1]),
        w1: pack16(g[2], g[3]),
        w2: pack16(g[4], g[5]),
        w3: pack16(g[6], g[7]),
        scope_id: 0,
    }
}

/// The address denoted by a colon-form IPv6 text: eight hex groups, or
/// fewer groups around one `::` run standing for the missing zero groups;
/// the trailing field may be an embedded dotted-quad IPv4 address worth the
/// final two groups.
pub open spec fn parse_ipv6_spec(s: Seq<char>) -> Option<XAddr> {
    match find_dcolon(s, 0) {
        None => match groups_of_tail(split_seq(s, ':')) {
            Some(g) => if g.len() == 8 {
                Some(make_v6(g))
            } else {
                None
            },
            None => None,
        },
        Some(p) => {
            let left = s.take(p);
            let right = s.skip(p + 2);
            let gl = if left.len() == 0 {
                Some(Seq::<u16>::empty())
            } else {
                groups_of(split_seq(left, ':'))
            };
            let gr = if right.len() == 0 {
                Some(Seq::<u16>::empty())
            } else {
                groups_of_tail(split_seq(right, ':'))
            };
            match (gl, gr) {
                (Some(gl), Some(gr)) => if gl.len() + gr.len() <= 7 {
                    Some(make_v6(gl + zero_groups(8 - gl.len() - gr.len()) + gr))
                } else {
                    None
                },
                _ => None,
            }
        },
    }
}

fn find_dcolon_x(s: &str) -> (r: Option<usize>)
    ensures
        match r {
            Some(i) => find_dcolon(s@, 0) == Some(i as int) && i + 2 <= s@.len(),
            None => find_dcolon(s@, 0) is None,
        },
{
    let n = s.unicode_len();
    if n < 2 {
        return None;
    }
    let mut i: usize = 0;
    while i + 1 < n
        invariant
            0 <= i,
            i + 1 <= n,
            n >= 2,
            n == s@.len(),
            find_dcolon(s@, 0) == find_dcolon(s@, i as int),
        decreases n - i,
    {
        if s.get_char(i) == ':' && s.get_char(i + 1) == ':' {
            return Some(i);
        }
        i = i + 1;
    }
    None
}

/// Parses the first `m` colon-separated fields, given as `pv`, as hex
/// groups.
fn parse_groups_prefix(parts: &Vec<String>, m: usize, Ghost(pv): Ghost<Seq<Seq<char>>>) -> (r:
    Option<Vec<u16>>)
    requires
        m <= parts@.len(),
        pv.len() == m,
        forall|i: int| 0 <= i < m ==> pv[i] == (#[trigger] parts@[i])@,
    ensures
        match r {
            Some(v) => groups_of(pv) == Some(v@),
            None => groups_of(pv) is None,
        },
{
    let mut acc: Vec<u16> = Vec::new();
    let mut k: usize = 0;
    proof {
        assert(pv.skip(0) =~= pv);
    }
    while k < m
        invariant
            0 <= k <= m,
            m <= parts@.len(),
            pv.len() == m,
            forall|i: int| 0 <= i < m ==> pv[i] == (#[trigger] parts@[i])@,
            acc@.len() == k,
            match groups_of(pv.skip(k as int)) {
                Some(rest) => groups_of(pv) == Some(acc@ + rest),
                None => groups_of(pv) is None,
            },
        decreases m - k,
    {
        let g = match parse_hex_u16(parts[k].as_str()) {
            Some(g) => g,
            None => {
                proof {
                    assert(pv.skip(k as int).len() > 0);
                    assert(pv.skip(k as int).first() == pv[k as int]);
                    assert(parse_hex16_spec(pv.skip(k as int).first()) is None);
                    assert(groups_of(pv.skip(k as int)) is None);
                    assert(groups_of(pv) is None);
                }
                return None;
            },
        };
        proof {
            assert(pv.skip(k as int).first() == pv[k as int]);
            assert(pv.skip(k as int).drop_first() =~= pv.skip(k as int + 1));
            match groups_of(pv.skip(k as int + 1)) {
                Some(rest) => {
                    assert(groups_of(pv.skip(k as int)) == Some(seq![g] + rest));
                    assert(acc@ + (seq![g] + rest) =~= acc@.push(g) + rest);
                },
                None => {
                    assert(groups_of(pv.skip(k as int)) is None);
                },
            }
        }
        acc.push(g);
        k = k + 1;
    }
    proof {
        assert(pv.skip(k as int) =~= Seq::<Seq<char>>::empty());
        assert(groups_of(pv.skip(k as int)) == Some(Seq::<u16>::empty()));
        assert(acc@ + Seq::<u16>::empty() =~= acc@);
    }
    Some(acc)
}

/// Parses a colon-separated list of hex groups.
fn parse_group_list(s: &str) -> (r: Option<Vec<u16>>)
    ensures
        match r {
            Some(v) => groups_of(split_seq(s@, ':')) == Some(v@),
            None => groups_of(split_seq(s@, ':')) is None,
        },
{
    let parts = split_str(s, ':');
    let ghost sp = split_seq(s@, ':');
    parse_groups_prefix(&parts, parts.len(), Ghost(sp))
}

/// Parses a colon-separated list of hex groups whose last field may be an
/// embedded dotted-quad IPv4 address worth two groups.
fn parse_tail_list(s: &str) -> (r: Option<Vec<u16>>)
    ensures
        match r {
            Some(v) => groups_of_tail(split_seq(s@, ':')) == Some(v@),
            None => groups_of_tail(split_seq(s@, ':')) is None,
        },
{
    let parts = split_str(s, ':');
    let ghost sp = split_seq(s@, ':');
    proof {
        lemma_split_seq_len(s@, ':');
    }
    let m = parts.len();
    let last_has_dot = str_contains_char(parts[m - 1].as_str(), '.');
    proof {
        assert(sp.last() == (parts@[m - 1])@);
    }
    if last_has_dot {
        let ghost pv = sp.drop_last();
        proof {
            assert(forall|i: int| 0 <= i < m - 1 ==> pv[i] == (#[trigger] parts@[i])@);
        }
        let gs = match parse_groups_prefix(&parts, m - 1, Ghost(pv)) {
            Some(v) => v,
            None => {
                return None;
            },
        };
        let a = match parse_ipv4(parts[m - 1].as_str()) {
            Some(a) => a,
            None => {
                return None;
            },
        };
        match a {
            XAddr::V4 { addr } => {
                let ghost g0 = gs@;
                let mut v = gs;
                v.push((addr >> 16) as u16);
                v.push((addr & 0xffff) as u16);
                proof {
                    assert(v@ =~= g0 + seq![(addr >> 16) as u16, (addr & 0xffff) as u16]);
                }
                Some(v)
            },
            _ => None,
        }
    } else {
        parse_groups_prefix(&parts, m, Ghost(sp))
    }
}

fn make_v6_x(g: &Vec<u16>) -> (r: XAddr)
    requires
        g@.len() == 8,
    ensures
        r == make_v6(g@),
{
    XAddr::V6 {
        w0: ((g[0] as u32) << 16) | (g[1] as u32),
        w1: ((g[2] as u32) << 16) | (g[3] as u32),
        w2: ((g[4] as u32) << 16) | (g[5] as u32),
        w3: ((g[6] as u32) << 16) | (g[7] as u32),
        scope_id: 0,
    }
}

#[verifier::rlimit(60)]
pub fn parse_ipv6(s: &str) -> (r: Option<XAddr>)
    ensures
        r == parse_ipv6_spec(s@),
{
    let n = s.unicode_len();
    match find_dcolon_x(s) {
        None => {
            match parse_tail_list(s) {
                Some(g) => {
                    if g.len() == 8 {
                        Some(make_v6_x(&g))
                    } else {
                        None
                    }
                },
                None => None,
            }
        },
        Some(p) => {
            let left = s.substring_char(0, p);
            let right = s.substring_char(p + 2, n);
            proof {
                assert(left@ =~= s@.take(p as int));
                assert(right@ =~= s@.skip(p as int + 2));
            }
            let gl: Vec<u16> = if left.unicode_len() == 0 {
                Vec::new()
            } else {
                match parse_group_list(left) {
                    Some(v) => v,
                    None => {
                        return None;
                    },
                }
            };
            let gr: Vec<u16> = if right.unicode_len() == 0 {
                Vec::new()
            } else {
                match parse_tail_list(right) {
                    Some(v) => v,
                    None => {
                        return None;
                    },
                }
            };
            proof {
                if left@.len() == 0 {
                    assert(gl@ =~= Seq::<u16>::empty());
                }
                if right@.len() == 0 {
                    assert(gr@ =~= Seq::<u16>::empty());
                }
            }
            if gl.len() > 7 || gr.len() > 7 || gl.len() + gr.len() > 7 {
                return None;
            }
            let missing = 8 - gl.len() - gr.len();
            let mut full: Vec<u16> = Vec::new();
            let mut i: usize = 0;
            while i < gl.len()
                invariant
                    0 <= i <= gl@.len(),
                    full@ =~= gl@.take(i as int),
                decreases gl.len() - i,
            {
                full.push(gl[i]);
                i = i + 1;
            }
            let mut z: usize = 0;
            while z < missing
                invariant
                    0 <= z <= missing,
                    missing == 8 - gl@.len() - gr@.len(),
                    full@ =~= gl@ + zero_groups(z as int),
                decreases missing - z,
            {
                full.push(0u16);
                z = z + 1;
            }
            let mut j: usize = 0;
            while j < gr.len()
                invariant
                    0 <= j <= gr@.len(),
                    missing == 8 - gl@.len() - gr@.len(),
                    full@ =~= gl@ + zero_groups(missing as int) + gr@.take(j as int),
                decreases gr.len() - j,
            {
                full.push(gr[j]);
                j = j + 1;
            }
            proof {
                assert(gl@.take(gl@.len() as int) =~= gl@);
                assert(gr@.take(gr@.len() as int) =~= gr@);
                assert(full@ =~= gl@ + zero_groups(8 - gl@.len() - gr@.len()) + gr@);
            }
            Some(make_v6_x(&full))
        },
    }
}

// ---------------------------------------------------------------------------
// Whole addresses and CIDR specifications
// ---------------------------------------------------------------------------

/// The address denoted by a text: dotted-quad IPv4 first, else colon-form
/// IPv6.
pub open spec fn parse_addr_spec(s: Seq<char>) -> Option<XAddr> {
    match parse_ipv4_spec(s) {
        Some(a) => Some(a),
        None => parse_ipv6_spec(s),
    }
}

/// Parses a textual address of either family.
pub fn addr_pton(s: &str) -> (r: Result<XAddr, AddrError>)
    ensures
        r == match parse_addr_spec(s@) {
            Some(a) => Ok::<XAddr, AddrError>(a),
            None => Err::<XAddr, AddrError>(AddrError::InvalidAddress),
        },
{
    match parse_ipv4(s) {
        Some(a) => Ok(a),
        None => match parse_ipv6(s) {
            Some(a) => Ok(a),
            None => Err(AddrError::InvalidAddress),
        },
    }
}

/// The CIDR specification denoted by `address/prefixlen` text: exactly one
/// slash, a parseable address, and an unsigned decimal prefix length
/// (leading zeros allowed) within the family's width.
pub open spec fn parse_cidr_spec(s: Seq<char>) -> Result<(XAddr, u32), AddrError> {
    let parts = split_seq(s, '/');
    if parts.len() != 2 {
        Err(AddrError::InvalidAddress)
    } else {
        match parse_addr_spec(parts[0]) {
            None => Err(AddrError::InvalidAddress),
            Some(a) => match parse_dec_loose_spec(parts[1]) {
                Some(l) => if l <= a.family_len() {
                    Ok((a, l))
                } else {
                    Err(AddrError::InvalidMask)
                },
                None => Err(AddrError::InvalidMask),
            },
        }
    }
}

/// Parses an `address/prefixlen` CIDR specification.
pub fn addr_pton_cidr(s: &str) -> (r: Result<(XAddr, u32), AddrError>)
    ensures
        r == parse_cidr_spec(s@),
{
    let parts = split_str(s, '/');
    if parts.len() != 2 {
        return Err(AddrError::InvalidAddress);
    }
    let a = match addr_pton(parts[0].as_str()) {
        Ok(a) => a,
        Err(_) => {
            return Err(AddrError::InvalidAddress);
        },
    };
    let l = match parse_dec_loose(parts[1].as_str()) {
        Some(l) => l,
        None => {
            return Err(AddrError::InvalidMask);
        },
    };
    let width: u32 = match a {
        XAddr::V4 { .. } => 32,
        XAddr::V6 { .. } => 128,
    };
    if l <= width {
        Ok((a, l))
    } else {
        Err(AddrError::InvalidMask)
    }
}

// ---------------------------------------------------------------------------
// Round trip: formatting and re-parsing a CIDR specification
// ---------------------------------------------------------------------------

proof fn lemma_digits_free(s: Seq<char>)
    requires
        all_digits(s),
    ensures
        forall|k: int| 0 <= k < s.len() ==> s[k] != '/' && s[k] != '.' && s[k] != ':',
{
    assert forall|k: int| 0 <= k < s.len() implies s[k] != '/' && s[k] != '.' && s[k]
        != ':' by {
        assert(is_digit(s[k]));
    }
}

proof fn lemma_hex_free(s: Seq<char>)
    requires
        all_hex(s),
    ensures
        forall|k: int| 0 <= k < s.len() ==> s[k] != '/' && s[k] != '.' && s[k] != ':',
{
    assert forall|k: int| 0 <= k < s.len() implies s[k] != '/' && s[k] != '.' && s[k]
        != ':' by {
        assert(is_hex_digit(s[k]));
    }
}

/// A text with no colon at either end and no two adjacent colons.
spec fn colon_ok(s: Seq<char>) -> bool {
    &&& s.len() >= 1
    &&& s[0] != ':'
    &&& s[s.len() - 1] != ':'
    &&& forall|k: int| 0 <= k && k + 1 < s.len() ==> !(#[trigger] s[k] == ':' && s[k + 1] == ':')
}

proof fn lemma_colon_ok_join(x: Seq<char>, y: Seq<char>)
    requires
        colon_ok(x),
        colon_ok(y),
    ensures
        colon_ok(x + seq![':'] + y),
{
    let s = x + seq![':'] + y;
    assert(s[0] == x[0]);
    assert(s[s.len() - 1] == y[y.len() - 1]);
    assert forall|k: int| 0 <= k && k + 1 < s.len() implies !(#[trigger] s[k] == ':' && s[k + 1]
        == ':') by {
        if k + 1 < x.len() {
            assert(s[k] == x[k] && s[k + 1] == x[k + 1]);
        } else if k + 1 == x.len() {
            assert(s[k] == x[k]);
            assert(x[x.len() - 1] != ':');
        } else if k == x.len() {
            assert(s[k + 1] == y[0]);
        } else {
            assert(s[k] == y[k - x.len() - 1] && s[k + 1] == y[k - x.len()]);
        }
    }
}

proof fn lemma_find_dcolon_none(s: Seq<char>, i: int)
    requires
        0 <= i,
        forall|k: int| i <= k && k + 1 < s.len() ==> !(#[trigger] s[k] == ':' && s[k + 1] == ':'),
    ensures
        find_dcolon(s, i) is None,
    decreases s.len() - i,
{
    if i + 2 > s.len() {
    } else {
        lemma_find_dcolon_none(s, i + 1);
    }
}

proof fn lemma_groups_cons(x: Seq<char>, rest: Seq<Seq<char>>)
    ensures
        groups_of(seq![x] + rest) == (match (parse_hex16_spec(x), groups_of(rest)) {
            (Some(g), Some(gs)) => Some(seq![g] + gs),
            _ => None,
        }),
{
    let p = seq![x] + rest;
    assert(p.first() == x);
    assert(p.drop_first() =~= rest);
}

/// One octet's canonical text: digits only, free of separators, and it
/// parses back to the octet.
proof fn lemma_octet_text(o: u32)
    requires
        o <= 255,
    ensures
        parse_octet_spec(dec_str(o as nat)) == Some(o),
        dec_str(o as nat).len() >= 1,
        forall|k: int| 0 <= k < dec_str(o as nat).len() ==> dec_str(o as nat)[k] != '/' && dec_str(
            o as nat,
        )[k] != '.' && dec_str(o as nat)[k] != ':',
{
    lemma_dec_str_val(o as nat);
    lemma_digits_free(dec_str(o as nat));
    lemma_dec_round_trip(o);
}

/// Parsing the canonical text of an IPv4 address as dotted-quad yields it
/// back.
#[verifier::rlimit(100)]
proof fn lemma_ntop_parse_v4_quad(addr: u32)
    ensures
        parse_ipv4_spec(ntop_str(XAddr::V4 { addr })) == Some(XAddr::V4 { addr }),
{
    let o0 = (addr >> 24) & 0xff;
    let o1 = (addr >> 16) & 0xff;
    let o2 = (addr >> 8) & 0xff;
    let o3 = addr & 0xff;
    assert(o0 <= 255 && o1 <= 255 && o2 <= 255 && o3 <= 255) by (bit_vector)
        requires
            o0 == (addr >> 24) & 0xff,
            o1 == (addr >> 16) & 0xff,
            o2 == (addr >> 8) & 0xff,
            o3 == addr & 0xff,
    ;
    let d0 = dec_str(o0 as nat);
    let d1 = dec_str(o1 as nat);
    let d2 = dec_str(o2 as nat);
    let d3 = dec_str(o3 as nat);
    lemma_octet_text(o0);
    lemma_octet_text(o1);
    lemma_octet_text(o2);
    lemma_octet_text(o3);
    let nt = ntop_str(XAddr::V4 { addr });
    let r1 = d1 + seq!['.'] + (d2 + seq!['.'] + d3);
    let r2 = d2 + seq!['.'] + d3;
    assert(nt =~= d0 + seq!['.'] + r1);
    lemma_split_cons(d0, r1, '.');
    lemma_split_cons(d1, r2, '.');
    lemma_split_cons(d2, d3, '.');
    lemma_split_whole(d3, '.');
    let parts = split_seq(nt, '.');
    assert(parts =~= seq![d0, d1, d2, d3]);
    assert(pack_v4(o0, o1, o2, o3) == addr) by (bit_vector)
        requires
            o0 == (addr >> 24) & 0xff,
            o1 == (addr >> 16) & 0xff,
            o2 == (addr >> 8) & 0xff,
            o3 == addr & 0xff,
    ;
    assert(parse_ipv4_spec(nt) == Some(XAddr::V4 { addr }));
}

/// Parsing the canonical text of an IPv4 address yields it back.
proof fn lemma_ntop_parse_v4(addr: u32)
    ensures
        parse_addr_spec(ntop_str(XAddr::V4 { addr })) == Some(XAddr::V4 { addr }),
{
    lemma_ntop_parse_v4_quad(addr);
}

/// Parsing the canonical text of an IPv6 address with a zero scope yields it
/// back.
#[verifier::rlimit(80)]
proof fn lemma_ntop_parse_v6(w0: u32, w1: u32, w2: u32, w3: u32)
    ensures
        parse_addr_spec(ntop_str(XAddr::V6 { w0, w1, w2, w3, scope_id: 0 })) == Some(
            XAddr::V6 { w0, w1, w2, w3, scope_id: 0 },
        ),
{
    let a = XAddr::V6 { w0, w1, w2, w3, scope_id: 0 };
    let nt = ntop_str(a);
    let h0 = hex_str((w0 >> 16) as nat);
    let h1 = hex_str((w0 & 0xffff) as nat);
    let h2 = hex_str((w1 >> 16) as nat);
    let h3 = hex_str((w1 & 0xffff) as nat);
    let h4 = hex_str((w2 >> 16) as nat);
    let h5 = hex_str((w2 & 0xffff) as nat);
    let h6 = hex_str((w3 >> 16) as nat);
    let h7 = hex_str((w3 & 0xffff) as nat);
    lemma_hex_str_val((w0 >> 16) as nat);
    lemma_hex_str_val((w0 & 0xffff) as nat);
    lemma_hex_str_val((w1 >> 16) as nat);
    lemma_hex_str_val((w1 & 0xffff) as nat);
    lemma_hex_str_val((w2 >> 16) as nat);
    lemma_hex_str_val((w2 & 0xffff) as nat);
    lemma_hex_str_val((w3 >> 16) as nat);
    lemma_hex_str_val((w3 & 0xffff) as nat);
    lemma_hex_free(h0);
    lemma_hex_free(h1);
    lemma_hex_free(h2);
    lemma_hex_free(h3);
    lemma_hex_free(h4);
    lemma_hex_free(h5);
    lemma_hex_free(h6);
    lemma_hex_free(h7);
    // no pair of adjacent colons, so no `::` is found
    let j1 = h0 + seq![':'] + h1;
    let j2 = j1 + seq![':'] + h2;
    let j3 = j2 + seq![':'] + h3;
    let j4 = j3 + seq![':'] + h4;
    let j5 = j4 + seq![':'] + h5;
    let j6 = j5 + seq![':'] + h6;
    let j7 = j6 + seq![':'] + h7;
    lemma_colon_ok_join(h0, h1);
    lemma_colon_ok_join(j1, h2);
    lemma_colon_ok_join(j2, h3);
    lemma_colon_ok_join(j3, h4);
    lemma_colon_ok_join(j4, h5);
    lemma_colon_ok_join(j5, h6);
    lemma_colon_ok_join(j6, h7);
    assert(nt =~= j7);
    lemma_find_dcolon_none(nt, 0);
    // the text holds no dot, so it is not dotted-quad
    assert(forall|k: int| 0 <= k < nt.len() ==> nt[k] != '.');
    lemma_split_whole(nt, '.');
    assert(split_seq(nt, '.').len() == 1);
    assert(parse_ipv4_spec(nt) is None);
    // splitting on ':' recovers the eight groups
    let r6 = h6 + seq![':'] + h7;
    let r5 = h5 + seq![':'] + r6;
    let r4 = h4 + seq![':'] + r5;
    let r3 = h3 + seq![':'] + r4;
    let r2 = h2 + seq![':'] + r3;
    let r1 = h1 + seq![':'] + r2;
    assert(nt =~= h0 + seq![':'] + r1);
    lemma_split_cons(h0, r1, ':');
    lemma_split_cons(h1, r2, ':');
    lemma_split_cons(h2, r3, ':');
    lemma_split_cons(h3, r4, ':');
    lemma_split_cons(h4, r5, ':');
    lemma_split_cons(h5, r6, ':');
    lemma_split_cons(h6, h7, ':');
    lemma_split_whole(h7, ':');
    let parts = split_seq(nt, ':');
    assert(parts =~= seq![h0, h1, h2, h3, h4, h5, h6, h7]);
    // each group parses back to its value
    let g0 = (w0 >> 16) as u16;
    let g1 = (w0 & 0xffff) as u16;
    let g2 = (w1 >> 16) as u16;
    let g3 = (w1 & 0xffff) as u16;
    let g4 = (w2 >> 16) as u16;
    let g5 = (w2 & 0xffff) as u16;
    let g6 = (w3 >> 16) as u16;
    let g7 = (w3 & 0xffff) as u16;
    assert(g0 as u32 == w0 >> 16 && g1 as u32 == w0 & 0xffff) by (bit_vector)
        requires
            g0 == (w0 >> 16) as u16 && g1 == (w0 & 0xffff) as u16,
    ;
    assert(g2 as u32 == w1 >> 16 && g3 as u32 == w1 & 0xffff) by (bit_vector)
        requires
            g2 == (w1 >> 16) as u16 && g3 == (w1 & 0xffff) as u16,
    ;
    assert(g4 as u32 == w2 >> 16 && g5 as u32 == w2 & 0xffff) by (bit_vector)
        requires
            g4 == (w2 >> 16) as u16 && g5 == (w2 & 0xffff) as u16,
    ;
    assert(g6 as u32 == w3 >> 16 && g7 as u32 == w3 & 0xffff) by (bit_vector)
        requires
            g6 == (w3 >> 16) as u16 && g7 == (w3 & 0xffff) as u16,
    ;
    lemma_hex_round_trip(g0);
    lemma_hex_round_trip(g1);
    lemma_hex_round_trip(g2);
    lemma_hex_round_trip(g3);
    lemma_hex_round_trip(g4);
    lemma_hex_round_trip(g5);
    lemma_hex_round_trip(g6);
    lemma_hex_round_trip(g7);
    assert(parse_hex16_spec(h0) == Some(g0));
    assert(parse_hex16_spec(h1) == Some(g1));
    assert(parse_hex16_spec(h2) == Some(g2));
    assert(parse_hex16_spec(h3) == Some(g3));
    assert(parse_hex16_spec(h4) == Some(g4));
    assert(parse_hex16_spec(h5) == Some(g5));
    assert(parse_hex16_spec(h6) == Some(g6));
    assert(parse_hex16_spec(h7) == Some(g7));
    // fold the groups together, last to first
    let t7 = seq![h7];
    let t6 = seq![h6] + t7;
    let t5 = seq![h5] + t6;
    let t4 = seq![h4] + t5;
    let t3 = seq![h3] + t4;
    let t2 = seq![h2] + t3;
    let t1 = seq![h1] + t2;
    let t0 = seq![h0] + t1;
    assert(t7 =~= seq![h7] + Seq::<Seq<char>>::empty());
    lemma_groups_cons(h7, Seq::<Seq<char>>::empty());
    assert(groups_of(Seq::<Seq<char>>::empty()) == Some(Seq::<u16>::empty()));
    assert(groups_of(t7) == Some(seq![g7] + Seq::<u16>::empty()));
    lemma_groups_cons(h6, t7);
    lemma_groups_cons(h5, t6);
    lemma_groups_cons(h4, t5);
    lemma_groups_cons(h3, t4);
    lemma_groups_cons(h2, t3);
    lemma_groups_cons(h1, t2);
    lemma_groups_cons(h0, t1);
    assert(parts =~= t0);
    let g = groups_of(parts).unwrap();
    assert(g =~= seq![g0, g1, g2, g3, g4, g5, g6, g7]);
    assert(g.len() == 8);
    // repacking the groups gives back the words
    assert(pack16(g0, g1) == w0) by (bit_vector)
        requires
            g0 == (w0 >> 16) as u16 && g1 == (w0 & 0xffff) as u16,
    ;
    assert(pack16(g2, g3) == w1) by (bit_vector)
        requires
            g2 == (w1 >> 16) as u16 && g3 == (w1 & 0xffff) as u16,
    ;
    assert(pack16(g4, g5) == w2) by (bit_vector)
        requires
            g4 == (w2 >> 16) as u16 && g5 == (w2 & 0xffff) as u16,
    ;
    assert(pack16(g6, g7) == w3) by (bit_vector)
        requires
            g6 == (w3 >> 16) as u16 && g7 == (w3 & 0xffff) as u16,
    ;
    assert(make_v6(g) == a);
    assert(parse_ipv6_spec(nt) == Some(a));
}

/// Parsing the canonical text of an address with a zero scope yields it
/// back.
pub proof fn lemma_ntop_parse(a: XAddr)
    requires
        a.spec_scope_id() == 0,
    ensures
        parse_addr_spec(ntop_str(a)) == Some(a),
{
    match a {
        XAddr::V4 { addr } => {
            lemma_ntop_parse_v4(addr);
        },
        XAddr::V6 { w0, w1, w2, w3, scope_id } => {
            lemma_ntop_parse_v6(w0, w1, w2, w3);
        },
    }
}

/// Characters of a formatted address are digits, hex digits, dots or colons,
/// never a slash.
proof fn lemma_ntop_no_slash(a: XAddr)
    ensures
        forall|k: int| 0 <= k < ntop_str(a).len() ==> ntop_str(a)[k] != '/',
{
    match a {
        XAddr::V4 { addr } => {
            lemma_dec_str_val(((addr >> 24) & 0xff) as nat);
            lemma_dec_str_val(((addr >> 16) & 0xff) as nat);
            lemma_dec_str_val(((addr >> 8) & 0xff) as nat);
            lemma_dec_str_val((addr & 0xff) as nat);
            lemma_digits_free(dec_str(((addr >> 24) & 0xff) as nat));
            lemma_digits_free(dec_str(((addr >> 16) & 0xff) as nat));
            lemma_digits_free(dec_str(((addr >> 8) & 0xff) as nat));
            lemma_digits_free(dec_str((addr & 0xff) as nat));
        },
        XAddr::V6 { w0, w1, w2, w3, .. } => {
            lemma_hex_str_val((w0 >> 16) as nat);
            lemma_hex_str_val((w0 & 0xffff) as nat);
            lemma_hex_str_val((w1 >> 16) as nat);
            lemma_hex_str_val((w1 & 0xffff) as nat);
            lemma_hex_str_val((w2 >> 16) as nat);
            lemma_hex_str_val((w2 & 0xffff) as nat);
            lemma_hex_str_val((w3 >> 16) as nat);
            lemma_hex_str_val((w3 & 0xffff) as nat);
            lemma_hex_free(hex_str((w0 >> 16) as nat));
            lemma_hex_free(hex_str((w0 & 0xffff) as nat));
            lemma_hex_free(hex_str((w1 >> 16) as nat));
            lemma_hex_free(hex_str((w1 & 0xffff) as nat));
            lemma_hex_free(hex_str((w2 >> 16) as nat));
            lemma_hex_free(hex_str((w2 & 0xffff) as nat));
            lemma_hex_free(hex_str((w3 >> 16) as nat));
            lemma_hex_free(hex_str((w3 & 0xffff) as nat));
        },
    }
}

/// Round trip: formatting a CIDR specification as `address/prefixlen` text
/// and re-parsing it yields an equal specification, for every address with a
/// zero interface scope and every prefix length within the family's width.
pub proof fn lemma_cidr_round_trip(a: XAddr, len: u32)
    requires
        a.spec_scope_id() == 0,
        len <= a.family_len(),
    ensures
        parse_cidr_spec(ntop_str(a) + seq!['/'] + dec_str(len as nat)) == Ok::<
            (XAddr, u32),
            AddrError,
        >((a, len)),
{
    let nt = ntop_str(a);
    let ls = dec_str(len as nat);
    let f = nt + seq!['/'] + ls;
    lemma_dec_str_val(len as nat);
    lemma_digits_free(ls);
    lemma_ntop_no_slash(a);
    lemma_split_cons(nt, ls, '/');
    lemma_split_whole(ls, '/');
    let parts = split_seq(f, '/');
    assert(parts =~= seq![nt, ls]);
    lemma_ntop_parse(a);
    lemma_dec_loose_round_trip(len);
}

/// Formats a CIDR specification as `address/prefixlen` text.
pub fn format_cidr(a: &XAddr, len: u32) -> (r: String)
    ensures
        r@ == ntop_str(*a) + seq!['/'] + dec_str(len as nat),
{
    let mut s = a.addr_ntop();
    s.append("/");
    let mut digits: Vec<char> = Vec::new();
    push_dec(&mut digits, len);
    let d = chars_to_string(&digits);
    s.append(d.as_str());
    proof {
        assert(ntop_str(*a) + "/"@ + dec_str(len as nat) =~= ntop_str(*a) + seq!['/'] + dec_str(
            len as nat,
        )) by {
            reveal_strlit("/");
        }
    }
    s
}

} // verus!
