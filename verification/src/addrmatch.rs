//! Address-list matching: prefix-masked equality, glob-style wildcard text
//! matching as a fallback, and the two list evaluators — the lenient one used
//! for access lists and the strict one used to vet certificate
//! `source-address` restrictions.

use vstd::prelude::*;
use vstd::string::*;
use crate::addr::{
    XAddr, same_family, spec_addr_and, spec_netmask,
};
use crate::addrtext::{addr_pton, addr_pton_cidr, parse_addr_spec, parse_cidr_spec};
use crate::numtext::is_hex_digit;
use crate::strutil::split_seq;
use crate::strutil::split_str;

verus! {

/// Verdict of the lenient list evaluator.
#[derive(Clone, Copy, Debug, PartialEq, Eq, Structural)]
pub enum AddrMatchResult {
    NoMatch,
    Allow,
    Deny,
    MalformedEntry,
}

/// Verdict of the strict CIDR-only list evaluator.
#[derive(Clone, Copy, Debug, PartialEq, Eq, Structural)]
pub enum CidrListResult {
    NoMatch,
    Allow,
    Invalid,
}

// ---------------------------------------------------------------------------
// Prefix-masked equality
// ---------------------------------------------------------------------------

/// Whether `host` lies in the network `net/masklen`: the families agree, the
/// prefix length fits the family, and the two addresses agree on their
/// masked words.
pub open spec fn spec_netmatch(host: XAddr, net: XAddr, masklen: u32) -> bool {
    if !same_family(host, net) {
        false
    } else {
        let af: u32 = if host is V4 {
            4
        } else {
            6
        };
        match spec_netmask(af, masklen) {
            Some(mask) => spec_addr_and(host, mask).words() == spec_addr_and(net, mask).words(),
            None => false,
        }
    }
}

/// Tests whether `host` lies in `net/masklen`; a family mismatch or an
/// out-of-range prefix length yields `false` rather than an error.
pub fn addr_netmatch(host: &XAddr, net: &XAddr, masklen: u32) -> (r: bool)
    ensures
        r == spec_netmatch(*host, *net, masklen),
{
    let af: u32 = match host {
        XAddr::V4 { .. } => 4,
        XAddr::V6 { .. } => 6,
    };
    let mask = match XAddr::netmask(af, masklen) {
        Some(m) => m,
        None => {
            return false;
        },
    };
    let x = match XAddr::addr_and(host, &mask) {
        Ok(x) => x,
        Err(_) => {
            return false;
        },
    };
    let y = match XAddr::addr_and(net, &mask) {
        Ok(y) => y,
        Err(_) => {
            return false;
        },
    };
    match (x, y) {
        (XAddr::V4 { addr: ax }, XAddr::V4 { addr: ay }) => {
            proof {
                if ax == ay {
                    assert(x.words() =~= y.words());
                } else {
                    assert(x.words()[0] != y.words()[0]);
                }
            }
            ax == ay
        },
        (
            XAddr::V6 { w0: x0, w1: x1, w2: x2, w3: x3, .. },
            XAddr::V6 { w0: y0, w1: y1, w2: y2, w3: y3, .. },
        ) => {
            let eq = x0 == y0 && x1 == y1 && x2 == y2 && x3 == y3;
            proof {
                if eq {
                    assert(x.words() =~= y.words());
                } else {
                    assert(x.words() != y.words());
                }
            }
            eq
        },
        _ => {
            proof {
                assert(false);
            }
            false
        },
    }
}

/// For IPv4 addresses, prefix-masked matching agrees exactly with equality
/// of the top `len` bits; a zero-length prefix matches every address.
pub proof fn lemma_netmatch_v4_top_bits(x: u32, y: u32, len: u32)
    requires
        len <= 32,
    ensures
        len >= 1 ==> (spec_netmatch(XAddr::V4 { addr: x }, XAddr::V4 { addr: y }, len) <==> (x >> (
        (32 - len) as u32)) == (y >> ((32 - len) as u32))),
        len == 0 ==> spec_netmatch(XAddr::V4 { addr: x }, XAddr::V4 { addr: y }, len),
{
    let mask = spec_netmask(4, len).unwrap();
    let mx = spec_addr_and(XAddr::V4 { addr: x }, mask);
    let my = spec_addr_and(XAddr::V4 { addr: y }, mask);
    crate::addr::lemma_ipv4_mask(len, x, y);
    if mx.words() == my.words() {
        assert(mx.words()[0] == my.words()[0]);
    }
    if (x & crate::addr::mask_word(len, 0)) == (y & crate::addr::mask_word(len, 0)) {
        assert(mx.words() =~= my.words());
    }
}

// ---------------------------------------------------------------------------
// Wildcard text matching
// ---------------------------------------------------------------------------

/// Glob matching over whole texts: `*` matches any run of characters, `?`
/// matches exactly one, every other character matches itself.
pub open spec fn glob_match(t: Seq<char>, p: Seq<char>) -> bool
    decreases p.len(), t.len(),
{
    if p.len() == 0 {
        t.len() == 0
    } else if p[0] == '*' {
        glob_match(t, p.drop_first()) || (t.len() > 0 && glob_match(t.drop_first(), p))
    } else if p[0] == '?' {
        t.len() > 0 && glob_match(t.drop_first(), p.drop_first())
    } else {
        t.len() > 0 && t[0] == p[0] && glob_match(t.drop_first(), p.drop_first())
    }
}

fn glob_match_at(t: &str, p: &str, ti: usize, pi: usize) -> (r: bool)
    requires
        ti <= t@.len(),
        pi <= p@.len(),
    ensures
        r == glob_match(t@.skip(ti as int), p@.skip(pi as int)),
    decreases p@.len() - pi, t@.len() - ti,
{
    let tn = t.unicode_len();
    let pn = p.unicode_len();
    proof {
        if pi < pn {
            assert(p@.skip(pi as int).first() == p@[pi as int]);
            assert(p@.skip(pi as int).drop_first() =~= p@.skip(pi as int + 1));
        }
        if ti < tn {
            assert(t@.skip(ti as int).first() == t@[ti as int]);
            assert(t@.skip(ti as int).drop_first() =~= t@.skip(ti as int + 1));
        }
    }
    if pi == pn {
        ti == tn
    } else {
        let pc = p.get_char(pi);
        if pc == '*' {
            if glob_match_at(t, p, ti, pi + 1) {
                true
            } else if ti < tn {
                glob_match_at(t, p, ti + 1, pi)
            } else {
                false
            }
        } else if pc == '?' {
            if ti < tn {
                glob_match_at(t, p, ti + 1, pi + 1)
            } else {
                false
            }
        } else {
            if ti < tn && t.get_char(ti) == pc {
                glob_match_at(t, p, ti + 1, pi + 1)
            } else {
                false
            }
        }
    }
}

/// Matches the literal text of an address against a glob pattern.
pub fn addr_match_wildcard(addr: &str, pattern: &str) -> (r: bool)
    ensures
        r == glob_match(addr@, pattern@),
{
    proof {
        assert(addr@.skip(0) =~= addr@);
        assert(pattern@.skip(0) =~= pattern@);
    }
    glob_match_at(addr, pattern, 0, 0)
}

// ---------------------------------------------------------------------------
// Lenient list matching
// ---------------------------------------------------------------------------

/// Whether a single (already un-negated) entry matches the candidate: by
/// prefix-masked equality when the entry is a CIDR specification, else by
/// glob matching against the candidate's literal text.
pub open spec fn entry_matches(a: XAddr, text: Seq<char>, body: Seq<char>) -> bool {
    match parse_cidr_spec(body) {
        Ok((net, l)) => spec_netmatch(a, net, l),
        Err(_) => glob_match(text, body),
    }
}

/// Whether a list entry is a negated rule.
pub open spec fn entry_neg(e: Seq<char>) -> bool {
    e.len() > 0 && e[0] == '!'
}

/// The entry with its negation marker stripped.
pub open spec fn entry_body(e: Seq<char>) -> Seq<char> {
    if entry_neg(e) {
        e.drop_first()
    } else {
        e
    }
}

/// Left-to-right evaluation of the list entries. A matching negated entry
/// denies immediately; a matching plain entry records an allow and the scan
/// goes on; an entry empty after stripping `!` stops the scan as malformed.
pub open spec fn match_entries(a: XAddr, text: Seq<char>, entries: Seq<Seq<char>>, found: bool)
    -> AddrMatchResult
    decreases entries.len(),
{
    if entries.len() == 0 {
        if found {
            AddrMatchResult::Allow
        } else {
            AddrMatchResult::NoMatch
        }
    } else {
        let e = entries.first();
        let body = entry_body(e);
        if body.len() == 0 {
            AddrMatchResult::MalformedEntry
        } else if entry_matches(a, text, body) {
            if entry_neg(e) {
                AddrMatchResult::Deny
            } else {
                match_entries(a, text, entries.drop_first(), true)
            }
        } else {
            match_entries(a, text, entries.drop_first(), found)
        }
    }
}

/// Law: an entry empty after stripping `!` stops the scan as malformed, and
/// any allow accumulated from earlier entries is discarded — whatever
/// `found` already holds — provided no earlier entry is malformed itself or
/// a matching negated rule (either would have stopped the scan first).
pub proof fn lemma_match_entries_malformed(
    a: XAddr,
    text: Seq<char>,
    entries: Seq<Seq<char>>,
    found: bool,
    k: int,
)
    requires
        0 <= k < entries.len(),
        entry_body(entries[k]).len() == 0,
        forall|j: int| 0 <= j < k ==> entry_body(#[trigger] entries[j]).len() > 0,
        forall|j: int| 0 <= j < k ==> !(entry_neg(#[trigger] entries[j]) && entry_matches(
            a,
            text,
            entry_body(entries[j]),
        )),
    ensures
        match_entries(a, text, entries, found) == AddrMatchResult::MalformedEntry,
    decreases k,
{
    if k == 0 {
        assert(entries.first() == entries[0]);
    } else {
        let rest = entries.drop_first();
        assert(entries.first() == entries[0]);
        assert(entry_body(entries[0]).len() > 0);
        assert(!(entry_neg(entries[0]) && entry_matches(a, text, entry_body(entries[0]))));
        assert(forall|j: int| 0 <= j < k - 1 ==> #[trigger] rest[j] == entries[j + 1]);
        lemma_match_entries_malformed(a, text, rest, found, k - 1);
        lemma_match_entries_malformed(a, text, rest, true, k - 1);
    }
}

/// Law: a list holding an entry that is empty after stripping `!` is
/// malformed for any parseable candidate, when the scan reaches that entry.
pub proof fn lemma_match_list_malformed(t: Seq<char>, list: Seq<char>, k: int)
    requires
        parse_addr_spec(t) is Some,
        0 <= k < split_seq(list, ',').len(),
        entry_body(split_seq(list, ',')[k]).len() == 0,
        forall|j: int| 0 <= j < k ==> entry_body(#[trigger] split_seq(list, ',')[j]).len() > 0,
        forall|j: int| 0 <= j < k ==> !(entry_neg(#[trigger] split_seq(list, ',')[j])
            && entry_matches(
            parse_addr_spec(t).unwrap(),
            t,
            entry_body(split_seq(list, ',')[j]),
        )),
    ensures
        spec_match_list(Some(t), list) == AddrMatchResult::MalformedEntry,
{
    lemma_match_entries_malformed(
        parse_addr_spec(t).unwrap(),
        t,
        split_seq(list, ','),
        false,
        k,
    );
}

/// The verdict of the lenient evaluator: no candidate, or one that parses as
/// no known address form, matches nothing.
pub open spec fn spec_match_list(addr: Option<Seq<char>>, list: Seq<char>) -> AddrMatchResult {
    match addr {
        None => AddrMatchResult::NoMatch,
        Some(t) => match parse_addr_spec(t) {
            None => AddrMatchResult::NoMatch,
            Some(a) => match_entries(a, t, split_seq(list, ','), false),
        },
    }
}

fn entry_match_x(a: &XAddr, s: &str, body: &str) -> (r: bool)
    ensures
        r == entry_matches(*a, s@, body@),
{
    match addr_pton_cidr(body) {
        Ok((net, l)) => addr_netmatch(a, &net, l),
        Err(_) => addr_match_wildcard(s, body),
    }
}

/// Evaluates a comma-separated access list against a candidate address, with
/// `!`-negation and short-circuit semantics: the first matching negated
/// entry denies, a matching plain entry allows unless a later negated entry
/// also matches, and a malformed entry stops the scan.
#[verifier::rlimit(100)]
pub fn addr_match_list(addr: Option<&str>, list: &str) -> (r: AddrMatchResult)
    ensures
        r == spec_match_list(
            match addr {
                Some(s) => Some(s@),
                None => None,
            },
            list@,
        ),
{
    let s = match addr {
        Some(s) => s,
        None => {
            return AddrMatchResult::NoMatch;
        },
    };
    let a = match addr_pton(s) {
        Ok(a) => a,
        Err(_) => {
            return AddrMatchResult::NoMatch;
        },
    };
    let entries = split_str(list, ',');
    let ghost es = split_seq(list@, ',');
    let mut found: bool = false;
    let mut k: usize = 0;
    proof {
        assert(es.skip(0) =~= es);
    }
    while k < entries.len()
        invariant
            0 <= k <= entries.len(),
            es == split_seq(list@, ','),
            entries@.len() == es.len(),
            forall|i: int| 0 <= i < es.len() ==> (#[trigger] entries@[i])@ == es[i],
            addr == Some(s),
            parse_addr_spec(s@) == Some(a),
            match_entries(a, s@, es, false) == match_entries(a, s@, es.skip(k as int), found),
        decreases entries.len() - k,
    {
        proof {
            assert(es.skip(k as int).first() == es[k as int]);
            assert(es.skip(k as int).drop_first() =~= es.skip(k as int + 1));
        }
        let e = &entries[k];
        let elen = e.as_str().unicode_len();
        let neg = elen > 0 && e.as_str().get_char(0) == '!';
        let body = if neg {
            e.as_str().substring_char(1, elen)
        } else {
            e.as_str().substring_char(0, elen)
        };
        proof {
            if neg {
                assert(body@ =~= es[k as int].drop_first());
            } else {
                assert(body@ =~= es[k as int]);
            }
        }
        if body.unicode_len() == 0 {
            proof {
                assert(match_entries(a, s@, es.skip(k as int), found)
                    == AddrMatchResult::MalformedEntry);
            }
            return AddrMatchResult::MalformedEntry;
        }
        let m = entry_match_x(&a, s, body);
        if m {
            if neg {
                proof {
                    assert(match_entries(a, s@, es.skip(k as int), found)
                        == AddrMatchResult::Deny);
                }
                return AddrMatchResult::Deny;
            }
            found = true;
        }
        k = k + 1;
    }
    proof {
        assert(es.skip(k as int) =~= Seq::<Seq<char>>::empty());
    }
    if found {
        AddrMatchResult::Allow
    } else {
        AddrMatchResult::NoMatch
    }
}

// ---------------------------------------------------------------------------
// Strict CIDR list matching
// ---------------------------------------------------------------------------

/// The characters allowed in a strict CIDR list entry.
pub open spec fn is_cidr_char(c: char) -> bool {
    is_hex_digit(c) || c == '.' || c == ':' || c == '/'
}

pub open spec fn all_cidr_chars(s: Seq<char>) -> bool {
    forall|i: int| 0 <= i < s.len() ==> is_cidr_char(#[trigger] s[i])
}

/// Strict evaluation: every entry must be drawn from the CIDR character set
/// and parse as a CIDR specification, else the whole list is invalid; a
/// candidate (when present and parseable) is matched against every entry.
pub open spec fn cidr_entries(a: Option<XAddr>, entries: Seq<Seq<char>>, found: bool)
    -> CidrListResult
    decreases entries.len(),
{
    if entries.len() == 0 {
        if found {
            CidrListResult::Allow
        } else {
            CidrListResult::NoMatch
        }
    } else {
        let e = entries.first();
        if e.len() == 0 || !all_cidr_chars(e) {
            CidrListResult::Invalid
        } else {
            match parse_cidr_spec(e) {
                Err(_) => CidrListResult::Invalid,
                Ok((net, l)) => {
                    let m = a is Some && spec_netmatch(a.unwrap(), net, l);
                    cidr_entries(a, entries.drop_first(), found || m)
                },
            }
        }
    }
}

pub open spec fn spec_match_cidr_list(addr: Option<Seq<char>>, list: Seq<char>) -> CidrListResult {
    let a = match addr {
        Some(t) => parse_addr_spec(t),
        None => None,
    };
    cidr_entries(a, split_seq(list, ','), false)
}

/// Whether a comma-separated list is syntactically a valid strict CIDR list.
pub open spec fn cidr_list_valid(list: Seq<char>) -> bool {
    spec_match_cidr_list(None, list) != CidrListResult::Invalid
}

fn all_cidr_chars_x(s: &str) -> (r: bool)
    ensures
        r == all_cidr_chars(s@),
{
    let n = s.unicode_len();
    let mut i: usize = 0;
    while i < n
        invariant
            0 <= i <= n,
            n == s@.len(),
            forall|k: int| 0 <= k < i ==> is_cidr_char(#[trigger] s@[k]),
        decreases n - i,
    {
        let c = s.get_char(i);
        let ok = (c >= '0' && c <= '9') || (c >= 'a' && c <= 'f') || (c >= 'A' && c <= 'F') || c
            == '.' || c == ':' || c == '/';
        if !ok {
            assert(!is_cidr_char(s@[i as int]));
            return false;
        }
        i = i + 1;
    }
    true
}

fn cidr_entry_x(a: &Option<XAddr>, e: &str) -> (r: Option<bool>)
    ensures
        match r {
            Some(m) => e@.len() > 0 && all_cidr_chars(e@) && (match parse_cidr_spec(e@) {
                Ok((net, l)) => m == ((*a) is Some && spec_netmatch((*a).unwrap(), net, l)),
                Err(_) => false,
            }),
            None => e@.len() == 0 || !all_cidr_chars(e@) || parse_cidr_spec(e@) is Err,
        },
{
    if e.unicode_len() == 0 {
        return None;
    }
    if !all_cidr_chars_x(e) {
        return None;
    }
    match addr_pton_cidr(e) {
        Ok((net, l)) => {
            let m = match a {
                Some(ha) => addr_netmatch(ha, &net, l),
                None => false,
            };
            Some(m)
        },
        Err(_) => None,
    }
}

/// Evaluates a strict CIDR list: used both to vet the syntax of a
/// certificate's `source-address` restriction (with no candidate) and to
/// test a peer address against it at connection time. Any entry outside the
/// CIDR character set, or failing to parse, makes the whole list invalid.
#[verifier::rlimit(100)]
pub fn addr_match_cidr_list(addr: Option<&str>, list: &str) -> (r: CidrListResult)
    ensures
        r == spec_match_cidr_list(
            match addr {
                Some(s) => Some(s@),
                None => None,
            },
            list@,
        ),
{
    let a: Option<XAddr> = match addr {
        Some(s) => {
            match addr_pton(s) {
                Ok(a) => Some(a),
                Err(_) => None,
            }
        },
        None => None,
    };
    let entries = split_str(list, ',');
    let ghost es = split_seq(list@, ',');
    let ghost av = match addr {
        Some(s) => parse_addr_spec(s@),
        None => None,
    };
    let mut found: bool = false;
    let mut k: usize = 0;
    proof {
        assert(es.skip(0) =~= es);
    }
    while k < entries.len()
        invariant
            0 <= k <= entries.len(),
            es == split_seq(list@, ','),
            entries@.len() == es.len(),
            forall|i: int| 0 <= i < es.len() ==> (#[trigger] entries@[i])@ == es[i],
            a == av,
            av == (match addr {
                Some(t) => parse_addr_spec(t@),
                None => None::<XAddr>,
            }),
            cidr_entries(av, es, false) == cidr_entries(av, es.skip(k as int), found),
        decreases entries.len() - k,
    {
        proof {
            assert(es.skip(k as int).first() == es[k as int]);
            assert(es.skip(k as int).drop_first() =~= es.skip(k as int + 1));
        }
        let e = &entries[k];
        let m = match cidr_entry_x(&a, e.as_str()) {
            Some(m) => m,
            None => {
                proof {
                    assert(cidr_entries(av, es.skip(k as int), found)
                        == CidrListResult::Invalid);
                }
                return CidrListResult::Invalid;
            },
        };
        if m {
            found = true;
        }
        k = k + 1;
    }
    proof {
        assert(es.skip(k as int) =~= Seq::<Seq<char>>::empty());
    }
    if found {
        CidrListResult::Allow
    } else {
        CidrListResult::NoMatch
    }
}

/// Rate-limiting state for repeated log messages. Points in time are held
/// as monotonic tick counts supplied by the hosting layer.
#[derive(Debug)]
pub struct LogRateLimitCtx {
    pub threshold: u32,
    pub max_accum: u32,
    pub hysteresis: u32,
    pub log_every: u32,
    pub last_event: u64,
    pub accumulated_events: u32,
    pub ratelimit_active: i32,
    pub ratelimit_start: u64,
    pub last_log: u64,
    pub hysteresis_start: u64,
    pub ratelimited_events: u32,
}

impl Default for LogRateLimitCtx {
    /// A quiescent context: no thresholds configured, no events seen.
    fn default() -> (r: LogRateLimitCtx)
        ensures
            r.threshold == 0,
            r.max_accum == 0,
            r.hysteresis == 0,
            r.log_every == 0,
            r.last_event == 0,
            r.accumulated_events == 0,
            r.ratelimit_active == 0,
            r.ratelimit_start == 0,
            r.last_log == 0,
            r.hysteresis_start == 0,
            r.ratelimited_events == 0,
    {
        LogRateLimitCtx {
            threshold: 0,
            max_accum: 0,
            hysteresis: 0,
            log_every: 0,
            last_event: 0,
            accumulated_events: 0,
            ratelimit_active: 0,
            ratelimit_start: 0,
            last_log: 0,
            hysteresis_start: 0,
            ratelimited_events: 0,
        }
    }
}

} // verus!
