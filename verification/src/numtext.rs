//! Decimal and hexadecimal text: specification-level value functions,
//! canonical formatting, and executable parsers proved against them.

use vstd::prelude::*;
use vstd::string::*;
use vstd::arithmetic::div_mod::lemma_fundamental_div_mod;

verus! {

// ---------------------------------------------------------------------------
// Decimal digits
// ---------------------------------------------------------------------------

pub open spec fn is_digit(c: char) -> bool {
    '0' <= c && c <= '9'
}

pub open spec fn digit_val(c: char) -> int {
    c as u32 - '0' as u32
}

pub open spec fn all_digits(s: Seq<char>) -> bool {
    forall|i: int| 0 <= i < s.len() ==> is_digit(#[trigger] s[i])
}

/// Value of a digit string, most significant digit first.
pub open spec fn dec_val(s: Seq<char>) -> int
    decreases s.len(),
{
    if s.len() == 0 {
        0
    } else {
        dec_val(s.drop_last()) * 10 + digit_val(s.last())
    }
}

pub open spec fn pow10(n: nat) -> int
    decreases n,
{
    if n == 0 {
        1
    } else {
        10 * pow10((n - 1) as nat)
    }
}

/// A canonical decimal numeral: non-empty, digits only, no leading zero.
pub open spec fn is_canon_dec(s: Seq<char>) -> bool {
    &&& s.len() >= 1
    &&& all_digits(s)
    &&& (s.len() > 1 ==> s[0] != '0')
}

/// The number denoted by `s`, if `s` is a canonical numeral of at most nine
/// digits (so that every accepted value fits comfortably in a `u32`).
pub open spec fn parse_dec_spec(s: Seq<char>) -> Option<u32> {
    if is_canon_dec(s) && s.len() <= 9 {
        Some(dec_val(s) as u32)
    } else {
        None
    }
}

/// Non-negativity of a digit string's value.
pub proof fn lemma_dec_val_nonneg(s: Seq<char>)
    requires
        all_digits(s),
    ensures
        dec_val(s) >= 0,
    decreases s.len(),
{
    if s.len() > 0 {
        assert(all_digits(s.drop_last()));
        lemma_dec_val_nonneg(s.drop_last());
        assert(is_digit(s.last()));
    }
}

/// A digit string is worth at least any of its prefixes.
pub proof fn lemma_dec_val_prefix_le(s: Seq<char>, i: int)
    requires
        all_digits(s),
        0 <= i <= s.len(),
    ensures
        dec_val(s.take(i)) <= dec_val(s),
    decreases s.len() - i,
{
    if i < s.len() {
        lemma_dec_val_prefix_le(s, i + 1);
        assert(s.take(i + 1).drop_last() == s.take(i));
        assert(s.take(i + 1).last() == s[i]);
        assert(all_digits(s.take(i)));
        lemma_dec_val_nonneg(s.take(i));
        assert(is_digit(s[i]));
        assert(dec_val(s.take(i)) <= dec_val(s.take(i + 1)));
    } else {
        assert(s.take(i) == s);
    }
}

/// The number denoted by `s` as `u32::from_str` reads it: any non-empty run
/// of digits, leading zeros included, whose value fits a `u32`.
pub open spec fn parse_dec_loose_spec(s: Seq<char>) -> Option<u32> {
    if s.len() >= 1 && all_digits(s) && dec_val(s) <= u32::MAX {
        Some(dec_val(s) as u32)
    } else {
        None
    }
}

/// Parses a non-empty digit string, leading zeros allowed, rejecting values
/// beyond `u32::MAX`.
pub fn parse_dec_loose(s: &str) -> (r: Option<u32>)
    ensures
        r == parse_dec_loose_spec(s@),
{
    let n = s.unicode_len();
    if n == 0 {
        return None;
    }
    let mut acc: u64 = 0;
    let mut i: usize = 0;
    while i < n
        invariant
            0 <= i <= n,
            n == s@.len(),
            n >= 1,
            forall|j: int| 0 <= j < i ==> is_digit(#[trigger] s@[j]),
            all_digits(s@.take(i as int)),
            acc == dec_val(s@.take(i as int)),
            acc <= 0xffff_ffffu64,
        decreases n - i,
    {
        let c = s.get_char(i);
        if c < '0' || c > '9' {
            assert(!is_digit(s@[i as int]));
            assert(!all_digits(s@));
            return None;
        }
        let d = ((c as u32) - ('0' as u32)) as u64;
        proof {
            assert(s@.take(i + 1).drop_last() == s@.take(i as int));
            assert(s@.take(i + 1).last() == s@[i as int]);
        }
        acc = acc * 10 + d;
        i = i + 1;
        if acc > 0xffff_ffffu64 {
            proof {
                assert(all_digits(s@) ==> dec_val(s@) > u32::MAX) by {
                    if all_digits(s@) {
                        lemma_dec_val_prefix_le(s@, i as int);
                    }
                }
            }
            return None;
        }
    }
    proof {
        assert(s@.take(n as int) == s@);
    }
    Some(acc as u32)
}

/// Round trip: the loose parse also reads back the canonical text of `v`.
pub proof fn lemma_dec_loose_round_trip(v: u32)
    ensures
        parse_dec_loose_spec(dec_str(v as nat)) == Some(v),
{
    lemma_dec_str_val(v as nat);
}

/// Canonical decimal text of a number, most significant digit first.
pub open spec fn dec_str(v: nat) -> Seq<char>
    decreases v,
{
    if v < 10 {
        seq![digit_char(v as int)]
    } else {
        dec_str(v / 10).push(digit_char(v as int % 10))
    }
}

pub open spec fn digit_char(v: int) -> char {
    if v == 0 { '0' }
    else if v == 1 { '1' }
    else if v == 2 { '2' }
    else if v == 3 { '3' }
    else if v == 4 { '4' }
    else if v == 5 { '5' }
    else if v == 6 { '6' }
    else if v == 7 { '7' }
    else if v == 8 { '8' }
    else { '9' }
}

pub proof fn lemma_digit_char_val(v: int)
    requires
        0 <= v <= 9,
    ensures
        is_digit(digit_char(v)),
        digit_val(digit_char(v)) == v,
{
}

pub proof fn lemma_dec_str_val(v: nat)
    ensures
        dec_str(v).len() >= 1,
        all_digits(dec_str(v)),
        dec_val(dec_str(v)) == v,
        v > 0 ==> dec_str(v)[0] != '0',
        v == 0 ==> dec_str(v) == seq!['0'],
        v < 10 ==> dec_str(v).len() == 1,
    decreases v,
{
    if v < 10 {
        lemma_digit_char_val(v as int);
        let s = seq![digit_char(v as int)];
        assert(dec_str(v) == s);
        assert(s.drop_last() =~= Seq::<char>::empty());
        assert(dec_val(s) == dec_val(s.drop_last()) * 10 + digit_val(s.last()));
    } else {
        lemma_dec_str_val(v / 10);
        lemma_fundamental_div_mod(v as int, 10);
        lemma_digit_char_val(v as int % 10);
        let p = dec_str(v / 10);
        let s = dec_str(v);
        assert(s == p.push(digit_char(v as int % 10)));
        assert(s.drop_last() == p);
        assert(forall|i: int| 0 <= i < s.len() ==> is_digit(#[trigger] s[i]));
        assert(dec_val(s) == dec_val(p) * 10 + (v as int % 10));
    }
}

pub proof fn lemma_dec_str_len(v: nat, n: nat)
    requires
        n >= 1,
        v < pow10(n),
    ensures
        dec_str(v).len() <= n,
    decreases v,
{
    if v < 10 {
    } else {
        lemma_fundamental_div_mod(v as int, 10);
        assert(pow10(n) == 10 * pow10((n - 1) as nat));
        assert(v / 10 < pow10((n - 1) as nat));
        assert(n - 1 >= 1) by {
            if n == 1 {
                assert(pow10(1) == 10);
            }
        }
        lemma_dec_str_len(v / 10, (n - 1) as nat);
    }
}

/// Round trip: parsing the canonical text of `v` gives back `v`.
pub proof fn lemma_dec_round_trip(v: u32)
    requires
        v <= 999_999_999,
    ensures
        parse_dec_spec(dec_str(v as nat)) == Some(v),
{
    lemma_dec_str_val(v as nat);
    assert(pow10(9) == 1_000_000_000) by {
        reveal_with_fuel(pow10, 10);
    }
    lemma_dec_str_len(v as nat, 9);
}

/// Parses a canonical decimal numeral of at most nine digits.
pub fn parse_dec_u32(s: &str) -> (r: Option<u32>)
    ensures
        r == parse_dec_spec(s@),
{
    let n = s.unicode_len();
    if n == 0 || n > 9 {
        return None;
    }
    let first = s.get_char(0);
    if n > 1 && first == '0' {
        return None;
    }
    let mut acc: u32 = 0;
    let mut i: usize = 0;
    while i < n
        invariant
            0 <= i <= n,
            n == s@.len(),
            1 <= n <= 9,
            forall|j: int| 0 <= j < i ==> is_digit(#[trigger] s@[j]),
            all_digits(s@.take(i as int)),
            acc == dec_val(s@.take(i as int)),
            acc < pow10(i as nat),
        decreases n - i,
    {
        let c = s.get_char(i);
        if c < '0' || c > '9' {
            assert(!is_digit(s@[i as int]));
            assert(!all_digits(s@));
            return None;
        }
        let d = (c as u32) - ('0' as u32);
        proof {
            assert(s@.take(i + 1).drop_last() == s@.take(i as int));
            assert(s@.take(i + 1).last() == s@[i as int]);
            assert(pow10(i as nat) <= pow10(8)) by {
                lemma_pow10_increases(i as nat, 8);
            }
            assert(pow10(8) == 100_000_000) by {
                reveal_with_fuel(pow10, 9);
            }
        }
        acc = acc * 10 + d;
        i = i + 1;
    }
    proof {
        assert(s@.take(n as int) == s@);
        assert(is_canon_dec(s@));
    }
    Some(acc)
}

pub proof fn lemma_pow10_increases(m: nat, n: nat)
    requires
        m <= n,
    ensures
        pow10(m) <= pow10(n),
        pow10(m) >= 1,
    decreases n,
{
    if n > 0 {
        if m == n {
            lemma_pow10_increases((n - 1) as nat, (n - 1) as nat);
        } else {
            lemma_pow10_increases(m, (n - 1) as nat);
        }
    }
}

/// Appends the canonical decimal text of `v` to `out`.
pub fn push_dec(out: &mut Vec<char>, v: u32)
    ensures
        final(out)@ == old(out)@ + dec_str(v as nat),
    decreases v,
{
    if v < 10 {
        out.push(digit_char_of(v));
    } else {
        push_dec(out, v / 10);
        out.push(digit_char_of(v % 10));
        proof {
            assert(old(out)@ + dec_str((v / 10) as nat) + seq![digit_char((v % 10) as int)]
                =~= old(out)@ + dec_str(v as nat));
        }
    }
}

fn digit_char_of(v: u32) -> (c: char)
    requires
        v <= 9,
    ensures
        c == digit_char(v as int),
{
    match v {
        0 => '0',
        1 => '1',
        2 => '2',
        3 => '3',
        4 => '4',
        5 => '5',
        6 => '6',
        7 => '7',
        8 => '8',
        _ => '9',
    }
}

// ---------------------------------------------------------------------------
// Hexadecimal digits
// ---------------------------------------------------------------------------

pub open spec fn is_hex_digit(c: char) -> bool {
    is_digit(c) || ('a' <= c && c <= 'f') || ('A' <= c && c <= 'F')
}

pub open spec fn hex_val(c: char) -> int {
    if is_digit(c) {
        digit_val(c)
    } else if 'a' <= c && c <= 'f' {
        c as u32 - 'a' as u32 + 10
    } else {
        c as u32 - 'A' as u32 + 10
    }
}

pub open spec fn all_hex(s: Seq<char>) -> bool {
    forall|i: int| 0 <= i < s.len() ==> is_hex_digit(#[trigger] s[i])
}

pub open spec fn hex_seq_val(s: Seq<char>) -> int
    decreases s.len(),
{
    if s.len() == 0 {
        0
    } else {
        hex_seq_val(s.drop_last()) * 16 + hex_val(s.last())
    }
}

/// The value of a hexadecimal group of one to four digits, as used by the
/// colon form of an IPv6 address.
pub open spec fn parse_hex16_spec(s: Seq<char>) -> Option<u16> {
    if 1 <= s.len() <= 4 && all_hex(s) {
        Some(hex_seq_val(s) as u16)
    } else {
        None
    }
}

pub open spec fn pow16(n: nat) -> int
    decreases n,
{
    if n == 0 {
        1
    } else {
        16 * pow16((n - 1) as nat)
    }
}

pub proof fn lemma_hex_seq_val_bound(s: Seq<char>)
    requires
        all_hex(s),
    ensures
        0 <= hex_seq_val(s) < pow16(s.len() as nat),
    decreases s.len(),
{
    if s.len() > 0 {
        assert(all_hex(s.drop_last()));
        lemma_hex_seq_val_bound(s.drop_last());
        assert(is_hex_digit(s.last()));
    }
}

pub open spec fn hex_digit_char(v: int) -> char {
    if v == 0 { '0' }
    else if v == 1 { '1' }
    else if v == 2 { '2' }
    else if v == 3 { '3' }
    else if v == 4 { '4' }
    else if v == 5 { '5' }
    else if v == 6 { '6' }
    else if v == 7 { '7' }
    else if v == 8 { '8' }
    else if v == 9 { '9' }
    else if v == 10 { 'a' }
    else if v == 11 { 'b' }
    else if v == 12 { 'c' }
    else if v == 13 { 'd' }
    else if v == 14 { 'e' }
    else { 'f' }
}

pub proof fn lemma_hex_digit_char_val(v: int)
    requires
        0 <= v <= 15,
    ensures
        is_hex_digit(hex_digit_char(v)),
        hex_val(hex_digit_char(v)) == v,
{
}

/// Canonical lowercase hexadecimal text of a number.
pub open spec fn hex_str(v: nat) -> Seq<char>
    decreases v,
{
    if v < 16 {
        seq![hex_digit_char(v as int)]
    } else {
        hex_str(v / 16).push(hex_digit_char(v as int % 16))
    }
}

pub proof fn lemma_hex_str_val(v: nat)
    ensures
        hex_str(v).len() >= 1,
        all_hex(hex_str(v)),
        hex_seq_val(hex_str(v)) == v,
        v > 0 ==> hex_str(v)[0] != '0',
        v < 16 ==> hex_str(v).len() == 1,
    decreases v,
{
    if v < 16 {
        lemma_hex_digit_char_val(v as int);
        let s = seq![hex_digit_char(v as int)];
        assert(hex_str(v) == s);
        assert(s.drop_last() =~= Seq::<char>::empty());
        assert(hex_seq_val(s) == hex_seq_val(s.drop_last()) * 16 + hex_val(s.last()));
    } else {
        lemma_hex_str_val(v / 16);
        lemma_fundamental_div_mod(v as int, 16);
        lemma_hex_digit_char_val(v as int % 16);
        let p = hex_str(v / 16);
        let s = hex_str(v);
        assert(s == p.push(hex_digit_char(v as int % 16)));
        assert(s.drop_last() == p);
        assert(forall|i: int| 0 <= i < s.len() ==> is_hex_digit(#[trigger] s[i]));
        assert(hex_seq_val(s) == hex_seq_val(p) * 16 + (v as int % 16));
    }
}

pub proof fn lemma_hex_str_len(v: nat, n: nat)
    requires
        n >= 1,
        v < pow16(n),
    ensures
        hex_str(v).len() <= n,
    decreases v,
{
    if v < 16 {
    } else {
        lemma_fundamental_div_mod(v as int, 16);
        assert(pow16(n) == 16 * pow16((n - 1) as nat));
        assert(v / 16 < pow16((n - 1) as nat));
        assert(n - 1 >= 1) by {
            if n == 1 {
                assert(pow16(1) == 16);
            }
        }
        lemma_hex_str_len(v / 16, (n - 1) as nat);
    }
}

/// Round trip: parsing the canonical hex text of a group gives back its value.
pub proof fn lemma_hex_round_trip(v: u16)
    ensures
        parse_hex16_spec(hex_str(v as nat)) == Some(v),
{
    lemma_hex_str_val(v as nat);
    assert(pow16(4) == 65536) by {
        reveal_with_fuel(pow16, 5);
    }
    lemma_hex_str_len(v as nat, 4);
}

/// Parses a hexadecimal group of one to four digits.
pub fn parse_hex_u16(s: &str) -> (r: Option<u16>)
    ensures
        r == parse_hex16_spec(s@),
{
    let n = s.unicode_len();
    if n == 0 || n > 4 {
        return None;
    }
    let mut acc: u32 = 0;
    let mut i: usize = 0;
    while i < n
        invariant
            0 <= i <= n,
            n == s@.len(),
            1 <= n <= 4,
            all_hex(s@.take(i as int)),
            acc == hex_seq_val(s@.take(i as int)),
            acc < pow16(i as nat),
        decreases n - i,
    {
        let c = s.get_char(i);
        let d: u32 = if c >= '0' && c <= '9' {
            (c as u32) - ('0' as u32)
        } else if c >= 'a' && c <= 'f' {
            (c as u32) - ('a' as u32) + 10
        } else if c >= 'A' && c <= 'F' {
            (c as u32) - ('A' as u32) + 10
        } else {
            assert(!is_hex_digit(s@[i as int]));
            assert(!all_hex(s@));
            return None;
        };
        proof {
            assert(s@.take(i + 1).drop_last() == s@.take(i as int));
            assert(s@.take(i + 1).last() == s@[i as int]);
            assert(pow16(i as nat) <= pow16(3)) by {
                lemma_pow16_increases(i as nat, 3);
            }
            assert(pow16(3) == 4096) by {
                reveal_with_fuel(pow16, 4);
            }
        }
        acc = acc * 16 + d;
        i = i + 1;
    }
    proof {
        assert(s@.take(n as int) == s@);
        lemma_hex_seq_val_bound(s@);
        assert(pow16(4) == 65536) by {
            reveal_with_fuel(pow16, 5);
        }
    }
    Some(acc as u16)
}

pub proof fn lemma_pow16_increases(m: nat, n: nat)
    requires
        m <= n,
    ensures
        pow16(m) <= pow16(n),
        pow16(m) >= 1,
    decreases n,
{
    if n > 0 {
        if m == n {
            lemma_pow16_increases((n - 1) as nat, (n - 1) as nat);
        } else {
            lemma_pow16_increases(m, (n - 1) as nat);
        }
    }
}

/// Appends the canonical lowercase hex text of `v` to `out`.
pub fn push_hex(out: &mut Vec<char>, v: u32)
    ensures
        final(out)@ == old(out)@ + hex_str(v as nat),
    decreases v,
{
    if v < 16 {
        out.push(hex_digit_char_of(v));
    } else {
        push_hex(out, v / 16);
        out.push(hex_digit_char_of(v % 16));
        proof {
            assert(old(out)@ + hex_str((v / 16) as nat) + seq![hex_digit_char((v % 16) as int)]
                =~= old(out)@ + hex_str(v as nat));
        }
    }
}

fn hex_digit_char_of(v: u32) -> (c: char)
    requires
        v <= 15,
    ensures
        c == hex_digit_char(v as int),
{
    match v {
        0 => '0',
        1 => '1',
        2 => '2',
        3 => '3',
        4 => '4',
        5 => '5',
        6 => '6',
        7 => '7',
        8 => '8',
        9 => '9',
        10 => 'a',
        11 => 'b',
        12 => 'c',
        13 => 'd',
        14 => 'e',
        _ => 'f',
    }
}

} // verus!
