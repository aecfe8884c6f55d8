//! Family-tagged network addresses: a fixed-width value (32-bit IPv4 or
//! 128-bit IPv6 held as four 32-bit words in network order), mask derivation,
//! conjunction, successor computation, and textual formatting.

use vstd::prelude::*;
use vstd::arithmetic::div_mod::lemma_small_mod;
use crate::numtext::{dec_str, hex_str, push_dec, push_hex};
use crate::strutil::chars_to_string;

verus! {

/// Errors of address and CIDR handling.
#[derive(Clone, Copy, Debug, PartialEq, Eq, Structural)]
pub enum AddrError {
    InvalidAddress,
    InvalidMask,
    FamilyMismatch,
}

/// A network address tagged with its family. An IPv6 value carries its four
/// 32-bit words in network order (`w0` holds the most significant bits) and
/// an interface-scope identifier that is meaningful only for link-local
/// addresses.
#[derive(Clone, Copy, Debug, PartialEq, Eq, Structural)]
pub enum XAddr {
    V4 { addr: u32 },
    V6 { w0: u32, w1: u32, w2: u32, w3: u32, scope_id: u32 },
}

impl XAddr {
    /// The family's width in bits.
    pub open spec fn family_len(self) -> int {
        match self {
            XAddr::V4 { .. } => 32,
            XAddr::V6 { .. } => 128,
        }
    }

    /// The address as a sequence of 32-bit words, most significant first.
    pub open spec fn words(self) -> Seq<u32> {
        match self {
            XAddr::V4 { addr } => seq![addr],
            XAddr::V6 { w0, w1, w2, w3, .. } => seq![w0, w1, w2, w3],
        }
    }

    /// The address as one unsigned integer.
    pub open spec fn value(self) -> int {
        match self {
            XAddr::V4 { addr } => addr as int,
            XAddr::V6 { w0, w1, w2, w3, .. } =>
                w0 * 0x1_0000_0000_0000_0000_0000_0000
                    + w1 * 0x1_0000_0000_0000_0000
                    + w2 * 0x1_0000_0000
                    + w3,
        }
    }

    pub open spec fn spec_scope_id(self) -> u32 {
        match self {
            XAddr::V4 { .. } => 0,
            XAddr::V6 { scope_id, .. } => scope_id,
        }
    }
}

/// Two to the 128th power, the modulus of IPv6 successor computation.
pub open spec fn pow2_128() -> int {
    (0x1_0000_0000_0000_0000 * 0x1_0000_0000_0000_0000) as int
}

pub open spec fn same_family(a: XAddr, b: XAddr) -> bool {
    (a is V4 && b is V4) || (a is V6 && b is V6)
}

/// Whether `masklen` is a valid prefix length for IP version `af`
/// (`4` or `6`).
pub open spec fn spec_masklen_valid(af: u32, masklen: u32) -> bool {
    if af == 4 {
        masklen <= 32
    } else if af == 6 {
        masklen <= 128
    } else {
        false
    }
}

/// The width in bits of IP version `af`'s addresses, `-1` for an unknown
/// family.
pub fn addr_unicast_masklen(af: u32) -> (r: i32)
    ensures
        r == (if af == 4 {
            32int
        } else if af == 6 {
            128int
        } else {
            -1int
        }),
{
    if af == 4 {
        32
    } else if af == 6 {
        128
    } else {
        -1
    }
}

pub fn masklen_valid(af: u32, masklen: u32) -> (r: bool)
    ensures
        r == spec_masklen_valid(af, masklen),
{
    if af == 4 {
        masklen <= 32
    } else if af == 6 {
        masklen <= 128
    } else {
        false
    }
}

/// Word `i` of the netmask of prefix length `l`: the first `l` bits of the
/// 128-bit (or 32-bit) mask are ones, the rest zeros, so a word is all ones
/// while `l` has not been exhausted, all zeros once it has, and a partial
/// high-bit run in between.
pub open spec fn mask_word(l: u32, i: int) -> u32
    recommends
        0 <= i,
{
    if l >= 32 * (i + 1) {
        0xffff_ffffu32
    } else if l <= 32 * i {
        0u32
    } else {
        0xffff_ffffu32 << ((32 - (l - 32 * i)) as u32)
    }
}

/// The netmask of prefix length `masklen` for IP version `af`, or `None`
/// when the family is unknown or the length exceeds the family's width.
pub open spec fn spec_netmask(af: u32, masklen: u32) -> Option<XAddr> {
    if af == 4 && masklen <= 32 {
        Some(XAddr::V4 { addr: mask_word(masklen, 0) })
    } else if af == 6 && masklen <= 128 {
        Some(XAddr::V6 {
            w0: mask_word(masklen, 0),
            w1: mask_word(masklen, 1),
            w2: mask_word(masklen, 2),
            w3: mask_word(masklen, 3),
            scope_id: 0,
        })
    } else {
        None
    }
}

fn mask_word_x(l: u32, i: u32) -> (r: u32)
    requires
        i < 4,
        l <= 128,
    ensures
        r == mask_word(l, i as int),
{
    if l >= 32 * (i + 1) {
        0xffff_ffffu32
    } else if l <= 32 * i {
        0u32
    } else {
        0xffff_ffffu32 << (32 - (l - 32 * i))
    }
}

impl XAddr {
    /// Derives the netmask whose highest `masklen` bits are ones for IP
    /// version `af`; any other family number, or a length beyond the
    /// family's width, is rejected.
    pub fn netmask(af: u32, masklen: u32) -> (r: Option<XAddr>)
        ensures
            r == spec_netmask(af, masklen),
    {
        if af == 4 && masklen <= 32 {
            Some(XAddr::V4 { addr: mask_word_x(masklen, 0) })
        } else if af == 6 && masklen <= 128 {
            Some(XAddr::V6 {
                w0: mask_word_x(masklen, 0),
                w1: mask_word_x(masklen, 1),
                w2: mask_word_x(masklen, 2),
                w3: mask_word_x(masklen, 3),
                scope_id: 0,
            })
        } else {
            None
        }
    }

    /// An IPv4 address from its four dotted-quad octets.
    pub fn new_v4(a: u8, b: u8, c: u8, d: u8) -> (r: XAddr)
        ensures
            r == (XAddr::V4 {
                addr: (a as u32) << 24 | (b as u32) << 16 | (c as u32) << 8 | (d as u32),
            }),
    {
        XAddr::V4 { addr: (a as u32) << 24 | (b as u32) << 16 | (c as u32) << 8 | (d as u32) }
    }

    /// An IPv6 address from its eight 16-bit groups, most significant first.
    pub fn new_v6(g: [u16; 8]) -> (r: XAddr)
        ensures
            r == (XAddr::V6 {
                w0: (g@[0] as u32) << 16 | (g@[1] as u32),
                w1: (g@[2] as u32) << 16 | (g@[3] as u32),
                w2: (g@[4] as u32) << 16 | (g@[5] as u32),
                w3: (g@[6] as u32) << 16 | (g@[7] as u32),
                scope_id: 0,
            }),
    {
        XAddr::V6 {
            w0: (g[0] as u32) << 16 | (g[1] as u32),
            w1: (g[2] as u32) << 16 | (g[3] as u32),
            w2: (g[4] as u32) << 16 | (g[5] as u32),
            w3: (g[6] as u32) << 16 | (g[7] as u32),
            scope_id: 0,
        }
    }
}

/// The bitwise conjunction of two same-family addresses; the scope identifier
/// of `a` is kept.
pub open spec fn spec_addr_and(a: XAddr, b: XAddr) -> XAddr
    recommends
        same_family(a, b),
{
    match (a, b) {
        (XAddr::V4 { addr: x }, XAddr::V4 { addr: y }) => XAddr::V4 { addr: x & y },
        (
            XAddr::V6 { w0: x0, w1: x1, w2: x2, w3: x3, scope_id },
            XAddr::V6 { w0: y0, w1: y1, w2: y2, w3: y3, .. },
        ) => XAddr::V6 { w0: x0 & y0, w1: x1 & y1, w2: x2 & y2, w3: x3 & y3, scope_id },
        _ => a,
    }
}

impl XAddr {
    /// Bitwise AND of two addresses; fails when the families differ.
    pub fn addr_and(a: &XAddr, b: &XAddr) -> (r: Result<XAddr, AddrError>)
        ensures
            same_family(*a, *b) ==> r == Ok::<XAddr, AddrError>(spec_addr_and(*a, *b)),
            !same_family(*a, *b) ==> r == Err::<XAddr, AddrError>(AddrError::FamilyMismatch),
    {
        match (a, b) {
            (XAddr::V4 { addr: x }, XAddr::V4 { addr: y }) => Ok(XAddr::V4 { addr: *x & *y }),
            (
                XAddr::V6 { w0: x0, w1: x1, w2: x2, w3: x3, scope_id },
                XAddr::V6 { w0: y0, w1: y1, w2: y2, w3: y3, .. },
            ) => Ok(XAddr::V6 {
                w0: *x0 & *y0,
                w1: *x1 & *y1,
                w2: *x2 & *y2,
                w3: *x3 & *y3,
                scope_id: *scope_id,
            }),
            _ => Err(AddrError::FamilyMismatch),
        }
    }

    /// Adds one to the address read as a big-endian integer, with carry
    /// propagation across the 32-bit words and wrap-around at the family's
    /// width. The family and the scope identifier are unchanged.
    pub fn addr_increment(&mut self)
        ensures
            ((*final(self)) is V4) <==> ((*old(self)) is V4),
            (*final(self)).spec_scope_id() == (*old(self)).spec_scope_id(),
            (*old(self)) is V4 ==> (*final(self)).value() == ((*old(self)).value() + 1)
                % 0x1_0000_0000,
            (*old(self)) is V6 ==> (*final(self)).value() == ((*old(self)).value() + 1)
                % pow2_128(),
    {
        match self {
            XAddr::V4 { addr } => {
                if *addr == 0xffff_ffffu32 {
                    *addr = 0;
                } else {
                    *addr = *addr + 1;
                    proof {
                        lemma_small_mod(((*old(self)).value() + 1) as nat, 0x1_0000_0000nat);
                    }
                }
            },
            XAddr::V6 { w0, w1, w2, w3, .. } => {
                if *w3 != 0xffff_ffffu32 {
                    *w3 = *w3 + 1;
                } else {
                    *w3 = 0;
                    if *w2 != 0xffff_ffffu32 {
                        *w2 = *w2 + 1;
                    } else {
                        *w2 = 0;
                        if *w1 != 0xffff_ffffu32 {
                            *w1 = *w1 + 1;
                        } else {
                            *w1 = 0;
                            if *w0 != 0xffff_ffffu32 {
                                *w0 = *w0 + 1;
                            } else {
                                *w0 = 0;
                            }
                        }
                    }
                }
                proof {
                    if (*old(self)).value() + 1 < pow2_128() {
                        lemma_small_mod(((*old(self)).value() + 1) as nat, pow2_128() as nat);
                    } else {
                        assert((*old(self)).value() + 1 == pow2_128());
                    }
                }
            },
        }
    }
}

/// Canonical text of an address: dotted-quad decimal for IPv4, eight
/// colon-separated lowercase hexadecimal groups (never compressed) for IPv6.
pub open spec fn ntop_str(a: XAddr) -> Seq<char> {
    match a {
        XAddr::V4 { addr } => dec_str(((addr >> 24) & 0xff) as nat) + seq!['.']
            + dec_str(((addr >> 16) & 0xff) as nat) + seq!['.']
            + dec_str(((addr >> 8) & 0xff) as nat) + seq!['.']
            + dec_str((addr & 0xff) as nat),
        XAddr::V6 { w0, w1, w2, w3, .. } => hex_str((w0 >> 16) as nat) + seq![':']
            + hex_str((w0 & 0xffff) as nat) + seq![':']
            + hex_str((w1 >> 16) as nat) + seq![':']
            + hex_str((w1 & 0xffff) as nat) + seq![':']
            + hex_str((w2 >> 16) as nat) + seq![':']
            + hex_str((w2 & 0xffff) as nat) + seq![':']
            + hex_str((w3 >> 16) as nat) + seq![':']
            + hex_str((w3 & 0xffff) as nat),
    }
}

impl XAddr {
    /// Formats the address as text.
    pub fn addr_ntop(&self) -> (r: String)
        ensures
            r@ == ntop_str(*self),
    {
        let mut out: Vec<char> = Vec::new();
        match self {
            XAddr::V4 { addr } => {
                push_dec(&mut out, (*addr >> 24) & 0xff);
                out.push('.');
                push_dec(&mut out, (*addr >> 16) & 0xff);
                out.push('.');
                push_dec(&mut out, (*addr >> 8) & 0xff);
                out.push('.');
                push_dec(&mut out, *addr & 0xff);
            },
            XAddr::V6 { w0, w1, w2, w3, .. } => {
                push_hex(&mut out, *w0 >> 16);
                out.push(':');
                push_hex(&mut out, *w0 & 0xffff);
                out.push(':');
                push_hex(&mut out, *w1 >> 16);
                out.push(':');
                push_hex(&mut out, *w1 & 0xffff);
                out.push(':');
                push_hex(&mut out, *w2 >> 16);
                out.push(':');
                push_hex(&mut out, *w2 & 0xffff);
                out.push(':');
                push_hex(&mut out, *w3 >> 16);
                out.push(':');
                push_hex(&mut out, *w3 & 0xffff);
            },
        }
        proof {
            assert(out@ =~= ntop_str(*self));
        }
        chars_to_string(&out)
    }
}

/// For IPv4 prefix lengths, the derived mask is the all-ones word shifted
/// left by the unused width (a zero length gives the zero mask), and two
/// addresses agree under that mask exactly when their top `len` bits agree.
pub proof fn lemma_ipv4_mask(len: u32, a: u32, b: u32)
    requires
        len <= 32,
    ensures
        len == 0 ==> mask_word(len, 0) == 0u32,
        1 <= len <= 31 ==> mask_word(len, 0) == 0xffff_ffffu32 << ((32 - len) as u32),
        len == 32 ==> mask_word(len, 0) == 0xffff_ffffu32,
        len >= 1 ==> ((a & mask_word(len, 0)) == (b & mask_word(len, 0)) <==> (a >> (
        (32 - len) as u32)) == (b >> ((32 - len) as u32))),
        len == 0 ==> (a & mask_word(len, 0)) == (b & mask_word(len, 0)),
{
    let m = mask_word(len, 0);
    if len >= 1 {
        assert((a & m) == (b & m) <==> (a >> ((32 - len) as u32)) == (b >> ((32 - len) as u32)))
            by (bit_vector)
            requires
                1 <= len <= 32,
                m == (if len == 32 {
                    0xffff_ffffu32
                } else {
                    0xffff_ffffu32 << ((32 - len) as u32)
                }),
        ;
    } else {
        assert((a & 0u32) == 0u32 && (b & 0u32) == 0u32) by (bit_vector);
    }
}

/// For IPv6 prefix lengths, masking acts on each 32-bit word independently:
/// word `i` of the 128-bit mask is the 32-bit mask of the portion of the
/// prefix length that falls into that word, so the run of ones carries from
/// one word into the next exactly at the word boundaries.
pub proof fn lemma_ipv6_mask_per_word(len: u32, i: int)
    requires
        len <= 128,
        0 <= i < 4,
    ensures
        mask_word(len, i) == mask_word(
            if len <= 32 * i {
                0u32
            } else if len >= 32 * (i + 1) {
                32u32
            } else {
                (len - 32 * i) as u32
            },
            0,
        ),
{
}

} // verus!
