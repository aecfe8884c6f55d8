use sshauth::addr::{AddrError, XAddr};
use sshauth::addrtext::{addr_pton, addr_pton_cidr, format_cidr};

#[test]
fn test_ipv4_netmask() {
    let mask = XAddr::netmask(4, 24);
    assert_eq!(mask, Some(XAddr::new_v4(255, 255, 255, 0)));
}

#[test]
fn test_ipv6_netmask() {
    let mask = XAddr::netmask(6, 64);
    assert_eq!(
        mask,
        Some(XAddr::new_v6([
            0xffff, 0xffff, 0xffff, 0xffff, 0x0000, 0x0000, 0x0000, 0x0000
        ]))
    );
}

#[test]
fn test_invalid_af() {
    let mask = XAddr::netmask(10, 24);
    assert_eq!(mask, None);
}

#[test]
fn test_ipv4_edge_case() {
    let mask = XAddr::netmask(4, 32);
    assert_eq!(mask, Some(XAddr::new_v4(255, 255, 255, 255)));
}

#[test]
fn test_ipv6_edge_case() {
    let mask = XAddr::netmask(6, 128);
    assert_eq!(
        mask,
        Some(XAddr::new_v6([
            0xffff, 0xffff, 0xffff, 0xffff, 0xffff, 0xffff, 0xffff, 0xffff
        ]))
    );
}

#[test]
fn test_ipv4_zero_masklen() {
    assert_eq!(XAddr::netmask(4, 0), Some(XAddr::new_v4(0, 0, 0, 0)));
}

#[test]
fn test_ipv4_masklen_out_of_range() {
    assert_eq!(XAddr::netmask(4, 33), None);
    assert_eq!(XAddr::netmask(6, 129), None);
}

#[test]
fn test_ipv6_netmask_carries_across_word_boundary() {
    // one bit past the first 32-bit word: word 0 fully set, word 1 keeps
    // only its top bit
    let mask = XAddr::netmask(6, 33);
    assert_eq!(
        mask,
        Some(XAddr::new_v6([
            0xffff, 0xffff, 0x8000, 0x0000, 0x0000, 0x0000, 0x0000, 0x0000
        ]))
    );
}

#[test]
fn test_addr_pton_ipv4() {
    let a = addr_pton("192.168.1.1").unwrap();
    assert_eq!(a, XAddr::new_v4(192, 168, 1, 1));
    assert_eq!(a.addr_ntop(), "192.168.1.1");
}

#[test]
fn test_addr_pton_ipv6() {
    let a = addr_pton("2001:db8::1").unwrap();
    assert_eq!(
        a,
        XAddr::new_v6([0x2001, 0x0db8, 0, 0, 0, 0, 0, 1])
    );
    assert_eq!(a.addr_ntop(), "2001:db8:0:0:0:0:0:1");
}

#[test]
fn test_addr_pton_ipv6_loopback() {
    let a = addr_pton("::1").unwrap();
    assert_eq!(a, XAddr::new_v6([0, 0, 0, 0, 0, 0, 0, 1]));
    let b = addr_pton("::").unwrap();
    assert_eq!(b, XAddr::new_v6([0, 0, 0, 0, 0, 0, 0, 0]));
    let c = addr_pton("fe80::").unwrap();
    assert_eq!(c, XAddr::new_v6([0xfe80, 0, 0, 0, 0, 0, 0, 0]));
}

#[test]
fn test_addr_pton_rejects_malformed() {
    assert_eq!(addr_pton("not an address"), Err(AddrError::InvalidAddress));
    assert_eq!(addr_pton("256.0.0.1"), Err(AddrError::InvalidAddress));
    assert_eq!(addr_pton("10.0.0"), Err(AddrError::InvalidAddress));
    assert_eq!(addr_pton("1:2:3:4:5:6:7"), Err(AddrError::InvalidAddress));
    assert_eq!(addr_pton("1::2::3"), Err(AddrError::InvalidAddress));
    assert_eq!(addr_pton(""), Err(AddrError::InvalidAddress));
}

#[test]
fn test_addr_pton_cidr() {
    let (a, l) = addr_pton_cidr("10.0.0.0/24").unwrap();
    assert_eq!(a, XAddr::new_v4(10, 0, 0, 0));
    assert_eq!(l, 24);
}

#[test]
fn test_addr_pton_cidr_rejects_bad_mask() {
    assert_eq!(addr_pton_cidr("10.0.0.0/33"), Err(AddrError::InvalidMask));
    assert_eq!(addr_pton_cidr("10.0.0.0/x"), Err(AddrError::InvalidMask));
    assert_eq!(addr_pton_cidr("10.0.0.0"), Err(AddrError::InvalidAddress));
    assert_eq!(addr_pton_cidr("10.0.0.0/8/9"), Err(AddrError::InvalidAddress));
    assert_eq!(addr_pton_cidr("fe80::/129"), Err(AddrError::InvalidMask));
}

#[test]
fn test_addr_and_family_mismatch() {
    let v4 = XAddr::new_v4(10, 0, 0, 1);
    let v6 = XAddr::new_v6([0, 0, 0, 0, 0, 0, 0, 1]);
    assert_eq!(XAddr::addr_and(&v4, &v6), Err(AddrError::FamilyMismatch));
    let m = XAddr::netmask(4, 8).unwrap();
    assert_eq!(XAddr::addr_and(&v4, &m), Ok(XAddr::new_v4(10, 0, 0, 0)));
}

#[test]
fn test_addr_increment_v4() {
    let mut a = XAddr::new_v4(10, 0, 0, 255);
    a.addr_increment();
    assert_eq!(a, XAddr::new_v4(10, 0, 1, 0));
}

#[test]
fn test_addr_increment_v6_carry() {
    let mut a = XAddr::new_v6([0, 0, 0, 0, 0, 0, 0xffff, 0xffff]);
    a.addr_increment();
    assert_eq!(a, XAddr::new_v6([0, 0, 0, 0, 0, 1, 0, 0]));
}

#[test]
fn test_cidr_round_trip() {
    let cases = ["10.0.0.0/24", "192.168.1.1/32", "0.0.0.0/0"];
    for c in cases {
        let (a, l) = addr_pton_cidr(c).unwrap();
        let text = format_cidr(&a, l);
        assert_eq!(text, *c);
        assert_eq!(addr_pton_cidr(&text), Ok((a, l)));
    }
    // IPv6 formats uncompressed, so re-parsing, not the text, round-trips
    let (a, l) = addr_pton_cidr("2001:db8::/64").unwrap();
    let text = format_cidr(&a, l);
    assert_eq!(text, "2001:db8:0:0:0:0:0:0/64");
    assert_eq!(addr_pton_cidr(&text), Ok((a, l)));
}

#[test]
fn test_cidr_prefix_with_leading_zeros() {
    // the prefix length is an unsigned decimal, leading zeros allowed
    let (a, l) = addr_pton_cidr("10.0.0.0/024").unwrap();
    assert_eq!(a, XAddr::new_v4(10, 0, 0, 0));
    assert_eq!(l, 24);
    assert_eq!(
        addr_pton_cidr("10.0.0.0/99999999999"),
        Err(AddrError::InvalidMask)
    );
    // octets stay canonical: a leading zero is no dotted-quad octet
    assert_eq!(addr_pton("10.0.0.01"), Err(AddrError::InvalidAddress));
}

#[test]
fn test_addr_pton_ipv6_embedded_ipv4() {
    // a trailing dotted quad stands for the final two 16-bit groups
    let a = addr_pton("::ffff:192.168.0.1").unwrap();
    assert_eq!(a, XAddr::new_v6([0, 0, 0, 0, 0, 0xffff, 0xc0a8, 0x0001]));
    let b = addr_pton("64:ff9b::1.2.3.4").unwrap();
    assert_eq!(b, XAddr::new_v6([0x64, 0xff9b, 0, 0, 0, 0, 0x0102, 0x0304]));
    let c = addr_pton("1:2:3:4:5:6:1.2.3.4").unwrap();
    assert_eq!(c, XAddr::new_v6([1, 2, 3, 4, 5, 6, 0x0102, 0x0304]));
    let d = addr_pton("::10.0.0.5").unwrap();
    assert_eq!(d, XAddr::new_v6([0, 0, 0, 0, 0, 0, 0x0a00, 0x0005]));
}

#[test]
fn test_addr_pton_rejects_bad_embedded_ipv4() {
    // the dotted quad may only stand last, and only once
    assert_eq!(addr_pton("1.2.3.4::5"), Err(AddrError::InvalidAddress));
    assert_eq!(addr_pton("::1.2.3.4.5"), Err(AddrError::InvalidAddress));
    assert_eq!(addr_pton("1:2:3:4:5:6:7:1.2.3.4"), Err(AddrError::InvalidAddress));
    assert_eq!(addr_pton("::1.2.3"), Err(AddrError::InvalidAddress));
}
