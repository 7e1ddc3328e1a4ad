use corvid::net::mac::{is_local, is_multicast};
use corvid::net::{fmt_ipv4, fmt_ipv6, fmt_mac, parse_ipv4, parse_mac, proto_name, Cidr4, PortRange, PortSet, PrefixSet};

#[test]
fn ipv4_roundtrip() {
    let a = parse_ipv4("10.0.0.1").unwrap();
    assert_eq!(a, 0x0a000001);
    assert_eq!(fmt_ipv4(a), "10.0.0.1");
}

#[test]
fn ipv4_rejects_bad() {
    assert!(parse_ipv4("1.2.3").is_err());
    assert!(parse_ipv4("256.0.0.1").is_err());
}

#[test]
fn ipv4_format_then_parse_is_identity() {
    for a in [0u32, 1, 0xffff_ffff, 0xc0a8_0101, 0x7f00_0001] {
        assert_eq!(parse_ipv4(&fmt_ipv4(a)).unwrap(), a);
    }
}

#[test]
fn ipv6_compression() {
    let mut b = [0u8; 16];
    b[0] = 0x20;
    b[1] = 0x01;
    b[15] = 1;
    assert_eq!(fmt_ipv6(&b), "2001::1");
}

#[test]
fn protocol_names() {
    assert_eq!(proto_name(6), "tcp");
    assert_eq!(proto_name(17), "udp");
}

#[test]
fn membership() {
    let c = Cidr4::parse("10.0.0.0/8").unwrap();
    assert!(c.contains(parse_ipv4("10.1.2.3").unwrap()));
    assert!(!c.contains(parse_ipv4("11.0.0.1").unwrap()));
}

#[test]
fn cidr_bounds() {
    let c = Cidr4::parse("192.168.1.0/24").unwrap();
    assert_eq!(c.network(), 0xc0a8_0100);
    assert_eq!(c.broadcast(), 0xc0a8_01ff);
    assert_eq!(c.prefix(), 24);
    assert!(Cidr4::new(0, 33).is_err());
}

#[test]
fn longest_prefix() {
    let mut set = PrefixSet::new();
    set.insert(Cidr4::parse("10.0.0.0/8").unwrap());
    set.insert(Cidr4::parse("10.1.0.0/16").unwrap());
    let m = set.matches(parse_ipv4("10.1.2.3").unwrap()).unwrap();
    assert_eq!(m.prefix(), 16);
    assert!(set.matches(parse_ipv4("11.0.0.1").unwrap()).is_none());
}

#[test]
fn mac_roundtrip() {
    let m = parse_mac("01:23:45:67:89:ab").unwrap();
    assert_eq!(fmt_mac(&m), "01:23:45:67:89:ab");
    assert!(is_multicast(&m));
}

#[test]
fn mac_rejects_short() {
    assert!(parse_mac("01:23:45").is_err());
}

#[test]
fn mac_flags() {
    let m = parse_mac("02:00:00:00:00:01").unwrap();
    assert!(is_local(&m));
    assert!(!is_multicast(&m));
}

#[test]
fn parse_and_contains() {
    let set = PortSet::parse("80, 443, 1024-2048").unwrap();
    assert!(set.contains(80));
    assert!(set.contains(1500));
    assert!(!set.contains(79));
}

#[test]
fn adjacent_ranges_merge() {
    let mut set = PortSet::new();
    set.add(PortRange::new(10, 20));
    set.add(PortRange::new(21, 30));
    assert_eq!(set.len(), 1);
    assert_eq!(set.cardinality(), 21);
}

#[test]
fn separate_ranges_stay_apart() {
    let mut set = PortSet::new();
    set.add(PortRange::new(10, 20));
    set.add(PortRange::new(30, 40));
    assert_eq!(set.len(), 2);
    assert_eq!(set.cardinality(), 22);
    assert!(!set.contains(25));
    assert!(PortSet::parse("80-").is_err());
}
