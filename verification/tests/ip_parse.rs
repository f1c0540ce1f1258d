use netsetup::ip::{fmt_cidr, fmt_ipv4, parse_cidr, parse_ipv4, pick_addr, Subnet};

#[test]
fn parse_ipv4_accepts_dotted_quads() {
    assert_eq!(parse_ipv4("10.0.0.1"), Some(10 << 24 | 1));
    assert_eq!(parse_ipv4("0.0.0.0"), Some(0));
    assert_eq!(parse_ipv4("255.255.255.255"), Some(u32::MAX));
    assert_eq!(parse_ipv4("192.168.1.20"), Some((192 << 24) + (168 << 16) + (1 << 8) + 20));
}

#[test]
fn parse_ipv4_rejects_malformed_input() {
    assert_eq!(parse_ipv4(""), None);
    assert_eq!(parse_ipv4("10.0.0"), None);
    assert_eq!(parse_ipv4("10.0.0.0.0"), None);
    assert_eq!(parse_ipv4("256.0.0.1"), None);
    assert_eq!(parse_ipv4("10.0.0.01"), None);
    assert_eq!(parse_ipv4("10..0.1"), None);
    assert_eq!(parse_ipv4("10.0.0.1 "), None);
    assert_eq!(parse_ipv4("a.b.c.d"), None);
    assert_eq!(parse_ipv4("1000.0.0.1"), None);
}

#[test]
fn parse_cidr_accepts_subnets() {
    let s = parse_cidr("10.0.0.0/24").unwrap();
    assert_eq!(s.base, 10 << 24);
    assert_eq!(s.prefix, 24);
    let whole = parse_cidr("0.0.0.0/0").unwrap();
    assert_eq!(whole.base, 0);
    assert_eq!(whole.prefix, 0);
    let single = parse_cidr("10.0.0.7/32").unwrap();
    assert_eq!(single.base, (10 << 24) + 7);
    assert_eq!(single.prefix, 32);
}

#[test]
fn parse_cidr_clears_host_bits() {
    let s = parse_cidr("10.0.0.77/24").unwrap();
    assert_eq!(s.base, 10 << 24);
    assert_eq!(s.prefix, 24);
}

#[test]
fn parse_cidr_rejects_malformed_input() {
    assert_eq!(parse_cidr(""), None);
    assert_eq!(parse_cidr("10.0.0.0"), None);
    assert_eq!(parse_cidr("10.0.0.0/33"), None);
    assert_eq!(parse_cidr("10.0.0.0/"), None);
    assert_eq!(parse_cidr("10.0.0.0/24x"), None);
    assert_eq!(parse_cidr("10.0.0.0/08"), None);
    assert_eq!(parse_cidr("abc/24"), None);
}

#[test]
fn fmt_ipv4_renders_dotted_quads() {
    assert_eq!(fmt_ipv4(10 << 24 | 1), "10.0.0.1");
    assert_eq!(fmt_ipv4(0), "0.0.0.0");
    assert_eq!(fmt_ipv4(u32::MAX), "255.255.255.255");
    assert_eq!(fmt_cidr((192 << 24) + (168 << 16), 16), "192.168.0.0/16");
}

#[test]
fn pick_addr_skips_gateway_and_used() {
    let sub = parse_cidr("10.0.0.0/24").unwrap();
    let gw = parse_ipv4("10.0.0.1").unwrap();
    let used = vec![gw, parse_ipv4("10.0.0.2").unwrap()];
    let got = pick_addr(&sub, gw, &used).unwrap();
    assert_eq!(fmt_ipv4(got), "10.0.0.3");
    assert_ne!(got, gw);
    assert!(!used.contains(&got));
}

#[test]
fn pick_addr_excludes_base_and_broadcast() {
    let sub = parse_cidr("10.0.0.0/30").unwrap();
    let gw = parse_ipv4("10.0.0.1").unwrap();
    // host range is .1 and .2 only; the gateway takes .1
    assert_eq!(pick_addr(&sub, gw, &vec![gw]), Some(parse_ipv4("10.0.0.2").unwrap()));
    // with .2 also taken the range is exhausted
    let used = vec![gw, parse_ipv4("10.0.0.2").unwrap()];
    assert_eq!(pick_addr(&sub, gw, &used), None);
}

#[test]
fn pick_addr_empty_on_tiny_subnets() {
    let s31 = Subnet { base: 10 << 24, prefix: 31 };
    assert_eq!(pick_addr(&s31, 0, &Vec::new()), None);
    let s32 = Subnet { base: 10 << 24, prefix: 32 };
    assert_eq!(pick_addr(&s32, 0, &Vec::new()), None);
}
