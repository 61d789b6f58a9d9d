use tforward::addr::{parse_port, Ipv4Addr, PortError, SocketAddrV4};
use tforward::net::Ipv4Net;
use tforward::text::{
    contains_char, decimal_text, is_whitespace, split_at_char, starts_with_char, trim,
};

fn ip(s: &str) -> Ipv4Addr {
    Ipv4Addr::parse(s).unwrap()
}

fn std_bits(s: &str) -> Option<u32> {
    match s.parse() {
        Ok(addr) => Some(u32::from(ipnet::Ipv4Net::new(addr, 32).unwrap().addr())),
        Err(_) => None,
    }
}

#[test]
fn reads_an_address() {
    assert_eq!(Ipv4Addr::parse("192.168.1.10").map(|a| a.bits), Some(0xc0a8_010a));
    assert_eq!(Ipv4Addr::parse("0.0.0.0").map(|a| a.bits), Some(0));
    assert_eq!(Ipv4Addr::parse("255.255.255.255").map(|a| a.bits), Some(u32::MAX));
}

#[test]
fn reads_addresses_as_the_standard_library_does() {
    let texts = [
        "", ".", "...", "1.2.3", "1.2.3.4", "1.2.3.4.", ".1.2.3.4", "1.2.3.4.5", "01.2.3.4",
        "1.2.3.00", "0.0.0.0", "256.1.1.1", "255.255.255.255", "1.2.3.999", "1.2.3.1000", "1..2.3",
        " 1.2.3.4", "1.2.3.4 ", "+1.2.3.4", "1.2.3.-4", "a.b.c.d", "1.2.3.4/8", "1,2,3,4",
        "\u{661}.2.3.4", "10.20.30.40", "100.200.10.1", "0.00.0.0", "1.2.3.4\n", "1:2:3:4",
        "000.0.0.0", "1.2.3.0256",
    ];
    for s in texts {
        assert_eq!(Ipv4Addr::parse(s).map(|a| a.bits), std_bits(s), "{}", s);
    }
    for octet in 0..1200 {
        let s = format!("{}.7.7.7", octet);
        assert_eq!(Ipv4Addr::parse(&s).map(|a| a.bits), std_bits(&s), "{}", s);
    }
}

#[test]
fn addresses_come_back_from_their_text() {
    for bits in [0u32, 1, 0x7f00_0001, 0x0a00_00ff, 0xc0a8_010a, 0xffff_ffff] {
        let addr = Ipv4Addr { bits };
        assert_eq!(Ipv4Addr::parse(&addr.text()), Some(addr));
    }
    assert_eq!(Ipv4Addr { bits: 0xc0a8_010a }.text(), "192.168.1.10");
}

#[test]
fn address_texts_are_unique() {
    for s in ["1.2.3.4", "0.10.200.255", "9.99.100.0"] {
        assert_eq!(ip(s).text(), s);
    }
}

#[test]
fn writes_a_socket_address() {
    let addr = SocketAddrV4 { ip: ip("10.0.0.1"), port: 8080 };
    assert_eq!(addr.text(), "10.0.0.1:8080");
    assert_eq!(SocketAddrV4 { ip: ip("0.0.0.0"), port: 0 }.text(), "0.0.0.0:0");
}

#[test]
fn reads_ports_as_the_standard_library_does() {
    let texts = [
        "", "0", "1", "80", "8080", "65535", "65536", "99999", "99999x", "6553x", "x65536", "+80",
        "+", "-", "-1", "-0", "++1", "+-1", "00080", "000000000065535", "000000000065536", " 80",
        "80 ", "8 0", "8_0", "0x50", "\u{663}", "80\u{e9}", "655350", "123456789012345678901",
    ];
    for s in texts {
        let ours = parse_port(s);
        let theirs = s.parse::<u16>();
        assert_eq!(ours.ok(), theirs.clone().ok(), "{}", s);
        if let (Err(a), Err(b)) = (ours, theirs) {
            assert_eq!(a.message(), b.to_string(), "{}", s);
        }
    }
}

#[test]
fn each_port_error_occurs() {
    assert_eq!(parse_port(""), Err(PortError::Empty));
    assert_eq!(parse_port("8o"), Err(PortError::InvalidDigit));
    assert_eq!(parse_port("65536"), Err(PortError::TooLarge));
    assert_eq!(parse_port("99999x"), Err(PortError::TooLarge));
}

#[test]
fn ports_come_back_from_their_text() {
    for port in [0u16, 9, 10, 80, 443, 8080, 65535] {
        assert_eq!(parse_port(&decimal_text(port as u64)), Ok(port));
        assert_eq!(parse_port(&format!("+{}", port)), Ok(port));
    }
}

#[test]
fn writes_decimals() {
    for n in [0u64, 7, 10, 99, 100, 1234567890, u64::MAX] {
        assert_eq!(decimal_text(n), n.to_string());
    }
}

#[test]
fn whitespace_is_that_of_unicode() {
    for code in 0..=0x10ffff {
        if let Some(c) = char::from_u32(code) {
            assert_eq!(is_whitespace(c), c.is_whitespace(), "{:x}", code);
        }
    }
}

#[test]
fn trims_as_the_standard_library_does() {
    for s in ["", " ", "a", " a ", "\t\r\na b\u{3000}\u{85}", "\u{a0}x", "x\u{2028}", "  \n "] {
        assert_eq!(trim(s), s.trim(), "{:?}", s);
    }
}

#[test]
fn splits_and_joins_back() {
    for s in ["", ":", "a", "a:b", ":a::b:", "\u{e9}:\u{fc}"] {
        let parts = split_at_char(s, ':');
        assert_eq!(parts, s.split(':').collect::<Vec<&str>>());
        assert_eq!(parts.join(":"), s);
    }
}

#[test]
fn finds_characters() {
    assert!(contains_char("10.0.0.0/8", '/'));
    assert!(!contains_char("10.0.0.0", '/'));
    assert!(!contains_char("", '/'));
    assert!(starts_with_char("# x", '#'));
    assert!(!starts_with_char("x#", '#'));
    assert!(!starts_with_char("", '#'));
}

#[test]
fn reads_a_network() {
    let net = Ipv4Net::parse("192.168.12.34/16").unwrap();
    assert_eq!(net.addr(), ip("192.168.12.34"));
    assert_eq!(net.prefix_len(), 16);
    assert_eq!(net.text(), "192.168.12.34/16");
}

#[test]
fn network_numbers_may_have_leading_zeros() {
    let net = Ipv4Net::parse("010.001.000.255/08").unwrap();
    assert_eq!(net.addr().bits, 0x0a01_00ff);
    assert_eq!(net.prefix_len(), 8);
    assert_eq!(net.text(), "10.1.0.255/8");
}

#[test]
fn texts_that_are_no_networks() {
    let texts = [
        "", "/", "10.0.0.0", "10.0.0.0/", "10.0.0.0/33", "10.0.0.0/033", "10.0.0.0/-1", "10.0.0/8",
        "10.0.0.0.0/8", "256.0.0.0/8", "0010.0.0.0/8", "10.0.0.0/8/8", " 10.0.0.0/8", "10.0.0.0/8 ",
        "10.0.0.0 /8", "a.0.0.0/8", "10..0.0/8", "/8", "10.0.0.0/\u{668}", "::/0",
    ];
    for s in texts {
        assert!(Ipv4Net::parse(s).is_none(), "{}", s);
    }
}

#[test]
fn networks_are_ranges() {
    let net = Ipv4Net::parse("10.1.2.200/25").unwrap();
    assert!(!net.contains(ip("10.1.2.127")));
    assert!(net.contains(ip("10.1.2.128")));
    assert!(net.contains(ip("10.1.2.255")));
    assert!(!net.contains(ip("10.1.3.0")));
}

#[test]
fn networks_hold_their_own_address() {
    for s in ["1.2.3.4/0", "1.2.3.4/1", "1.2.3.4/31", "1.2.3.4/32", "255.255.255.255/17"] {
        let net = Ipv4Net::parse(s).unwrap();
        assert!(net.contains(net.addr()), "{}", s);
    }
}

#[test]
fn network_extremes() {
    let all = Ipv4Net::parse("1.2.3.4/0").unwrap();
    let one = Ipv4Net::parse("1.2.3.4/32").unwrap();
    for s in ["0.0.0.0", "1.2.3.4", "1.2.3.5", "255.255.255.255"] {
        assert!(all.contains(ip(s)));
        assert_eq!(one.contains(ip(s)), s == "1.2.3.4");
    }
}

#[test]
fn shorter_prefixes_hold_more() {
    let inner = Ipv4Net::parse("172.16.5.4/24").unwrap();
    let outer = Ipv4Net::parse("172.16.5.4/16").unwrap();
    assert!(inner.contains(ip("172.16.5.99")) && outer.contains(ip("172.16.5.99")));
    assert!(!inner.contains(ip("172.16.6.1")) && outer.contains(ip("172.16.6.1")));
}

#[test]
fn networks_come_back_from_their_text() {
    for s in ["0.0.0.0/0", "10.0.0.0/8", "192.168.1.77/32", "255.0.255.0/9"] {
        let net = Ipv4Net::parse(s).unwrap();
        assert_eq!(net.text(), s);
        let again = Ipv4Net::parse(&net.text()).unwrap();
        assert_eq!(again.addr(), net.addr());
        assert_eq!(again.prefix_len(), net.prefix_len());
    }
}
