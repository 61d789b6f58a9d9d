use tforward::addr::{Ipv4Addr, SocketAddrV4};
use tforward::rule::{parse_rule, parse_rules, Rule};

fn socket(bits: u32, port: u16) -> SocketAddrV4 {
    SocketAddrV4 { ip: Ipv4Addr { bits }, port }
}

fn texts(list: &[&str]) -> Vec<String> {
    list.iter().map(|s| s.to_string()).collect()
}

#[test]
fn reads_the_documented_rule() {
    assert_eq!(
        parse_rule("0.0.0.0:8080:192.168.1.10:80"),
        Ok(Rule { listen: socket(0, 8080), dest: socket(0xc0a8_010a, 80) })
    );
}

#[test]
fn rules_come_back_from_their_text() {
    for (a, p, b, q) in [(0, 0, u32::MAX, 65535), (0x7f00_0001, 8080, 0x0a01_0203, 22)] {
        let rule = Rule { listen: socket(a, p), dest: socket(b, q) };
        let text = format!("{}:{}", rule.listen.text(), rule.dest.text());
        assert_eq!(parse_rule(&text), Ok(rule));
    }
}

#[test]
fn a_rule_has_four_parts() {
    for s in ["", "0.0.0.0:8080", "1.1.1.1:1:2.2.2.2", "1.1.1.1:1:2.2.2.2:2:", "::::"] {
        assert_eq!(
            parse_rule(s),
            Err(format!("Invalid format. Expected 'IP:PORT:DEST_IP:DEST_PORT', got '{}'", s))
        );
    }
}

#[test]
fn each_part_of_a_rule_can_be_wrong() {
    let cases = [
        ("localhost:80:1.1.1.1:80", "Invalid listen IP: invalid IPv4 address syntax"),
        ("1.1.1.1:x:1.1.1.1:80", "Invalid listen port: invalid digit found in string"),
        ("1.1.1.1::1.1.1.1:80", "Invalid listen port: cannot parse integer from empty string"),
        ("1.1.1.1:70000:1.1.1.1:80", "Invalid listen port: number too large to fit in target type"),
        ("1.1.1.1:80::80", "Invalid destination IP: invalid IPv4 address syntax"),
        ("1.1.1.1:80:1.1.1.1:", "Invalid destination port: cannot parse integer from empty string"),
        ("1.1.1.1:80:1.1.1.1: 80", "Invalid destination port: invalid digit found in string"),
        (
            "1.1.1.1:80:1.1.1.1:65536",
            "Invalid destination port: number too large to fit in target type",
        ),
        (":::", "Invalid listen IP: invalid IPv4 address syntax"),
    ];
    for (s, message) in cases {
        assert_eq!(parse_rule(s), Err(message.to_string()), "{}", s);
    }
}

#[test]
fn all_rules_are_taken_in_order() {
    assert_eq!(
        parse_rules(&texts(&["0.0.0.1:1:0.0.0.2:2", "0.0.0.3:3:0.0.0.4:4"])),
        Ok(vec![
            Rule { listen: socket(1, 1), dest: socket(2, 2) },
            Rule { listen: socket(3, 3), dest: socket(4, 4) },
        ])
    );
}

#[test]
fn one_wrong_rule_spoils_all() {
    assert_eq!(
        parse_rules(&texts(&["0.0.0.1:1:0.0.0.2:2", "x:1:0.0.0.2:2", "0.0.0.1"])),
        Err("Invalid listen IP: invalid IPv4 address syntax".to_string())
    );
}

#[test]
fn no_rules_are_an_error() {
    assert_eq!(parse_rules(&Vec::new()), Err("No valid rules".to_string()));
}
