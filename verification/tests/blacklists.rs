use tforward::addr::Ipv4Addr;
use tforward::blacklist::{Blacklist, Loaded};
use tforward::forwarder::{initial_blacklist, reload_blacklist_task, reload_started};
use tforward::log::Level;

fn ip(s: &str) -> Ipv4Addr {
    Ipv4Addr::parse(s).unwrap()
}

fn load(lines: &[&str]) -> Loaded {
    Blacklist::load_from_file(&lines.iter().map(|s| Ok(s.to_string())).collect())
}

fn list(lines: &[&str]) -> Blacklist {
    load(lines).outcome.ok().unwrap()
}

#[test]
fn an_empty_blacklist_lets_everyone_in() {
    assert!(!Blacklist::new().contains(ip("0.0.0.0")));
    assert!(!list(&[]).contains(ip("127.0.0.1")));
}

#[test]
fn addresses_and_networks_are_denied() {
    let bl = list(&["203.0.113.7", "10.0.0.0/8", "192.168.1.77/24"]);
    for s in ["203.0.113.7", "10.0.0.0", "10.255.255.255", "192.168.1.1"] {
        assert!(bl.contains(ip(s)), "{}", s);
    }
    for s in ["203.0.113.8", "11.0.0.0", "9.255.255.255", "192.168.2.1"] {
        assert!(!bl.contains(ip(s)), "{}", s);
    }
}

#[test]
fn lines_are_logged() {
    let loaded = load(&[
        "# office",
        "",
        "  1.2.3.4\t",
        "010.0.0.0/08",
        "10.0.0.0/40",
        "nonsense ",
        "   # indented",
    ]);
    let entries: Vec<(Level, &str)> =
        loaded.entries.iter().map(|e| (e.level, e.message.as_str())).collect();
    assert_eq!(
        entries,
        vec![
            (Level::Info, "Blacklist IP added: 1.2.3.4"),
            (Level::Info, "Blacklist CIDR added: 10.0.0.0/8"),
            (Level::Warn, "Line ignored (invalid CIDR): 10.0.0.0/40"),
            (Level::Warn, "Line ignored (invalid IP): nonsense"),
        ]
    );
}

#[test]
fn a_comment_after_an_address_is_no_comment() {
    let mut bl = Blacklist::new();
    let entry = bl.add_line("1.2.3.4 # me").unwrap();
    assert_eq!(entry.level, Level::Warn);
    assert_eq!(entry.message, "Line ignored (invalid IP): 1.2.3.4 # me");
    assert!(!bl.contains(ip("1.2.3.4")));
}

#[test]
fn addresses_have_no_leading_zeros() {
    assert!(!list(&["010.0.0.1"]).contains(ip("10.0.0.1")));
    assert!(list(&["010.0.0.1/32"]).contains(ip("10.0.0.1")));
}

#[test]
fn line_order_makes_no_difference() {
    let a = list(&["1.1.1.1", "2.0.0.0/8", "1.1.1.1"]);
    let b = list(&["2.0.0.0/8", "1.1.1.1"]);
    for s in ["1.1.1.1", "1.1.1.2", "2.3.4.5", "3.0.0.0"] {
        assert_eq!(a.contains(ip(s)), b.contains(ip(s)));
    }
}

#[test]
fn further_lines_only_add() {
    let mut bl = list(&["1.1.1.1"]);
    bl.add_line("2.2.2.2");
    bl.add_line("# 1.1.1.1");
    assert!(bl.contains(ip("1.1.1.1")));
    assert!(bl.contains(ip("2.2.2.2")));
}

#[test]
fn other_lines_are_ignored() {
    let mut bl = Blacklist::new();
    assert!(bl.add_line("").is_none());
    assert!(bl.add_line(" \t ").is_none());
    assert!(bl.add_line("#1.2.3.4").is_none());
    assert_eq!(bl.add_line("1.2.3").map(|e| e.level), Some(Level::Warn));
    assert_eq!(bl.add_line("1.2.3/8").map(|e| e.level), Some(Level::Warn));
    assert!(!bl.contains(ip("1.2.3.4")));
}

#[test]
fn texts_of_addresses_and_networks_are_lines() {
    let bl = list(&[&ip("9.8.7.6").text()]);
    assert!(bl.contains(ip("9.8.7.6")));
    assert!(!bl.contains(ip("9.8.7.7")));
    let bl = list(&["9.8.7.6/31"]);
    assert!(bl.contains(ip("9.8.7.7")));
    assert!(!bl.contains(ip("9.8.7.8")));
}

#[test]
fn whitespace_around_a_line_makes_no_difference() {
    let bl = list(&["\u{3000} 9.8.7.6\r"]);
    assert!(bl.contains(ip("9.8.7.6")));
}

#[test]
fn a_failed_read_ends_the_loading() {
    let reads = vec![
        Ok("1.1.1.1".to_string()),
        Err("stream did not contain valid UTF-8".to_string()),
        Ok("2.2.2.2".to_string()),
        Err("later".to_string()),
    ];
    let loaded = Blacklist::load_from_file(&reads);
    assert_eq!(loaded.outcome.err(), Some("stream did not contain valid UTF-8".to_string()));
    assert_eq!(loaded.entries.len(), 1);
    assert_eq!(loaded.entries[0].message, "Blacklist IP added: 1.1.1.1");
}

#[test]
fn clones_deny_the_same() {
    let bl = list(&["1.1.1.1", "2.0.0.0/8"]);
    let copy = bl.clone();
    for s in ["1.1.1.1", "1.1.1.2", "2.3.4.5", "3.0.0.0"] {
        assert_eq!(bl.contains(ip(s)), copy.contains(ip(s)));
    }
}

#[test]
fn the_first_blacklist() {
    let (bl, entry) = initial_blacklist(None);
    assert!(!bl.contains(ip("1.1.1.1")));
    assert!(entry.is_none());

    let (bl, entry) = initial_blacklist(Some(("/etc/deny", Ok(list(&["1.1.1.1"])))));
    assert!(bl.contains(ip("1.1.1.1")));
    let entry = entry.unwrap();
    assert_eq!((entry.level, entry.message.as_str()), (Level::Info, "Blacklist loaded from /etc/deny"));

    let (bl, entry) = initial_blacklist(Some(("/etc/deny", Err("gone".to_string()))));
    assert!(!bl.contains(ip("1.1.1.1")));
    let entry = entry.unwrap();
    assert_eq!(entry.level, Level::Error);
    assert_eq!(entry.message, "Error loading blacklist: gone, starting without blacklist");
}

#[test]
fn reloading_replaces_the_blacklist() {
    assert_eq!(reload_started().message, "Reloading blacklist...");
    assert_eq!(reload_started().level, Level::Info);
    let mut bl = list(&["1.1.1.1"]);
    let entry = reload_blacklist_task(&mut bl, Ok(list(&["2.2.2.2"])));
    assert_eq!(entry.level, Level::Info);
    assert_eq!(entry.message, "Blacklist reloaded successfully");
    assert!(!bl.contains(ip("1.1.1.1")));
    assert!(bl.contains(ip("2.2.2.2")));
}

#[test]
fn a_failed_reload_keeps_the_blacklist() {
    let mut bl = list(&["1.1.1.1"]);
    let entry = reload_blacklist_task(&mut bl, Err("gone".to_string()));
    assert_eq!(entry.level, Level::Error);
    assert_eq!(entry.message, "Error reloading blacklist: gone");
    assert!(bl.contains(ip("1.1.1.1")));
}
