use tforward::addr::{Ipv4Addr, SocketAddrV4};
use tforward::blacklist::Blacklist;
use tforward::connection::{handle_connection, Action, Event, Phase, Session, Step};
use tforward::daemon::{
    daemon_report, daemonize, interrupted, pid_file_exists, reload_interval_set, write_pid_file,
    Args, Argument,
};
use tforward::forwarder::{accepted, reloads, run_forwarder, AcceptStep, Accepted};
use tforward::log::{Level, LogEntry, Stream};
use tforward::rule::{parse_rule, Rule};

fn socket(ip: &str, port: u16) -> SocketAddrV4 {
    SocketAddrV4 { ip: Ipv4Addr::parse(ip).unwrap(), port }
}

fn open(client: &str, denied: &[&str]) -> (Session, Step) {
    let reads = denied.iter().map(|s| Ok(s.to_string())).collect();
    let blacklist = Blacklist::load_from_file(&reads).outcome.ok().unwrap();
    handle_connection(socket(client, 5000), socket("10.0.0.9", 80), &blacklist, 2)
}

fn told(entry: &LogEntry) -> (Level, &str) {
    (entry.level, entry.message.as_str())
}

fn rule(s: &str) -> Rule {
    parse_rule(s).unwrap()
}

#[test]
fn listed_clients_are_rejected() {
    for denied in [&["1.2.3.4"][..], &["1.2.0.0/16"][..], &["# x", "9.9.9.9", "1.2.3.4/32"][..]] {
        let (session, step) = open("1.2.3.4", denied);
        assert_eq!(step.action, Action::Close);
        assert_eq!(session.phase, Phase::Closed);
        assert_eq!(
            told(&step.entry),
            (Level::Warn, "[Rule #2] Connection REJECTED from 1.2.3.4:5000 (blacklisted)")
        );
        assert!(!session.expects(&Event::Connected));
        assert!(!session.expects(&Event::ConnectFailed("x".to_string())));
        assert!(!session.expects(&Event::Relayed(0, 0)));
        assert!(!session.expects(&Event::RelayFailed("x".to_string())));
    }
}

#[test]
fn a_connection_is_relayed() {
    let (mut session, step) = open("1.2.3.4", &["1.2.3.5"]);
    assert_eq!(step.action, Action::Connect(socket("10.0.0.9", 80)));
    assert_eq!(
        told(&step.entry),
        (Level::Info, "[Rule #2] New connection from 1.2.3.4:5000 -> 10.0.0.9:80")
    );
    assert!(session.expects(&Event::Connected));
    assert!(!session.expects(&Event::Relayed(1, 1)));
    let step = session.step(Event::Connected);
    assert_eq!(step.action, Action::Relay);
    assert_eq!(
        told(&step.entry),
        (Level::Info, "[Rule #2] Connected to 10.0.0.9:80, starting relay")
    );
    assert!(!session.expects(&Event::Connected));
    assert!(session.expects(&Event::Relayed(1, 1)));
    let step = session.step(Event::Relayed(120, 4096));
    assert_eq!(step.action, Action::Close);
    assert_eq!(
        told(&step.entry),
        (Level::Info, "[Rule #2] Connection closed: 120B client->dest, 4096B dest->client")
    );
    assert_eq!(session.phase, Phase::Closed);
    assert!(!session.expects(&Event::Relayed(1, 1)));
}

#[test]
fn an_unreachable_destination_closes() {
    let (mut session, _) = open("1.2.3.4", &[]);
    let step = session.step(Event::ConnectFailed("Connection refused".to_string()));
    assert_eq!(step.action, Action::Close);
    assert_eq!(
        told(&step.entry),
        (Level::Error, "[Rule #2] Unable to connect to 10.0.0.9:80: Connection refused")
    );
    assert_eq!(session.phase, Phase::Closed);
}

#[test]
fn a_broken_relay_closes() {
    let (mut session, _) = open("1.2.3.4", &[]);
    session.step(Event::Connected);
    let step = session.step(Event::RelayFailed("reset".to_string()));
    assert_eq!(step.action, Action::Close);
    assert_eq!(told(&step.entry), (Level::Error, "[Rule #2] Relay error: reset"));
    assert_eq!(session.phase, Phase::Closed);
}

#[test]
fn every_rule_is_tried() {
    let rules = vec![
        rule("0.0.0.0:1:1.1.1.1:10"),
        rule("0.0.0.0:2:2.2.2.2:20"),
        rule("0.0.0.0:3:3.3.3.3:30"),
    ];
    let (mut forwarder, entry) = run_forwarder(rules);
    assert_eq!(told(&entry), (Level::Info, "Starting TCP forwarder with 3 rule(s)"));
    assert_eq!(forwarder.next_bind(), Some((0, socket("0.0.0.0", 1))));
    let entry = forwarder.bound(Ok(()));
    assert_eq!(
        told(&entry),
        (Level::Info, "[Rule #0] Listening on 0.0.0.0:1 -> forwarding to 1.1.1.1:10")
    );
    assert_eq!(forwarder.next_bind(), Some((1, socket("0.0.0.0", 2))));
    let entry = forwarder.bound(Err("in use".to_string()));
    assert_eq!(told(&entry), (Level::Error, "[Rule #1] Unable to bind 0.0.0.0:2: in use"));
    assert_eq!(forwarder.next_bind(), Some((2, socket("0.0.0.0", 3))));
    forwarder.bound(Ok(()));
    assert_eq!(forwarder.next_bind(), None);
    assert_eq!(forwarder.listening(), &vec![0, 2]);
    assert_eq!(forwarder.rules().len(), 3);
}

#[test]
fn the_forwarder_ends_without_listeners() {
    let rules = vec![rule("0.0.0.0:1:1.1.1.1:10"), rule("0.0.0.0:2:2.2.2.2:20")];
    let (mut forwarder, _) = run_forwarder(rules.clone());
    assert!(!forwarder.finished());
    forwarder.bound(Err("in use".to_string()));
    assert!(!forwarder.finished());
    forwarder.bound(Err("in use".to_string()));
    assert!(forwarder.finished());

    let (mut forwarder, _) = run_forwarder(rules);
    forwarder.bound(Err("in use".to_string()));
    forwarder.bound(Ok(()));
    assert!(!forwarder.finished());

    assert!(run_forwarder(Vec::new()).0.finished());
}

#[test]
fn a_named_blacklist_is_reloaded() {
    assert!(reloads(&Some("/etc/deny")));
    assert!(!reloads::<&str>(&None));
}

#[test]
fn accepting_connections() {
    let r = rule("0.0.0.0:1:1.1.1.1:10");
    match accepted(&r, 4, Accepted::V4(socket("5.6.7.8", 99))) {
        AcceptStep::Handle(client, dest) => {
            assert_eq!(client, socket("5.6.7.8", 99));
            assert_eq!(dest, socket("1.1.1.1", 10));
        }
        AcceptStep::Skip(_) => panic!("an IPv4 client is handled"),
    }
    match accepted(&r, 4, Accepted::V6) {
        AcceptStep::Skip(entry) => assert_eq!(
            told(&entry),
            (Level::Warn, "[Rule #4] IPv6 connection ignored (IPv4 only)")
        ),
        AcceptStep::Handle(_, _) => panic!("an IPv6 client is left alone"),
    }
    match accepted(&r, 4, Accepted::Failed("too many files".to_string())) {
        AcceptStep::Skip(entry) => {
            assert_eq!(told(&entry), (Level::Error, "[Rule #4] Accept error: too many files"))
        }
        AcceptStep::Handle(_, _) => panic!("nothing to handle"),
    }
}

fn args(rules: &[&str], blocklist: Option<&'static str>) -> Args<&'static str> {
    Args {
        rule: rules.iter().map(|s| s.to_string()).collect(),
        blocklist,
        reload_interval: 300,
        log_level: "info".to_string(),
        daemonize: true,
        pid_file: "/var/run/tforward.pid",
        log_file: "/var/log/tforward.log",
    }
}

fn spelled(arguments: Vec<Argument<&'static str>>) -> Vec<String> {
    arguments
        .into_iter()
        .map(|a| match a {
            Argument::Text(s) => s,
            Argument::Path(p) => format!("<{}>", p),
        })
        .collect()
}

#[test]
fn the_daemon_gets_all_options() {
    let given = args(&["a", "b"], Some("/etc/deny"));
    assert_eq!(
        spelled(daemonize(&given).unwrap()),
        vec![
            "--rule",
            "a",
            "--rule",
            "b",
            "--blocklist",
            "</etc/deny>",
            "--reload-interval",
            "300",
            "--log-level",
            "info",
            "--pid-file",
            "</var/run/tforward.pid>",
            "--log-file",
            "</var/log/tforward.log>",
        ]
    );
}

#[test]
fn the_daemon_gets_its_options_in_pairs() {
    let given = args(&["a"], None);
    assert_eq!(
        spelled(daemonize(&given).unwrap())[..4],
        ["--rule", "a", "--reload-interval", "300"]
    );
    let given = args(&["a", "b", "c"], Some("/etc/deny"));
    let spelled = spelled(daemonize(&given).unwrap());
    let rules: Vec<&str> = spelled
        .chunks(2)
        .filter(|pair| pair[0] == "--rule")
        .map(|pair| pair[1].as_str())
        .collect();
    assert_eq!(rules, vec!["a", "b", "c"]);
    assert_eq!(spelled.len(), 16);
    assert!(spelled.chunks(2).all(|pair| pair[0].starts_with("--")));
    assert!(!spelled.contains(&"--daemonize".to_string()));
}

#[test]
fn no_daemon_unless_asked_for() {
    let mut given = args(&["a"], None);
    given.daemonize = false;
    assert!(daemonize(&given).is_none());
}

#[test]
fn the_start_of_the_daemon_is_reported() {
    let report = daemon_report(Ok(4711), "/l", "/p");
    assert_eq!(report.stream, Stream::Stdout);
    assert_eq!(report.exit_code, 0);
    assert_eq!(
        report.lines,
        vec!["Daemon started with PID: 4711", "Logs written to: /l", "PID file: /p"]
    );
    let report = daemon_report(Err("no memory".to_string()), "/l", "/p");
    assert_eq!(report.stream, Stream::Stderr);
    assert_eq!(report.exit_code, 1);
    assert_eq!(report.lines, vec!["Error starting daemon: no memory"]);
}

#[test]
fn the_process_number_is_written() {
    let (contents, entry) = write_pid_file(4711, "\"/p\"");
    assert_eq!(contents, "4711");
    assert_eq!(told(&entry), (Level::Info, "PID 4711 written to \"/p\""));
}

#[test]
fn other_messages() {
    assert_eq!(
        told(&pid_file_exists("/p")),
        (Level::Warn, "PID file /p already exists, daemon may already be running")
    );
    assert_eq!(
        told(&reload_interval_set(300)),
        (Level::Info, "Blacklist reload interval: 300 seconds")
    );
    assert_eq!(told(&interrupted()), (Level::Info, "Received SIGINT, shutting down daemon..."));
}
