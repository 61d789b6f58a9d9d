use tforward::log::{
    banner, log_debug, log_error, log_info, log_warn, parse_log_level, show_banner, Level,
    LogEntry, Logger, Stream,
};

fn logger_at(log_level: &str) -> Logger {
    let mut logger = Logger::new();
    logger.init_file("/tmp/x.log", true);
    logger.set_log_level(log_level);
    logger
}

#[test]
fn a_line_has_time_level_and_message() {
    let out = Logger::new().log_at("2026-01-02 03:04:05", "INFO", "hello");
    assert_eq!(out.line, "[2026-01-02 03:04:05] INFO  hello");
    assert!(!out.to_file);
    assert_eq!(out.console, Some(Stream::Stdout));
}

#[test]
fn errors_go_to_standard_error() {
    let logger = logger_at("debug");
    assert_eq!(log_error(&logger, "x").console, Some(Stream::Stderr));
    assert_eq!(log_info(&logger, "x").console, Some(Stream::Stdout));
    assert_eq!(log_warn(&logger, "x").console, Some(Stream::Stdout));
    assert_eq!(log_debug(&logger, "x").console, Some(Stream::Stdout));
    assert_eq!(logger.log("error", "x").console, Some(Stream::Stdout));
}

#[test]
fn a_daemon_writes_to_its_file_alone() {
    let mut logger = Logger::new();
    logger.init_file("/tmp/x.log", true);
    logger.set_daemon_mode(true);
    for out in [log_error(&logger, "x"), log_info(&logger, "x")] {
        assert!(out.to_file);
        assert_eq!(out.console, None);
    }
    logger.set_daemon_mode(false);
    assert_eq!(log_info(&logger, "x").console, Some(Stream::Stdout));
}

#[test]
fn opening_the_log_file_is_reported() {
    let mut logger = Logger::new();
    let failed = logger.init_file("/a", false);
    assert_eq!(failed, (Stream::Stderr, "Unable to open log file: /a".to_string()));
    assert!(!logger.has_file);
    let opened = logger.init_file("/b", true);
    assert_eq!(opened, (Stream::Stdout, "Logging to /b".to_string()));
    assert!(logger.has_file);
    logger.init_file("/c", false);
    assert!(logger.has_file);
}

#[test]
fn entries_are_logged_at_their_level() {
    let logger = logger_at("debug");
    for (level, name) in [
        (Level::Info, "] INFO  m"),
        (Level::Error, "] ERROR  m"),
        (Level::Warn, "] WARN  m"),
        (Level::Debug, "] DEBUG  m"),
    ] {
        let out = logger.log_entry(&LogEntry { level, message: "m".to_string() });
        assert!(out.line.ends_with(name), "{}", out.line);
        assert!(!out.line.contains('\n'));
        assert_eq!(
            out.console,
            Some(if level == Level::Error { Stream::Stderr } else { Stream::Stdout })
        );
    }
}

#[test]
fn lines_carry_the_local_time() {
    let before = chrono::Local::now().naive_local();
    let line = log_info(&Logger::new(), "tick").line;
    let after = chrono::Local::now().naive_local();
    let stamp = line.strip_prefix('[').unwrap().strip_suffix("] INFO  tick").unwrap();
    let time = chrono::NaiveDateTime::parse_from_str(stamp, "%Y-%m-%d %H:%M:%S").unwrap();
    assert!(before - chrono::TimeDelta::seconds(1) <= time);
    assert!(time <= after);
    assert_eq!(stamp.len(), 19);
}

#[test]
fn the_banner() {
    let text = "\
============================================
tforward v1.0.0 - TCP Port Forwarder
Author: Philippe TEMESI
Website: https://www.tems.be
Year: 2026
============================================
";
    assert_eq!(banner(), text);
    let out = show_banner(&Logger::new());
    assert!(out.line.ends_with(&format!("] INFO  {}", text)));
    assert_eq!(out.console, Some(Stream::Stdout));
}

#[test]
fn messages_below_the_log_level_are_written_nowhere() {
    for (log_level, written) in [
        ("debug", [true, true, true, true]),
        ("info", [false, true, true, true]),
        ("warn", [false, false, true, true]),
    ] {
        let logger = logger_at(log_level);
        let outs = [
            log_debug(&logger, "x"),
            log_info(&logger, "x"),
            log_warn(&logger, "x"),
            log_error(&logger, "x"),
        ];
        for (out, written) in outs.iter().zip(written) {
            assert_eq!(out.to_file, written, "{}", log_level);
            assert_eq!(out.console.is_some(), written, "{}", log_level);
        }
    }
}

#[test]
fn the_log_level_is_info_unless_chosen() {
    let logger = Logger::new();
    assert_eq!(logger.threshold, Level::Info);
    assert_eq!(log_debug(&logger, "x").console, None);
    assert_eq!(log_info(&logger, "x").console, Some(Stream::Stdout));
}

#[test]
fn log_levels_are_read() {
    assert_eq!(parse_log_level("debug"), Level::Debug);
    assert_eq!(parse_log_level("info"), Level::Info);
    assert_eq!(parse_log_level("warn"), Level::Warn);
    assert_eq!(parse_log_level("anything"), Level::Debug);
}

#[test]
fn setting_the_log_level_keeps_the_rest() {
    let mut logger = logger_at("warn");
    logger.set_daemon_mode(true);
    assert_eq!(logger, Logger { has_file: true, daemon_mode: true, threshold: Level::Warn });
    logger.init_file("/tmp/y.log", false);
    logger.set_log_level("info");
    assert_eq!(logger, Logger { has_file: true, daemon_mode: true, threshold: Level::Info });
}
