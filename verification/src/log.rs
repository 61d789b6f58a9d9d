//! Log lines, and where each of them goes.

use crate::text::{all_digits, is_digit, value};
use vstd::prelude::*;

verus! {

/// The version of the program.
pub const VERSION: &'static str = "1.0.0";

/// The year of the version.
pub const YEAR: &'static str = "2026";

/// The author of the program.
pub const AUTHOR: &'static str = "Philippe TEMESI";

/// The author's website.
pub const WEBSITE: &'static str = "https://www.tems.be";

/// The name of the program.
pub const APP_NAME: &'static str = "tforward";

/// The form of the time in a log line, in the notation of `strftime`.
pub const TIMESTAMP_FORMAT: &'static str = "%Y-%m-%d %H:%M:%S";

/// The four levels of log messages.
#[derive(Clone, Copy, Debug, PartialEq, Eq, Structural)]
pub enum Level {
    Info,
    Error,
    Warn,
    Debug,
}

/// A message for the log.
#[derive(Debug)]
pub struct LogEntry {
    pub level: Level,
    pub message: String,
}

/// The standard streams.
#[derive(Clone, Copy, Debug, PartialEq, Eq, Structural)]
pub enum Stream {
    Stdout,
    Stderr,
}

/// A line to write, and where: to the log file or not, and to a standard stream or
/// to none. Each place gets the line with a newline after it.
#[derive(Debug)]
pub struct LogOutput {
    pub line: String,
    pub to_file: bool,
    pub console: Option<Stream>,
}

/// What decides where log lines go: whether a log file is open, whether the program
/// runs as a daemon, and the lowest level that is written at all.
#[derive(Clone, Copy, Debug, PartialEq, Eq, Structural)]
pub struct Logger {
    pub has_file: bool,
    pub daemon_mode: bool,
    pub threshold: Level,
}

impl View for LogEntry {
    type V = (Level, Seq<char>);

    open spec fn view(&self) -> (Level, Seq<char>) {
        (self.level, self.message@)
    }
}

impl View for LogOutput {
    type V = (Seq<char>, bool, Option<Stream>);

    open spec fn view(&self) -> (Seq<char>, bool, Option<Stream>) {
        (self.line@, self.to_file, self.console)
    }
}

/// The entries of a list, each by its level and its message.
pub open spec fn entries_view(entries: Seq<LogEntry>) -> Seq<(Level, Seq<char>)> {
    Seq::new(entries.len(), |i: int| entries[i]@)
}

/// The name of a level in a log line.
pub open spec fn level_name(level: Level) -> Seq<char> {
    match level {
        Level::Info => "INFO"@,
        Level::Error => "ERROR"@,
        Level::Warn => "WARN"@,
        Level::Debug => "DEBUG"@,
    }
}

/// The level with a given name in a log line.
pub open spec fn level_named(name: Seq<char>) -> Option<Level> {
    if name == "INFO"@ {
        Some(Level::Info)
    } else if name == "ERROR"@ {
        Some(Level::Error)
    } else if name == "WARN"@ {
        Some(Level::Warn)
    } else if name == "DEBUG"@ {
        Some(Level::Debug)
    } else {
        None
    }
}

/// The place of a level in their order, from details up to failures.
pub open spec fn severity(level: Level) -> nat {
    match level {
        Level::Debug => 0,
        Level::Info => 1,
        Level::Warn => 2,
        Level::Error => 3,
    }
}

/// The lowest level that is written under the log level `text`: that of `debug`,
/// `info` or `warn`. Under any other text every message is written.
pub open spec fn threshold_of(text: Seq<char>) -> Level {
    if text == "info"@ {
        Level::Info
    } else if text == "warn"@ {
        Level::Warn
    } else {
        Level::Debug
    }
}

/// Whether a message of the level named `level` is too low to be written. A name that
/// is none of the four is not.
pub open spec fn suppressed(logger: Logger, level: Seq<char>) -> bool {
    level_named(level) matches Some(l) && severity(l) < severity(logger.threshold)
}

/// Whether the two characters of `s` at `i` are digits for a number from `low` to
/// `high`.
pub open spec fn two_digits(s: Seq<char>, i: int, low: nat, high: nat) -> bool {
    &&& is_digit(s[i])
    &&& is_digit(s[i + 1])
    &&& low <= value(s.subrange(i, i + 2)) <= high
}

/// Whether `s` is a year as a log line writes it: four digits, or a plus sign and
/// more than four.
pub open spec fn year_text(s: Seq<char>) -> bool {
    ||| s.len() == 4 && all_digits(s)
    ||| s.len() > 5 && s[0] == '+' && all_digits(s.drop_first())
}

/// Whether `s` is a time as a log line writes it: year, month and day with hyphens
/// between them, a space, and hour, minute and second with colons between them. In
/// a leap second the second is 60.
pub open spec fn timestamp_text(s: Seq<char>) -> bool {
    let n = s.len() as int;
    &&& n >= 19
    &&& year_text(s.subrange(0, n - 15))
    &&& s[n - 15] == '-'
    &&& two_digits(s, n - 14, 1, 12)
    &&& s[n - 12] == '-'
    &&& two_digits(s, n - 11, 1, 31)
    &&& s[n - 9] == ' '
    &&& two_digits(s, n - 8, 0, 23)
    &&& s[n - 6] == ':'
    &&& two_digits(s, n - 5, 0, 59)
    &&& s[n - 3] == ':'
    &&& two_digits(s, n - 2, 0, 60)
}

/// The log line for a message: the time in square brackets, the level, and the
/// message.
pub open spec fn log_line(timestamp: Seq<char>, level: Seq<char>, msg: Seq<char>) -> Seq<char> {
    "["@ + timestamp + "] "@ + level + "  "@ + msg
}

/// Where a log line goes. Below the threshold it goes nowhere. Else it goes to the log
/// file if one is open; and, unless the program runs as a daemon, to standard error if
/// it tells of an error and to standard output if not.
pub open spec fn log_output(
    logger: Logger,
    timestamp: Seq<char>,
    level: Seq<char>,
    msg: Seq<char>,
) -> (Seq<char>, bool, Option<Stream>) {
    (
        log_line(timestamp, level, msg),
        logger.has_file && !suppressed(logger, level),
        if logger.daemon_mode || suppressed(logger, level) {
            None
        } else if level == "ERROR"@ {
            Some(Stream::Stderr)
        } else {
            Some(Stream::Stdout)
        },
    )
}

/// Whether `out` is what `logger` makes of a message at some time of the clock.
pub open spec fn logged(
    logger: Logger,
    level: Seq<char>,
    msg: Seq<char>,
    out: (Seq<char>, bool, Option<Stream>),
) -> bool {
    exists|timestamp: Seq<char>| #[trigger]
        timestamp_text(timestamp) && out == log_output(logger, timestamp, level, msg)
}

/// The text that the program shows when it starts.
pub open spec fn banner_text() -> Seq<char> {
    "============================================\n"@ + APP_NAME@ + " v"@ + VERSION@
        + " - TCP Port Forwarder\nAuthor: "@ + AUTHOR@ + "\nWebsite: "@ + WEBSITE@ + "\nYear: "@
        + YEAR@ + "\n============================================\n"@
}

/// Calls `chrono::Local::now`, and `chrono::DateTime::format` on what it returns.
/// Claims of the text, whatever the clock and the time zone say, that it has the
/// form of a date and a time. Which time it is is not claimed. The call does not
/// return on a machine whose clock stands before 1970 or past the years that chrono
/// can tell, or whose time zone has no offset for the time or one of a day or more.
#[verifier::external_body]
fn local_time(format: &str) -> (res: String)
    requires
        format@ == TIMESTAMP_FORMAT@,
    ensures
        timestamp_text(res@),
{
    chrono::Local::now().format(format).to_string()
}

impl Level {
    /// The level with a given name in a log line.
    fn named(name: &str) -> (res: Option<Level>)
        ensures
            res == level_named(name@),
    {
        let name = name.to_owned();
        if name == "INFO".to_owned() {
            Some(Level::Info)
        } else if name == "ERROR".to_owned() {
            Some(Level::Error)
        } else if name == "WARN".to_owned() {
            Some(Level::Warn)
        } else if name == "DEBUG".to_owned() {
            Some(Level::Debug)
        } else {
            None
        }
    }

    /// The place of the level in their order.
    fn place(&self) -> (res: u8)
        ensures
            res == severity(*self),
    {
        match self {
            Level::Debug => 0,
            Level::Info => 1,
            Level::Warn => 2,
            Level::Error => 3,
        }
    }
}

/// Reads a log level as the command line gives it: the lowest level that is written.
pub fn parse_log_level(text: &str) -> (res: Level)
    ensures
        res == threshold_of(text@),
{
    let text = text.to_owned();
    if text == "info".to_owned() {
        Level::Info
    } else if text == "warn".to_owned() {
        Level::Warn
    } else {
        Level::Debug
    }
}

impl LogEntry {
    /// A message of the level for ordinary news.
    pub fn info(message: String) -> (res: LogEntry)
        ensures
            res@ == (Level::Info, message@),
    {
        LogEntry { level: Level::Info, message }
    }

    /// A message of the level for failures.
    pub fn error(message: String) -> (res: LogEntry)
        ensures
            res@ == (Level::Error, message@),
    {
        LogEntry { level: Level::Error, message }
    }

    /// A message of the level for what is refused or left out.
    pub fn warn(message: String) -> (res: LogEntry)
        ensures
            res@ == (Level::Warn, message@),
    {
        LogEntry { level: Level::Warn, message }
    }
}

impl Logger {
    /// A logger without a log file, for a program that is no daemon, at the log level
    /// `info`.
    pub fn new() -> (res: Logger)
        ensures
            res == (Logger { has_file: false, daemon_mode: false, threshold: Level::Info }),
    {
        Logger { has_file: false, daemon_mode: false, threshold: Level::Info }
    }

    /// Sets the lowest level that is written, from the log level that was chosen.
    pub fn set_log_level(&mut self, text: &str)
        ensures
            *final(self) == (Logger { threshold: threshold_of(text@), ..*old(self) }),
    {
        self.threshold = parse_log_level(text);
    }

    /// Takes note of whether the log file at `path` could be opened, and gives the
    /// line that says so, with the stream it is for. A log file that was open
    /// before stays open if this one could not be opened.
    pub fn init_file(&mut self, path: &str, opened: bool) -> (res: (Stream, String))
        ensures
            final(self).has_file == (old(self).has_file || opened),
            final(self).daemon_mode == old(self).daemon_mode,
            final(self).threshold == old(self).threshold,
            opened ==> res.0 == Stream::Stdout && res.1@ == "Logging to "@ + path@,
            !opened ==> res.0 == Stream::Stderr && res.1@ == "Unable to open log file: "@ + path@,
    {
        if opened {
            self.has_file = true;
            (Stream::Stdout, "Logging to ".to_owned().concat(path))
        } else {
            (Stream::Stderr, "Unable to open log file: ".to_owned().concat(path))
        }
    }

    /// Says whether the program runs as a daemon.
    pub fn set_daemon_mode(&mut self, enabled: bool)
        ensures
            *final(self) == (Logger { daemon_mode: enabled, ..*old(self) }),
    {
        self.daemon_mode = enabled;
    }

    /// The line for a message at the time `timestamp`, and where it goes.
    pub fn log_at(&self, timestamp: &str, level: &str, msg: &str) -> (res: LogOutput)
        ensures
            res@ == log_output(*self, timestamp@, level@, msg@),
    {
        let line = "[".to_owned().concat(timestamp).concat("] ").concat(level).concat("  ").concat(
            msg,
        );
        let below = match Level::named(level) {
            Some(l) => l.place() < self.threshold.place(),
            None => false,
        };
        let console = if self.daemon_mode || below {
            None
        } else if level.to_owned() == "ERROR".to_owned() {
            Some(Stream::Stderr)
        } else {
            Some(Stream::Stdout)
        };
        LogOutput { line, to_file: self.has_file && !below, console }
    }

    /// The line for a message now, and where it goes.
    pub fn log(&self, level: &str, msg: &str) -> (res: LogOutput)
        ensures
            logged(*self, level@, msg@, res@),
    {
        let timestamp = local_time(TIMESTAMP_FORMAT);
        self.log_at(timestamp.as_str(), level, msg)
    }

    /// The line for an entry now, and where it goes.
    pub fn log_entry(&self, entry: &LogEntry) -> (res: LogOutput)
        ensures
            logged(*self, level_name(entry.level), entry.message@, res@),
    {
        match entry.level {
            Level::Info => log_info(self, entry.message.as_str()),
            Level::Error => log_error(self, entry.message.as_str()),
            Level::Warn => log_warn(self, entry.message.as_str()),
            Level::Debug => log_debug(self, entry.message.as_str()),
        }
    }
}

/// The text that the program shows when it starts.
pub fn banner() -> (res: String)
    ensures
        res@ == banner_text(),
{
    "============================================\n".to_owned().concat(APP_NAME).concat(
        " v",
    ).concat(VERSION).concat(" - TCP Port Forwarder\nAuthor: ").concat(AUTHOR).concat(
        "\nWebsite: ",
    ).concat(WEBSITE).concat("\nYear: ").concat(YEAR).concat(
        "\n============================================\n",
    )
}

/// Logs the text that the program shows when it starts.
pub fn show_banner(logger: &Logger) -> (res: LogOutput)
    ensures
        logged(*logger, "INFO"@, banner_text(), res@),
{
    log_info(logger, banner().as_str())
}

/// Logs ordinary news.
pub fn log_info(logger: &Logger, msg: &str) -> (res: LogOutput)
    ensures
        logged(*logger, "INFO"@, msg@, res@),
{
    logger.log("INFO", msg)
}

/// Logs a failure.
pub fn log_error(logger: &Logger, msg: &str) -> (res: LogOutput)
    ensures
        logged(*logger, "ERROR"@, msg@, res@),
{
    logger.log("ERROR", msg)
}

/// Logs what is refused or left out.
pub fn log_warn(logger: &Logger, msg: &str) -> (res: LogOutput)
    ensures
        logged(*logger, "WARN"@, msg@, res@),
{
    logger.log("WARN", msg)
}

/// Logs a detail.
pub fn log_debug(logger: &Logger, msg: &str) -> (res: LogOutput)
    ensures
        logged(*logger, "DEBUG"@, msg@, res@),
{
    logger.log("DEBUG", msg)
}

proof fn lemma_two_digits_lack(s: Seq<char>, i: int, low: nat, high: nat, c: char)
    requires
        two_digits(s, i, low, high),
        !is_digit(c),
    ensures
        s[i] != c,
        s[i + 1] != c,
{
}

proof fn lemma_timestamp_lacks_newline(s: Seq<char>)
    requires
        timestamp_text(s),
    ensures
        !s.contains('\n'),
{
    if s.contains('\n') {
        let n = s.len() as int;
        let k = choose|k: int| 0 <= k < n && s[k] == '\n';
        lemma_two_digits_lack(s, n - 14, 1, 12, '\n');
        lemma_two_digits_lack(s, n - 11, 1, 31, '\n');
        lemma_two_digits_lack(s, n - 8, 0, 23, '\n');
        lemma_two_digits_lack(s, n - 5, 0, 59, '\n');
        lemma_two_digits_lack(s, n - 2, 0, 60, '\n');
        let year = s.subrange(0, n - 15);
        if k < n - 15 {
            assert(year[k] == '\n');
            if year.len() == 4 {
                assert(is_digit(year[k]));
            } else if k > 0 {
                assert(is_digit(year.drop_first()[k - 1]));
            }
        }
    }
}

proof fn lemma_concat_lacks(a: Seq<char>, b: Seq<char>, c: char)
    requires
        !a.contains(c),
        !b.contains(c),
    ensures
        !(a + b).contains(c),
{
    if (a + b).contains(c) {
        let k = choose|k: int| 0 <= k < (a + b).len() && (a + b)[k] == c;
        if k < a.len() {
            assert(a[k] == c);
        } else {
            assert(b[k - a.len()] == c);
        }
    }
}

/// A message without a newline makes a log line without one: each entry is one line
/// of the log.
pub proof fn law_entry_is_one_line(
    logger: Logger,
    level: Level,
    msg: Seq<char>,
    out: (Seq<char>, bool, Option<Stream>),
)
    requires
        logged(logger, level_name(level), msg, out),
        !msg.contains('\n'),
    ensures
        !out.0.contains('\n'),
{
    let timestamp = choose|timestamp: Seq<char>| #[trigger]
        timestamp_text(timestamp) && out == log_output(
            logger,
            timestamp,
            level_name(level),
            msg,
        );
    lemma_timestamp_lacks_newline(timestamp);
    reveal_strlit("[");
    reveal_strlit("] ");
    reveal_strlit("  ");
    reveal_strlit("INFO");
    reveal_strlit("ERROR");
    reveal_strlit("WARN");
    reveal_strlit("DEBUG");
    assert(!level_name(level).contains('\n'));
    lemma_concat_lacks("["@, timestamp, '\n');
    lemma_concat_lacks("["@ + timestamp, "] "@, '\n');
    lemma_concat_lacks("["@ + timestamp + "] "@, level_name(level), '\n');
    lemma_concat_lacks("["@ + timestamp + "] "@ + level_name(level), "  "@, '\n');
    lemma_concat_lacks("["@ + timestamp + "] "@ + level_name(level) + "  "@, msg, '\n');
}

/// A log line ends with its message, unchanged.
pub proof fn law_line_ends_with_message(
    logger: Logger,
    level: Seq<char>,
    msg: Seq<char>,
    out: (Seq<char>, bool, Option<Stream>),
)
    requires
        logged(logger, level, msg, out),
    ensures
        out.0.len() >= msg.len(),
        out.0.skip(out.0.len() - msg.len()) == msg,
{
    let timestamp = choose|timestamp: Seq<char>| #[trigger]
        timestamp_text(timestamp) && out == log_output(logger, timestamp, level, msg);
    assert(out.0.skip(out.0.len() - msg.len()) =~= msg);
}

proof fn lemma_level_names(level: Level)
    ensures
        level_named(level_name(level)) == Some(level),
        level_name(level) == "ERROR"@ <==> level == Level::Error,
{
    reveal_strlit("INFO");
    reveal_strlit("ERROR");
    reveal_strlit("WARN");
    reveal_strlit("DEBUG");
    assert("INFO"@.len() == 4);
    assert("WARN"@.len() == 4);
    assert("INFO"@[0] == 'I');
    assert("WARN"@[0] == 'W');
    assert("DEBUG"@[0] == 'D');
    assert("ERROR"@[0] == 'E');
}

/// A message below the threshold is written nowhere. Any other goes to the log file if
/// one is open, and, unless the program runs as a daemon, to a standard stream: errors
/// to standard error and the rest to standard output.
pub proof fn law_where_levels_go(
    logger: Logger,
    level: Level,
    msg: Seq<char>,
    out: (Seq<char>, bool, Option<Stream>),
)
    requires
        logged(logger, level_name(level), msg, out),
    ensures
        severity(level) < severity(logger.threshold) ==> !out.1 && out.2 is None,
        severity(level) >= severity(logger.threshold) ==> {
            &&& out.1 == logger.has_file
            &&& out.2 is None <==> logger.daemon_mode
            &&& out.2 == Some(Stream::Stderr) <==> !logger.daemon_mode && level == Level::Error
            &&& out.2 == Some(Stream::Stdout) <==> !logger.daemon_mode && level != Level::Error
        },
{
    lemma_level_names(level);
}

/// What each documented log level lets through: `debug` everything, `info` all but
/// details, and `warn` warnings and errors.
pub proof fn law_log_levels(logger: Logger, level: Level)
    ensures
        logger.threshold == threshold_of("debug"@) ==> !suppressed(logger, level_name(level)),
        logger.threshold == threshold_of("info"@) ==> (suppressed(logger, level_name(level))
            <==> level == Level::Debug),
        logger.threshold == threshold_of("warn"@) ==> (suppressed(logger, level_name(level))
            <==> level == Level::Debug || level == Level::Info),
{
    lemma_level_names(level);
    reveal_strlit("debug");
    reveal_strlit("info");
    reveal_strlit("warn");
    assert("debug"@.len() == 5);
    assert("info"@[0] == 'i');
    assert("warn"@[0] == 'w');
}

/// Errors are never too low to be written.
pub proof fn law_errors_are_never_suppressed(logger: Logger)
    ensures
        !suppressed(logger, "ERROR"@),
{
    lemma_level_names(Level::Error);
}

/// The names of the four levels in a log line, and the levels with these names.
pub proof fn law_level_names(name: Seq<char>)
    ensures
        level_name(Level::Info) == "INFO"@,
        level_name(Level::Error) == "ERROR"@,
        level_name(Level::Warn) == "WARN"@,
        level_name(Level::Debug) == "DEBUG"@,
        level_named(name) matches Some(level) ==> level_name(level) == name,
        level_named(name) is None ==> name != "INFO"@ && name != "ERROR"@ && name != "WARN"@ && name
            != "DEBUG"@,
{
}

/// The log level `info` lets information through and what is above it, `warn` warnings
/// and errors, and any other text, `debug` among them, everything.
pub proof fn law_thresholds(text: Seq<char>)
    ensures
        threshold_of("info"@) == Level::Info,
        threshold_of("warn"@) == Level::Warn,
        threshold_of("debug"@) == Level::Debug,
        text != "info"@ && text != "warn"@ ==> threshold_of(text) == Level::Debug,
{
    reveal_strlit("debug");
    reveal_strlit("info");
    reveal_strlit("warn");
    assert("debug"@.len() == 5);
    assert("info"@[0] == 'i');
    assert("warn"@[0] == 'w');
}

/// Which messages are too low to be written: details under any other threshold,
/// information under that of warnings or errors, and warnings under that of errors.
/// Errors, and messages of any other level, never are.
pub proof fn law_what_is_suppressed(logger: Logger, level: Seq<char>)
    ensures
        level == "DEBUG"@ ==> (suppressed(logger, level) <==> logger.threshold != Level::Debug),
        level == "INFO"@ ==> (suppressed(logger, level) <==> logger.threshold == Level::Warn
            || logger.threshold == Level::Error),
        level == "WARN"@ ==> (suppressed(logger, level) <==> logger.threshold == Level::Error),
        level != "DEBUG"@ && level != "INFO"@ && level != "WARN"@ ==> !suppressed(logger, level),
{
    lemma_level_names(Level::Debug);
    lemma_level_names(Level::Info);
    lemma_level_names(Level::Warn);
    lemma_level_names(Level::Error);
}

/// At every level, a log line is the time it was given, in square brackets, a space, the
/// level, two spaces and the message.
pub proof fn law_line_of_a_time(
    logger: Logger,
    timestamp: Seq<char>,
    level: Seq<char>,
    msg: Seq<char>,
)
    ensures
        log_output(logger, timestamp, level, msg).0 == seq!['['] + timestamp + seq![']', ' ']
            + level + seq![' ', ' '] + msg,
{
    reveal_strlit("[");
    reveal_strlit("] ");
    reveal_strlit("  ");
    assert("["@ =~= seq!['[']);
    assert("] "@ =~= seq![']', ' ']);
    assert("  "@ =~= seq![' ', ' ']);
}

/// Every log line begins with a time in square brackets, whatever its level, and after
/// it come a space, the level, two spaces and the message.
pub proof fn law_lines_begin_with_the_time(
    logger: Logger,
    level: Seq<char>,
    msg: Seq<char>,
    out: (Seq<char>, bool, Option<Stream>),
)
    requires
        logged(logger, level, msg, out),
    ensures
        out.0.len() > 0,
        out.0[0] == '[',
        exists|k: int|
            1 <= k < out.0.len() && timestamp_text(#[trigger] out.0.subrange(1, k)) && out.0.skip(k)
                == seq![']', ' '] + level + seq![' ', ' '] + msg,
{
    let timestamp = choose|timestamp: Seq<char>| #[trigger]
        timestamp_text(timestamp) && out == log_output(logger, timestamp, level, msg);
    law_line_of_a_time(logger, timestamp, level, msg);
    lemma_line_places(timestamp, level, msg);
    let k = 1 + timestamp.len() as int;
    assert(out.0.subrange(1, k) == timestamp);
}

proof fn lemma_line_places(timestamp: Seq<char>, level: Seq<char>, msg: Seq<char>)
    ensures
        ({
            let line = seq!['['] + timestamp + seq![']', ' '] + level + seq![' ', ' '] + msg;
            let k = 1 + timestamp.len() as int;
            &&& line.len() > k
            &&& line[0] == '['
            &&& line.subrange(1, k) == timestamp
            &&& line.skip(k) == seq![']', ' '] + level + seq![' ', ' '] + msg
        }),
{
    let line = seq!['['] + timestamp + seq![']', ' '] + level + seq![' ', ' '] + msg;
    let rest = seq![']', ' '] + level + seq![' ', ' '] + msg;
    let k = 1 + timestamp.len() as int;
    assert(line =~= (seq!['['] + timestamp) + rest);
    assert(line.subrange(1, k) =~= timestamp);
    assert(line.skip(k) =~= rest);
}

/// Where a line goes, whatever its time: nowhere if it is too low to be written; else to
/// the log file exactly if one is open, and to a standard stream exactly if the program
/// is no daemon, which is standard error for the level `ERROR` alone.
pub proof fn law_where_lines_go(
    logger: Logger,
    timestamp: Seq<char>,
    level: Seq<char>,
    msg: Seq<char>,
)
    ensures
        ({
            let out = log_output(logger, timestamp, level, msg);
            &&& suppressed(logger, level) ==> !out.1 && out.2 is None
            &&& !suppressed(logger, level) ==> {
                &&& out.1 == logger.has_file
                &&& logger.daemon_mode ==> out.2 is None
                &&& !logger.daemon_mode && level == "ERROR"@ ==> out.2 == Some(Stream::Stderr)
                &&& !logger.daemon_mode && level != "ERROR"@ ==> out.2 == Some(Stream::Stdout)
            }
        }),
{
}

/// What is logged goes where a line of its level goes, whatever the time.
pub proof fn law_time_does_not_matter(
    logger: Logger,
    level: Seq<char>,
    msg: Seq<char>,
    out: (Seq<char>, bool, Option<Stream>),
    timestamp: Seq<char>,
)
    requires
        logged(logger, level, msg, out),
    ensures
        out.1 == log_output(logger, timestamp, level, msg).1,
        out.2 == log_output(logger, timestamp, level, msg).2,
{
}

/// The form of a time, counted from its end: hyphens, a space and colons in their
/// places, and two digits after each of them, for a month from 1 to 12, a day from 1 to
/// 31, an hour up to 23, a minute up to 59 and a second up to 60. What is before them is
/// the year: four digits, or a plus sign and five or more.
pub proof fn law_times(s: Seq<char>)
    ensures
        timestamp_text(s) <==> {
            let n = s.len() as int;
            &&& n >= 19
            &&& s[n - 15] == '-' && s[n - 12] == '-' && s[n - 9] == ' '
            &&& s[n - 6] == ':' && s[n - 3] == ':'
            &&& forall|i: int|
                n - 15 < i < n && i != n - 12 && i != n - 9 && i != n - 6 && i != n - 3 ==> 48 <= (
                #[trigger] s[i]) as int <= 57
            &&& 1 <= 10 * (s[n - 14] as int - 48) + (s[n - 13] as int - 48) <= 12
            &&& 1 <= 10 * (s[n - 11] as int - 48) + (s[n - 10] as int - 48) <= 31
            &&& 10 * (s[n - 8] as int - 48) + (s[n - 7] as int - 48) <= 23
            &&& 10 * (s[n - 5] as int - 48) + (s[n - 4] as int - 48) <= 59
            &&& 10 * (s[n - 2] as int - 48) + (s[n - 1] as int - 48) <= 60
            &&& n == 19 ==> forall|i: int| 0 <= i < 4 ==> 48 <= (#[trigger] s[i]) as int <= 57
            &&& n > 19 ==> n > 20 && s[0] == '+' && forall|i: int|
                1 <= i < n - 15 ==> 48 <= (#[trigger] s[i]) as int <= 57
        },
{
    let n = s.len() as int;
    if n >= 19 {
        let year = s.subrange(0, n - 15);
        lemma_two_digits(s, n - 14);
        lemma_two_digits(s, n - 11);
        lemma_two_digits(s, n - 8);
        lemma_two_digits(s, n - 5);
        lemma_two_digits(s, n - 2);
        assert(forall|i: int| 0 <= i < n - 15 ==> #[trigger] year[i] == s[i]);
        assert(forall|i: int| 0 <= i < n - 16 ==> #[trigger] year.drop_first()[i] == s[i + 1]);
        if n == 19 {
            assert(all_digits(year) <==> forall|i: int|
                0 <= i < 4 ==> 48 <= (#[trigger] s[i]) as int <= 57) by {
                assert(forall|i: int| 0 <= i < 4 ==> #[trigger] s[i] == year[i]);
            }
        } else {
            assert(all_digits(year.drop_first()) <==> forall|i: int|
                1 <= i < n - 15 ==> 48 <= (#[trigger] s[i]) as int <= 57) by {
                assert(forall|i: int|
                    1 <= i < n - 15 ==> #[trigger] s[i] == year.drop_first()[i - 1]);
            }
        }
    }
}

proof fn lemma_two_digits(s: Seq<char>, i: int)
    requires
        0 <= i,
        i + 1 < s.len(),
    ensures
        is_digit(s[i]) <==> 48 <= s[i] as int <= 57,
        is_digit(s[i + 1]) <==> 48 <= s[i + 1] as int <= 57,
        is_digit(s[i]) && is_digit(s[i + 1]) ==> value(s.subrange(i, i + 2)) == 10 * (s[i] as int
            - 48) + (s[i + 1] as int - 48),
{
    let pair = s.subrange(i, i + 2);
    reveal_with_fuel(value, 3);
    assert(pair.drop_last() =~= seq![s[i]]);
    assert(pair.drop_last().drop_last() =~= Seq::<char>::empty());
}

/// An entry is looked at by its level and its message, a line by its text and its
/// places, and the entries of a list one by one.
pub proof fn law_log_views(entry: LogEntry, out: LogOutput, entries: Seq<LogEntry>, i: int)
    requires
        0 <= i < entries.len(),
    ensures
        entry@ == (entry.level, entry.message@),
        out@ == (out.line@, out.to_file, out.console),
        entries_view(entries).len() == entries.len(),
        entries_view(entries)[i] == (entries[i].level, entries[i].message@),
{
}

/// The time of a log line is asked for as year, month, day, hour, minute and second.
pub proof fn law_time_format()
    ensures
        TIMESTAMP_FORMAT@ == "%Y-%m-%d %H:%M:%S"@,
{
}

/// What the program shows when it starts: between two rows of equal signs its name and
/// version, what it is, its author, the website and the year, each on a line of its own.
pub proof fn law_banner()
    ensures
        banner_text() == "============================================\n"@ + "tforward"@ + " v"@
            + "1.0.0"@ + " - TCP Port Forwarder\nAuthor: "@ + "Philippe TEMESI"@ + "\nWebsite: "@
            + "https://www.tems.be"@ + "\nYear: "@ + "2026"@
            + "\n============================================\n"@,
{
}

} // verus!
