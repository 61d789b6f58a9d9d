//! Running in the background: the arguments for the program that is started there,
//! and the file with its process number.

use crate::log::{Level, LogEntry, Stream};
use crate::text::{decimal, decimal_text, texts_view};
use vstd::prelude::*;

verus! {

/// The options of the program, with `P` for the paths among them.
#[derive(Debug)]
pub struct Args<P> {
    pub rule: Vec<String>,
    pub blocklist: Option<P>,
    pub reload_interval: u64,
    pub log_level: String,
    pub daemonize: bool,
    pub pid_file: P,
    pub log_file: P,
}

/// An argument for a program: a text, or a path.
#[derive(Debug)]
pub enum Argument<'a, P> {
    Text(String),
    Path(&'a P),
}

/// The meaning of an argument.
pub enum Given<P> {
    Text(Seq<char>),
    Path(P),
}

impl<'a, P> View for Argument<'a, P> {
    type V = Given<P>;

    open spec fn view(&self) -> Given<P> {
        match self {
            Argument::Text(s) => Given::Text(s@),
            Argument::Path(p) => Given::Path(**p),
        }
    }
}

/// The meaning of each argument of a list.
pub open spec fn arguments_view<'a, P>(arguments: Seq<Argument<'a, P>>) -> Seq<Given<P>> {
    Seq::new(arguments.len(), |i: int| arguments[i]@)
}

/// Texts as arguments.
pub open spec fn given_texts<P>(texts: Seq<Seq<char>>) -> Seq<Given<P>> {
    Seq::new(texts.len(), |i: int| Given::Text(texts[i]))
}

/// The options after the rules, each with its value.
pub open spec fn options_of<P>(args: Args<P>) -> Seq<Given<P>> {
    (match args.blocklist {
        Some(path) => seq![Given::Text("--blocklist"@), Given::Path(path)],
        None => seq![],
    }) + seq![
        Given::Text("--reload-interval"@),
        Given::Text(decimal(args.reload_interval as nat)),
        Given::Text("--log-level"@),
        Given::Text(args.log_level@),
        Given::Text("--pid-file"@),
        Given::Path(args.pid_file),
        Given::Text("--log-file"@),
        Given::Path(args.log_file),
    ]
}

/// The rules as arguments: each has a `--rule` of its own before it.
pub open spec fn rules_given<P>(texts: Seq<Seq<char>>) -> Seq<Given<P>>
    decreases texts.len(),
{
    if texts.len() == 0 {
        Seq::empty()
    } else {
        rules_given(texts.drop_last()) + seq![Given::Text("--rule"@), Given::Text(texts.last())]
    }
}

/// The arguments for the program in the background: the rules, each after a `--rule`,
/// and then the other options but `--daemonize`.
pub open spec fn arguments_of<P>(args: Args<P>) -> Seq<Given<P>> {
    rules_given(texts_view(args.rule@)) + options_of(args)
}

/// What is shown, and with which code the program ends, after it tried to start
/// itself in the background.
#[derive(Debug)]
pub struct Report {
    pub stream: Stream,
    pub lines: Vec<String>,
    pub exit_code: i32,
}

/// The arguments with which the program starts itself in the background, if it is
/// asked to.
pub fn daemonize<'a, P>(args: &'a Args<P>) -> (res: Option<Vec<Argument<'a, P>>>)
    ensures
        res is Some <==> args.daemonize,
        res matches Some(arguments) ==> arguments_view(arguments@) == arguments_of(*args),
{
    if !args.daemonize {
        return None;
    }
    let ghost texts = texts_view(args.rule@);
    let mut res: Vec<Argument<'a, P>> = Vec::new();
    let mut i: usize = 0;
    assert(arguments_view(res@) =~= rules_given(texts.take(0)));
    while i < args.rule.len()
        invariant
            i <= args.rule@.len(),
            texts == texts_view(args.rule@),
            arguments_view(res@) =~= rules_given(texts.take(i as int)),
        decreases args.rule@.len() - i,
    {
        let ghost before = res@;
        res.push(Argument::Text("--rule".to_owned()));
        res.push(Argument::Text(args.rule[i].clone()));
        proof {
            let longer = texts.take(i as int + 1);
            assert(longer.drop_last() =~= texts.take(i as int));
            assert(longer.last() == args.rule@[i as int]@);
            assert(arguments_view(res@) =~= arguments_view(before) + seq![
                Given::<P>::Text("--rule"@),
                Given::<P>::Text(args.rule@[i as int]@),
            ]);
        }
        i += 1;
    }
    assert(texts.take(i as int) =~= texts);
    if let Some(blocklist) = &args.blocklist {
        res.push(Argument::Text("--blocklist".to_owned()));
        res.push(Argument::Path(blocklist));
    }
    res.push(Argument::Text("--reload-interval".to_owned()));
    res.push(Argument::Text(decimal_text(args.reload_interval)));
    res.push(Argument::Text("--log-level".to_owned()));
    res.push(Argument::Text(args.log_level.clone()));
    res.push(Argument::Text("--pid-file".to_owned()));
    res.push(Argument::Path(&args.pid_file));
    res.push(Argument::Text("--log-file".to_owned()));
    res.push(Argument::Path(&args.log_file));
    assert(arguments_view(res@) =~= arguments_of(*args));
    Some(res)
}

/// What is shown after the program tried to start itself in the background: where to
/// find the daemon, or why there is none.
pub fn daemon_report(outcome: Result<u32, String>, log_file: &str, pid_file: &str) -> (res: Report)
    ensures
        match outcome {
            Ok(pid) => {
                &&& res.stream == Stream::Stdout
                &&& res.exit_code == 0
                &&& texts_view(res.lines@) == seq![
                    "Daemon started with PID: "@ + decimal(pid as nat),
                    "Logs written to: "@ + log_file@,
                    "PID file: "@ + pid_file@,
                ]
            },
            Err(e) => {
                &&& res.stream == Stream::Stderr
                &&& res.exit_code == 1
                &&& texts_view(res.lines@) == seq!["Error starting daemon: "@ + e@]
            },
        },
{
    let mut lines: Vec<String> = Vec::new();
    match outcome {
        Ok(pid) => {
            lines.push(
                "Daemon started with PID: ".to_owned().concat(decimal_text(pid as u64).as_str()),
            );
            lines.push("Logs written to: ".to_owned().concat(log_file));
            lines.push("PID file: ".to_owned().concat(pid_file));
            Report { stream: Stream::Stdout, lines, exit_code: 0 }
        },
        Err(e) => {
            lines.push("Error starting daemon: ".to_owned().concat(e.as_str()));
            Report { stream: Stream::Stderr, lines, exit_code: 1 }
        },
    }
}

/// The contents of the file with the process number, and the log entry once it is
/// written; `path` names the file as a log message quotes it.
pub fn write_pid_file(pid: u32, path: &str) -> (res: (String, LogEntry))
    ensures
        res.0@ == decimal(pid as nat),
        res.1@ == (Level::Info, "PID "@ + decimal(pid as nat) + " written to "@ + path@),
{
    let contents = decimal_text(pid as u64);
    let message = "PID ".to_owned().concat(contents.as_str()).concat(" written to ").concat(path);
    (contents, LogEntry::info(message))
}

/// The log entry for a file with a process number that is there already.
pub fn pid_file_exists(path: &str) -> (res: LogEntry)
    ensures
        res@ == (
            Level::Warn,
            "PID file "@ + path@ + " already exists, daemon may already be running"@,
        ),
{
    LogEntry::warn(
        "PID file ".to_owned().concat(path).concat(
            " already exists, daemon may already be running",
        ),
    )
}

/// The log entry for how often the blacklist is loaded anew.
pub fn reload_interval_set(seconds: u64) -> (res: LogEntry)
    ensures
        res@ == (
            Level::Info,
            "Blacklist reload interval: "@ + decimal(seconds as nat) + " seconds"@,
        ),
{
    LogEntry::info(
        "Blacklist reload interval: ".to_owned().concat(decimal_text(seconds).as_str()).concat(
            " seconds",
        ),
    )
}

/// The log entry for the signal that ends the program.
pub fn interrupted() -> (res: LogEntry)
    ensures
        res@ == (Level::Info, "Received SIGINT, shutting down daemon..."@),
{
    LogEntry::info("Received SIGINT, shutting down daemon...".to_owned())
}

/// The values that are given to `option` in arguments that are options, each with its
/// value after it, in order.
pub open spec fn values_given<P>(arguments: Seq<Given<P>>, option: Seq<char>) -> Seq<Given<P>>
    decreases arguments.len(),
{
    if arguments.len() < 2 {
        Seq::empty()
    } else if arguments[0] == Given::<P>::Text(option) {
        seq![arguments[1]] + values_given(arguments.skip(2), option)
    } else {
        values_given(arguments.skip(2), option)
    }
}

/// Whether `name` is an option that the program in the background can get.
pub open spec fn option_name(name: Seq<char>) -> bool {
    ||| name == "--rule"@
    ||| name == "--blocklist"@
    ||| name == "--reload-interval"@
    ||| name == "--log-level"@
    ||| name == "--pid-file"@
    ||| name == "--log-file"@
}

proof fn lemma_option_names()
    ensures
        "--blocklist"@ != "--reload-interval"@,
        "--blocklist"@ != "--log-level"@,
        "--blocklist"@ != "--pid-file"@,
        "--blocklist"@ != "--log-file"@,
        "--blocklist"@ != "--daemonize"@,
        "--reload-interval"@ != "--log-level"@,
        "--reload-interval"@ != "--pid-file"@,
        "--reload-interval"@ != "--log-file"@,
        "--reload-interval"@ != "--daemonize"@,
        "--log-level"@ != "--pid-file"@,
        "--log-level"@ != "--log-file"@,
        "--log-level"@ != "--daemonize"@,
        "--pid-file"@ != "--log-file"@,
        "--pid-file"@ != "--daemonize"@,
        "--log-file"@ != "--daemonize"@,
        "--rule"@ != "--blocklist"@,
        "--rule"@ != "--reload-interval"@,
        "--rule"@ != "--log-level"@,
        "--rule"@ != "--pid-file"@,
        "--rule"@ != "--log-file"@,
        "--rule"@ != "--daemonize"@,
{
    reveal_strlit("--rule");
    reveal_strlit("--blocklist");
    reveal_strlit("--reload-interval");
    reveal_strlit("--log-level");
    reveal_strlit("--pid-file");
    reveal_strlit("--log-file");
    reveal_strlit("--daemonize");
    assert("--rule"@.len() == 6);
    assert("--blocklist"@[2] == 'b');
    assert("--reload-interval"@[2] == 'r');
    assert("--log-level"@[6] == 'l');
    assert("--log-file"@[6] == 'f');
    assert("--log-level"@[2] == 'l');
    assert("--log-file"@[2] == 'l');
    assert("--pid-file"@[2] == 'p');
    assert("--daemonize"@[2] == 'd');
}

proof fn lemma_values_of_two_lists<P>(a: Seq<Given<P>>, b: Seq<Given<P>>, option: Seq<char>)
    requires
        a.len() % 2 == 0,
    ensures
        values_given(a + b, option) == values_given(a, option) + values_given(b, option),
    decreases a.len(),
{
    if a.len() == 0 {
        assert(a + b =~= b);
        assert(values_given(a, option) + values_given(b, option) =~= values_given(b, option));
    } else {
        assert((a + b).skip(2) =~= a.skip(2) + b);
        lemma_values_of_two_lists(a.skip(2), b, option);
        assert(values_given(a + b, option) =~= values_given(a, option) + values_given(b, option));
    }
}

proof fn lemma_values_of_rules<P>(texts: Seq<Seq<char>>, option: Seq<char>)
    ensures
        rules_given::<P>(texts).len() == 2 * texts.len(),
        values_given(rules_given::<P>(texts), option) == (if option == "--rule"@ {
            given_texts::<P>(texts)
        } else {
            Seq::empty()
        }),
        forall|i: int|
            0 <= i < texts.len() ==> #[trigger] rules_given::<P>(texts)[2 * i] == Given::<P>::Text(
                "--rule"@,
            ),
    decreases texts.len(),
{
    if texts.len() == 0 {
        assert(given_texts::<P>(texts) =~= Seq::empty());
    } else {
        let shorter = texts.drop_last();
        let pair = seq![Given::<P>::Text("--rule"@), Given::<P>::Text(texts.last())];
        lemma_values_of_rules::<P>(shorter, option);
        lemma_values_of_two_lists(rules_given::<P>(shorter), pair, option);
        reveal_with_fuel(values_given, 2);
        assert(pair.skip(2) =~= Seq::empty());
        if option == "--rule"@ {
            assert(values_given(pair, option) =~= seq![Given::<P>::Text(texts.last())]);
            assert(given_texts::<P>(texts) =~= given_texts::<P>(shorter).push(
                Given::<P>::Text(texts.last()),
            ));
        }
        assert forall|i: int| 0 <= i < texts.len() implies #[trigger] rules_given::<P>(texts)[2 * i]
            == Given::<P>::Text("--rule"@) by {
            if i < shorter.len() {
                assert(rules_given::<P>(texts)[2 * i] == rules_given::<P>(shorter)[2 * i]);
            }
        }
    }
}

proof fn lemma_values_of_options<P>(args: Args<P>)
    ensures
        ({
            let rest = options_of(args);
            &&& rest.len() % 2 == 0
            &&& values_given(rest, "--rule"@) == Seq::<Given<P>>::empty()
            &&& values_given(rest, "--blocklist"@) == (match args.blocklist {
                Some(path) => seq![Given::Path(path)],
                None => seq![],
            })
            &&& values_given(rest, "--reload-interval"@) == seq![
                Given::<P>::Text(decimal(args.reload_interval as nat)),
            ]
            &&& values_given(rest, "--log-level"@) == seq![Given::<P>::Text(args.log_level@)]
            &&& values_given(rest, "--pid-file"@) == seq![Given::Path(args.pid_file)]
            &&& values_given(rest, "--log-file"@) == seq![Given::Path(args.log_file)]
            &&& values_given(rest, "--daemonize"@) == Seq::<Given<P>>::empty()
        }),
{
    lemma_option_names();
    let whole = options_of(args);
    let k: int = if args.blocklist is Some {
        2
    } else {
        0
    };
    let r0 = whole.skip(k);
    let r1 = r0.skip(2);
    let r2 = r1.skip(2);
    let r3 = r2.skip(2);
    let r4 = r3.skip(2);
    assert(whole.skip(0) =~= whole);
    assert(r0[0] == Given::<P>::Text("--reload-interval"@));
    assert(r1[0] == Given::<P>::Text("--log-level"@));
    assert(r2[0] == Given::<P>::Text("--pid-file"@));
    assert(r3[0] == Given::<P>::Text("--log-file"@));
    assert(r4.len() == 0);
    reveal_with_fuel(values_given, 6);
    assert(values_given(whole, "--blocklist"@) =~= (match args.blocklist {
        Some(path) => seq![Given::Path(path)],
        None => seq![],
    }));
    assert(values_given(whole, "--reload-interval"@) =~= seq![
        Given::<P>::Text(decimal(args.reload_interval as nat)),
    ]);
    assert(values_given(whole, "--log-level"@) =~= seq![Given::<P>::Text(args.log_level@)]);
    assert(values_given(whole, "--pid-file"@) =~= seq![Given::Path(args.pid_file)]);
    assert(values_given(whole, "--log-file"@) =~= seq![Given::Path(args.log_file)]);
}

/// The program in the background gets every option with the values that were given
/// here: all the rules in their order, the blocklist file if there is one, and one
/// value for each of the others. It does not get `--daemonize`.
pub proof fn law_daemon_gets_all_options<P>(args: Args<P>)
    ensures
        ({
            let arguments = arguments_of(args);
            &&& values_given(arguments, "--rule"@) == given_texts::<P>(texts_view(args.rule@))
            &&& values_given(arguments, "--blocklist"@) == (match args.blocklist {
                Some(path) => seq![Given::Path(path)],
                None => seq![],
            })
            &&& values_given(arguments, "--reload-interval"@) == seq![
                Given::<P>::Text(decimal(args.reload_interval as nat)),
            ]
            &&& values_given(arguments, "--log-level"@) == seq![Given::<P>::Text(args.log_level@)]
            &&& values_given(arguments, "--pid-file"@) == seq![Given::Path(args.pid_file)]
            &&& values_given(arguments, "--log-file"@) == seq![Given::Path(args.log_file)]
            &&& values_given(arguments, "--daemonize"@) == Seq::<Given<P>>::empty()
        }),
{
    let texts = texts_view(args.rule@);
    let rules = rules_given::<P>(texts);
    let rest = options_of(args);
    let nothing = Seq::<Given<P>>::empty();
    lemma_option_names();
    lemma_values_of_options(args);
    lemma_values_of_rules::<P>(texts, "--rule"@);
    lemma_values_of_rules::<P>(texts, "--blocklist"@);
    lemma_values_of_rules::<P>(texts, "--reload-interval"@);
    lemma_values_of_rules::<P>(texts, "--log-level"@);
    lemma_values_of_rules::<P>(texts, "--pid-file"@);
    lemma_values_of_rules::<P>(texts, "--log-file"@);
    lemma_values_of_rules::<P>(texts, "--daemonize"@);
    lemma_values_of_two_lists(rules, rest, "--rule"@);
    lemma_values_of_two_lists(rules, rest, "--blocklist"@);
    lemma_values_of_two_lists(rules, rest, "--reload-interval"@);
    lemma_values_of_two_lists(rules, rest, "--log-level"@);
    lemma_values_of_two_lists(rules, rest, "--pid-file"@);
    lemma_values_of_two_lists(rules, rest, "--log-file"@);
    lemma_values_of_two_lists(rules, rest, "--daemonize"@);
    assert(given_texts::<P>(texts) + nothing =~= given_texts::<P>(texts));
    assert(nothing + values_given(rest, "--blocklist"@) =~= values_given(rest, "--blocklist"@));
    assert(nothing + values_given(rest, "--reload-interval"@) =~= values_given(
        rest,
        "--reload-interval"@,
    ));
    assert(nothing + values_given(rest, "--log-level"@) =~= values_given(rest, "--log-level"@));
    assert(nothing + values_given(rest, "--pid-file"@) =~= values_given(rest, "--pid-file"@));
    assert(nothing + values_given(rest, "--log-file"@) =~= values_given(rest, "--log-file"@));
    assert(nothing + nothing =~= nothing);
}

/// The arguments of the program in the background are options, each with one value
/// after it, and nothing else.
pub proof fn law_daemon_arguments_are_pairs<P>(args: Args<P>)
    ensures
        arguments_of(args).len() % 2 == 0,
        forall|i: int|
            0 <= i < arguments_of(args).len() && i % 2 == 0 ==> {
                &&& #[trigger] arguments_of(args)[i] matches Given::Text(name)
                &&& option_name(name)
            },
{
    let texts = texts_view(args.rule@);
    let rules = rules_given::<P>(texts);
    let rest = options_of(args);
    lemma_values_of_rules::<P>(texts, "--rule"@);
    lemma_values_of_options(args);
    assert forall|i: int| 0 <= i < arguments_of(args).len() && i % 2 == 0 implies ({
        &&& #[trigger] arguments_of(args)[i] matches Given::Text(name)
        &&& option_name(name)
    }) by {
        if i < rules.len() {
            assert(arguments_of(args)[i] == rules[2 * (i / 2)]);
        } else {
            assert(arguments_of(args)[i] == rest[i - rules.len()]);
        }
    }
}

/// The arguments of the program in the background one by one: each rule after a
/// `--rule`, in order; then the blocklist file after `--blocklist`, if there is one; and
/// then the reload interval, the log level, the file for the process number and the log
/// file, each after its option; and nothing else.
pub proof fn law_daemon_arguments_in_order<P>(args: Args<P>)
    ensures
        ({
            let arguments = arguments_of(args);
            let n = args.rule@.len() as int;
            let k = 2 * n + if args.blocklist is Some {
                2int
            } else {
                0int
            };
            &&& arguments.len() == k + 8
            &&& forall|i: int|
                #![trigger args.rule@[i]]
                0 <= i < n ==> arguments.subrange(2 * i, 2 * i + 2) == seq![
                    Given::<P>::Text("--rule"@),
                    Given::<P>::Text(args.rule@[i]@),
                ]
            &&& args.blocklist matches Some(path) ==> arguments[2 * n] == Given::<P>::Text(
                "--blocklist"@,
            ) && arguments[2 * n + 1] == Given::Path(path)
            &&& arguments[k] == Given::<P>::Text("--reload-interval"@)
            &&& arguments[k + 1] == Given::<P>::Text(decimal(args.reload_interval as nat))
            &&& arguments[k + 2] == Given::<P>::Text("--log-level"@)
            &&& arguments[k + 3] == Given::<P>::Text(args.log_level@)
            &&& arguments[k + 4] == Given::<P>::Text("--pid-file"@)
            &&& arguments[k + 5] == Given::Path(args.pid_file)
            &&& arguments[k + 6] == Given::<P>::Text("--log-file"@)
            &&& arguments[k + 7] == Given::Path(args.log_file)
        }),
{
    let texts = texts_view(args.rule@);
    let rules = rules_given::<P>(texts);
    lemma_rules_in_order::<P>(texts);
    assert forall|i: int|
        #![trigger args.rule@[i]]
        0 <= i < args.rule@.len() implies arguments_of(args).subrange(2 * i, 2 * i + 2) == seq![
        Given::<P>::Text("--rule"@),
        Given::<P>::Text(args.rule@[i]@),
    ] by {
        assert(texts[i] == args.rule@[i]@);
        assert(arguments_of(args).subrange(2 * i, 2 * i + 2) =~= rules.subrange(2 * i, 2 * i + 2));
    }
}

proof fn lemma_rules_in_order<P>(texts: Seq<Seq<char>>)
    ensures
        rules_given::<P>(texts).len() == 2 * texts.len(),
        forall|i: int|
            0 <= i < texts.len() ==> rules_given::<P>(texts).subrange(2 * i, 2 * i + 2) == seq![
                Given::<P>::Text("--rule"@),
                Given::<P>::Text(#[trigger] texts[i]),
            ],
    decreases texts.len(),
{
    if texts.len() > 0 {
        let shorter = texts.drop_last();
        let before = rules_given::<P>(shorter);
        let all = rules_given::<P>(texts);
        lemma_rules_in_order::<P>(shorter);
        assert forall|i: int| 0 <= i < texts.len() implies all.subrange(2 * i, 2 * i + 2) == seq![
            Given::<P>::Text("--rule"@),
            Given::<P>::Text(#[trigger] texts[i]),
        ] by {
            if i < shorter.len() {
                assert(shorter[i] == texts[i]);
                assert(all.subrange(2 * i, 2 * i + 2) =~= before.subrange(2 * i, 2 * i + 2));
            } else {
                assert(all.subrange(2 * i, 2 * i + 2) =~= seq![
                    Given::<P>::Text("--rule"@),
                    Given::<P>::Text(texts[i]),
                ]);
            }
        }
    }
}

/// An argument is looked at as the text or the path that it is, and the arguments of a
/// list one by one.
pub proof fn law_argument_view<'a, P>(
    text: String,
    path: &'a P,
    arguments: Seq<Argument<'a, P>>,
    i: int,
)
    requires
        0 <= i < arguments.len(),
    ensures
        Argument::<'a, P>::Text(text)@ == Given::<P>::Text(text@),
        Argument::<'a, P>::Path(path)@ == Given::<P>::Path(*path),
        arguments_view(arguments).len() == arguments.len(),
        arguments_view(arguments)[i] == arguments[i]@,
{
}

} // verus!
