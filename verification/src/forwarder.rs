//! The forwarder as a whole: its listeners, its blacklist, and its reloading.

use crate::addr::{socket_text, SocketAddrV4};
use crate::blacklist::{Blacklist, Denied};
use crate::connection::{rule_tag, rule_tag_text};
use crate::log::{Level, LogEntry};
use crate::rule::Rule;
use crate::text::{decimal, decimal_text};
use vstd::prelude::*;

verus! {

/// How far the forwarder has come with opening its listeners: the rules, how many of
/// them have been tried, and which of these have a listener.
#[verifier::ext_equal]
pub struct Progress {
    pub rules: Seq<Rule>,
    pub tried: nat,
    pub listening: Seq<usize>,
}

impl Progress {
    /// Whether the forwarder is at its end: every rule was tried and none has a
    /// listener. A listener never stops, so with one the forwarder goes on.
    pub open spec fn at_end(self) -> bool {
        self.tried == self.rules.len() && self.listening.len() == 0
    }

    /// How far it has come after the next rule's address could be bound or not.
    pub open spec fn after(self, bound: bool) -> Progress {
        Progress {
            tried: self.tried + 1,
            listening: if bound {
                self.listening.push(self.tried as usize)
            } else {
                self.listening
            },
            ..self
        }
    }

    /// How far it has come after the addresses of several rules could be bound or not.
    pub open spec fn after_all(self, bound: Seq<bool>) -> Progress
        decreases bound.len(),
    {
        if bound.len() == 0 {
            self
        } else {
            self.after_all(bound.drop_last()).after(bound.last())
        }
    }
}

/// The forwarder while it opens its listeners, one for each rule.
#[derive(Debug)]
pub struct Forwarder {
    rules: Vec<Rule>,
    tried: usize,
    listening: Vec<usize>,
}

impl View for Forwarder {
    type V = Progress;

    closed spec fn view(&self) -> Progress {
        Progress { rules: self.rules@, tried: self.tried as nat, listening: self.listening@ }
    }
}

/// What came of waiting for a connection.
#[derive(Debug)]
pub enum Accepted {
    /// A client connected over IPv4.
    V4(SocketAddrV4),
    /// A client connected over IPv6.
    V6,
    /// Waiting failed.
    Failed(String),
}

/// What to do after waiting for a connection. Waiting goes on in any case.
#[derive(Debug)]
pub enum AcceptStep {
    /// Handle the connection of this client, to be forwarded to this address.
    Handle(SocketAddrV4, SocketAddrV4),
    /// Log this.
    Skip(LogEntry),
}

/// The log entry for what came of binding a rule's address.
pub open spec fn bind_entry(
    rule_idx: usize,
    rule: Rule,
    outcome: Result<(), String>,
) -> (Level, Seq<char>) {
    match outcome {
        Ok(_) => (
            Level::Info,
            rule_tag(rule_idx) + "Listening on "@ + socket_text(rule.listen)
                + " -> forwarding to "@ + socket_text(rule.dest),
        ),
        Err(e) => (
            Level::Error,
            rule_tag(rule_idx) + "Unable to bind "@ + socket_text(rule.listen) + ": "@ + e@,
        ),
    }
}

impl Forwarder {
    #[verifier::type_invariant]
    spec fn inv(self) -> bool {
        self.tried <= self.rules@.len()
    }

    /// The rule to open a listener for next, by its number and its address, as long
    /// as there is one.
    pub fn next_bind(&self) -> (res: Option<(usize, SocketAddrV4)>)
        ensures
            res is Some <==> self@.tried < self@.rules.len(),
            res matches Some((rule_idx, listen)) ==> rule_idx == self@.tried && listen
                == self@.rules[self@.tried as int].listen,
    {
        if self.tried < self.rules.len() {
            Some((self.tried, self.rules[self.tried].listen))
        } else {
            None
        }
    }

    /// Takes note of what came of binding the next rule's address. A rule whose
    /// address could not be bound is left out, and the others are tried all the same.
    pub fn bound(&mut self, outcome: Result<(), String>) -> (res: LogEntry)
        requires
            old(self)@.tried < old(self)@.rules.len(),
        ensures
            final(self)@ == old(self)@.after(outcome is Ok),
            res@ == bind_entry(
                old(self)@.tried as usize,
                old(self)@.rules[old(self)@.tried as int],
                outcome,
            ),
    {
        let rule_idx: usize = self.tried;
        let rule = self.rules[rule_idx];
        let tag = rule_tag_text(rule_idx);
        assert(rule_idx < self.rules.len());
        self.tried = rule_idx + 1;
        match outcome {
            Ok(_) => {
                let mut listening: Vec<usize> = Vec::new();
                std::mem::swap(&mut listening, &mut self.listening);
                listening.push(rule_idx);
                self.listening = listening;
                LogEntry::info(
                    tag.concat("Listening on ").concat(rule.listen.text().as_str()).concat(
                        " -> forwarding to ",
                    ).concat(rule.dest.text().as_str()),
                )
            },
            Err(e) => LogEntry::error(
                tag.concat("Unable to bind ").concat(rule.listen.text().as_str()).concat(
                    ": ",
                ).concat(e.as_str()),
            ),
        }
    }

    /// Whether the forwarder ends, for every rule was tried and none has a listener.
    pub fn finished(&self) -> (res: bool)
        ensures
            res == self@.at_end(),
    {
        self.tried == self.rules.len() && self.listening.len() == 0
    }

    /// The numbers of the rules that have a listener, in order.
    pub fn listening(&self) -> (res: &Vec<usize>)
        ensures
            res@ == self@.listening,
    {
        &self.listening
    }

    /// The rules.
    pub fn rules(&self) -> (res: &Vec<Rule>)
        ensures
            res@ == self@.rules,
    {
        &self.rules
    }
}

/// Starts the forwarder: no rule has been tried yet.
pub fn run_forwarder(rules: Vec<Rule>) -> (res: (Forwarder, LogEntry))
    ensures
        res.0@ == (Progress { rules: rules@, tried: 0, listening: Seq::empty() }),
        res.1@ == (
            Level::Info,
            "Starting TCP forwarder with "@ + decimal(rules@.len()) + " rule(s)"@,
        ),
{
    let entry = LogEntry::info(
        "Starting TCP forwarder with ".to_owned().concat(
            decimal_text(rules.len() as u64).as_str(),
        ).concat(" rule(s)"),
    );
    (Forwarder { rules, tried: 0, listening: Vec::new() }, entry)
}

/// The blacklist to start with, and the log entry about it: the one that was loaded
/// from the file at `path`; an empty one if that failed, or if no file was named.
pub fn initial_blacklist(loaded: Option<(&str, Result<Blacklist, String>)>) -> (res: (
    Blacklist,
    Option<LogEntry>,
))
    ensures
        match loaded {
            None => res.0@ == Denied::empty() && res.1 is None,
            Some((path, Ok(blacklist))) => {
                &&& res.0@ == blacklist@
                &&& res.1 matches Some(entry)
                &&& entry@ == (Level::Info, "Blacklist loaded from "@ + path@)
            },
            Some((path, Err(e))) => {
                &&& res.0@ == Denied::empty()
                &&& res.1 matches Some(entry)
                &&& entry@ == (
                    Level::Error,
                    "Error loading blacklist: "@ + e@ + ", starting without blacklist"@,
                )
            },
        },
{
    match loaded {
        None => (Blacklist::new(), None),
        Some((path, Ok(blacklist))) => (
            blacklist,
            Some(LogEntry::info("Blacklist loaded from ".to_owned().concat(path))),
        ),
        Some((_, Err(e))) => (
            Blacklist::new(),
            Some(
                LogEntry::error(
                    "Error loading blacklist: ".to_owned().concat(e.as_str()).concat(
                        ", starting without blacklist",
                    ),
                ),
            ),
        ),
    }
}

/// Whether the blacklist is loaded anew from time to time: exactly when a file for it
/// was named.
pub fn reloads<P>(blocklist: &Option<P>) -> (res: bool)
    ensures
        res == (blocklist is Some),
{
    blocklist.is_some()
}

/// The log entry before the blacklist is loaded anew.
pub fn reload_started() -> (res: LogEntry)
    ensures
        res@ == (Level::Info, "Reloading blacklist..."@),
{
    LogEntry::info("Reloading blacklist...".to_owned())
}

/// Puts the blacklist that was loaded anew in place of the current one. If loading
/// failed the current one stays.
pub fn reload_blacklist_task(blacklist: &mut Blacklist, loaded: Result<Blacklist, String>) -> (res:
    LogEntry)
    ensures
        match loaded {
            Ok(new_blacklist) => {
                &&& final(blacklist)@ == new_blacklist@
                &&& res@ == (Level::Info, "Blacklist reloaded successfully"@)
            },
            Err(e) => {
                &&& final(blacklist)@ == old(blacklist)@
                &&& res@ == (Level::Error, "Error reloading blacklist: "@ + e@)
            },
        },
{
    match loaded {
        Ok(new_blacklist) => {
            *blacklist = new_blacklist;
            LogEntry::info("Blacklist reloaded successfully".to_owned())
        },
        Err(e) => LogEntry::error("Error reloading blacklist: ".to_owned().concat(e.as_str())),
    }
}

/// What to do after waiting for a connection to the address of `rule`: the connection
/// of an IPv4 client is handled, and forwarded to where the rule says; an IPv6 client
/// is left alone, and a failure is logged.
pub fn accepted(rule: &Rule, rule_idx: usize, outcome: Accepted) -> (res: AcceptStep)
    ensures
        match outcome {
            Accepted::V4(client) => res == AcceptStep::Handle(client, rule.dest),
            Accepted::V6 => {
                &&& res matches AcceptStep::Skip(entry)
                &&& entry@ == (
                    Level::Warn,
                    rule_tag(rule_idx) + "IPv6 connection ignored (IPv4 only)"@,
                )
            },
            Accepted::Failed(e) => {
                &&& res matches AcceptStep::Skip(entry)
                &&& entry@ == (Level::Error, rule_tag(rule_idx) + "Accept error: "@ + e@)
            },
        },
{
    match outcome {
        Accepted::V4(client) => AcceptStep::Handle(client, rule.dest),
        Accepted::V6 => AcceptStep::Skip(
            LogEntry::warn(rule_tag_text(rule_idx).concat("IPv6 connection ignored (IPv4 only)")),
        ),
        Accepted::Failed(e) => AcceptStep::Skip(
            LogEntry::error(rule_tag_text(rule_idx).concat("Accept error: ").concat(e.as_str())),
        ),
    }
}

/// Every rule is tried once, whatever came of those before it: once as many outcomes
/// are known as there are rules, no rule is left, and exactly the rules whose address
/// could be bound have a listener, in their order.
pub proof fn law_every_rule_is_tried(rules: Seq<Rule>, bound: Seq<bool>)
    requires
        bound.len() <= rules.len() <= usize::MAX,
    ensures
        ({
            let start = Progress { rules, tried: 0, listening: Seq::empty() };
            let end = start.after_all(bound);
            &&& end.rules == rules
            &&& end.tried == bound.len()
            &&& forall|i: usize| #[trigger]
                end.listening.contains(i) <==> i < bound.len() && bound[i as int]
            &&& forall|j: int, k: int|
                0 <= j < k < end.listening.len() ==> end.listening[j] < end.listening[k]
        }),
    decreases bound.len(),
{
    let start = Progress { rules, tried: 0, listening: Seq::empty() };
    if bound.len() > 0 {
        let shorter = bound.drop_last();
        law_every_rule_is_tried(rules, shorter);
        let before = start.after_all(shorter);
        let end = start.after_all(bound);
        let last = (bound.len() - 1) as usize;
        assert forall|i: usize| #[trigger]
            end.listening.contains(i) <==> i < bound.len() && bound[i as int] by {
            if before.listening.contains(i) {
                let k = choose|k: int| 0 <= k < before.listening.len() && before.listening[k] == i;
                assert(end.listening[k] == i);
            }
            if end.listening.contains(i) {
                let k = choose|k: int| 0 <= k < end.listening.len() && end.listening[k] == i;
                if k < before.listening.len() {
                    assert(before.listening[k] == i);
                    assert(before.listening.contains(i));
                }
            }
            if i == last && bound.last() {
                assert(end.listening[end.listening.len() - 1] == i);
            }
            if i < last {
                assert(bound[i as int] == shorter[i as int]);
            }
        }
        assert forall|j: int, k: int| 0 <= j < k < end.listening.len() implies end.listening[j]
            < end.listening[k] by {
            if k == before.listening.len() {
                assert(before.listening.contains(before.listening[j]));
            }
        }
    }
}

/// The forwarder ends exactly when every rule was tried and no address could be bound;
/// in particular it ends at once without rules.
pub proof fn law_ends_without_listeners(rules: Seq<Rule>, bound: Seq<bool>)
    requires
        bound.len() <= rules.len() <= usize::MAX,
    ensures
        ({
            let start = Progress { rules, tried: 0, listening: Seq::empty() };
            start.after_all(bound).at_end() <==> bound.len() == rules.len() && forall|i: int|
                0 <= i < bound.len() ==> !#[trigger] bound[i]
        }),
{
    law_every_rule_is_tried(rules, bound);
    let start = Progress { rules, tried: 0, listening: Seq::empty() };
    let end = start.after_all(bound);
    if end.listening.len() > 0 {
        let i = end.listening[0];
        assert(end.listening.contains(i));
        assert(bound[i as int]);
    } else {
        assert forall|i: int| 0 <= i < bound.len() implies !#[trigger] bound[i] by {
            assert(!end.listening.contains(i as usize));
        }
    }
}

/// Each outcome of binding counts for one rule, the next one: it gets a listener exactly
/// if its address could be bound, and nothing else changes.
pub proof fn law_one_rule_at_a_time(progress: Progress, bound: bool)
    ensures
        progress.after(bound).rules == progress.rules,
        progress.after(bound).tried == progress.tried + 1,
        bound ==> progress.after(bound).listening == progress.listening.push(
            progress.tried as usize,
        ),
        !bound ==> progress.after(bound).listening == progress.listening,
{
}

/// What the log says of binding a rule's address: that it is listened on and where it is
/// forwarded to, or why it could not be bound.
pub proof fn law_bind_entries(rule_idx: usize, rule: Rule, e: String)
    ensures
        bind_entry(rule_idx, rule, Ok(())) == (
            Level::Info,
            "[Rule #"@ + decimal(rule_idx as nat) + "] "@ + "Listening on "@ + socket_text(
                rule.listen,
            ) + " -> forwarding to "@ + socket_text(rule.dest),
        ),
        bind_entry(rule_idx, rule, Err(e)) == (
            Level::Error,
            "[Rule #"@ + decimal(rule_idx as nat) + "] "@ + "Unable to bind "@ + socket_text(
                rule.listen,
            ) + ": "@ + e@,
        ),
{
}

/// The forwarder is at its end exactly when all rules were tried and none has a listener.
pub proof fn law_end(progress: Progress)
    ensures
        progress.tried < progress.rules.len() ==> !progress.at_end(),
        progress.listening.len() > 0 ==> !progress.at_end(),
        progress.tried == progress.rules.len() && progress.listening.len() == 0
            ==> progress.at_end(),
{
}

} // verus!
