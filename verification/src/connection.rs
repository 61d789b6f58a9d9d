//! One client connection: whether it is let in, and what is done with it.

use crate::addr::{socket_text, SocketAddrV4};
use crate::blacklist::{denied_by, law_denied_by_some_line, line_denies, Blacklist, Denied};
use crate::log::{Level, LogEntry};
use crate::text::{decimal, decimal_text};
use vstd::prelude::*;

verus! {

/// How far a connection has come.
#[derive(Clone, Copy, Debug, PartialEq, Eq, Structural)]
pub enum Phase {
    /// The destination is being connected to.
    Connecting,
    /// Bytes are being relayed between client and destination.
    Relaying,
    /// Nothing more is done.
    Closed,
}

/// A client connection that a rule accepted.
#[derive(Clone, Copy, Debug, PartialEq, Eq, Structural)]
pub struct Session {
    pub client: SocketAddrV4,
    pub dest: SocketAddrV4,
    pub rule_idx: usize,
    pub phase: Phase,
}

/// What came of the last action.
#[derive(Debug)]
pub enum Event {
    /// The destination accepted the connection.
    Connected,
    /// The destination could not be connected to.
    ConnectFailed(String),
    /// Both sides are done; this many bytes went from the client to the destination,
    /// and this many back.
    Relayed(u64, u64),
    /// The relay broke off.
    RelayFailed(String),
}

/// What to do next with a connection.
#[derive(Clone, Copy, Debug, PartialEq, Eq, Structural)]
pub enum Action {
    /// Connect to this address.
    Connect(SocketAddrV4),
    /// Relay bytes both ways until both sides are done.
    Relay,
    /// Close the connection.
    Close,
}

/// A log entry, and what to do after it.
#[derive(Debug)]
pub struct Step {
    pub entry: LogEntry,
    pub action: Action,
}

impl View for Step {
    type V = ((Level, Seq<char>), Action);

    open spec fn view(&self) -> ((Level, Seq<char>), Action) {
        (self.entry@, self.action)
    }
}

/// How each log message about a rule begins.
pub open spec fn rule_tag(rule_idx: usize) -> Seq<char> {
    "[Rule #"@ + decimal(rule_idx as nat) + "] "@
}

/// How each log message about a rule begins.
pub(crate) fn rule_tag_text(rule_idx: usize) -> (res: String)
    ensures
        res@ == rule_tag(rule_idx),
{
    "[Rule #".to_owned().concat(decimal_text(rule_idx as u64).as_str()).concat("] ")
}

/// How a connection begins: a client on the blacklist is turned away, and for any
/// other the destination is connected to.
pub open spec fn opening(
    client: SocketAddrV4,
    dest: SocketAddrV4,
    denied: Denied,
    rule_idx: usize,
) -> (Session, ((Level, Seq<char>), Action)) {
    if denied.denies(client.ip) {
        (
            Session { client, dest, rule_idx, phase: Phase::Closed },
            (
                (
                    Level::Warn,
                    rule_tag(rule_idx) + "Connection REJECTED from "@ + socket_text(client)
                        + " (blacklisted)"@,
                ),
                Action::Close,
            ),
        )
    } else {
        (
            Session { client, dest, rule_idx, phase: Phase::Connecting },
            (
                (
                    Level::Info,
                    rule_tag(rule_idx) + "New connection from "@ + socket_text(client) + " -> "@
                        + socket_text(dest),
                ),
                Action::Connect(dest),
            ),
        )
    }
}

impl Session {
    /// Whether `event` can be what came of the last action.
    pub open spec fn expecting(self, event: Event) -> bool {
        match event {
            Event::Connected => self.phase == Phase::Connecting,
            Event::ConnectFailed(_) => self.phase == Phase::Connecting,
            Event::Relayed(_, _) => self.phase == Phase::Relaying,
            Event::RelayFailed(_) => self.phase == Phase::Relaying,
        }
    }

    /// How far the connection has come after `event`.
    pub open spec fn after(self, event: Event) -> Session {
        Session {
            phase: if event is Connected {
                Phase::Relaying
            } else {
                Phase::Closed
            },
            ..self
        }
    }

    /// What is logged and done on `event`.
    pub open spec fn reaction(self, event: Event) -> ((Level, Seq<char>), Action) {
        match event {
            Event::Connected => (
                (
                    Level::Info,
                    rule_tag(self.rule_idx) + "Connected to "@ + socket_text(self.dest)
                        + ", starting relay"@,
                ),
                Action::Relay,
            ),
            Event::ConnectFailed(e) => (
                (
                    Level::Error,
                    rule_tag(self.rule_idx) + "Unable to connect to "@ + socket_text(self.dest)
                        + ": "@ + e@,
                ),
                Action::Close,
            ),
            Event::Relayed(from_client, from_dest) => (
                (
                    Level::Info,
                    rule_tag(self.rule_idx) + "Connection closed: "@ + decimal(from_client as nat)
                        + "B client->dest, "@ + decimal(from_dest as nat) + "B dest->client"@,
                ),
                Action::Close,
            ),
            Event::RelayFailed(e) => (
                (Level::Error, rule_tag(self.rule_idx) + "Relay error: "@ + e@),
                Action::Close,
            ),
        }
    }

    /// Whether `event` can be what came of the last action.
    pub fn expects(&self, event: &Event) -> (res: bool)
        ensures
            res == self.expecting(*event),
    {
        match event {
            Event::Connected => self.phase == Phase::Connecting,
            Event::ConnectFailed(_) => self.phase == Phase::Connecting,
            Event::Relayed(_, _) => self.phase == Phase::Relaying,
            Event::RelayFailed(_) => self.phase == Phase::Relaying,
        }
    }

    /// Goes on after what came of the last action.
    pub fn step(&mut self, event: Event) -> (res: Step)
        requires
            old(self).expecting(event),
        ensures
            *final(self) == old(self).after(event),
            res@ == old(self).reaction(event),
    {
        let tag = rule_tag_text(self.rule_idx);
        match event {
            Event::Connected => {
                self.phase = Phase::Relaying;
                Step {
                    entry: LogEntry::info(
                        tag.concat("Connected to ").concat(self.dest.text().as_str()).concat(
                            ", starting relay",
                        ),
                    ),
                    action: Action::Relay,
                }
            },
            Event::ConnectFailed(e) => {
                self.phase = Phase::Closed;
                Step {
                    entry: LogEntry::error(
                        tag.concat("Unable to connect to ").concat(
                            self.dest.text().as_str(),
                        ).concat(": ").concat(e.as_str()),
                    ),
                    action: Action::Close,
                }
            },
            Event::Relayed(from_client, from_dest) => {
                self.phase = Phase::Closed;
                Step {
                    entry: LogEntry::info(
                        tag.concat("Connection closed: ").concat(
                            decimal_text(from_client).as_str(),
                        ).concat("B client->dest, ").concat(
                            decimal_text(from_dest).as_str(),
                        ).concat("B dest->client"),
                    ),
                    action: Action::Close,
                }
            },
            Event::RelayFailed(e) => {
                self.phase = Phase::Closed;
                Step {
                    entry: LogEntry::error(tag.concat("Relay error: ").concat(e.as_str())),
                    action: Action::Close,
                }
            },
        }
    }
}

/// Begins with a client connection that a rule accepted: turns the client away if it
/// is on the blacklist, and has the destination connected to if it is not.
pub fn handle_connection(
    client_addr: SocketAddrV4,
    dest_addr: SocketAddrV4,
    blacklist: &Blacklist,
    rule_idx: usize,
) -> (res: (Session, Step))
    ensures
        (res.0, res.1@) == opening(client_addr, dest_addr, blacklist@, rule_idx),
{
    let tag = rule_tag_text(rule_idx);
    if blacklist.contains(client_addr.ip) {
        let message = tag.concat("Connection REJECTED from ").concat(
            client_addr.text().as_str(),
        ).concat(" (blacklisted)");
        (
            Session { client: client_addr, dest: dest_addr, rule_idx, phase: Phase::Closed },
            Step { entry: LogEntry::warn(message), action: Action::Close },
        )
    } else {
        let message = tag.concat("New connection from ").concat(
            client_addr.text().as_str(),
        ).concat(" -> ").concat(dest_addr.text().as_str());
        (
            Session { client: client_addr, dest: dest_addr, rule_idx, phase: Phase::Connecting },
            Step { entry: LogEntry::info(message), action: Action::Connect(dest_addr) },
        )
    }
}

/// Whether `events` can follow each other from `session` on.
pub open spec fn can_happen(session: Session, events: Seq<Event>) -> bool
    decreases events.len(),
{
    events.len() == 0 || (session.expecting(events[0]) && can_happen(
        session.after(events[0]),
        events.drop_first(),
    ))
}

/// What is done on `events`, from `session` on.
pub open spec fn actions_on(session: Session, events: Seq<Event>) -> Seq<Action>
    decreases events.len(),
{
    if events.len() == 0 {
        Seq::empty()
    } else {
        seq![session.reaction(events[0]).1] + actions_on(
            session.after(events[0]),
            events.drop_first(),
        )
    }
}

/// A client that some line of the blacklist file names, by its address or by a
/// network, is turned away: its connection is closed at once, and no event follows
/// that could open it. Any other client is connected to the destination.
pub proof fn law_listed_clients_are_rejected(
    client: SocketAddrV4,
    dest: SocketAddrV4,
    lines: Seq<Seq<char>>,
    rule_idx: usize,
    events: Seq<Event>,
)
    ensures
        ({
            let listed = exists|i: int|
                0 <= i < lines.len() && line_denies(#[trigger] lines[i], client.ip);
            let (session, (entry, action)) = opening(client, dest, denied_by(lines), rule_idx);
            &&& listed ==> action == Action::Close && entry.0 == Level::Warn
            &&& listed && can_happen(session, events) ==> events.len() == 0
            &&& !listed ==> action == Action::Connect(dest) && entry.0 == Level::Info
        }),
{
    law_denied_by_some_line(lines, client.ip);
}

/// A client that is let in is connected to the destination of its rule once, and to
/// nothing else; bytes are relayed at most once, after that, and at most two events
/// later the connection is closed.
pub proof fn law_sessions_end(
    client: SocketAddrV4,
    dest: SocketAddrV4,
    denied: Denied,
    rule_idx: usize,
    events: Seq<Event>,
)
    requires
        !denied.denies(client.ip),
        can_happen(opening(client, dest, denied, rule_idx).0, events),
    ensures
        opening(client, dest, denied, rule_idx).1.1 == Action::Connect(dest),
        ({
            let session = opening(client, dest, denied, rule_idx).0;
            let actions = actions_on(session, events);
            &&& events.len() <= 2
            &&& actions.len() == events.len()
            &&& events.len() == 1 ==> actions[0] == Action::Relay || actions[0] == Action::Close
            &&& events.len() == 2 ==> actions[0] == Action::Relay && actions[1] == Action::Close
        }),
{
    let session = opening(client, dest, denied, rule_idx).0;
    reveal_with_fuel(can_happen, 4);
    reveal_with_fuel(actions_on, 4);
    if events.len() > 0 {
        let second = session.after(events[0]);
        let rest = events.drop_first();
        if rest.len() > 0 {
            let third = second.after(rest[0]);
            assert(second.phase == Phase::Relaying);
            assert(third.phase == Phase::Closed);
            if rest.drop_first().len() > 0 {
                assert(third.expecting(rest.drop_first()[0]));
            }
        }
    }
}

/// Messages about a rule begin with its number, counted from zero, in square brackets.
pub proof fn law_rule_tags(rule_idx: usize)
    ensures
        rule_tag(rule_idx) == "[Rule #"@ + decimal(rule_idx as nat) + "] "@,
{
}

/// A client on the blacklist is turned away under every rule, and any other is let in
/// under every rule; the session keeps the client, the destination and the rule.
pub proof fn law_admission(
    client: SocketAddrV4,
    dest: SocketAddrV4,
    denied: Denied,
    rule_idx: usize,
)
    ensures
        ({
            let (session, (entry, action)) = opening(client, dest, denied, rule_idx);
            &&& session.client == client && session.dest == dest && session.rule_idx == rule_idx
            &&& denied.denies(client.ip) ==> {
                &&& action == Action::Close
                &&& session.phase == Phase::Closed
                &&& entry == (
                    Level::Warn,
                    "[Rule #"@ + decimal(rule_idx as nat) + "] "@ + "Connection REJECTED from "@
                        + socket_text(client) + " (blacklisted)"@,
                )
            }
            &&& !denied.denies(client.ip) ==> {
                &&& action == Action::Connect(dest)
                &&& session.phase == Phase::Connecting
                &&& entry == (
                    Level::Info,
                    "[Rule #"@ + decimal(rule_idx as nat) + "] "@ + "New connection from "@
                        + socket_text(client) + " -> "@ + socket_text(dest),
                )
            }
        }),
{
}

/// In every session: the outcome of connecting is what can come while it connects, the
/// outcome of relaying what can come while it relays, and nothing can come once it is
/// closed.
pub proof fn law_what_can_come(session: Session, e: String, n: u64, m: u64)
    ensures
        session.expecting(Event::Connected) <==> session.phase == Phase::Connecting,
        session.expecting(Event::ConnectFailed(e)) <==> session.phase == Phase::Connecting,
        session.expecting(Event::Relayed(n, m)) <==> session.phase == Phase::Relaying,
        session.expecting(Event::RelayFailed(e)) <==> session.phase == Phase::Relaying,
{
}

/// In every session, whatever its rule, client and destination: once the destination is
/// connected bytes are relayed.
pub proof fn law_connected_is_relayed(session: Session)
    ensures
        session.after(Event::Connected) == (Session { phase: Phase::Relaying, ..session }),
        session.reaction(Event::Connected) == (
            (
                Level::Info,
                "[Rule #"@ + decimal(session.rule_idx as nat) + "] "@ + "Connected to "@
                    + socket_text(session.dest) + ", starting relay"@,
            ),
            Action::Relay,
        ),
{
}

/// In every session: a destination that cannot be reached closes it, and the log says
/// why.
pub proof fn law_unreachable_is_closed(session: Session, e: String)
    ensures
        session.after(Event::ConnectFailed(e)) == (Session { phase: Phase::Closed, ..session }),
        session.reaction(Event::ConnectFailed(e)) == (
            (
                Level::Error,
                "[Rule #"@ + decimal(session.rule_idx as nat) + "] "@ + "Unable to connect to "@
                    + socket_text(session.dest) + ": "@ + e@,
            ),
            Action::Close,
        ),
{
}

/// In every session: when both sides are done it is closed, and the log says how much
/// went each way.
pub proof fn law_relayed_is_closed(session: Session, n: u64, m: u64)
    ensures
        session.after(Event::Relayed(n, m)) == (Session { phase: Phase::Closed, ..session }),
        session.reaction(Event::Relayed(n, m)) == (
            (
                Level::Info,
                "[Rule #"@ + decimal(session.rule_idx as nat) + "] "@ + "Connection closed: "@
                    + decimal(n as nat) + "B client->dest, "@ + decimal(m as nat)
                    + "B dest->client"@,
            ),
            Action::Close,
        ),
{
}

/// In every session: a relay that breaks off closes it, and the log says why.
pub proof fn law_broken_relay_is_closed(session: Session, e: String)
    ensures
        session.after(Event::RelayFailed(e)) == (Session { phase: Phase::Closed, ..session }),
        session.reaction(Event::RelayFailed(e)) == (
            (
                Level::Error,
                "[Rule #"@ + decimal(session.rule_idx as nat) + "] "@ + "Relay error: "@ + e@,
            ),
            Action::Close,
        ),
{
}

/// What can happen to a client that is let in: its destination is connected, bytes are
/// relayed until both sides are done or the relay breaks off, and the connection is
/// closed; or the destination cannot be reached, and it is closed at once.
pub proof fn law_courses_of_a_session(
    client: SocketAddrV4,
    dest: SocketAddrV4,
    denied: Denied,
    rule_idx: usize,
    e: String,
    n: u64,
    m: u64,
)
    requires
        !denied.denies(client.ip),
    ensures
        ({
            let session = opening(client, dest, denied, rule_idx).0;
            let done = seq![Event::Connected, Event::Relayed(n, m)];
            let broken = seq![Event::Connected, Event::RelayFailed(e)];
            let unreachable = seq![Event::ConnectFailed(e)];
            &&& can_happen(session, done)
            &&& actions_on(session, done) == seq![Action::Relay, Action::Close]
            &&& can_happen(session, broken)
            &&& actions_on(session, broken) == seq![Action::Relay, Action::Close]
            &&& can_happen(session, unreachable)
            &&& actions_on(session, unreachable) == seq![Action::Close]
        }),
{
    let session = opening(client, dest, denied, rule_idx).0;
    let done = seq![Event::Connected, Event::Relayed(n, m)];
    let broken = seq![Event::Connected, Event::RelayFailed(e)];
    let unreachable = seq![Event::ConnectFailed(e)];
    reveal_with_fuel(can_happen, 3);
    reveal_with_fuel(actions_on, 3);
    assert(done.drop_first()[0] == Event::Relayed(n, m));
    assert(broken.drop_first()[0] == Event::RelayFailed(e));
    assert(actions_on(session, done) =~= seq![Action::Relay, Action::Close]);
    assert(actions_on(session, broken) =~= seq![Action::Relay, Action::Close]);
    assert(actions_on(session, unreachable) =~= seq![Action::Close]);
}

/// A step is looked at by its log entry and its action.
pub proof fn law_step_view(step: Step)
    ensures
        step@ == ((step.entry.level, step.entry.message@), step.action),
{
}

} // verus!
