//! The blacklist: which clients are turned away, and how the list is read.

use crate::addr::{
    ipv4_of, ipv4_text, law_ipv4_round_trip, law_ipv4_text_unique, lemma_ipv4_text_lacks,
    lemma_ipv4_text_shape, Ipv4Addr,
};
use crate::log::{entries_view, Level, LogEntry};
use crate::net::{covers, law_net_only_texts, law_net_round_trip, net_of, net_text, Ipv4Net};
use crate::text::{
    contains_char, decimal, is_digit, lemma_decimal, lemma_split_first, lemma_trim_ends_commute,
    lemma_trimmed_start_skips, split, starts_with_char, trim, trimmed, whitespace,
};
use std::collections::HashSet;
use vstd::prelude::*;

verus! {

broadcast use vstd::std_specs::hash::group_hash_axioms;

/// What one line of a blacklist file means.
pub enum LineMeaning {
    /// A blank line or a comment.
    Nothing,
    /// A single address.
    Address(Ipv4Addr),
    /// A network: its address and its prefix length.
    Network(u32, u8),
    /// A line with a slash that is no network.
    BadNetwork,
    /// A line without a slash that is no address.
    BadAddress,
}

/// The meaning of a line. The whitespace around it does not count; a line that then
/// begins with `#` is a comment, one with a slash is read as a network, and any
/// other as an address.
pub open spec fn line_meaning(line: Seq<char>) -> LineMeaning {
    let s = trimmed(line);
    if s.len() == 0 || s[0] == '#' {
        LineMeaning::Nothing
    } else if s.contains('/') {
        match net_of(s) {
            Some((addr, prefix_len)) => LineMeaning::Network(addr, prefix_len),
            None => LineMeaning::BadNetwork,
        }
    } else {
        match ipv4_of(s) {
            Some(addr) => LineMeaning::Address(addr),
            None => LineMeaning::BadAddress,
        }
    }
}

/// The log entry for a line, if it makes one.
pub open spec fn line_entry(line: Seq<char>) -> Option<(Level, Seq<char>)> {
    match line_meaning(line) {
        LineMeaning::Nothing => None,
        LineMeaning::Address(addr) => Some(
            (Level::Info, "Blacklist IP added: "@ + ipv4_text(addr)),
        ),
        LineMeaning::Network(addr, prefix_len) => Some(
            (
                Level::Info,
                "Blacklist CIDR added: "@ + net_text(Ipv4Addr { bits: addr }, prefix_len),
            ),
        ),
        LineMeaning::BadNetwork => Some(
            (Level::Warn, "Line ignored (invalid CIDR): "@ + trimmed(line)),
        ),
        LineMeaning::BadAddress => Some(
            (Level::Warn, "Line ignored (invalid IP): "@ + trimmed(line)),
        ),
    }
}

/// Whether a line puts `ip` on the blacklist.
pub open spec fn line_denies(line: Seq<char>, ip: Ipv4Addr) -> bool {
    match line_meaning(line) {
        LineMeaning::Address(addr) => addr == ip,
        LineMeaning::Network(addr, prefix_len) => covers(addr, prefix_len, ip.bits),
        _ => false,
    }
}

/// What a blacklist holds: single addresses, and networks, each with its address and
/// its prefix length, in the order in which they were added.
#[verifier::ext_equal]
pub struct Denied {
    pub ips: Set<u32>,
    pub nets: Seq<(u32, u8)>,
}

impl Denied {
    /// Nothing.
    pub open spec fn empty() -> Denied {
        Denied { ips: Set::empty(), nets: Seq::empty() }
    }

    /// Whether `ip` is among the addresses or in one of the networks.
    pub open spec fn denies(self, ip: Ipv4Addr) -> bool {
        ||| self.ips.contains(ip.bits)
        ||| exists|i: int|
            0 <= i < self.nets.len() && covers((#[trigger] self.nets[i]).0, self.nets[i].1, ip.bits)
    }

    /// This and what a line adds.
    pub open spec fn with_line(self, line: Seq<char>) -> Denied {
        match line_meaning(line) {
            LineMeaning::Address(addr) => Denied { ips: self.ips.insert(addr.bits), ..self },
            LineMeaning::Network(addr, prefix_len) => Denied {
                nets: self.nets.push((addr, prefix_len)),
                ..self
            },
            _ => self,
        }
    }
}

/// What the lines of a file put on the blacklist.
pub open spec fn denied_by(lines: Seq<Seq<char>>) -> Denied
    decreases lines.len(),
{
    if lines.len() == 0 {
        Denied::empty()
    } else {
        denied_by(lines.drop_last()).with_line(lines.last())
    }
}

/// The log entries for the lines of a file, in order.
pub open spec fn entries_of(lines: Seq<Seq<char>>) -> Seq<(Level, Seq<char>)>
    decreases lines.len(),
{
    if lines.len() == 0 {
        Seq::empty()
    } else {
        match line_entry(lines.last()) {
            Some(entry) => entries_of(lines.drop_last()).push(entry),
            None => entries_of(lines.drop_last()),
        }
    }
}

/// The error of the first read that failed, if one did.
pub open spec fn first_failure(reads: Seq<Result<String, String>>) -> Option<Seq<char>>
    decreases reads.len(),
{
    if reads.len() == 0 {
        None
    } else {
        match first_failure(reads.drop_last()) {
            Some(e) => Some(e),
            None => match reads.last() {
                Ok(_) => None,
                Err(e) => Some(e@),
            },
        }
    }
}

/// The lines that were read before the first read that failed.
pub open spec fn lines_read(reads: Seq<Result<String, String>>) -> Seq<Seq<char>>
    decreases reads.len(),
{
    if reads.len() == 0 {
        Seq::empty()
    } else {
        let before = lines_read(reads.drop_last());
        match (first_failure(reads.drop_last()), reads.last()) {
            (None, Ok(line)) => before.push(line@),
            _ => before,
        }
    }
}

/// What came of reading a blacklist file: the blacklist, or the error that ended the
/// reading; and the log entries for the lines that were read.
pub struct Loaded {
    pub outcome: Result<Blacklist, String>,
    pub entries: Vec<LogEntry>,
}

/// The clients that are turned away.
pub struct Blacklist {
    ips: HashSet<u32>,
    nets: Vec<Ipv4Net>,
}

impl View for Blacklist {
    type V = Denied;

    closed spec fn view(&self) -> Denied {
        Denied {
            ips: self.ips@,
            nets: Seq::new(
                self.nets@.len(),
                |i: int| (self.nets@[i].spec_addr().bits, self.nets@[i].spec_prefix_len()),
            ),
        }
    }
}

impl Blacklist {
    /// An empty blacklist.
    pub fn new() -> (res: Blacklist)
        ensures
            res@ == Denied::empty(),
    {
        let res = Blacklist { ips: HashSet::new(), nets: Vec::new() };
        assert(res@ =~= Denied::empty());
        res
    }

    /// Whether `ip` is on the blacklist.
    pub fn contains(&self, ip: Ipv4Addr) -> (res: bool)
        ensures
            res == self@.denies(ip),
    {
        if self.ips.contains(&ip.bits) {
            return true;
        }
        let mut i: usize = 0;
        while i < self.nets.len()
            invariant
                i <= self.nets@.len(),
                !self.ips@.contains(ip.bits),
                forall|k: int| 0 <= k < i ==> !(#[trigger] self.nets@[k]).holds(ip),
            decreases self.nets@.len() - i,
        {
            if self.nets[i].contains(ip) {
                assert(covers(self@.nets[i as int].0, self@.nets[i as int].1, ip.bits));
                return true;
            }
            i += 1;
        }
        assert forall|k: int| 0 <= k < self@.nets.len() implies !covers(
            (#[trigger] self@.nets[k]).0,
            self@.nets[k].1,
            ip.bits,
        ) by {
            assert(!self.nets@[k].holds(ip));
        }
        false
    }

    /// Makes a blacklist of what was read from a file, line by line. A read that
    /// failed ends the reading and is the outcome; so does a file that could not be
    /// opened, as a failed read in first place.
    pub fn load_from_file(reads: &Vec<Result<String, String>>) -> (res: Loaded)
        ensures
            res.outcome is Ok <==> first_failure(reads@) is None,
            res.outcome matches Ok(blacklist) ==> blacklist@ == denied_by(lines_read(reads@)),
            res.outcome matches Err(e) ==> first_failure(reads@) == Some(e@),
            entries_view(res.entries@) == entries_of(lines_read(reads@)),
    {
        let mut blacklist = Blacklist::new();
        let mut entries: Vec<LogEntry> = Vec::new();
        let mut i: usize = 0;
        assert(reads@.take(0) =~= Seq::empty());
        assert(entries_view(entries@) =~= Seq::empty());
        while i < reads.len()
            invariant
                i <= reads@.len(),
                first_failure(reads@.take(i as int)) is None,
                blacklist@ == denied_by(lines_read(reads@.take(i as int))),
                entries_view(entries@) == entries_of(lines_read(reads@.take(i as int))),
            decreases reads@.len() - i,
        {
            proof {
                let longer = reads@.take(i as int + 1);
                assert(longer.drop_last() =~= reads@.take(i as int));
                assert(longer.last() == reads@[i as int]);
            }
            match &reads[i] {
                Err(e) => {
                    proof {
                        lemma_failure_ends_reading(reads@, i as int + 1);
                    }
                    return Loaded { outcome: Err(e.clone()), entries };
                },
                Ok(line) => {
                    let ghost before = lines_read(reads@.take(i as int));
                    let ghost entries_before = entries@;
                    let entry = blacklist.add_line(line.as_str());
                    assert(before.push(line@).drop_last() =~= before);
                    if let Some(entry) = entry {
                        entries.push(entry);
                        assert(entries_view(entries@) =~= entries_view(entries_before).push(
                            entry@,
                        ));
                    }
                },
            }
            i += 1;
        }
        assert(reads@.take(i as int) =~= reads@);
        Loaded { outcome: Ok(blacklist), entries }
    }

    /// Adds what one line of a blacklist file means, and gives the log entry for it,
    /// if there is one.
    pub fn add_line(&mut self, line: &str) -> (res: Option<LogEntry>)
        ensures
            final(self)@ == old(self)@.with_line(line@),
            res is Some <==> line_entry(line@) is Some,
            res matches Some(entry) ==> line_entry(line@) == Some(entry@),
    {
        let s = trim(line);
        if s.is_empty() || starts_with_char(s, '#') {
            return None;
        }
        if contains_char(s, '/') {
            match Ipv4Net::parse(s) {
                Some(net) => {
                    let text = net.text();
                    self.nets.push(net);
                    assert(self@ =~= old(self)@.with_line(line@));
                    Some(
                        LogEntry::info("Blacklist CIDR added: ".to_owned().concat(text.as_str())),
                    )
                },
                None => Some(
                    LogEntry::warn("Line ignored (invalid CIDR): ".to_owned().concat(s)),
                ),
            }
        } else {
            match Ipv4Addr::parse(s) {
                Some(ip) => {
                    self.ips.insert(ip.bits);
                    assert(self@ =~= old(self)@.with_line(line@));
                    Some(
                        LogEntry::info(
                            "Blacklist IP added: ".to_owned().concat(ip.text().as_str()),
                        ),
                    )
                },
                None => Some(LogEntry::warn("Line ignored (invalid IP): ".to_owned().concat(s))),
            }
        }
    }
}

impl Clone for Blacklist {
    fn clone(&self) -> (res: Blacklist)
        ensures
            res@ == self@,
    {
        let mut ips: HashSet<u32> = HashSet::new();
        for ip in it: self.ips.iter()
            invariant
                it.seq().unref().to_set() == self.ips@,
                ips@ =~= it.seq().unref().take(it.index() as int).to_set(),
                it.index() == it.seq().len() ==> ips@ =~= self.ips@,
        {
            ips.insert(*ip);
            proof {
                let keys = it.seq().unref();
                let i = it.index() as int;
                assert(keys.take(i + 1) =~= keys.take(i).push(*ip));
                assert(keys.take(keys.len() as int) =~= keys);
                assert forall|k: u32| keys.take(i + 1).contains(k) <==> keys.take(i).contains(k) || k
                    == *ip by {
                    if keys.take(i).contains(k) {
                        let j = choose|j: int| 0 <= j < i && keys.take(i)[j] == k;
                        assert(keys.take(i + 1)[j] == k);
                    }
                    if k == *ip {
                        assert(keys.take(i + 1)[i] == k);
                    }
                }
            }
        }
        let mut nets: Vec<Ipv4Net> = Vec::new();
        let mut i: usize = 0;
        while i < self.nets.len()
            invariant
                i <= self.nets@.len(),
                nets@ == self.nets@.take(i as int),
            decreases self.nets@.len() - i,
        {
            nets.push(self.nets[i]);
            i += 1;
        }
        let res = Blacklist { ips, nets };
        assert(nets@ =~= self.nets@);
        assert(res@ =~= self@);
        res
    }
}

proof fn lemma_failure_ends_reading(reads: Seq<Result<String, String>>, n: int)
    requires
        0 <= n <= reads.len(),
        first_failure(reads.take(n)) is Some,
    ensures
        first_failure(reads) == first_failure(reads.take(n)),
        lines_read(reads) == lines_read(reads.take(n)),
    decreases reads.len(),
{
    if n == reads.len() {
        assert(reads.take(n) =~= reads);
    } else {
        assert(reads.drop_last().take(n) =~= reads.take(n));
        lemma_failure_ends_reading(reads.drop_last(), n);
    }
}

/// Reading stops at the first read that failed: its error is the outcome, and what
/// was read before it, and nothing after it, counts. Without a failure every line
/// counts.
pub proof fn law_reading_stops_at_first_failure(reads: Seq<Result<String, String>>, n: int)
    requires
        0 <= n <= reads.len(),
        forall|i: int| 0 <= i < n ==> (#[trigger] reads[i]) is Ok,
        n < reads.len() ==> reads[n] is Err,
    ensures
        n == reads.len() ==> first_failure(reads) is None,
        n < reads.len() ==> first_failure(reads) == Some(reads[n]->Err_0@),
        lines_read(reads).len() == n,
        forall|i: int| 0 <= i < n ==> #[trigger] lines_read(reads)[i] == reads[i]->Ok_0@,
    decreases reads.len(),
{
    if reads.len() > 0 {
        let shorter = reads.drop_last();
        if n == reads.len() {
            assert(reads[n - 1] is Ok);
            law_reading_stops_at_first_failure(shorter, n - 1);
        } else if n == reads.len() - 1 {
            law_reading_stops_at_first_failure(shorter, n);
        } else {
            assert(shorter[n] == reads[n]);
            law_reading_stops_at_first_failure(shorter, n);
        }
    }
}

/// Lines are logged in their order, each on its own: the entries for two files read
/// one after the other are those of the first and then those of the second.
pub proof fn law_lines_are_logged_in_order(a: Seq<Seq<char>>, b: Seq<Seq<char>>)
    ensures
        entries_of(a + b) == entries_of(a) + entries_of(b),
    decreases b.len(),
{
    if b.len() == 0 {
        assert(a + b =~= a);
        assert(entries_of(a) + entries_of(b) =~= entries_of(a));
    } else {
        assert((a + b).drop_last() =~= a + b.drop_last());
        assert((a + b).last() == b.last());
        law_lines_are_logged_in_order(a, b.drop_last());
        assert(entries_of(a + b) =~= entries_of(a) + entries_of(b));
    }
}

/// A client is on the blacklist exactly when some line of the file names its address
/// or a network that holds it.
pub proof fn law_denied_by_some_line(lines: Seq<Seq<char>>, ip: Ipv4Addr)
    ensures
        denied_by(lines).denies(ip) <==> exists|i: int|
            0 <= i < lines.len() && line_denies(#[trigger] lines[i], ip),
    decreases lines.len(),
{
    if lines.len() > 0 {
        let shorter = lines.drop_last();
        let before = denied_by(shorter);
        let after = denied_by(lines);
        law_denied_by_some_line(shorter, ip);
        lemma_with_line_denies(before, lines.last(), ip);
        if before.denies(ip) {
            let k = choose|k: int| 0 <= k < shorter.len() && line_denies(#[trigger] shorter[k], ip);
            assert(line_denies(lines[k], ip));
        } else if line_denies(lines.last(), ip) {
            assert(line_denies(lines[lines.len() - 1], ip));
        } else {
            assert forall|i: int| 0 <= i < lines.len() implies !line_denies(
                #[trigger] lines[i],
                ip,
            ) by {
                if i < shorter.len() {
                    assert(!line_denies(shorter[i], ip));
                }
            }
        }
    }
}

proof fn lemma_with_line_denies(denied: Denied, line: Seq<char>, ip: Ipv4Addr)
    ensures
        denied.with_line(line).denies(ip) <==> denied.denies(ip) || line_denies(line, ip),
{
    let after = denied.with_line(line);
    match line_meaning(line) {
        LineMeaning::Network(addr, prefix_len) => {
            let n = denied.nets.len() as int;
            assert(after.nets[n] == (addr, prefix_len));
            if denied.denies(ip) && !denied.ips.contains(ip.bits) {
                let k = choose|k: int|
                    0 <= k < denied.nets.len() && covers(
                        (#[trigger] denied.nets[k]).0,
                        denied.nets[k].1,
                        ip.bits,
                    );
                assert(after.nets[k] == denied.nets[k]);
            }
            if after.denies(ip) && !after.ips.contains(ip.bits) {
                let k = choose|k: int|
                    0 <= k < after.nets.len() && covers(
                        (#[trigger] after.nets[k]).0,
                        after.nets[k].1,
                        ip.bits,
                    );
                if k < n {
                    assert(denied.nets[k] == after.nets[k]);
                }
            }
        },
        LineMeaning::Address(addr) => {
            assert(addr == ip <==> addr.bits == ip.bits);
            assert(after.nets == denied.nets);
        },
        _ => {},
    }
}

/// The order of the lines and lines that occur more than once make no difference: two
/// files with the same lines turn the same clients away.
pub proof fn law_line_order_is_immaterial(a: Seq<Seq<char>>, b: Seq<Seq<char>>, ip: Ipv4Addr)
    requires
        a.to_set() == b.to_set(),
    ensures
        denied_by(a).denies(ip) == denied_by(b).denies(ip),
{
    law_denied_by_some_line(a, ip);
    law_denied_by_some_line(b, ip);
    if denied_by(a).denies(ip) {
        let k = choose|k: int| 0 <= k < a.len() && line_denies(#[trigger] a[k], ip);
        assert(a.to_set().contains(a[k]));
        assert(b.contains(a[k]));
    }
    if denied_by(b).denies(ip) {
        let k = choose|k: int| 0 <= k < b.len() && line_denies(#[trigger] b[k], ip);
        assert(b.to_set().contains(b[k]));
        assert(a.contains(b[k]));
    }
}

/// Further lines turn further clients away, and let in none that was turned away.
pub proof fn law_lines_only_add(lines: Seq<Seq<char>>, more: Seq<Seq<char>>, ip: Ipv4Addr)
    requires
        denied_by(lines).denies(ip),
    ensures
        denied_by(lines + more).denies(ip),
{
    law_denied_by_some_line(lines, ip);
    law_denied_by_some_line(lines + more, ip);
    let k = choose|k: int| 0 <= k < lines.len() && line_denies(#[trigger] lines[k], ip);
    assert((lines + more)[k] == lines[k]);
}

/// A blank line, a comment and a line that cannot be read change nothing; of these
/// the last alone is logged.
pub proof fn law_other_lines_are_ignored(denied: Denied, line: Seq<char>)
    requires
        !(line_meaning(line) is Address),
        !(line_meaning(line) is Network),
    ensures
        denied.with_line(line) == denied,
        line_entry(line) is None <==> trimmed(line).len() == 0 || trimmed(line)[0] == '#',
        line_entry(line) matches Some(entry) ==> entry.0 == Level::Warn,
{
}

proof fn lemma_trimmed_visible(s: Seq<char>)
    requires
        s.len() > 0,
        !whitespace(s[0]),
        !whitespace(s.last()),
    ensures
        trimmed(s) == s,
{
}

/// A line with the text of an address turns that client away and no other.
pub proof fn law_address_line(a: Ipv4Addr, ip: Ipv4Addr)
    ensures
        line_meaning(ipv4_text(a)) == LineMeaning::Address(a),
        line_denies(ipv4_text(a), ip) <==> a == ip,
{
    lemma_ipv4_text_shape(a);
    lemma_ipv4_text_lacks(a, '/');
    lemma_trimmed_visible(ipv4_text(a));
    law_ipv4_round_trip(a);
}

/// A line with the text of a network turns away the clients in it and no other.
pub proof fn law_network_line(a: Ipv4Addr, prefix_len: u8, ip: Ipv4Addr)
    requires
        prefix_len <= 32,
    ensures
        line_meaning(net_text(a, prefix_len)) == LineMeaning::Network(a.bits, prefix_len),
        line_denies(net_text(a, prefix_len), ip) <==> covers(a.bits, prefix_len, ip.bits),
{
    let s = net_text(a, prefix_len);
    let tail = decimal(prefix_len as nat);
    lemma_ipv4_text_shape(a);
    lemma_decimal(prefix_len as nat);
    reveal_strlit("/");
    assert("/"@ =~= seq!['/']);
    assert(s[ipv4_text(a).len() as int] == '/');
    assert(s[0] == ipv4_text(a)[0]);
    assert(s.last() == tail[tail.len() - 1]);
    assert(is_digit(tail[tail.len() - 1]));
    lemma_trimmed_visible(s);
    law_net_round_trip(a, prefix_len);
}

/// The whitespace around a line makes no difference.
pub proof fn law_whitespace_around_line(before: Seq<char>, line: Seq<char>, after: Seq<char>)
    requires
        forall|i: int| 0 <= i < before.len() ==> whitespace(#[trigger] before[i]),
        forall|i: int| 0 <= i < after.len() ==> whitespace(#[trigger] after[i]),
    ensures
        trimmed(before + line + after) == trimmed(line),
        line_meaning(before + line + after) == line_meaning(line),
        line_entry(before + line + after) == line_entry(line),
{
    lemma_trimmed_start_skips(before, line + after);
    assert(before + line + after =~= before + (line + after));
    lemma_trim_ends_commute(line, after);
}

/// A blank line and a comment mean nothing, whatever the comment holds: nothing is
/// added, nobody is turned away, and nothing is logged.
pub proof fn law_blank_lines_and_comments(denied: Denied, line: Seq<char>, ip: Ipv4Addr)
    requires
        trimmed(line).len() == 0 || trimmed(line)[0] == '#',
    ensures
        denied.with_line(line) == denied,
        line_entry(line) is None,
        !line_denies(line, ip),
        denied.with_line(line).denies(ip) == denied.denies(ip),
{
}

/// A line that is an address, apart from the whitespace around it, adds that address:
/// it turns away that client and no other, and says so in the log.
pub proof fn law_lines_with_an_address(denied: Denied, line: Seq<char>, a: Ipv4Addr, ip: Ipv4Addr)
    requires
        ipv4_of(trimmed(line)) == Some(a),
    ensures
        denied.with_line(line) == (Denied { ips: denied.ips.insert(a.bits), nets: denied.nets }),
        denied.with_line(line).denies(ip) <==> denied.denies(ip) || ip == a,
        line_denies(line, ip) <==> ip == a,
        line_entry(line) == Some((Level::Info, "Blacklist IP added: "@ + ipv4_text(a))),
{
    law_ipv4_text_unique(trimmed(line));
    lemma_ipv4_text_shape(a);
    lemma_ipv4_text_lacks(a, '/');
    law_line_adds_what_it_denies(denied, line, ip);
}

/// A line that is a network, apart from the whitespace around it, adds that network: it
/// turns away the clients in it and no other, and says so in the log.
pub proof fn law_lines_with_a_network(
    denied: Denied,
    line: Seq<char>,
    addr: u32,
    prefix_len: u8,
    ip: Ipv4Addr,
)
    requires
        net_of(trimmed(line)) == Some((addr, prefix_len)),
    ensures
        denied.with_line(line) == (Denied {
            ips: denied.ips,
            nets: denied.nets.push((addr, prefix_len)),
        }),
        denied.with_line(line).denies(ip) <==> denied.denies(ip) || covers(
            addr,
            prefix_len,
            ip.bits,
        ),
        line_denies(line, ip) <==> covers(addr, prefix_len, ip.bits),
        line_entry(line) == Some(
            (
                Level::Info,
                "Blacklist CIDR added: "@ + net_text(Ipv4Addr { bits: addr }, prefix_len),
            ),
        ),
{
    lemma_net_line_shape(trimmed(line));
    law_line_adds_what_it_denies(denied, line, ip);
}

proof fn lemma_net_line_shape(s: Seq<char>)
    requires
        net_of(s) is Some,
    ensures
        s.len() > 0,
        s[0] != '#',
        s.contains('/'),
{
    law_net_only_texts(s);
    let head = split(s, '/')[0];
    if s[0] == '#' {
        lemma_split_first(s, '/');
        lemma_split_first(head, '.');
        assert(is_digit(split(head, '.')[0][0]));
    }
}

/// A line that is neither blank nor a comment, and no address and no network, adds
/// nothing, and the log says that it is ignored: as a network if it has a slash, and as
/// an address if not.
pub proof fn law_lines_that_cannot_be_read(denied: Denied, line: Seq<char>, ip: Ipv4Addr)
    requires
        trimmed(line).len() > 0,
        trimmed(line)[0] != '#',
        ipv4_of(trimmed(line)) is None,
        net_of(trimmed(line)) is None,
    ensures
        denied.with_line(line) == denied,
        !line_denies(line, ip),
        trimmed(line).contains('/') ==> line_entry(line) == Some(
            (Level::Warn, "Line ignored (invalid CIDR): "@ + trimmed(line)),
        ),
        !trimmed(line).contains('/') ==> line_entry(line) == Some(
            (Level::Warn, "Line ignored (invalid IP): "@ + trimmed(line)),
        ),
{
}

/// A further line turns away those that it denies, besides those that were turned away
/// without it; and nothing on the list turns nobody away.
pub proof fn law_line_adds_what_it_denies(denied: Denied, line: Seq<char>, ip: Ipv4Addr)
    ensures
        denied.with_line(line).denies(ip) <==> denied.denies(ip) || line_denies(line, ip),
        !Denied::empty().denies(ip),
{
    lemma_with_line_denies(denied, line, ip);
}

/// A client is on the blacklist exactly when its address is there, or a network that
/// holds it.
pub proof fn law_who_is_denied(denied: Denied, ip: Ipv4Addr)
    ensures
        denied.ips.contains(ip.bits) ==> denied.denies(ip),
        forall|i: int|
            0 <= i < denied.nets.len() && covers(
                (#[trigger] denied.nets[i]).0,
                denied.nets[i].1,
                ip.bits,
            ) ==> denied.denies(ip),
        !denied.ips.contains(ip.bits) && (forall|i: int|
            0 <= i < denied.nets.len() ==> !covers(
                (#[trigger] denied.nets[i]).0,
                denied.nets[i].1,
                ip.bits,
            )) ==> !denied.denies(ip),
{
}

/// Who is turned away after a file was read without failure: exactly the clients whose
/// address is a line of it, apart from the whitespace around it, or that are in a
/// network that is one.
pub proof fn law_loaded_file_denies(reads: Seq<Result<String, String>>, ip: Ipv4Addr)
    requires
        forall|i: int| 0 <= i < reads.len() ==> (#[trigger] reads[i]) is Ok,
    ensures
        first_failure(reads) is None,
        denied_by(lines_read(reads)).denies(ip) <==> exists|i: int|
            0 <= i < reads.len() && {
                let line = trimmed((#[trigger] reads[i])->Ok_0@);
                ||| ipv4_of(line) == Some(ip)
                ||| net_of(line) matches Some((addr, prefix_len)) && covers(
                    addr,
                    prefix_len,
                    ip.bits,
                )
            },
{
    let n = reads.len() as int;
    let lines = lines_read(reads);
    law_reading_stops_at_first_failure(reads, n);
    law_denied_by_some_line(lines, ip);
    assert forall|i: int| 0 <= i < n implies line_denies(#[trigger] lines[i], ip) == {
        let line = trimmed(reads[i]->Ok_0@);
        ||| ipv4_of(line) == Some(ip)
        ||| net_of(line) matches Some((addr, prefix_len)) && covers(addr, prefix_len, ip.bits)
    } by {
        lemma_line_denies(lines[i], ip);
    }
    if denied_by(lines).denies(ip) {
        let k = choose|k: int| 0 <= k < lines.len() && line_denies(#[trigger] lines[k], ip);
        assert(reads[k] is Ok);
    }
    if exists|i: int|
        0 <= i < reads.len() && {
            let line = trimmed((#[trigger] reads[i])->Ok_0@);
            ||| ipv4_of(line) == Some(ip)
            ||| net_of(line) matches Some((addr, prefix_len)) && covers(addr, prefix_len, ip.bits)
        } {
        let k = choose|i: int|
            0 <= i < reads.len() && {
                let line = trimmed((#[trigger] reads[i])->Ok_0@);
                ||| ipv4_of(line) == Some(ip)
                ||| net_of(line) matches Some((addr, prefix_len)) && covers(
                    addr,
                    prefix_len,
                    ip.bits,
                )
            };
        assert(line_denies(lines[k], ip));
    }
}

proof fn lemma_line_denies(line: Seq<char>, ip: Ipv4Addr)
    ensures
        line_denies(line, ip) <==> {
            ||| ipv4_of(trimmed(line)) == Some(ip)
            ||| net_of(trimmed(line)) matches Some((addr, prefix_len)) && covers(
                addr,
                prefix_len,
                ip.bits,
            )
        },
{
    let s = trimmed(line);
    if let Some(a) = ipv4_of(s) {
        law_lines_with_an_address(Denied::empty(), line, a, ip);
        lemma_ipv4_text_lacks(a, '/');
        law_ipv4_text_unique(s);
        law_net_only_texts(s);
    } else if let Some((addr, prefix_len)) = net_of(s) {
        law_lines_with_a_network(Denied::empty(), line, addr, prefix_len, ip);
    } else if s.len() > 0 && s[0] != '#' {
        law_lines_that_cannot_be_read(Denied::empty(), line, ip);
    } else {
        law_blank_lines_and_comments(Denied::empty(), line, ip);
    }
}

/// Each further line adds its entry to the log, if it has one, and leaves the entries
/// before it as they are.
pub proof fn law_a_line_logs_its_entry(lines: Seq<Seq<char>>, line: Seq<char>)
    ensures
        entries_of(Seq::<Seq<char>>::empty()) == Seq::<(Level, Seq<char>)>::empty(),
        line_entry(line) is None ==> entries_of(lines.push(line)) == entries_of(lines),
        line_entry(line) matches Some(entry) ==> entries_of(lines.push(line)) == entries_of(
            lines,
        ).push(entry),
{
    assert(lines.push(line).drop_last() =~= lines);
}

} // verus!
