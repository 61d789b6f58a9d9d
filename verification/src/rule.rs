//! Forwarding rules: on which address to listen, and where to forward to.

use crate::addr::{
    ipv4_of, ipv4_text, law_ipv4_round_trip, law_port_round_trip, lemma_ipv4_text_lacks,
    lemma_joined_four, lemma_split_four, parse_port, port_error_text, port_of, socket_text, Ipv4Addr,
    PortError, SocketAddrV4,
};
use crate::text::{
    decimal, law_split_counts, law_split_joins_back, lemma_decimal_lacks, split, split_at_char,
    texts_view,
};
use vstd::prelude::*;

verus! {

/// A forwarding rule: connections to `listen` are forwarded to `dest`.
#[derive(Clone, Copy, Debug, PartialEq, Eq, Structural)]
pub struct Rule {
    pub listen: SocketAddrV4,
    pub dest: SocketAddrV4,
}

/// The rule that `s` writes, or what is wrong with it: an address to listen on, its
/// port, an address to forward to and its port, with colons between them. Of several
/// things that are wrong the first one counts.
pub open spec fn rule_of(s: Seq<char>) -> Result<Rule, Seq<char>> {
    let parts = split(s, ':');
    if parts.len() != 4 {
        Err("Invalid format. Expected 'IP:PORT:DEST_IP:DEST_PORT', got '"@ + s + "'"@)
    } else {
        match ipv4_of(parts[0]) {
            None => Err("Invalid listen IP: "@ + "invalid IPv4 address syntax"@),
            Some(listen_ip) => match port_of(parts[1]) {
                Err(e) => Err("Invalid listen port: "@ + port_error_text(e)),
                Ok(listen_port) => match ipv4_of(parts[2]) {
                    None => Err("Invalid destination IP: "@ + "invalid IPv4 address syntax"@),
                    Some(dest_ip) => match port_of(parts[3]) {
                        Err(e) => Err("Invalid destination port: "@ + port_error_text(e)),
                        Ok(dest_port) => Ok(
                            Rule {
                                listen: SocketAddrV4 { ip: listen_ip, port: listen_port },
                                dest: SocketAddrV4 { ip: dest_ip, port: dest_port },
                            },
                        ),
                    },
                },
            },
        }
    }
}

/// The rules that `texts` write, in order, or what is wrong with the first that
/// writes none.
pub open spec fn rules_of(texts: Seq<Seq<char>>) -> Result<Seq<Rule>, Seq<char>>
    decreases texts.len(),
{
    if texts.len() == 0 {
        Ok(Seq::empty())
    } else {
        match rules_of(texts.drop_last()) {
            Err(e) => Err(e),
            Ok(before) => match rule_of(texts.last()) {
                Err(e) => Err(e),
                Ok(rule) => Ok(before.push(rule)),
            },
        }
    }
}

/// The text of a rule.
pub open spec fn rule_text(rule: Rule) -> Seq<char> {
    socket_text(rule.listen) + ":"@ + socket_text(rule.dest)
}

/// Reads a rule from its text.
pub fn parse_rule(rule_str: &str) -> (res: Result<Rule, String>)
    ensures
        res is Ok <==> rule_of(rule_str@) is Ok,
        res matches Ok(rule) ==> rule_of(rule_str@) == Ok::<Rule, Seq<char>>(rule),
        res matches Err(e) ==> rule_of(rule_str@) == Err::<Rule, Seq<char>>(e@),
{
    let parts = split_at_char(rule_str, ':');
    if parts.len() != 4 {
        return Err(
            "Invalid format. Expected 'IP:PORT:DEST_IP:DEST_PORT', got '".to_owned().concat(
                rule_str,
            ).concat("'"),
        );
    }
    let listen_ip = match Ipv4Addr::parse(parts[0]) {
        Some(ip) => ip,
        None => {
            return Err("Invalid listen IP: ".to_owned().concat("invalid IPv4 address syntax"));
        },
    };
    let listen_port: u16 = match parse_port(parts[1]) {
        Ok(port) => port,
        Err(e) => {
            return Err("Invalid listen port: ".to_owned().concat(e.message()));
        },
    };
    let dest_ip = match Ipv4Addr::parse(parts[2]) {
        Some(ip) => ip,
        None => {
            return Err("Invalid destination IP: ".to_owned().concat("invalid IPv4 address syntax"));
        },
    };
    let dest_port: u16 = match parse_port(parts[3]) {
        Ok(port) => port,
        Err(e) => {
            return Err("Invalid destination port: ".to_owned().concat(e.message()));
        },
    };
    Ok(
        Rule {
            listen: SocketAddrV4 { ip: listen_ip, port: listen_port },
            dest: SocketAddrV4 { ip: dest_ip, port: dest_port },
        },
    )
}

/// Reads all rules from their texts. The first text that writes no rule is an error,
/// and so is having no texts.
pub fn parse_rules(texts: &Vec<String>) -> (res: Result<Vec<Rule>, String>)
    ensures
        res is Ok <==> texts@.len() > 0 && rules_of(texts_view(texts@)) is Ok,
        res matches Ok(rules) ==> rules_of(texts_view(texts@)) == Ok::<Seq<Rule>, Seq<char>>(
            rules@,
        ),
        res matches Err(e) ==> if texts@.len() == 0 {
            e@ == "No valid rules"@
        } else {
            rules_of(texts_view(texts@)) == Err::<Seq<Rule>, Seq<char>>(e@)
        },
{
    let ghost all = texts_view(texts@);
    let mut rules: Vec<Rule> = Vec::new();
    let mut i: usize = 0;
    while i < texts.len()
        invariant
            all == texts_view(texts@),
            i <= texts@.len(),
            rules@.len() == i,
            rules_of(all.take(i as int)) == Ok::<Seq<Rule>, Seq<char>>(rules@),
        decreases texts@.len() - i,
    {
        proof {
            let longer = all.take(i as int + 1);
            assert(longer.drop_last() =~= all.take(i as int));
            assert(longer.last() == texts@[i as int]@);
        }
        match parse_rule(texts[i].as_str()) {
            Ok(rule) => {
                rules.push(rule);
            },
            Err(e) => {
                proof {
                    lemma_first_error_stands(all, i as int + 1);
                }
                return Err(e);
            },
        }
        i += 1;
    }
    assert(all.take(i as int) =~= all);
    if rules.len() == 0 {
        return Err("No valid rules".to_owned());
    }
    Ok(rules)
}

proof fn lemma_first_error_stands(texts: Seq<Seq<char>>, n: int)
    requires
        0 <= n <= texts.len(),
        rules_of(texts.take(n)) is Err,
    ensures
        rules_of(texts) == rules_of(texts.take(n)),
    decreases texts.len(),
{
    if n == texts.len() {
        assert(texts.take(n) =~= texts);
    } else {
        assert(texts.drop_last().take(n) =~= texts.take(n));
        lemma_first_error_stands(texts.drop_last(), n);
    }
}

/// Reading a rule that was written gives it back.
pub proof fn law_rule_round_trip(rule: Rule)
    ensures
        rule_of(rule_text(rule)) == Ok::<Rule, Seq<char>>(rule),
{
    reveal_strlit(":");
    assert(":"@ =~= seq![':']);
    let a = ipv4_text(rule.listen.ip);
    let b = decimal(rule.listen.port as nat);
    let c = ipv4_text(rule.dest.ip);
    let d = decimal(rule.dest.port as nat);
    lemma_ipv4_text_lacks(rule.listen.ip, ':');
    lemma_ipv4_text_lacks(rule.dest.ip, ':');
    lemma_decimal_lacks(rule.listen.port as nat, ':');
    lemma_decimal_lacks(rule.dest.port as nat, ':');
    lemma_split_four(':', a, b, c, d);
    assert(rule_text(rule) =~= a + seq![':'] + b + seq![':'] + c + seq![':'] + d);
    law_ipv4_round_trip(rule.listen.ip);
    law_ipv4_round_trip(rule.dest.ip);
    law_port_round_trip(rule.listen.port);
    law_port_round_trip(rule.dest.port);
}

/// Either every text is a rule, and the rules are those of the texts in their order,
/// or none is taken.
pub proof fn law_all_rules_or_none(texts: Seq<Seq<char>>)
    ensures
        rules_of(texts) is Ok <==> forall|i: int|
            0 <= i < texts.len() ==> rule_of(#[trigger] texts[i]) is Ok,
        rules_of(texts) matches Ok(rules) ==> {
            &&& rules.len() == texts.len()
            &&& forall|i: int|
                0 <= i < texts.len() ==> rule_of(#[trigger] texts[i]) == Ok::<Rule, Seq<char>>(
                    rules[i],
                )
        },
    decreases texts.len(),
{
    if texts.len() > 0 {
        let shorter = texts.drop_last();
        law_all_rules_or_none(shorter);
        assert(texts[texts.len() - 1] == texts.last());
        if rules_of(shorter) is Ok {
            assert forall|i: int| 0 <= i < shorter.len() implies rule_of(#[trigger] texts[i]) is Ok by {
                assert(rule_of(shorter[i]) is Ok);
            }
            if let Ok(rules) = rules_of(texts) {
                assert forall|i: int| 0 <= i < texts.len() implies rule_of(#[trigger] texts[i])
                    == Ok::<Rule, Seq<char>>(rules[i]) by {
                    if i < shorter.len() {
                        assert(rule_of(shorter[i]) is Ok);
                    }
                }
            }
        } else {
            let k = choose|k: int| 0 <= k < shorter.len() && !(rule_of(#[trigger] shorter[k]) is Ok);
            assert(!(rule_of(texts[k]) is Ok));
        }
    }
}

/// A rule has exactly three colons; a text with fewer or more is refused, and the
/// message shows it whole.
pub proof fn law_rules_have_three_colons(s: Seq<char>)
    requires
        s.to_multiset().count(':') != 3,
    ensures
        rule_of(s) == Err::<Rule, Seq<char>>(
            "Invalid format. Expected 'IP:PORT:DEST_IP:DEST_PORT', got '"@ + s + "'"@,
        ),
{
    law_split_counts(s, ':');
}

/// What four parts with colons between them mean: a rule exactly when the first and
/// third are addresses and the second and fourth ports, made of these; and else the
/// message about the first part that is wrong.
pub proof fn law_rule_parts(a: Seq<char>, b: Seq<char>, c: Seq<char>, d: Seq<char>)
    requires
        !a.contains(':'),
        !b.contains(':'),
        !c.contains(':'),
        !d.contains(':'),
    ensures
        ({
            let res = rule_of(a + seq![':'] + b + seq![':'] + c + seq![':'] + d);
            let listen_ok = ipv4_of(a) is Some && port_of(b) is Ok;
            &&& res is Ok <==> listen_ok && ipv4_of(c) is Some && port_of(d) is Ok
            &&& res matches Ok(rule) ==> {
                &&& ipv4_of(a) == Some(rule.listen.ip)
                &&& port_of(b) == Ok::<u16, PortError>(rule.listen.port)
                &&& ipv4_of(c) == Some(rule.dest.ip)
                &&& port_of(d) == Ok::<u16, PortError>(rule.dest.port)
            }
            &&& ipv4_of(a) is None ==> res == Err::<Rule, Seq<char>>(
                "Invalid listen IP: "@ + "invalid IPv4 address syntax"@,
            )
            &&& ipv4_of(a) is Some ==> (port_of(b) matches Err(e) ==> res == Err::<Rule, Seq<char>>(
                "Invalid listen port: "@ + port_error_text(e),
            ))
            &&& listen_ok && ipv4_of(c) is None ==> res == Err::<Rule, Seq<char>>(
                "Invalid destination IP: "@ + "invalid IPv4 address syntax"@,
            )
            &&& listen_ok && ipv4_of(c) is Some ==> (port_of(d) matches Err(e) ==> res == Err::<
                Rule,
                Seq<char>,
            >("Invalid destination port: "@ + port_error_text(e)))
        }),
{
    lemma_split_four(':', a, b, c, d);
}

/// What is read as a rule is four parts with colons between them, and nothing else.
pub proof fn law_rule_is_its_parts(s: Seq<char>)
    ensures
        rule_of(s) is Ok ==> exists|a: Seq<char>, b: Seq<char>, c: Seq<char>, d: Seq<char>|
            s == #[trigger] (a + seq![':'] + b + seq![':'] + c + seq![':'] + d) && !a.contains(':')
                && !b.contains(':') && !c.contains(':') && !d.contains(':'),
{
    if rule_of(s) is Ok {
        let p = split(s, ':');
        law_split_joins_back(s, ':');
        lemma_joined_four(p, ':');
        assert(!p[0].contains(':') && !p[1].contains(':') && !p[2].contains(':') && !p[3].contains(
            ':',
        ));
        assert(s == p[0] + seq![':'] + p[1] + seq![':'] + p[2] + seq![':'] + p[3]);
    }
}

/// What is wrong with a list of rules is what is wrong with the first that is none.
pub proof fn law_first_wrong_rule(texts: Seq<Seq<char>>, i: int)
    requires
        0 <= i < texts.len(),
        forall|j: int| 0 <= j < i ==> rule_of(#[trigger] texts[j]) is Ok,
        rule_of(texts[i]) is Err,
    ensures
        rules_of(texts) == Err::<Seq<Rule>, Seq<char>>(rule_of(texts[i])->Err_0),
{
    let before = texts.take(i);
    law_all_rules_or_none(before);
    assert forall|j: int| 0 <= j < before.len() implies rule_of(#[trigger] before[j]) is Ok by {
        assert(rule_of(texts[j]) is Ok);
    }
    let upto = texts.take(i + 1);
    assert(upto.drop_last() =~= before);
    assert(upto.last() == texts[i]);
    lemma_first_error_stands(texts, i + 1);
}

} // verus!
