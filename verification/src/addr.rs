//! IPv4 addresses, ports and socket addresses, and how they are read and written.

use crate::text::{
    all_digits, chars_of, decimal, decimal_text, digit_of, digit_value, is_digit, joined,
    law_split_joins_back, lemma_decimal, lemma_decimal_lacks, lemma_decimal_of_value,
    lemma_split_append, lemma_split_single, split, split_at_char, value,
};
use vstd::prelude::*;

verus! {

/// An IPv4 address, its four octets taken as one number with the first octet in
/// the highest place.
#[derive(Clone, Copy, Debug, PartialEq, Eq, Structural)]
pub struct Ipv4Addr {
    pub bits: u32,
}

/// An IPv4 address with a TCP port.
#[derive(Clone, Copy, Debug, PartialEq, Eq, Structural)]
pub struct SocketAddrV4 {
    pub ip: Ipv4Addr,
    pub port: u16,
}

/// Why a text is no port.
#[derive(Clone, Copy, Debug, PartialEq, Eq, Structural)]
pub enum PortError {
    Empty,
    InvalidDigit,
    TooLarge,
}

/// The number whose four octets are `a`, `b`, `c` and `d`, from the highest place
/// down.
pub open spec fn bits_of(a: nat, b: nat, c: nat, d: nat) -> nat {
    a * 0x100_0000 + b * 0x1_0000 + c * 0x100 + d
}

/// The number an octet in decimal stands for: one to three digits, no leading zero
/// but in zero itself, at most 255.
pub open spec fn octet(s: Seq<char>) -> Option<nat> {
    if 1 <= s.len() <= 3 && all_digits(s) && (s.len() == 1 || s[0] != '0') && value(s) <= 255 {
        Some(value(s))
    } else {
        None
    }
}

/// The address that `s` writes: exactly four octets with dots between them.
pub open spec fn ipv4_of(s: Seq<char>) -> Option<Ipv4Addr> {
    let p = split(s, '.');
    if p.len() == 4 {
        match (octet(p[0]), octet(p[1]), octet(p[2]), octet(p[3])) {
            (Some(a), Some(b), Some(c), Some(d)) => Some(
                Ipv4Addr { bits: bits_of(a, b, c, d) as u32 },
            ),
            _ => None,
        }
    } else {
        None
    }
}

/// The number that `s` stands for, read digit by digit from the left up to the
/// first character that is no digit or that takes the number past 65535.
pub open spec fn port_digits(s: Seq<char>) -> Result<u16, PortError>
    decreases s.len(),
{
    if s.len() == 0 {
        Ok(0)
    } else {
        match port_digits(s.drop_last()) {
            Ok(n) => if !is_digit(s.last()) {
                Err(PortError::InvalidDigit)
            } else if n * 10 + digit_value(s.last()) > u16::MAX {
                Err(PortError::TooLarge)
            } else {
                Ok((n * 10 + digit_value(s.last())) as u16)
            },
            Err(e) => Err(e),
        }
    }
}

/// The port that `s` writes: an optional plus sign and then digits.
pub open spec fn port_of(s: Seq<char>) -> Result<u16, PortError> {
    if s.len() == 0 {
        Err(PortError::Empty)
    } else if s[0] == '+' && s.len() > 1 {
        port_digits(s.drop_first())
    } else {
        port_digits(s)
    }
}

/// The message for a text that is no port.
pub open spec fn port_error_text(e: PortError) -> Seq<char> {
    match e {
        PortError::Empty => "cannot parse integer from empty string"@,
        PortError::InvalidDigit => "invalid digit found in string"@,
        PortError::TooLarge => "number too large to fit in target type"@,
    }
}

impl PortError {
    /// The message for this error.
    pub fn message(&self) -> (res: &'static str)
        ensures
            res@ == port_error_text(*self),
    {
        match self {
            PortError::Empty => "cannot parse integer from empty string",
            PortError::InvalidDigit => "invalid digit found in string",
            PortError::TooLarge => "number too large to fit in target type",
        }
    }
}

/// The text of an address: its four octets in decimal with dots between them.
pub open spec fn ipv4_text(a: Ipv4Addr) -> Seq<char> {
    decimal((a.bits / 0x100_0000) as nat) + "."@ + decimal((a.bits / 0x1_0000 % 0x100) as nat)
        + "."@ + decimal((a.bits / 0x100 % 0x100) as nat) + "."@ + decimal(
        (a.bits % 0x100) as nat,
    )
}

/// The text of a socket address: the address, a colon, and the port in decimal.
pub open spec fn socket_text(a: SocketAddrV4) -> Seq<char> {
    ipv4_text(a.ip) + ":"@ + decimal(a.port as nat)
}

/// Reads one octet.
fn parse_octet(s: &str) -> (res: Option<u32>)
    ensures
        res matches Some(n) ==> octet(s@) == Some(n as nat) && n <= 255,
        res is None ==> octet(s@) is None,
{
    let cs = chars_of(s);
    if cs.len() == 0 || cs.len() > 3 {
        return None;
    }
    let mut n: u32 = 0;
    let mut i: usize = 0;
    while i < cs.len()
        invariant
            cs@ == s@,
            cs@.len() <= 3,
            i <= cs@.len(),
            all_digits(s@.take(i as int)),
            n == value(s@.take(i as int)),
            i == 0 ==> n == 0,
            i == 1 ==> n < 10,
            i == 2 ==> n < 100,
            i == 3 ==> n < 1000,
        decreases cs@.len() - i,
    {
        match digit_of(cs[i]) {
            None => {
                return None;
            },
            Some(d) => {
                proof {
                    let longer = s@.take(i as int + 1);
                    assert(longer.drop_last() =~= s@.take(i as int));
                    assert(longer.last() == s@[i as int]);
                }
                n = n * 10 + d as u32;
            },
        }
        i += 1;
    }
    assert(s@.take(i as int) =~= s@);
    if n > 255 || (cs.len() > 1 && cs[0] == '0') {
        None
    } else {
        Some(n)
    }
}

impl Ipv4Addr {
    /// Reads an address from its text.
    pub fn parse(s: &str) -> (res: Option<Ipv4Addr>)
        ensures
            res == ipv4_of(s@),
    {
        let p = split_at_char(s, '.');
        if p.len() != 4 {
            return None;
        }
        let a = parse_octet(p[0]);
        let b = parse_octet(p[1]);
        let c = parse_octet(p[2]);
        let d = parse_octet(p[3]);
        match (a, b, c, d) {
            (Some(a), Some(b), Some(c), Some(d)) => Some(
                Ipv4Addr { bits: a * 0x100_0000 + b * 0x1_0000 + c * 0x100 + d },
            ),
            _ => None,
        }
    }

    /// Writes the address.
    pub fn text(&self) -> (res: String)
        ensures
            res@ == ipv4_text(*self),
    {
        let mut res = decimal_text((self.bits / 0x100_0000) as u64);
        res.append(".");
        res.append(decimal_text((self.bits / 0x1_0000 % 0x100) as u64).as_str());
        res.append(".");
        res.append(decimal_text((self.bits / 0x100 % 0x100) as u64).as_str());
        res.append(".");
        res.append(decimal_text((self.bits % 0x100) as u64).as_str());
        res
    }
}

impl SocketAddrV4 {
    /// Writes the socket address.
    pub fn text(&self) -> (res: String)
        ensures
            res@ == socket_text(*self),
    {
        let mut res = self.ip.text();
        res.append(":");
        res.append(decimal_text(self.port as u64).as_str());
        res
    }
}

/// Reads a port from its text.
pub fn parse_port(s: &str) -> (res: Result<u16, PortError>)
    ensures
        res == port_of(s@),
{
    let cs = chars_of(s);
    if cs.len() == 0 {
        return Err(PortError::Empty);
    }
    let start: usize = if cs[0] == '+' && cs.len() > 1 {
        1
    } else {
        0
    };
    let ghost body = s@.skip(start as int);
    assert(s@.skip(0) =~= s@);
    assert(s@.skip(1) =~= s@.drop_first());
    let mut n: u16 = 0;
    let mut i: usize = start;
    while i < cs.len()
        invariant
            cs@ == s@,
            start <= i <= cs@.len(),
            body == s@.skip(start as int),
            port_of(s@) == port_digits(body),
            port_digits(body.take(i - start)) == Ok::<u16, PortError>(n),
        decreases cs@.len() - i,
    {
        proof {
            let longer = body.take(i - start + 1);
            assert(longer.drop_last() =~= body.take(i - start));
            assert(longer.last() == s@[i as int]);
        }
        match digit_of(cs[i]) {
            None => {
                proof {
                    lemma_port_digits_stop(body, i - start + 1);
                }
                return Err(PortError::InvalidDigit);
            },
            Some(d) => {
                let next: u32 = n as u32 * 10 + d as u32;
                if next > 65535 {
                    proof {
                        lemma_port_digits_stop(body, i - start + 1);
                    }
                    return Err(PortError::TooLarge);
                }
                n = next as u16;
            },
        }
        i += 1;
    }
    assert(body.take(i - start) =~= body);
    Ok(n)
}

/// An error met on the way stands, whatever follows.
proof fn lemma_port_digits_stop(s: Seq<char>, n: int)
    requires
        0 <= n <= s.len(),
        port_digits(s.take(n)) is Err,
    ensures
        port_digits(s) == port_digits(s.take(n)),
    decreases s.len(),
{
    if n == s.len() {
        assert(s.take(n) =~= s);
    } else {
        assert(s.drop_last().take(n) =~= s.take(n));
        lemma_port_digits_stop(s.drop_last(), n);
    }
}

/// The digits of a port after its optional plus sign.
pub open spec fn port_body(s: Seq<char>) -> Seq<char> {
    if s.len() > 1 && s[0] == '+' {
        s.drop_first()
    } else {
        s
    }
}

proof fn lemma_port_digits_value(s: Seq<char>)
    ensures
        port_digits(s) is Ok <==> all_digits(s) && value(s) <= u16::MAX,
        port_digits(s) matches Ok(n) ==> n == value(s),
    decreases s.len(),
{
    if s.len() > 0 {
        let shorter = s.drop_last();
        lemma_port_digits_value(shorter);
        assert(s[s.len() - 1] == s.last());
        if all_digits(s) {
            assert forall|i: int| 0 <= i < shorter.len() implies is_digit(#[trigger] shorter[i]) by {
                assert(is_digit(s[i]));
            }
        } else if all_digits(shorter) && is_digit(s.last()) {
            assert forall|i: int| 0 <= i < s.len() implies is_digit(#[trigger] s[i]) by {
                if i < shorter.len() {
                    assert(is_digit(shorter[i]));
                }
            }
        }
    }
}

/// A text is a port exactly when it is an optional plus sign and then at least one
/// digit, digits alone, for a number of at most 65535: the port is that number.
pub proof fn law_port_texts(s: Seq<char>)
    ensures
        port_of(s) is Ok <==> s.len() > 0 && all_digits(port_body(s)) && value(port_body(s))
            <= u16::MAX,
        port_of(s) matches Ok(n) ==> n == value(port_body(s)),
        port_of(s) == Err::<u16, PortError>(PortError::Empty) <==> s.len() == 0,
{
    lemma_port_digits_value(port_body(s));
    if s.len() > 0 {
        lemma_port_digits_never_empty(port_body(s));
    }
}

proof fn lemma_port_digits_never_empty(s: Seq<char>)
    ensures
        port_digits(s) != Err::<u16, PortError>(PortError::Empty),
    decreases s.len(),
{
    if s.len() > 0 {
        lemma_port_digits_never_empty(s.drop_last());
    }
}

/// Reading a port that was written in decimal gives it back.
pub proof fn law_port_round_trip(port: u16)
    ensures
        port_of(decimal(port as nat)) == Ok::<u16, PortError>(port),
{
    let s = decimal(port as nat);
    lemma_decimal(port as nat);
    lemma_port_digits_value(s);
    assert(is_digit(s[0]));
}

proof fn lemma_octet_round_trip(n: nat)
    requires
        n <= 255,
    ensures
        octet(decimal(n)) == Some(n),
        !decimal(n).contains('.'),
{
    lemma_decimal(n);
    lemma_decimal_lacks(n, '.');
}

/// Four pieces with separators between them are split into the four pieces.
pub proof fn lemma_split_four(sep: char, a: Seq<char>, b: Seq<char>, c: Seq<char>, d: Seq<char>)
    requires
        !a.contains(sep),
        !b.contains(sep),
        !c.contains(sep),
        !d.contains(sep),
    ensures
        split(a + seq![sep] + b + seq![sep] + c + seq![sep] + d, sep) == seq![a, b, c, d],
{
    lemma_split_single(a, sep);
    lemma_split_append(a, sep, b);
    let ab = a.push(sep) + b;
    lemma_split_append(ab, sep, c);
    let abc = ab.push(sep) + c;
    lemma_split_append(abc, sep, d);
    assert(a + seq![sep] + b + seq![sep] + c + seq![sep] + d =~= abc.push(sep) + d);
    assert(seq![a].push(b).push(c).push(d) =~= seq![a, b, c, d]);
}

/// Reading an address that was written gives it back.
pub proof fn law_ipv4_round_trip(a: Ipv4Addr)
    ensures
        ipv4_of(ipv4_text(a)) == Some(a),
{
    reveal_strlit(".");
    assert("."@ =~= seq!['.']);
    let o1 = (a.bits / 0x100_0000) as nat;
    let o2 = (a.bits / 0x1_0000 % 0x100) as nat;
    let o3 = (a.bits / 0x100 % 0x100) as nat;
    let o4 = (a.bits % 0x100) as nat;
    lemma_octet_round_trip(o1);
    lemma_octet_round_trip(o2);
    lemma_octet_round_trip(o3);
    lemma_octet_round_trip(o4);
    lemma_split_four('.', decimal(o1), decimal(o2), decimal(o3), decimal(o4));
    assert(bits_of(o1, o2, o3, o4) == a.bits);
}

/// Four pieces joined are the pieces with separators between them.
pub proof fn lemma_joined_four(p: Seq<Seq<char>>, sep: char)
    requires
        p.len() == 4,
    ensures
        joined(p, sep) == p[0] + seq![sep] + p[1] + seq![sep] + p[2] + seq![sep] + p[3],
{
    let p3 = p.drop_last();
    let p2 = p3.drop_last();
    let p1 = p2.drop_last();
    assert(joined(p1, sep) == p[0]);
    assert(joined(p2, sep) == p[0].push(sep) + p[1]);
    assert(joined(p3, sep) == joined(p2, sep).push(sep) + p[2]);
    assert(joined(p, sep) == joined(p3, sep).push(sep) + p[3]);
    assert(joined(p, sep) =~= p[0] + seq![sep] + p[1] + seq![sep] + p[2] + seq![sep] + p[3]);
}

proof fn lemma_octets_of_bits(a: nat, b: nat, c: nat, d: nat, bits: u32)
    requires
        a <= 255,
        b <= 255,
        c <= 255,
        d <= 255,
        bits == bits_of(a, b, c, d),
    ensures
        bits / 0x100_0000 == a,
        bits / 0x1_0000 % 0x100 == b,
        bits / 0x100 % 0x100 == c,
        bits % 0x100 == d,
{
    assert(bits / 0x1_0000 == a * 0x100 + b);
    assert(bits / 0x100 == (a * 0x100 + b) * 0x100 + c);
}

/// The text of an address holds digits and dots alone, and begins and ends with a
/// digit.
pub proof fn lemma_ipv4_text_shape(a: Ipv4Addr)
    ensures
        ipv4_text(a).len() > 0,
        is_digit(ipv4_text(a)[0]),
        is_digit(ipv4_text(a).last()),
        forall|i: int|
            0 <= i < ipv4_text(a).len() ==> is_digit(#[trigger] ipv4_text(a)[i]) || ipv4_text(a)[i]
                == '.',
{
    let s = ipv4_text(a);
    let o1 = decimal((a.bits / 0x100_0000) as nat);
    let o2 = decimal((a.bits / 0x1_0000 % 0x100) as nat);
    let o3 = decimal((a.bits / 0x100 % 0x100) as nat);
    let o4 = decimal((a.bits % 0x100) as nat);
    lemma_decimal((a.bits / 0x100_0000) as nat);
    lemma_decimal((a.bits / 0x1_0000 % 0x100) as nat);
    lemma_decimal((a.bits / 0x100 % 0x100) as nat);
    lemma_decimal((a.bits % 0x100) as nat);
    reveal_strlit(".");
    assert("."@ =~= seq!['.']);
    assert(s == o1 + seq!['.'] + o2 + seq!['.'] + o3 + seq!['.'] + o4);
    let n1 = o1.len() as int;
    let n2 = n1 + 1 + o2.len();
    let n3 = n2 + 1 + o3.len();
    assert forall|k: int| 0 <= k < s.len() implies is_digit(#[trigger] s[k]) || s[k] == '.' by {
        if k < n1 {
            assert(is_digit(o1[k]));
        } else if n1 < k < n2 {
            assert(is_digit(o2[k - n1 - 1]));
        } else if n2 < k < n3 {
            assert(is_digit(o3[k - n2 - 1]));
        } else if n3 < k {
            assert(is_digit(o4[k - n3 - 1]));
        }
    }
    assert(is_digit(o1[0]));
    assert(is_digit(o4[o4.len() - 1]));
    assert(s[0] == o1[0]);
    assert(s.last() == o4[o4.len() - 1]);
}

/// The text of an address holds no character but digits and dots.
pub proof fn lemma_ipv4_text_lacks(a: Ipv4Addr, c: char)
    requires
        !is_digit(c),
        c != '.',
    ensures
        !ipv4_text(a).contains(c),
{
    lemma_ipv4_text_shape(a);
    if ipv4_text(a).contains(c) {
        let k = choose|k: int| 0 <= k < ipv4_text(a).len() && ipv4_text(a)[k] == c;
        assert(is_digit(ipv4_text(a)[k]) || ipv4_text(a)[k] == '.');
    }
}

/// An address has one text only: what is read as an address is what is written for
/// it.
pub proof fn law_ipv4_text_unique(s: Seq<char>)
    ensures
        ipv4_of(s) matches Some(a) ==> ipv4_text(a) == s,
{
    if let Some(a) = ipv4_of(s) {
        reveal_strlit(".");
        assert("."@ =~= seq!['.']);
        let p = split(s, '.');
        law_split_joins_back(s, '.');
        lemma_joined_four(p, '.');
        lemma_decimal_of_value(p[0]);
        lemma_decimal_of_value(p[1]);
        lemma_decimal_of_value(p[2]);
        lemma_decimal_of_value(p[3]);
        lemma_octets_of_bits(value(p[0]), value(p[1]), value(p[2]), value(p[3]), a.bits);
    }
}

/// Four octets in decimal with dots between them are an address, the first octet in
/// the highest place; and the address is written that way.
pub proof fn law_ipv4_dotted(a: u8, b: u8, c: u8, d: u8)
    ensures
        ({
            let dotted = decimal(a as nat) + seq!['.'] + decimal(b as nat) + seq!['.'] + decimal(
                c as nat,
            ) + seq!['.'] + decimal(d as nat);
            let bits = (a * 16777216 + b * 65536 + c * 256 + d) as u32;
            &&& ipv4_of(dotted) == Some(Ipv4Addr { bits })
            &&& ipv4_text(Ipv4Addr { bits }) == dotted
        }),
{
    reveal_strlit(".");
    assert("."@ =~= seq!['.']);
    let bits = (a * 16777216 + b * 65536 + c * 256 + d) as u32;
    lemma_octets_of_bits(a as nat, b as nat, c as nat, d as nat, bits);
    law_ipv4_round_trip(Ipv4Addr { bits });
}

/// No other text is an address: what is read as one is its four octets in decimal with
/// dots between them.
pub proof fn law_ipv4_only_dotted(s: Seq<char>)
    ensures
        ipv4_of(s) matches Some(x) ==> s == decimal((x.bits / 16777216) as nat) + seq!['.']
            + decimal((x.bits / 65536 % 256) as nat) + seq!['.'] + decimal(
            (x.bits / 256 % 256) as nat,
        ) + seq!['.'] + decimal((x.bits % 256) as nat),
{
    reveal_strlit(".");
    assert("."@ =~= seq!['.']);
    law_ipv4_text_unique(s);
}

/// A number of at most 65535 is a port, whatever zeros it begins with, and with a plus
/// sign as well as without.
pub proof fn law_port_numbers(digits: Seq<char>)
    requires
        digits.len() > 0,
        all_digits(digits),
        value(digits) <= 65535,
    ensures
        port_of(digits) == Ok::<u16, PortError>(value(digits) as u16),
        port_of(seq!['+'] + digits) == Ok::<u16, PortError>(value(digits) as u16),
{
    lemma_port_digits_value(digits);
    assert(is_digit(digits[0]));
    assert((seq!['+'] + digits).drop_first() =~= digits);
}

/// A number above 65535 is too large, whatever follows its digits.
pub proof fn law_port_too_large(digits: Seq<char>, rest: Seq<char>)
    requires
        all_digits(digits),
        value(digits) > 65535,
    ensures
        port_of(digits + rest) == Err::<u16, PortError>(PortError::TooLarge),
        port_of(seq!['+'] + digits + rest) == Err::<u16, PortError>(PortError::TooLarge),
{
    let s = digits + rest;
    lemma_port_digits_overflow(digits);
    assert(s.take(digits.len() as int) =~= digits);
    lemma_port_digits_stop(s, digits.len() as int);
    assert(digits.len() > 0);
    assert(is_digit(digits[0]));
    assert(s[0] == digits[0]);
    assert((seq!['+'] + digits + rest).drop_first() =~= s);
}

/// A character that is no digit, after digits for a number of at most 65535, makes the
/// text no port, whatever follows: but for a single plus sign at the beginning.
pub proof fn law_port_invalid_digit(digits: Seq<char>, c: char, rest: Seq<char>)
    requires
        all_digits(digits),
        value(digits) <= 65535,
        !is_digit(c),
    ensures
        c != '+' || digits.len() > 0 || rest.len() == 0 ==> port_of(digits + seq![c] + rest)
            == Err::<u16, PortError>(PortError::InvalidDigit),
        port_of(seq!['+'] + digits + seq![c] + rest) == Err::<u16, PortError>(
            PortError::InvalidDigit,
        ),
{
    let s = digits + seq![c] + rest;
    let n = digits.len() as int;
    lemma_port_digits_value(digits);
    assert(s.take(n + 1) =~= digits.push(c));
    assert(digits.push(c).drop_last() =~= digits);
    assert(port_digits(s.take(n + 1)) == Err::<u16, PortError>(PortError::InvalidDigit));
    lemma_port_digits_stop(s, n + 1);
    if n > 0 {
        assert(is_digit(digits[0]));
        assert(s[0] == digits[0]);
    } else {
        assert(s[0] == c);
    }
    assert((seq!['+'] + digits + seq![c] + rest).drop_first() =~= s);
}

proof fn lemma_port_digits_overflow(digits: Seq<char>)
    requires
        all_digits(digits),
        value(digits) > u16::MAX,
    ensures
        port_digits(digits) == Err::<u16, PortError>(PortError::TooLarge),
    decreases digits.len(),
{
    let shorter = digits.drop_last();
    assert(digits.len() > 0);
    assert forall|i: int| 0 <= i < shorter.len() implies is_digit(#[trigger] shorter[i]) by {
        assert(is_digit(digits[i]));
    }
    assert(is_digit(digits[digits.len() - 1]));
    lemma_port_digits_value(shorter);
    if value(shorter) > u16::MAX {
        lemma_port_digits_overflow(shorter);
    }
}

/// The empty text is no port, and the only one that is refused as empty.
pub proof fn law_port_empty(s: Seq<char>)
    ensures
        port_of(s) == Err::<u16, PortError>(PortError::Empty) <==> s.len() == 0,
{
    law_port_texts(s);
}

/// The text of a socket address has its address before the one colon, and its port, in
/// decimal, after it.
pub proof fn law_socket_text(a: SocketAddrV4)
    ensures
        socket_text(a) == ipv4_text(a.ip) + seq![':'] + decimal(a.port as nat),
        split(socket_text(a), ':') == seq![ipv4_text(a.ip), decimal(a.port as nat)],
{
    reveal_strlit(":");
    assert(":"@ =~= seq![':']);
    let head = ipv4_text(a.ip);
    let tail = decimal(a.port as nat);
    lemma_ipv4_text_lacks(a.ip, ':');
    lemma_decimal_lacks(a.port as nat, ':');
    lemma_split_single(head, ':');
    lemma_split_append(head, ':', tail);
    assert(socket_text(a) =~= head.push(':') + tail);
    assert(seq![head].push(tail) =~= seq![head, tail]);
}

/// The message for each error, which tells the errors apart.
pub proof fn law_port_messages(e: PortError)
    ensures
        e == PortError::Empty ==> port_error_text(e) == "cannot parse integer from empty string"@,
        e == PortError::InvalidDigit ==> port_error_text(e) == "invalid digit found in string"@,
        e == PortError::TooLarge ==> port_error_text(e)
            == "number too large to fit in target type"@,
{
}

} // verus!
