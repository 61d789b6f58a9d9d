//! IPv4 networks in the notation of an address and a prefix length.

use crate::addr::{
    bits_of, ipv4_of, ipv4_text, law_ipv4_round_trip, lemma_ipv4_text_lacks, lemma_split_four,
    octet, Ipv4Addr,
};
use crate::text::{
    all_digits, decimal, decimal_text, is_digit, lemma_decimal, lemma_decimal_lacks,
    lemma_split_append, lemma_split_single, split, value,
};
use vstd::arithmetic::div_mod::{
    lemma_basic_div, lemma_div_denominator, lemma_fundamental_div_mod,
    lemma_fundamental_div_mod_converse,
};
use vstd::arithmetic::power2::{lemma2_to64, lemma_pow2_adds, lemma_pow2_pos, pow2};
use vstd::bits::lemma_u64_shr_is_div;
use vstd::prelude::*;

verus! {

/// An IPv4 network: the addresses that agree with `addr` in their first
/// `prefix_len` bits. The bits of `addr` after those are kept as they were given.
#[derive(Clone, Copy, Debug, PartialEq, Eq)]
pub struct Ipv4Net {
    addr: Ipv4Addr,
    prefix_len: u8,
}

/// The number that `s` stands for: one to `max_len` digits, leading zeros allowed,
/// at most `max`.
pub open spec fn number_up_to(s: Seq<char>, max_len: nat, max: nat) -> Option<nat> {
    if 1 <= s.len() <= max_len && all_digits(s) && value(s) <= max {
        Some(value(s))
    } else {
        None
    }
}

/// The address and the prefix length that `s` writes: four numbers of at most three
/// digits, each at most 255, with dots between them, a slash, and a number of at
/// most two digits, at most 32.
pub open spec fn net_of(s: Seq<char>) -> Option<(u32, u8)> {
    let halves = split(s, '/');
    let p = split(halves[0], '.');
    if halves.len() == 2 && p.len() == 4 {
        match (
            number_up_to(p[0], 3, 255),
            number_up_to(p[1], 3, 255),
            number_up_to(p[2], 3, 255),
            number_up_to(p[3], 3, 255),
            number_up_to(halves[1], 2, 32),
        ) {
            (Some(a), Some(b), Some(c), Some(d), Some(len)) => Some(
                (bits_of(a, b, c, d) as u32, len as u8),
            ),
            _ => None,
        }
    } else {
        None
    }
}

/// Whether `ip` agrees with `addr` in its first `prefix_len` bits.
pub open spec fn covers(addr: u32, prefix_len: u8, ip: u32) -> bool {
    let size = pow2((32 - prefix_len) as nat) as int;
    addr as int / size == ip as int / size
}

/// The text of a network: the address, a slash, and the prefix length in decimal.
pub open spec fn net_text(addr: Ipv4Addr, prefix_len: u8) -> Seq<char> {
    ipv4_text(addr) + "/"@ + decimal(prefix_len as nat)
}

/// Calls `<ipnet::Ipv4Net as FromStr>::from_str`, and hands out the address as a
/// number and the prefix length. Claims that exactly the texts `net_of` describes
/// are accepted, and that address and prefix length are the numbers written there.
#[verifier::external_body]
fn read_net(s: &str) -> (res: Option<(u32, u8)>)
    ensures
        res == net_of(s@),
{
    match s.parse::<ipnet::Ipv4Net>() {
        Ok(net) => Some((u32::from(net.addr()), net.prefix_len())),
        Err(_) => None,
    }
}

/// Calls `ipnet::Ipv4Net::contains` with an address, on the network of `addr` and
/// `prefix_len`. Claims that it tells whether the two addresses agree in their first
/// `prefix_len` bits. A prefix length above 32 makes no network.
#[verifier::external_body]
fn net_holds(addr: u32, prefix_len: u8, ip: u32) -> (res: bool)
    requires
        prefix_len <= 32,
    ensures
        res == covers(addr, prefix_len, ip),
{
    let net = ipnet::Ipv4Net::new(addr.into(), prefix_len).unwrap();
    let host = ipnet::Ipv4Net::new(ip.into(), prefix_len).unwrap().addr();
    net.contains(&host)
}

impl Ipv4Net {
    #[verifier::type_invariant]
    spec fn inv(self) -> bool {
        self.prefix_len <= 32
    }

    /// The address the network was written with.
    pub closed spec fn spec_addr(self) -> Ipv4Addr {
        self.addr
    }

    /// The number of bits that the network fixes.
    pub closed spec fn spec_prefix_len(self) -> u8 {
        self.prefix_len
    }

    /// Whether the network holds `ip`.
    pub open spec fn holds(self, ip: Ipv4Addr) -> bool {
        covers(self.spec_addr().bits, self.spec_prefix_len(), ip.bits)
    }

    /// Reads a network from its text.
    pub fn parse(s: &str) -> (res: Option<Ipv4Net>)
        ensures
            res is Some <==> net_of(s@) is Some,
            res matches Some(net) ==> net_of(s@) == Some(
                (net.spec_addr().bits, net.spec_prefix_len()),
            ),
    {
        match read_net(s) {
            Some((bits, prefix_len)) => Some(Ipv4Net { addr: Ipv4Addr { bits }, prefix_len }),
            None => None,
        }
    }

    /// The address the network was written with.
    pub fn addr(&self) -> (res: Ipv4Addr)
        ensures
            res == self.spec_addr(),
    {
        self.addr
    }

    /// The number of bits that the network fixes.
    pub fn prefix_len(&self) -> (res: u8)
        ensures
            res == self.spec_prefix_len(),
            res <= 32,
    {
        proof {
            use_type_invariant(self);
        }
        self.prefix_len
    }

    /// Whether the network holds `ip`.
    pub fn contains(&self, ip: Ipv4Addr) -> (res: bool)
        ensures
            res == self.holds(ip),
    {
        proof {
            use_type_invariant(self);
        }
        net_holds(self.addr.bits, self.prefix_len, ip.bits)
    }

    /// Writes the network.
    pub fn text(&self) -> (res: String)
        ensures
            res@ == net_text(self.spec_addr(), self.spec_prefix_len()),
    {
        let mut res = self.addr.text();
        res.append("/");
        res.append(decimal_text(self.prefix_len as u64).as_str());
        res
    }
}

/// The lowest address of a network, as a number.
pub open spec fn lowest(addr: u32, prefix_len: u8) -> int {
    let size = pow2((32 - prefix_len) as nat) as int;
    addr as int / size * size
}

/// A network is a range: it holds the addresses from its lowest one up, as many as
/// the free bits can tell apart.
pub proof fn law_net_is_range(addr: u32, prefix_len: u8, ip: u32)
    requires
        prefix_len <= 32,
    ensures
        covers(addr, prefix_len, ip) <==> lowest(addr, prefix_len) <= ip < lowest(addr, prefix_len)
            + pow2((32 - prefix_len) as nat),
{
    let size = pow2((32 - prefix_len) as nat) as int;
    lemma_pow2_pos((32 - prefix_len) as nat);
    let q = addr as int / size;
    lemma_fundamental_div_mod(ip as int, size);
    assert(size * (ip as int / size) == (ip as int / size) * size) by (nonlinear_arith);
    if q * size <= ip < q * size + size {
        lemma_fundamental_div_mod_converse(ip as int, size, q, ip - q * size);
    }
}

/// A network holds the address it is written with.
pub proof fn law_net_holds_own_address(addr: u32, prefix_len: u8)
    ensures
        covers(addr, prefix_len, addr),
{
}

/// A prefix of no bits holds every address, and one of 32 bits a single address.
pub proof fn law_net_extremes(addr: u32, ip: u32)
    ensures
        covers(addr, 0, ip),
        covers(addr, 32, ip) <==> addr == ip,
{
    lemma2_to64();
    lemma_basic_div(addr as int, pow2(32) as int);
    lemma_basic_div(ip as int, pow2(32) as int);
    assert(addr as int / 1 == addr as int);
    assert(ip as int / 1 == ip as int);
}

/// A shorter prefix of the same address holds all that a longer one holds.
pub proof fn law_net_shorter_prefix_holds_more(addr: u32, shorter: u8, longer: u8, ip: u32)
    requires
        shorter <= longer <= 32,
        covers(addr, longer, ip),
    ensures
        covers(addr, shorter, ip),
{
    let inner = (32 - longer) as nat;
    let outer = (longer - shorter) as nat;
    lemma_pow2_adds(inner, outer);
    lemma_pow2_pos(inner);
    lemma_pow2_pos(outer);
    lemma_div_denominator(addr as int, pow2(inner) as int, pow2(outer) as int);
    lemma_div_denominator(ip as int, pow2(inner) as int, pow2(outer) as int);
}

/// An octet as an address writes it is one as a network writes it.
proof fn lemma_octet_is_number(s: Seq<char>)
    ensures
        octet(s) is Some ==> number_up_to(s, 3, 255) == octet(s),
{
}

/// Reading a network that was written gives its address and prefix length back.
pub proof fn law_net_round_trip(addr: Ipv4Addr, prefix_len: u8)
    requires
        prefix_len <= 32,
    ensures
        net_of(net_text(addr, prefix_len)) == Some((addr.bits, prefix_len)),
{
    reveal_strlit("/");
    assert("/"@ =~= seq!['/']);
    let head = ipv4_text(addr);
    let tail = decimal(prefix_len as nat);
    lemma_decimal(prefix_len as nat);
    lemma_decimal_lacks(prefix_len as nat, '/');
    lemma_ipv4_text_lacks(addr, '/');
    assert(net_text(addr, prefix_len) =~= head.push('/') + tail);
    lemma_split_single(head, '/');
    lemma_split_append(head, '/', tail);
    assert(seq![head].push(tail) =~= seq![head, tail]);
    law_ipv4_round_trip(addr);
    let p = split(head, '.');
    lemma_octet_is_number(p[0]);
    lemma_octet_is_number(p[1]);
    lemma_octet_is_number(p[2]);
    lemma_octet_is_number(p[3]);
    assert(ipv4_of(head) == Some(addr));
    assert(number_up_to(tail, 2, 32) == Some(prefix_len as nat));
}

/// Four numbers of one to three digits, each at most 255, with dots between them, a
/// slash, and a number of one or two digits, at most 32, are a network.
pub proof fn law_net_texts(
    a: Seq<char>,
    b: Seq<char>,
    c: Seq<char>,
    d: Seq<char>,
    len: Seq<char>,
)
    requires
        all_digits(a) && 1 <= a.len() <= 3 && value(a) <= 255,
        all_digits(b) && 1 <= b.len() <= 3 && value(b) <= 255,
        all_digits(c) && 1 <= c.len() <= 3 && value(c) <= 255,
        all_digits(d) && 1 <= d.len() <= 3 && value(d) <= 255,
        all_digits(len) && 1 <= len.len() <= 2 && value(len) <= 32,
    ensures
        net_of(a + seq!['.'] + b + seq!['.'] + c + seq!['.'] + d + seq!['/'] + len) == Some(
            (
                (value(a) * 16777216 + value(b) * 65536 + value(c) * 256 + value(d)) as u32,
                value(len) as u8,
            ),
        ),
{
    let head = a + seq!['.'] + b + seq!['.'] + c + seq!['.'] + d;
    lemma_digits_lack(a, '.');
    lemma_digits_lack(b, '.');
    lemma_digits_lack(c, '.');
    lemma_digits_lack(d, '.');
    lemma_digits_lack(len, '/');
    lemma_split_four('.', a, b, c, d);
    assert(!head.contains('/')) by {
        if head.contains('/') {
            let k = choose|k: int| 0 <= k < head.len() && head[k] == '/';
            let n1 = a.len() as int;
            let n2 = n1 + 1 + b.len();
            let n3 = n2 + 1 + c.len();
            if k < n1 {
                assert(is_digit(a[k]));
            } else if n1 < k < n2 {
                assert(is_digit(b[k - n1 - 1]));
            } else if n2 < k < n3 {
                assert(is_digit(c[k - n2 - 1]));
            } else if n3 < k {
                assert(is_digit(d[k - n3 - 1]));
            }
        }
    }
    lemma_split_single(head, '/');
    lemma_split_append(head, '/', len);
    assert(head + seq!['/'] + len =~= head.push('/') + len);
    assert(seq![head].push(len) =~= seq![head, len]);
}

proof fn lemma_digits_lack(s: Seq<char>, c: char)
    requires
        all_digits(s),
        !is_digit(c),
    ensures
        !s.contains(c),
{
    if s.contains(c) {
        let k = choose|k: int| 0 <= k < s.len() && s[k] == c;
        assert(is_digit(s[k]));
    }
}

/// No other text is a network.
pub proof fn law_net_only_texts(s: Seq<char>)
    ensures
        net_of(s) is Some ==> {
            let halves = split(s, '/');
            let p = split(halves[0], '.');
            &&& halves.len() == 2
            &&& p.len() == 4
            &&& forall|i: int|
                0 <= i < 4 ==> all_digits(#[trigger] p[i]) && 1 <= p[i].len() <= 3 && value(p[i])
                    <= 255
            &&& all_digits(halves[1]) && 1 <= halves[1].len() <= 2 && value(halves[1]) <= 32
        },
        !s.contains('/') ==> net_of(s) is None,
{
    if !s.contains('/') {
        lemma_split_single(s, '/');
    }
}

/// A network holds an address exactly when the two numbers agree once the bits after
/// the prefix are shifted out.
pub proof fn law_net_by_leading_bits(addr: u32, prefix_len: u8, ip: u32)
    requires
        prefix_len <= 32,
    ensures
        ({
            let free = (32 - prefix_len) as u64;
            covers(addr, prefix_len, ip) <==> (addr as u64) >> free == (ip as u64) >> free
        }),
{
    let free = (32 - prefix_len) as u64;
    lemma_u64_shr_is_div(addr as u64, free);
    lemma_u64_shr_is_div(ip as u64, free);
}

/// What a network holds is told by its address and its prefix length alone.
pub proof fn law_net_holds(net: Ipv4Net, ip: Ipv4Addr)
    ensures
        net.holds(ip) <==> covers(net.spec_addr().bits, net.spec_prefix_len(), ip.bits),
{
}

/// The text of a network has its address before the one slash, and its prefix length,
/// in decimal, after it.
pub proof fn law_net_text(addr: Ipv4Addr, prefix_len: u8)
    ensures
        net_text(addr, prefix_len) == ipv4_text(addr) + seq!['/'] + decimal(prefix_len as nat),
        split(net_text(addr, prefix_len), '/') == seq![
            ipv4_text(addr),
            decimal(prefix_len as nat),
        ],
{
    reveal_strlit("/");
    assert("/"@ =~= seq!['/']);
    let head = ipv4_text(addr);
    let tail = decimal(prefix_len as nat);
    lemma_ipv4_text_lacks(addr, '/');
    lemma_decimal_lacks(prefix_len as nat, '/');
    lemma_split_single(head, '/');
    lemma_split_append(head, '/', tail);
    assert(net_text(addr, prefix_len) =~= head.push('/') + tail);
    assert(seq![head].push(tail) =~= seq![head, tail]);
}

} // verus!
