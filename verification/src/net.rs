//! Network endpoints as plain values, and the text forms in which router
//! addresses carry them. The text forms of addresses are those that the
//! address types of the standard library read and print; ports are read and
//! printed by the standard library itself.

use vstd::prelude::*;
use vstd::string::StrSliceExecFns;
use vstd::string::StringExecFns;

use crate::text::encoding::{u16_from_str, u16_to_string};
use crate::text::{lemma_split_nonempty, spec_split, split};

verus! {

/// An IP address: the four bytes of an IPv4 address or the eight groups of
/// an IPv6 address.
#[derive(Clone, Copy, Debug, PartialEq, Eq)]
pub enum IpAddr {
    V4([u8; 4]),
    V6([u16; 8]),
}

/// An IP address together with a port.
#[derive(Clone, Copy, Debug, PartialEq, Eq)]
pub struct SocketAddr {
    pub ip: IpAddr,
    pub port: u16,
}

impl IpAddr {
    pub fn is_ipv4(&self) -> (r: bool)
        ensures
            r == (*self is V4),
    {
        match self {
            IpAddr::V4(_) => true,
            IpAddr::V6(_) => false,
        }
    }
}

impl SocketAddr {
    pub fn new(ip: IpAddr, port: u16) -> (a: SocketAddr)
        ensures
            a.ip == ip,
            a.port == port,
    {
        SocketAddr { ip, port }
    }

    pub fn ip(&self) -> (ip: IpAddr)
        ensures
            ip == self.ip,
    {
        self.ip
    }

    pub fn port(&self) -> (port: u16)
        ensures
            port == self.port,
    {
        self.port
    }

    pub fn is_ipv4(&self) -> (r: bool)
        ensures
            r == (self.ip is V4),
    {
        self.ip.is_ipv4()
    }
}

/// The character that stands for a digit.
pub open spec fn spec_digit(d: nat) -> char {
    if d == 0 {
        '0'
    } else if d == 1 {
        '1'
    } else if d == 2 {
        '2'
    } else if d == 3 {
        '3'
    } else if d == 4 {
        '4'
    } else if d == 5 {
        '5'
    } else if d == 6 {
        '6'
    } else if d == 7 {
        '7'
    } else if d == 8 {
        '8'
    } else {
        '9'
    }
}

/// The digit that a character stands for, if it is one.
pub open spec fn spec_digit_value(c: char) -> Option<nat> {
    if c == '0' {
        Some(0)
    } else if c == '1' {
        Some(1)
    } else if c == '2' {
        Some(2)
    } else if c == '3' {
        Some(3)
    } else if c == '4' {
        Some(4)
    } else if c == '5' {
        Some(5)
    } else if c == '6' {
        Some(6)
    } else if c == '7' {
        Some(7)
    } else if c == '8' {
        Some(8)
    } else if c == '9' {
        Some(9)
    } else {
        None
    }
}

/// The decimal notation of a number, without leading zeros.
pub open spec fn spec_decimal(n: nat) -> Seq<char>
    decreases n,
{
    if n < 10 {
        seq![spec_digit(n)]
    } else {
        spec_decimal(n / 10).push(spec_digit(n % 10))
    }
}

/// Every character is a digit.
pub open spec fn spec_all_digits(s: Seq<char>) -> bool {
    forall|i: int| 0 <= i < s.len() ==> spec_digit_value(#[trigger] s[i]) is Some
}

/// The number that a run of digits stands for.
pub open spec fn spec_digits_value(s: Seq<char>) -> nat
    decreases s.len(),
{
    if s.len() == 0 {
        0
    } else {
        spec_digits_value(s.drop_last()) * 10 + match spec_digit_value(s.last()) {
            Some(d) => d,
            None => 0,
        }
    }
}

/// The number that `s` denotes, where `s` is one digit or more and the
/// number is at most `max`.
pub open spec fn spec_parse_decimal(s: Seq<char>, max: nat) -> Option<nat> {
    if s.len() > 0 && spec_all_digits(s) && spec_digits_value(s) <= max {
        Some(spec_digits_value(s))
    } else {
        None
    }
}

/// The port that `s` denotes: decimal digits, which a plus sign may
/// precede, for a number that fits 16 bits.
pub open spec fn spec_parse_port(s: Seq<char>) -> Option<u16> {
    let digits = if s.len() > 0 && s[0] == '+' {
        s.skip(1)
    } else {
        s
    };
    match spec_parse_decimal(digits, 65535) {
        Some(v) => Some(v as u16),
        None => None,
    }
}

/// One of the four numbers of an IPv4 address: one to three digits, no
/// leading zero before another digit, at most 255.
pub open spec fn spec_parse_octet(s: Seq<char>) -> Option<u8> {
    if s.len() > 3 || (s.len() > 1 && s[0] == '0') {
        None
    } else {
        match spec_parse_decimal(s, 255) {
            Some(v) => Some(v as u8),
            None => None,
        }
    }
}

/// The IPv4 address that `s` denotes: four numbers with dots between them.
pub open spec fn spec_parse_ipv4(s: Seq<char>) -> Option<Seq<u8>> {
    let parts = spec_split(s, '.');
    if parts.len() != 4 {
        None
    } else {
        match (
            spec_parse_octet(parts[0]),
            spec_parse_octet(parts[1]),
            spec_parse_octet(parts[2]),
            spec_parse_octet(parts[3]),
        ) {
            (Some(a), Some(b), Some(c), Some(d)) => Some(seq![a, b, c, d]),
            _ => None,
        }
    }
}

/// The text form of an IPv4 address.
pub open spec fn spec_ipv4_text(ip: Seq<u8>) -> Seq<char> {
    spec_decimal(ip[0] as nat) + seq!['.'] + spec_decimal(ip[1] as nat) + seq!['.'] + spec_decimal(
        ip[2] as nat,
    ) + seq!['.'] + spec_decimal(ip[3] as nat)
}

/// The character that stands for a hexadecimal digit.
pub open spec fn spec_hex_digit(d: nat) -> char {
    if d < 10 {
        spec_digit(d)
    } else if d == 10 {
        'a'
    } else if d == 11 {
        'b'
    } else if d == 12 {
        'c'
    } else if d == 13 {
        'd'
    } else if d == 14 {
        'e'
    } else {
        'f'
    }
}

/// The hexadecimal digit that a character stands for, if it is one.
/// Letters of both cases count.
pub open spec fn spec_hex_value(c: char) -> Option<nat> {
    if spec_digit_value(c) is Some {
        spec_digit_value(c)
    } else if c == 'a' || c == 'A' {
        Some(10)
    } else if c == 'b' || c == 'B' {
        Some(11)
    } else if c == 'c' || c == 'C' {
        Some(12)
    } else if c == 'd' || c == 'D' {
        Some(13)
    } else if c == 'e' || c == 'E' {
        Some(14)
    } else if c == 'f' || c == 'F' {
        Some(15)
    } else {
        None
    }
}

/// The hexadecimal notation of a number, in lower case and without
/// leading zeros.
pub open spec fn spec_hex(n: nat) -> Seq<char>
    decreases n,
{
    if n < 16 {
        seq![spec_hex_digit(n)]
    } else {
        spec_hex(n / 16).push(spec_hex_digit(n % 16))
    }
}

/// Every character is a hexadecimal digit.
pub open spec fn spec_all_hex(s: Seq<char>) -> bool {
    forall|i: int| 0 <= i < s.len() ==> spec_hex_value(#[trigger] s[i]) is Some
}

/// The number that a run of hexadecimal digits stands for.
pub open spec fn spec_hex_digits_value(s: Seq<char>) -> nat
    decreases s.len(),
{
    if s.len() == 0 {
        0
    } else {
        spec_hex_digits_value(s.drop_last()) * 16 + match spec_hex_value(s.last()) {
            Some(d) => d,
            None => 0,
        }
    }
}

/// One of the groups of an IPv6 address: one to four hexadecimal digits.
pub open spec fn spec_parse_hex_group(s: Seq<char>) -> Option<u16> {
    if 1 <= s.len() <= 4 && spec_all_hex(s) {
        Some(spec_hex_digits_value(s) as u16)
    } else {
        None
    }
}

/// The groups that the pieces denote, where each is a group.
pub open spec fn spec_hex_groups(parts: Seq<Seq<char>>) -> Option<Seq<u16>>
    decreases parts.len(),
{
    if parts.len() == 0 {
        Some(Seq::empty())
    } else {
        match (spec_hex_groups(parts.drop_last()), spec_parse_hex_group(parts.last())) {
            (Some(front), Some(g)) => Some(front.push(g)),
            _ => None,
        }
    }
}

/// The two groups that an IPv4 address fills at the end of an IPv6
/// address.
pub open spec fn spec_v4_groups(a: Seq<u8>) -> Seq<u16> {
    seq![(a[0] as int * 256 + a[1] as int) as u16, (a[2] as int * 256 + a[3] as int) as u16]
}

/// The groups that a part of an IPv6 address denotes: groups with colons
/// between them, the last of which may be an IPv4 address where one is
/// allowed. The empty text denotes no group.
pub open spec fn spec_parse_groups(s: Seq<char>, allow_v4: bool) -> Option<Seq<u16>> {
    if s.len() == 0 {
        Some(Seq::empty())
    } else {
        let parts = spec_split(s, ':');
        match spec_hex_groups(parts.drop_last()) {
            None => None,
            Some(front) => match spec_parse_hex_group(parts.last()) {
                Some(g) => Some(front.push(g)),
                None => if allow_v4 {
                    match spec_parse_ipv4(parts.last()) {
                        Some(a) => Some(front + spec_v4_groups(a)),
                        None => None,
                    }
                } else {
                    None
                },
            },
        }
    }
}

/// Two colons stand at `i` and after it.
pub open spec fn spec_double_colon_at(s: Seq<char>, i: int) -> bool {
    s[i] == ':' && s[i + 1] == ':'
}

/// The first place at or after `i` where two colons follow each other.
pub open spec fn spec_first_double_colon(s: Seq<char>, i: int) -> Option<int>
    decreases s.len() - i,
{
    if i < 0 || i + 1 >= s.len() {
        None
    } else if spec_double_colon_at(s, i) {
        Some(i)
    } else {
        spec_first_double_colon(s, i + 1)
    }
}

/// `n` groups that are zero.
pub open spec fn spec_zero_groups(n: nat) -> Seq<u16> {
    Seq::new(n, |i: int| 0u16)
}

/// The IPv6 address that `s` denotes: eight groups, or fewer groups with
/// one double colon that stands for the groups of zeros that are missing,
/// at least one. An IPv4 address may stand for the last two groups, but not
/// in front of the double colon.
pub open spec fn spec_parse_ipv6(s: Seq<char>) -> Option<Seq<u16>> {
    match spec_first_double_colon(s, 0) {
        None => match spec_parse_groups(s, true) {
            Some(g) => if g.len() == 8 {
                Some(g)
            } else {
                None
            },
            None => None,
        },
        Some(p) => match (
            spec_parse_groups(s.subrange(0, p), false),
            spec_parse_groups(s.skip(p + 2), true),
        ) {
            (Some(head), Some(tail)) => if head.len() + tail.len() <= 7 {
                Some(head + spec_zero_groups((8 - head.len() - tail.len()) as nat) + tail)
            } else {
                None
            },
            _ => None,
        },
    }
}

/// The groups in hexadecimal notation with colons between them.
pub open spec fn spec_join_hex(g: Seq<u16>) -> Seq<char>
    decreases g.len(),
{
    if g.len() == 0 {
        Seq::empty()
    } else if g.len() == 1 {
        spec_hex(g[0] as nat)
    } else {
        spec_join_hex(g.drop_last()) + seq![':'] + spec_hex(g.last() as nat)
    }
}

/// The length of the run of zero groups that ends before the group at
/// `i`.
pub open spec fn spec_zero_run(g: Seq<u16>, i: int) -> int
    decreases i,
{
    if i <= 0 {
        0
    } else if g[i - 1] == 0 {
        spec_zero_run(g, i - 1) + 1
    } else {
        0
    }
}

/// Start and length of the longest run of zero groups among the first `i`
/// groups, the first such run where there are several.
pub open spec fn spec_longest_zero_run(g: Seq<u16>, i: int) -> (int, int)
    decreases i,
{
    if i <= 0 {
        (0, 0)
    } else {
        let before = spec_longest_zero_run(g, i - 1);
        let run = spec_zero_run(g, i);
        if run > before.1 {
            (i - run, run)
        } else {
            before
        }
    }
}

/// Whether the groups are those of an IPv4 address mapped into IPv6.
pub open spec fn spec_is_v4_mapped(g: Seq<u16>) -> bool {
    g[0] == 0 && g[1] == 0 && g[2] == 0 && g[3] == 0 && g[4] == 0 && g[5] == 0xffff
}

/// The text form of an IPv6 address: its groups in hexadecimal notation,
/// with a double colon in place of the longest run of two or more zero
/// groups. An IPv4 address mapped into IPv6 is written as such.
pub open spec fn spec_ipv6_text(g: Seq<u16>) -> Seq<char> {
    if spec_is_v4_mapped(g) {
        seq![':', ':', 'f', 'f', 'f', 'f', ':'] + spec_ipv4_text(
            seq![(g[6] / 256) as u8, (g[6] % 256) as u8, (g[7] / 256) as u8, (g[7] % 256) as u8],
        )
    } else {
        let (start, len) = spec_longest_zero_run(g, 8);
        if len > 1 {
            spec_join_hex(g.subrange(0, start)) + seq![':', ':'] + spec_join_hex(
                g.skip(start + len),
            )
        } else {
            spec_join_hex(g)
        }
    }
}

/// The text form of an address.
pub open spec fn spec_ip_text(ip: IpAddr) -> Seq<char> {
    match ip {
        IpAddr::V4(a) => spec_ipv4_text(a@),
        IpAddr::V6(g) => spec_ipv6_text(g@),
    }
}

/// The address that `s` denotes.
pub open spec fn spec_parse_ip(s: Seq<char>) -> Option<IpAddr> {
    match spec_parse_ipv4(s) {
        Some(a) => Some(IpAddr::V4([a[0], a[1], a[2], a[3]])),
        None => match spec_parse_ipv6(s) {
            Some(g) => Some(IpAddr::V6([g[0], g[1], g[2], g[3], g[4], g[5], g[6], g[7]])),
            None => None,
        },
    }
}

/// The text of one digit.
fn digit_str(d: u8) -> (s: &'static str)
    requires
        d < 10,
    ensures
        s@ == seq![spec_digit(d as nat)],
{
    proof {
        reveal_strlit("0");
        reveal_strlit("1");
        reveal_strlit("2");
        reveal_strlit("3");
        reveal_strlit("4");
        reveal_strlit("5");
        reveal_strlit("6");
        reveal_strlit("7");
        reveal_strlit("8");
        reveal_strlit("9");
    }
    let s = if d == 0 {
        "0"
    } else if d == 1 {
        "1"
    } else if d == 2 {
        "2"
    } else if d == 3 {
        "3"
    } else if d == 4 {
        "4"
    } else if d == 5 {
        "5"
    } else if d == 6 {
        "6"
    } else if d == 7 {
        "7"
    } else if d == 8 {
        "8"
    } else {
        "9"
    };
    assert(s@ =~= seq![spec_digit(d as nat)]);
    s
}

/// The decimal notation of `n`.
pub fn decimal(n: u16) -> (s: String)
    ensures
        s@ == spec_decimal(n as nat),
{
    u16_to_string(n)
}

/// The digit that `c` stands for.
fn digit_value(c: char) -> (r: Option<u32>)
    ensures
        match r {
            Some(d) => spec_digit_value(c) == Some(d as nat) && d < 10,
            None => spec_digit_value(c) is None,
        },
{
    if c == '0' {
        Some(0)
    } else if c == '1' {
        Some(1)
    } else if c == '2' {
        Some(2)
    } else if c == '3' {
        Some(3)
    } else if c == '4' {
        Some(4)
    } else if c == '5' {
        Some(5)
    } else if c == '6' {
        Some(6)
    } else if c == '7' {
        Some(7)
    } else if c == '8' {
        Some(8)
    } else if c == '9' {
        Some(9)
    } else {
        None
    }
}

/// The digits up to `i` stand for no more than all of them.
proof fn lemma_digits_prefix(s: Seq<char>, i: int)
    requires
        0 <= i <= s.len(),
    ensures
        spec_digits_value(s.subrange(0, i)) <= spec_digits_value(s),
    decreases s.len() - i,
{
    if i == s.len() {
        assert(s.subrange(0, i) =~= s);
    } else {
        assert(s.subrange(0, i + 1).drop_last() =~= s.subrange(0, i));
        lemma_digits_prefix(s, i + 1);
    }
}

/// Reads the characters of `s` from `from` on as a number of at most
/// `max`.
fn parse_decimal(s: &str, from: usize, max: u32) -> (r: Option<u32>)
    requires
        from <= s@.len(),
        max <= 0xffff,
    ensures
        match r {
            Some(v) => spec_parse_decimal(s@.skip(from as int), max as nat) == Some(v as nat),
            None => spec_parse_decimal(s@.skip(from as int), max as nat) is None,
        },
{
    let n = s.unicode_len();
    let ghost t = s@.skip(from as int);
    if n == from {
        return None;
    }
    let mut v: u32 = 0;
    let mut i: usize = from;
    proof {
        assert(t.subrange(0, 0) =~= Seq::<char>::empty());
    }
    while i < n
        invariant
            from <= i <= n,
            n == s@.len(),
            t == s@.skip(from as int),
            max <= 0xffff,
            v <= max,
            v == spec_digits_value(t.subrange(0, i - from)),
            spec_all_digits(t.subrange(0, i - from)),
        decreases n - i,
    {
        let c = s.get_char(i);
        assert(t[i - from] == c);
        let ghost next = t.subrange(0, i - from + 1);
        proof {
            assert(next.drop_last() =~= t.subrange(0, i - from));
            assert(next.last() == c);
        }
        match digit_value(c) {
            None => {
                return None;
            },
            Some(d) => {
                let w = v * 10 + d;
                if w > max {
                    proof {
                        lemma_digits_prefix(t, i - from + 1);
                    }
                    return None;
                }
                proof {
                    assert forall|j: int| 0 <= j < next.len() implies spec_digit_value(
                        #[trigger] next[j],
                    ) is Some by {
                        if j < next.len() - 1 {
                            assert(next[j] == t.subrange(0, i - from)[j]);
                        }
                    }
                }
                v = w;
            },
        }
        i += 1;
    }
    assert(t.subrange(0, i - from) =~= t);
    Some(v)
}

/// Reads a port number.
pub fn parse_port(s: &str) -> (r: Option<u16>)
    ensures
        r == spec_parse_port(s@),
{
    u16_from_str(s)
}

/// Reads one of the four numbers of an IPv4 address.
fn parse_octet(s: &str) -> (r: Option<u8>)
    ensures
        r == spec_parse_octet(s@),
{
    let n = s.unicode_len();
    if n > 3 || (n > 1 && s.get_char(0) == '0') {
        return None;
    }
    proof {
        assert(s@.skip(0) =~= s@);
    }
    match parse_decimal(s, 0, 255) {
        Some(v) => Some(v as u8),
        None => None,
    }
}

/// Reads an IPv4 address.
fn parse_ipv4(s: &str) -> (r: Option<[u8; 4]>)
    ensures
        match r {
            Some(a) => spec_parse_ipv4(s@) == Some(a@),
            None => spec_parse_ipv4(s@) is None,
        },
{
    let parts = split(s, '.');
    if parts.len() != 4 {
        return None;
    }
    let a = parse_octet(parts[0].as_str());
    let b = parse_octet(parts[1].as_str());
    let c = parse_octet(parts[2].as_str());
    let d = parse_octet(parts[3].as_str());
    match (a, b, c, d) {
        (Some(a), Some(b), Some(c), Some(d)) => {
            let ip = [a, b, c, d];
            assert(ip@ =~= seq![a, b, c, d]);
            Some(ip)
        },
        _ => None,
    }
}

/// The text of one hexadecimal digit.
fn hex_digit_str(d: u8) -> (s: &'static str)
    requires
        d < 16,
    ensures
        s@ == seq![spec_hex_digit(d as nat)],
{
    if d < 10 {
        return digit_str(d);
    }
    proof {
        reveal_strlit("a");
        reveal_strlit("b");
        reveal_strlit("c");
        reveal_strlit("d");
        reveal_strlit("e");
        reveal_strlit("f");
    }
    let s = if d == 10 {
        "a"
    } else if d == 11 {
        "b"
    } else if d == 12 {
        "c"
    } else if d == 13 {
        "d"
    } else if d == 14 {
        "e"
    } else {
        "f"
    };
    assert(s@ =~= seq![spec_hex_digit(d as nat)]);
    s
}

/// The hexadecimal notation of `n`.
pub fn hex(n: u16) -> (s: String)
    ensures
        s@ == spec_hex(n as nat),
    decreases n,
{
    if n < 16 {
        String::from_str(hex_digit_str(n as u8))
    } else {
        let mut s = hex(n / 16);
        let d = hex_digit_str((n % 16) as u8);
        s.append(d);
        assert(s@ =~= spec_hex(n as nat / 16).push(spec_hex_digit(n as nat % 16)));
        s
    }
}

/// The hexadecimal digit that `c` stands for.
fn hex_value(c: char) -> (r: Option<u32>)
    ensures
        match r {
            Some(d) => spec_hex_value(c) == Some(d as nat) && d < 16,
            None => spec_hex_value(c) is None,
        },
{
    match digit_value(c) {
        Some(d) => Some(d),
        None => {
            if c == 'a' || c == 'A' {
                Some(10)
            } else if c == 'b' || c == 'B' {
                Some(11)
            } else if c == 'c' || c == 'C' {
                Some(12)
            } else if c == 'd' || c == 'D' {
                Some(13)
            } else if c == 'e' || c == 'E' {
                Some(14)
            } else if c == 'f' || c == 'F' {
                Some(15)
            } else {
                None
            }
        },
    }
}

/// Reads one of the groups of an IPv6 address.
fn parse_hex_group(s: &str) -> (r: Option<u16>)
    ensures
        r == spec_parse_hex_group(s@),
{
    let n = s.unicode_len();
    if n < 1 || n > 4 {
        return None;
    }
    let mut v: u32 = 0;
    let mut i: usize = 0;
    proof {
        assert(s@.subrange(0, 0) =~= Seq::<char>::empty());
    }
    while i < n
        invariant
            i <= n <= 4,
            n == s@.len(),
            v == spec_hex_digits_value(s@.subrange(0, i as int)),
            spec_all_hex(s@.subrange(0, i as int)),
            i == 0 ==> v == 0,
            i == 1 ==> v < 0x10,
            i == 2 ==> v < 0x100,
            i == 3 ==> v < 0x1000,
            i == 4 ==> v < 0x10000,
        decreases n - i,
    {
        let c = s.get_char(i);
        let ghost next = s@.subrange(0, i + 1);
        proof {
            assert(next.drop_last() =~= s@.subrange(0, i as int));
            assert(next.last() == c);
        }
        match hex_value(c) {
            None => {
                return None;
            },
            Some(d) => {
                proof {
                    assert forall|j: int| 0 <= j < next.len() implies spec_hex_value(
                        #[trigger] next[j],
                    ) is Some by {
                        if j < next.len() - 1 {
                            assert(next[j] == s@.subrange(0, i as int)[j]);
                        }
                    }
                }
                v = v * 16 + d;
            },
        }
        i += 1;
    }
    assert(s@.subrange(0, i as int) =~= s@);
    Some(v as u16)
}

/// Reads a part of an IPv6 address.
#[verifier::rlimit(40)]
fn parse_groups(s: &str, allow_v4: bool) -> (r: Option<Vec<u16>>)
    ensures
        match r {
            Some(g) => spec_parse_groups(s@, allow_v4) == Some(g@),
            None => spec_parse_groups(s@, allow_v4) is None,
        },
{
    let mut out: Vec<u16> = Vec::new();
    if s.unicode_len() == 0 {
        return Some(out);
    }
    let parts = split(s, ':');
    proof {
        lemma_split_nonempty(s@, ':');
    }
    let ghost all = spec_split(s@, ':');
    let last = parts.len() - 1;
    let mut i: usize = 0;
    proof {
        assert(all.drop_last().subrange(0, 0) =~= Seq::<Seq<char>>::empty());
    }
    while i < last
        invariant
            i <= last,
            last == parts@.len() - 1,
            all == spec_split(s@, ':'),
            parts@.len() == all.len(),
            forall|k: int| 0 <= k < parts@.len() ==> (#[trigger] parts@[k])@ == all[k],
            spec_hex_groups(all.drop_last().subrange(0, i as int)) == Some(out@),
        decreases last - i,
    {
        let ghost front = all.drop_last().subrange(0, i + 1);
        proof {
            assert(front.drop_last() =~= all.drop_last().subrange(0, i as int));
            assert(front.last() == all[i as int]);
        }
        match parse_hex_group(parts[i].as_str()) {
            Some(g) => {
                out.push(g);
            },
            None => {
                proof {
                    lemma_hex_groups_prefix(all.drop_last(), i + 1);
                }
                return None;
            },
        }
        i += 1;
    }
    assert(all.drop_last().subrange(0, i as int) =~= all.drop_last());
    assert(all.last() == parts@[last as int]@);
    match parse_hex_group(parts[last].as_str()) {
        Some(g) => {
            out.push(g);
            Some(out)
        },
        None => {
            if allow_v4 {
                match parse_ipv4(parts[last].as_str()) {
                    Some(a) => {
                        let ghost front = out@;
                        out.push((a[0] as u16) * 256 + (a[1] as u16));
                        out.push((a[2] as u16) * 256 + (a[3] as u16));
                        assert(out@ =~= front + spec_v4_groups(a@));
                        Some(out)
                    },
                    None => None,
                }
            } else {
                None
            }
        },
    }
}

/// Where some pieces up to `i` are no groups, the pieces are not all
/// groups.
proof fn lemma_hex_groups_prefix(parts: Seq<Seq<char>>, i: int)
    requires
        0 <= i <= parts.len(),
        spec_hex_groups(parts.subrange(0, i)) is None,
    ensures
        spec_hex_groups(parts) is None,
    decreases parts.len() - i,
{
    if i == parts.len() {
        assert(parts.subrange(0, i) =~= parts);
    } else {
        assert(parts.subrange(0, i + 1).drop_last() =~= parts.subrange(0, i));
        lemma_hex_groups_prefix(parts, i + 1);
    }
}

/// Finds the first place where two colons follow each other.
fn first_double_colon(s: &str) -> (r: Option<usize>)
    ensures
        match r {
            Some(p) => spec_first_double_colon(s@, 0) == Some(p as int) && p + 2 <= s@.len(),
            None => spec_first_double_colon(s@, 0) is None,
        },
{
    let n = s.unicode_len();
    if n < 2 {
        return None;
    }
    let mut i: usize = 0;
    while i < n - 1
        invariant
            n == s@.len(),
            n >= 2,
            i <= n - 1,
            spec_first_double_colon(s@, 0) == spec_first_double_colon(s@, i as int),
        decreases n - i,
    {
        if s.get_char(i) == ':' && s.get_char(i + 1) == ':' {
            return Some(i);
        }
        i += 1;
    }
    None
}

/// Reads an IPv6 address.
#[verifier::rlimit(40)]
fn parse_ipv6(s: &str) -> (r: Option<[u16; 8]>)
    ensures
        match r {
            Some(g) => spec_parse_ipv6(s@) == Some(g@),
            None => spec_parse_ipv6(s@) is None,
        },
{
    let n = s.unicode_len();
    let mut out = [0u16; 8];
    match first_double_colon(s) {
        None => {
            let groups = match parse_groups(s, true) {
                Some(g) => g,
                None => {
                    return None;
                },
            };
            if groups.len() != 8 {
                return None;
            }
            let mut i: usize = 0;
            while i < 8
                invariant
                    i <= 8,
                    groups@.len() == 8,
                    out@.len() == 8,
                    forall|k: int| 0 <= k < i ==> out@[k] == groups@[k],
                decreases 8 - i,
            {
                out[i] = groups[i];
                i += 1;
            }
            assert(out@ =~= groups@);
            Some(out)
        },
        Some(p) => {
            let head_text = s.substring_char(0, p);
            let tail_text = s.substring_char(p + 2, n);
            assert(tail_text@ =~= s@.skip(p + 2));
            let head = match parse_groups(head_text, false) {
                Some(g) => g,
                None => {
                    return None;
                },
            };
            let tail = match parse_groups(tail_text, true) {
                Some(g) => g,
                None => {
                    return None;
                },
            };
            if head.len() > 7 || tail.len() > 7 - head.len() {
                return None;
            }
            let h = head.len();
            let t = tail.len();
            let mut i: usize = 0;
            while i < h
                invariant
                    i <= h,
                    h == head@.len(),
                    h <= 7,
                    out@.len() == 8,
                    forall|k: int| 0 <= k < i ==> out@[k] == head@[k],
                    forall|k: int| i <= k < 8 ==> out@[k] == 0,
                decreases h - i,
            {
                out[i] = head[i];
                i += 1;
            }
            let mut j: usize = 0;
            while j < t
                invariant
                    j <= t,
                    t == tail@.len(),
                    h == head@.len(),
                    h + t <= 7,
                    out@.len() == 8,
                    forall|k: int| 0 <= k < h ==> out@[k] == head@[k],
                    forall|k: int| h <= k < 8 - t ==> out@[k] == 0,
                    forall|k: int| 0 <= k < j ==> out@[8 - t + k] == tail@[k],
                decreases t - j,
            {
                out[8 - t + j] = tail[j];
                j += 1;
            }
            assert(out@ =~= head@ + spec_zero_groups((8 - h - t) as nat) + tail@);
            Some(out)
        },
    }
}

/// Reads an IP address.
pub fn parse_ip(s: &str) -> (r: Option<IpAddr>)
    ensures
        r == spec_parse_ip(s@),
{
    match parse_ipv4(s) {
        Some(a) => {
            let ghost v = spec_parse_ipv4(s@)->Some_0;
            assert([v[0], v[1], v[2], v[3]] =~= a);
            Some(IpAddr::V4(a))
        },
        None => match parse_ipv6(s) {
            Some(g) => {
                let ghost v = spec_parse_ipv6(s@)->Some_0;
                assert([v[0], v[1], v[2], v[3], v[4], v[5], v[6], v[7]] =~= g);
                Some(IpAddr::V6(g))
            },
            None => None,
        },
    }
}

/// Writes groups in hexadecimal notation with colons between them.
fn join_hex(g: &[u16]) -> (s: String)
    ensures
        s@ == spec_join_hex(g@),
{
    let mut s = String::new();
    let mut i: usize = 0;
    proof {
        reveal_strlit(":");
        assert(g@.subrange(0, 0) =~= Seq::<u16>::empty());
    }
    while i < g.len()
        invariant
            i <= g@.len(),
            s@ == spec_join_hex(g@.subrange(0, i as int)),
            ":"@ == seq![':'],
        decreases g@.len() - i,
    {
        let ghost next = g@.subrange(0, i + 1);
        proof {
            assert(next.drop_last() =~= g@.subrange(0, i as int));
            assert(next.last() == g@[i as int]);
        }
        if i > 0 {
            s.append(":");
        }
        s.append(hex(g[i]).as_str());
        proof {
            if i == 0 {
                assert(next[0] == g@[0]);
                assert(s@ =~= spec_hex(g@[0] as nat));
            }
        }
        i += 1;
    }
    assert(g@.subrange(0, i as int) =~= g@);
    s
}

/// Finds the longest run of zero groups.
fn longest_zero_run(g: &[u16; 8]) -> (r: (usize, usize))
    ensures
        (r.0 as int, r.1 as int) == spec_longest_zero_run(g@, 8),
        r.0 + r.1 <= 8,
{
    let mut best: (usize, usize) = (0, 0);
    let mut run: usize = 0;
    let mut i: usize = 0;
    while i < 8
        invariant
            i <= 8,
            run == spec_zero_run(g@, i as int),
            run <= i,
            (best.0 as int, best.1 as int) == spec_longest_zero_run(g@, i as int),
            best.0 + best.1 <= i,
        decreases 8 - i,
    {
        if g[i] == 0 {
            run = run + 1;
        } else {
            run = 0;
        }
        i += 1;
        if run > best.1 {
            best = (i - run, run);
        }
    }
    best
}

/// Writes an IP address as text.
#[verifier::rlimit(40)]
pub fn ip_text(ip: &IpAddr) -> (s: String)
    ensures
        s@ == spec_ip_text(*ip),
{
    proof {
        reveal_strlit(".");
        reveal_strlit("::");
        reveal_strlit("::ffff:");
    }
    match ip {
        IpAddr::V4(a) => {
            let mut s = decimal(a[0] as u16);
            s.append(".");
            s.append(decimal(a[1] as u16).as_str());
            s.append(".");
            s.append(decimal(a[2] as u16).as_str());
            s.append(".");
            s.append(decimal(a[3] as u16).as_str());
            assert(s@ =~= spec_ipv4_text(a@));
            s
        },
        IpAddr::V6(g) => {
            if g[0] == 0 && g[1] == 0 && g[2] == 0 && g[3] == 0 && g[4] == 0 && g[5] == 0xffff {
                let mut s = String::from_str("::ffff:");
                s.append(decimal(g[6] / 256).as_str());
                s.append(".");
                s.append(decimal(g[6] % 256).as_str());
                s.append(".");
                s.append(decimal(g[7] / 256).as_str());
                s.append(".");
                s.append(decimal(g[7] % 256).as_str());
                assert("::ffff:"@ =~= seq![':', ':', 'f', 'f', 'f', 'f', ':']);
                assert(s@ =~= spec_ipv6_text(g@));
                s
            } else {
                let (start, len) = longest_zero_run(g);
                if len > 1 {
                    let mut s = join_hex(vstd::slice::slice_subrange(g.as_slice(), 0, start));
                    s.append("::");
                    let rest = join_hex(
                        vstd::slice::slice_subrange(g.as_slice(), start + len, 8),
                    );
                    s.append(rest.as_str());
                    assert("::"@ =~= seq![':', ':']);
                    assert(g@.skip(start + len) =~= g@.subrange(start + len, 8));
                    assert(s@ =~= spec_ipv6_text(g@));
                    s
                } else {
                    join_hex(g.as_slice())
                }
            }
        },
    }
}

/// The decimal notation of a number consists of digits that stand for the
/// number, and begins with a zero only where the number is below ten.
pub proof fn lemma_decimal_is_digits(n: nat)
    ensures
        spec_decimal(n).len() >= 1,
        n < 10 ==> spec_decimal(n).len() == 1,
        10 <= n < 100 ==> spec_decimal(n).len() == 2,
        100 <= n < 1000 ==> spec_decimal(n).len() == 3,
        spec_all_digits(spec_decimal(n)),
        spec_digits_value(spec_decimal(n)) == n,
        n > 0 ==> spec_decimal(n)[0] != '0',
    decreases n,
{
    let s = spec_decimal(n);
    if n < 10 {
        assert(s.drop_last() =~= Seq::<char>::empty());
        assert(spec_digits_value(s.drop_last()) == 0);
        assert(s.last() == spec_digit(n));
    } else {
        lemma_decimal_is_digits(n / 10);
        let head = spec_decimal(n / 10);
        assert(s.drop_last() =~= head);
        assert(s.last() == spec_digit(n % 10));
        assert(s[0] == head[0]);
        assert forall|i: int| 0 <= i < s.len() implies spec_digit_value(
            #[trigger] s[i],
        ) is Some by {
            if i < head.len() {
                assert(s[i] == head[i]);
            }
        }
    }
}

/// A port is read back from its decimal notation.
pub proof fn lemma_parse_port_decimal(port: u16)
    ensures
        spec_parse_port(spec_decimal(port as nat)) == Some(port),
{
    lemma_decimal_is_digits(port as nat);
    let s = spec_decimal(port as nat);
    assert(spec_digit_value(s[0]) is Some);
}

/// A number of an IPv4 address is read back from its decimal notation.
pub proof fn lemma_parse_octet_decimal(b: u8)
    ensures
        spec_parse_octet(spec_decimal(b as nat)) == Some(b),
{
    lemma_decimal_is_digits(b as nat);
}

/// A text without the separator is its own single piece, and what stands
/// before the first separator is the first piece.
pub proof fn lemma_split_first(a: Seq<char>, sep: char, b: Seq<char>)
    requires
        forall|i: int| 0 <= i < a.len() ==> a[i] != sep,
    ensures
        spec_split(a, sep) == seq![a],
        spec_split(a + seq![sep] + b, sep) == seq![a] + spec_split(b, sep),
    decreases a.len(),
{
    let s = a + seq![sep] + b;
    if a.len() == 0 {
        assert(s.skip(1) =~= b);
        assert(a =~= Seq::<char>::empty());
        assert(spec_split(a, sep) =~= seq![a]);
    } else {
        let t = a.skip(1);
        assert forall|i: int| 0 <= i < t.len() implies t[i] != sep by {
            assert(t[i] == a[i + 1]);
        }
        lemma_split_first(t, sep, b);
        assert(s.skip(1) =~= t + seq![sep] + b);
        assert(seq![a[0]] + t =~= a);
        assert(s[0] == a[0]);
        let rest = spec_split(s.skip(1), sep);
        assert(rest.update(0, seq![s[0]] + rest[0]) =~= seq![a] + spec_split(b, sep));
        let rest_a = spec_split(t, sep);
        assert(rest_a.update(0, seq![a[0]] + rest_a[0]) =~= seq![a]);
    }
}

/// Decimal notation holds no dot.
proof fn lemma_decimal_has_no_dot(n: nat)
    ensures
        forall|i: int| 0 <= i < spec_decimal(n).len() ==> spec_decimal(n)[i] != '.',
{
    lemma_decimal_is_digits(n);
    assert forall|i: int| 0 <= i < spec_decimal(n).len() implies spec_decimal(n)[i] != '.' by {
        assert(spec_digit_value(spec_decimal(n)[i]) is Some);
    }
}

/// An IPv4 address is read back from its text form.
#[verifier::rlimit(40)]
pub proof fn lemma_parse_ipv4_text(ip: Seq<u8>)
    requires
        ip.len() == 4,
    ensures
        spec_parse_ipv4(spec_ipv4_text(ip)) == Some(ip),
{
    let d0 = spec_decimal(ip[0] as nat);
    let d1 = spec_decimal(ip[1] as nat);
    let d2 = spec_decimal(ip[2] as nat);
    let d3 = spec_decimal(ip[3] as nat);
    let dot = seq!['.'];
    lemma_decimal_has_no_dot(ip[0] as nat);
    lemma_decimal_has_no_dot(ip[1] as nat);
    lemma_decimal_has_no_dot(ip[2] as nat);
    lemma_decimal_has_no_dot(ip[3] as nat);
    let t2 = d2 + dot + d3;
    let t1 = d1 + dot + t2;
    let t0 = d0 + dot + t1;
    assert(spec_ipv4_text(ip) =~= t0);
    lemma_split_first(d3, '.', Seq::empty());
    lemma_split_first(d2, '.', d3);
    lemma_split_first(d1, '.', t2);
    lemma_split_first(d0, '.', t1);
    let parts = spec_split(t0, '.');
    assert(parts =~= seq![d0, d1, d2, d3]);
    lemma_parse_octet_decimal(ip[0]);
    lemma_parse_octet_decimal(ip[1]);
    lemma_parse_octet_decimal(ip[2]);
    lemma_parse_octet_decimal(ip[3]);
    assert(seq![ip[0], ip[1], ip[2], ip[3]] =~= ip);
}

/// The hexadecimal notation of a number that fits 16 bits is a group that
/// stands for the number.
pub proof fn lemma_hex_is_group(n: nat)
    requires
        n < 0x10000,
    ensures
        1 <= spec_hex(n).len() <= 4,
        n < 0x10 ==> spec_hex(n).len() == 1,
        0x10 <= n < 0x100 ==> spec_hex(n).len() == 2,
        0x100 <= n < 0x1000 ==> spec_hex(n).len() == 3,
        spec_all_hex(spec_hex(n)),
        spec_hex_digits_value(spec_hex(n)) == n,
        spec_parse_hex_group(spec_hex(n)) == Some(n as u16),
        forall|i: int|
            0 <= i < spec_hex(n).len() ==> spec_hex(n)[i] != ':' && spec_hex(n)[i] != '.',
    decreases n,
{
    let s = spec_hex(n);
    if n < 16 {
        assert(s.drop_last() =~= Seq::<char>::empty());
        assert(spec_hex_digits_value(s.drop_last()) == 0);
        assert(s.last() == spec_hex_digit(n));
    } else {
        lemma_hex_is_group(n / 16);
        let head = spec_hex(n / 16);
        assert(s.drop_last() =~= head);
        assert(s.last() == spec_hex_digit(n % 16));
        assert forall|i: int| 0 <= i < s.len() implies spec_hex_value(#[trigger] s[i]) is Some by {
            if i < head.len() {
                assert(s[i] == head[i]);
            }
        }
    }
    assert forall|i: int| 0 <= i < s.len() implies s[i] != ':' && s[i] != '.' by {
        assert(spec_hex_value(s[i]) is Some);
    }
}

/// The hexadecimal notations of the groups.
pub open spec fn spec_hex_texts(g: Seq<u16>) -> Seq<Seq<char>> {
    Seq::new(g.len(), |i: int| spec_hex(g[i] as nat))
}

/// The joined groups begin with the first group.
proof fn lemma_join_hex_front(g: Seq<u16>)
    requires
        g.len() >= 2,
    ensures
        spec_join_hex(g) == spec_hex(g[0] as nat) + seq![':'] + spec_join_hex(g.skip(1)),
    decreases g.len(),
{
    let front = g.drop_last();
    let rest = g.skip(1);
    assert(spec_join_hex(g) == spec_join_hex(front) + seq![':'] + spec_hex(g.last() as nat));
    assert(front[0] == g[0]);
    assert(rest.last() == g.last());
    if g.len() == 2 {
        assert(front.len() == 1);
        assert(rest.len() == 1);
        assert(rest[0] == g.last());
        assert(spec_join_hex(front) == spec_hex(g[0] as nat));
        assert(spec_join_hex(rest) == spec_hex(g.last() as nat));
    } else {
        lemma_join_hex_front(front);
        assert(front.skip(1) =~= rest.drop_last());
        assert(spec_join_hex(rest) == spec_join_hex(rest.drop_last()) + seq![':'] + spec_hex(
            g.last() as nat,
        ));
        assert(spec_hex(g[0] as nat) + seq![':'] + spec_join_hex(rest.drop_last()) + seq![':']
            + spec_hex(g.last() as nat) =~= spec_hex(g[0] as nat) + seq![':'] + (spec_join_hex(
            rest.drop_last(),
        ) + seq![':'] + spec_hex(g.last() as nat)));
    }
}

/// The pieces of joined groups are the notations of the groups. Joined
/// groups hold no dot and no two colons in a row, and neither begin nor
/// end with a colon.
#[verifier::rlimit(40)]
proof fn lemma_split_join_hex(g: Seq<u16>)
    requires
        g.len() >= 1,
    ensures
        spec_split(spec_join_hex(g), ':') == spec_hex_texts(g),
        spec_join_hex(g).len() >= 1,
        spec_join_hex(g)[0] != ':',
        spec_join_hex(g).last() != ':',
        forall|i: int| 0 <= i < spec_join_hex(g).len() ==> spec_join_hex(g)[i] != '.',
        forall|i: int|
            0 <= i < spec_join_hex(g).len() - 1 ==> !#[trigger] spec_double_colon_at(
                spec_join_hex(g),
                i,
            ),
    decreases g.len(),
{
    let first = spec_hex(g[0] as nat);
    lemma_hex_is_group(g[0] as nat);
    if g.len() == 1 {
        lemma_split_first(first, ':', Seq::empty());
        assert(spec_hex_texts(g) =~= seq![first]);
        assert forall|i: int| 0 <= i < first.len() - 1 implies !#[trigger] spec_double_colon_at(
            first,
            i,
        ) by {
            assert(first[i] != ':');
        }
    } else {
        let rest = g.skip(1);
        lemma_join_hex_front(g);
        lemma_split_join_hex(rest);
        let tail = spec_join_hex(rest);
        let text = spec_join_hex(g);
        let n = first.len() as int;
        lemma_split_first(first, ':', tail);
        assert(spec_hex_texts(g) =~= seq![first] + spec_hex_texts(rest)) by {
            assert forall|i: int| 0 <= i < g.len() implies spec_hex_texts(g)[i] == (seq![first]
                + spec_hex_texts(rest))[i] by {
                if i > 0 {
                    assert(rest[i - 1] == g[i]);
                }
            }
        }
        assert(text.len() == n + 1 + tail.len());
        assert forall|i: int| 0 <= i < n implies text[i] == first[i] by {}
        assert(text[n] == ':');
        assert forall|i: int| n < i < text.len() implies text[i] == tail[i - n - 1] by {}
        assert(text.last() == tail.last());
        assert forall|i: int| 0 <= i < text.len() implies text[i] != '.' by {
            if i < n {
                assert(text[i] == first[i]);
            } else if i > n {
                assert(text[i] == tail[i - n - 1]);
            }
        }
        assert forall|i: int| 0 <= i < text.len() - 1 implies !#[trigger] spec_double_colon_at(
            text,
            i,
        ) by {
            if i < n {
                assert(text[i] == first[i]);
                assert(first[i] != ':');
            } else if i == n {
                assert(text[i + 1] == tail[0]);
            } else {
                assert(text[i] == tail[i - n - 1]);
                assert(text[i + 1] == tail[i - n]);
                assert(!spec_double_colon_at(tail, i - n - 1));
            }
        }
    }
}

/// The notations of groups are read as the groups.
proof fn lemma_hex_groups_of_texts(g: Seq<u16>)
    ensures
        spec_hex_groups(spec_hex_texts(g)) == Some(g),
    decreases g.len(),
{
    if g.len() == 0 {
        assert(g =~= Seq::<u16>::empty());
    } else {
        let parts = spec_hex_texts(g);
        assert(parts.drop_last() =~= spec_hex_texts(g.drop_last()));
        lemma_hex_groups_of_texts(g.drop_last());
        lemma_hex_is_group(g.last() as nat);
        assert(parts.last() == spec_hex(g.last() as nat));
        assert(g.drop_last().push(g.last()) =~= g);
    }
}

/// Joined groups are read as the groups.
proof fn lemma_parse_join_hex(g: Seq<u16>, allow_v4: bool)
    ensures
        spec_parse_groups(spec_join_hex(g), allow_v4) == Some(g),
{
    if g.len() == 0 {
        assert(g =~= Seq::<u16>::empty());
    } else {
        lemma_split_join_hex(g);
        let parts = spec_hex_texts(g);
        assert(parts.drop_last() =~= spec_hex_texts(g.drop_last()));
        lemma_hex_groups_of_texts(g.drop_last());
        lemma_hex_is_group(g.last() as nat);
        assert(parts.last() == spec_hex(g.last() as nat));
        assert(g.drop_last().push(g.last()) =~= g);
    }
}

/// Where no two colons follow each other from `i` on, none are found.
proof fn lemma_no_double_colon(s: Seq<char>, i: int)
    requires
        0 <= i,
        forall|k: int| i <= k < s.len() - 1 ==> !#[trigger] spec_double_colon_at(s, k),
    ensures
        spec_first_double_colon(s, i) is None,
    decreases s.len() - i,
{
    if i + 1 < s.len() {
        lemma_no_double_colon(s, i + 1);
    }
}

/// Where the first two colons in a row stand at `p`, they are found
/// there.
proof fn lemma_double_colon_at(s: Seq<char>, i: int, p: int)
    requires
        0 <= i <= p,
        p + 1 < s.len(),
        spec_double_colon_at(s, p),
        forall|k: int| i <= k < p ==> !#[trigger] spec_double_colon_at(s, k),
    ensures
        spec_first_double_colon(s, i) == Some(p),
    decreases p - i,
{
    if i < p {
        lemma_double_colon_at(s, i + 1, p);
    }
}

/// The run of zeros before `i` lies within the groups and holds zeros
/// only.
proof fn lemma_zero_run(g: Seq<u16>, i: int)
    requires
        0 <= i <= g.len(),
    ensures
        0 <= spec_zero_run(g, i) <= i,
        forall|k: int| i - spec_zero_run(g, i) <= k < i ==> g[k] == 0,
    decreases i,
{
    if i > 0 && g[i - 1] == 0 {
        lemma_zero_run(g, i - 1);
    }
}

/// The longest run of zeros lies within the groups and holds zeros only.
proof fn lemma_longest_zero_run(g: Seq<u16>, i: int)
    requires
        0 <= i <= g.len(),
    ensures
        0 <= spec_longest_zero_run(g, i).0,
        0 <= spec_longest_zero_run(g, i).1,
        spec_longest_zero_run(g, i).0 + spec_longest_zero_run(g, i).1 <= i,
        forall|k: int|
            spec_longest_zero_run(g, i).0 <= k < spec_longest_zero_run(g, i).0
                + spec_longest_zero_run(g, i).1 ==> g[k] == 0,
    decreases i,
{
    if i > 0 {
        lemma_longest_zero_run(g, i - 1);
        lemma_zero_run(g, i);
    }
}

/// The marker in front of an IPv4 address mapped into IPv6.
pub open spec fn spec_v4_mapped_prefix() -> Seq<char> {
    seq![':', ':', 'f', 'f', 'f', 'f', ':']
}

/// An IPv4 address with the marker in front is no IPv4 address.
#[verifier::rlimit(40)]
proof fn lemma_v4_mapped_is_no_ipv4(b: Seq<u8>)
    requires
        b.len() == 4,
    ensures
        spec_parse_ipv4(spec_v4_mapped_prefix() + spec_ipv4_text(b)) is None,
{
    let prefix = spec_v4_mapped_prefix();
    let text = prefix + spec_ipv4_text(b);
    let d0 = spec_decimal(b[0] as nat);
    let after = spec_decimal(b[1] as nat) + seq!['.'] + spec_decimal(b[2] as nat) + seq!['.']
        + spec_decimal(b[3] as nat);
    let first = prefix + d0;
    assert(text =~= first + seq!['.'] + after);
    lemma_decimal_has_no_dot(b[0] as nat);
    assert forall|i: int| 0 <= i < first.len() implies first[i] != '.' by {
        if i >= 7 {
            assert(first[i] == d0[i - 7]);
        }
    }
    lemma_split_first(first, '.', after);
    lemma_split_nonempty(after, '.');
    assert(spec_split(text, '.')[0] == first);
    assert(first.len() > 3);
}

/// What follows the double colon of an IPv4 address mapped into IPv6 is
/// read as three groups.
#[verifier::rlimit(40)]
proof fn lemma_v4_mapped_tail(b: Seq<u8>)
    requires
        b.len() == 4,
    ensures
        spec_parse_groups(
            seq!['f', 'f', 'f', 'f'] + seq![':'] + spec_ipv4_text(b),
            true,
        ) == Some(seq![0xffffu16] + spec_v4_groups(b)),
{
    let ffff = seq!['f', 'f', 'f', 'f'];
    let v4 = spec_ipv4_text(b);
    let tail = ffff + seq![':'] + v4;
    lemma_parse_ipv4_text(b);
    lemma_ipv4_text_shape(b);
    lemma_split_first(ffff, ':', v4);
    lemma_split_first(v4, ':', Seq::empty());
    let parts = spec_split(tail, ':');
    assert(parts =~= seq![ffff, v4]);
    assert(parts.drop_last() =~= seq![ffff]);
    assert(parts.last() == v4);
    lemma_parse_ffff();
    assert(spec_parse_hex_group(v4) is None);
}

/// The text form of an IPv4 address mapped into IPv6 is read back.
#[verifier::rlimit(40)]
proof fn lemma_parse_v4_mapped_text(g: Seq<u16>)
    requires
        g.len() == 8,
        spec_is_v4_mapped(g),
    ensures
        spec_parse_ipv4(spec_ipv6_text(g)) is None,
        spec_parse_ipv6(spec_ipv6_text(g)) == Some(g),
{
    let text = spec_ipv6_text(g);
    let b = seq![(g[6] / 256) as u8, (g[6] % 256) as u8, (g[7] / 256) as u8, (g[7] % 256) as u8];
    let v4 = spec_ipv4_text(b);
    assert(text == spec_v4_mapped_prefix() + v4);
    lemma_v4_mapped_is_no_ipv4(b);
    lemma_v4_mapped_tail(b);
    assert(spec_double_colon_at(text, 0));
    assert(spec_first_double_colon(text, 0) == Some(0int));
    assert(text.subrange(0, 0) =~= Seq::<char>::empty());
    assert(text.skip(2) =~= seq!['f', 'f', 'f', 'f'] + seq![':'] + v4);
    assert(spec_v4_groups(b) =~= seq![g[6], g[7]]);
    assert(Seq::<u16>::empty() + spec_zero_groups(5) + (seq![0xffffu16] + seq![g[6], g[7]]) =~= g);
}

/// The group of four letters f is read as the largest group.
proof fn lemma_parse_ffff()
    ensures
        spec_hex_groups(seq![seq!['f', 'f', 'f', 'f']]) == Some(seq![0xffffu16]),
{
    let ffff = seq!['f', 'f', 'f', 'f'];
    let s3 = ffff.drop_last();
    let s2 = s3.drop_last();
    let s1 = s2.drop_last();
    assert(s1.drop_last() =~= Seq::<char>::empty());
    assert(spec_hex_digits_value(s1.drop_last()) == 0);
    assert(spec_hex_digits_value(s1) == 15);
    assert(spec_hex_digits_value(s2) == 255);
    assert(spec_hex_digits_value(s3) == 4095);
    assert(spec_hex_digits_value(ffff) == 65535);
    assert(spec_parse_hex_group(ffff) == Some(0xffffu16));
    let one = seq![ffff];
    assert(one.drop_last() =~= Seq::<Seq<char>>::empty());
    assert(spec_hex_groups(one.drop_last()) == Some(Seq::<u16>::empty()));
    assert(one.last() == ffff);
    assert(Seq::<u16>::empty().push(0xffffu16) =~= seq![0xffffu16]);
}

/// The text form of an IPv6 address with a double colon is read back.
#[verifier::rlimit(40)]
proof fn lemma_parse_compressed_text(g: Seq<u16>)
    requires
        g.len() == 8,
        !spec_is_v4_mapped(g),
        spec_longest_zero_run(g, 8).1 > 1,
    ensures
        spec_parse_ipv4(spec_ipv6_text(g)) is None,
        spec_parse_ipv6(spec_ipv6_text(g)) == Some(g),
{
    let text = spec_ipv6_text(g);
    let (start, len) = spec_longest_zero_run(g, 8);
    lemma_longest_zero_run(g, 8);
    let head = g.subrange(0, start);
    let tail = g.skip(start + len);
    let a = spec_join_hex(head);
    let b = spec_join_hex(tail);
    let p = a.len() as int;
    assert(text == a + seq![':', ':'] + b);
    assert(text.len() == p + 2 + b.len());
    assert forall|i: int| 0 <= i < p implies text[i] == a[i] by {}
    assert(text[p] == ':' && text[p + 1] == ':');
    assert forall|i: int| p + 2 <= i < text.len() implies text[i] == b[i - p - 2] by {}
    if head.len() > 0 {
        lemma_split_join_hex(head);
    }
    if tail.len() > 0 {
        lemma_split_join_hex(tail);
    }
    assert(spec_parse_ipv4(text) is None) by {
        assert forall|i: int| 0 <= i < text.len() implies text[i] != '.' by {
            if i < p {
                assert(text[i] == a[i]);
            } else if i >= p + 2 {
                assert(text[i] == b[i - p - 2]);
            }
        }
        lemma_split_first(text, '.', Seq::empty());
    }
    assert(spec_first_double_colon(text, 0) == Some(p)) by {
        assert(spec_double_colon_at(text, p));
        assert forall|k: int| 0 <= k < p implies !#[trigger] spec_double_colon_at(text, k) by {
            assert(text[k] == a[k]);
            if k + 1 < p {
                assert(text[k + 1] == a[k + 1]);
                assert(!spec_double_colon_at(a, k));
            } else {
                assert(a[k] == a.last());
            }
        }
        lemma_double_colon_at(text, 0, p);
    }
    assert(text.subrange(0, p) =~= a);
    assert(text.skip(p + 2) =~= b);
    lemma_parse_join_hex(head, false);
    lemma_parse_join_hex(tail, true);
    assert(head + spec_zero_groups((8 - head.len() - tail.len()) as nat) + tail =~= g);
}

/// The text form of an IPv6 address without a double colon is read back.
proof fn lemma_parse_plain_text(g: Seq<u16>)
    requires
        g.len() == 8,
        !spec_is_v4_mapped(g),
        spec_longest_zero_run(g, 8).1 <= 1,
    ensures
        spec_parse_ipv4(spec_ipv6_text(g)) is None,
        spec_parse_ipv6(spec_ipv6_text(g)) == Some(g),
{
    let text = spec_ipv6_text(g);
    lemma_split_join_hex(g);
    lemma_split_first(text, '.', Seq::empty());
    lemma_no_double_colon(text, 0);
    lemma_parse_join_hex(g, true);
}

/// The text form of an IPv6 address is not that of an IPv4 address, and
/// the address is read back from it.
pub proof fn lemma_parse_ipv6_text(g: Seq<u16>)
    requires
        g.len() == 8,
    ensures
        spec_parse_ipv4(spec_ipv6_text(g)) is None,
        spec_parse_ipv6(spec_ipv6_text(g)) == Some(g),
{
    if spec_is_v4_mapped(g) {
        lemma_parse_v4_mapped_text(g);
    } else if spec_longest_zero_run(g, 8).1 > 1 {
        lemma_parse_compressed_text(g);
    } else {
        lemma_parse_plain_text(g);
    }
}

/// The text form of an IPv4 address holds no colon and is longer than a
/// group of an IPv6 address.
proof fn lemma_ipv4_text_shape(b: Seq<u8>)
    requires
        b.len() == 4,
    ensures
        spec_ipv4_text(b).len() >= 7,
        forall|i: int| 0 <= i < spec_ipv4_text(b).len() ==> spec_ipv4_text(b)[i] != ':',
{
    let d0 = spec_decimal(b[0] as nat);
    let d1 = spec_decimal(b[1] as nat);
    let d2 = spec_decimal(b[2] as nat);
    let d3 = spec_decimal(b[3] as nat);
    lemma_decimal_is_digits(b[0] as nat);
    lemma_decimal_is_digits(b[1] as nat);
    lemma_decimal_is_digits(b[2] as nat);
    lemma_decimal_is_digits(b[3] as nat);
    let text = spec_ipv4_text(b);
    assert forall|i: int| 0 <= i < text.len() implies text[i] != ':' by {
        let n0 = d0.len() as int;
        let n1 = d1.len() as int;
        let n2 = d2.len() as int;
        if i < n0 {
            assert(text[i] == d0[i]);
            assert(spec_digit_value(d0[i]) is Some);
        } else if i == n0 {
        } else if i < n0 + 1 + n1 {
            assert(text[i] == d1[i - n0 - 1]);
            assert(spec_digit_value(d1[i - n0 - 1]) is Some);
        } else if i == n0 + 1 + n1 {
        } else if i < n0 + n1 + n2 + 2 {
            assert(text[i] == d2[i - n0 - n1 - 2]);
            assert(spec_digit_value(d2[i - n0 - n1 - 2]) is Some);
        } else if i == n0 + n1 + n2 + 2 {
        } else {
            assert(text[i] == d3[i - n0 - n1 - n2 - 3]);
            assert(spec_digit_value(d3[i - n0 - n1 - n2 - 3]) is Some);
        }
    }
}

/// An address is read back from its text form.
pub proof fn lemma_parse_ip_text(ip: IpAddr)
    ensures
        spec_parse_ip(spec_ip_text(ip)) == Some(ip),
{
    match ip {
        IpAddr::V4(a) => {
            lemma_parse_ipv4_text(a@);
            let v = spec_parse_ipv4(spec_ipv4_text(a@))->Some_0;
            assert([v[0], v[1], v[2], v[3]] =~= a);
        },
        IpAddr::V6(g) => {
            lemma_parse_ipv6_text(g@);
            let v = spec_parse_ipv6(spec_ipv6_text(g@))->Some_0;
            assert([v[0], v[1], v[2], v[3], v[4], v[5], v[6], v[7]] =~= g);
        },
    }
}

} // verus!
