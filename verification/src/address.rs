//! Socket addresses and the literals that denote them.
//!
//! An IPv4 socket address is written `a.b.c.d:port`, an IPv6 one
//! `[groups]:port` or `[groups%scope]:port`. The groups of an IPv6 address
//! are up to eight hexadecimal numbers separated by colons, of which one run
//! of zero groups may be left out and written `::`, and of which the last two
//! may be written as a dotted IPv4 address.
use crate::scan::{at, expect, number_at, read_number};
use crate::text::chars_of;
use vstd::prelude::*;

verus! {

/// An IP address together with a port.
#[derive(Clone, Copy, Debug, PartialEq, Eq, PartialOrd, Ord, Hash)]
#[allow(inconsistent_fields)]
pub enum SocketAddress {
    /// An IPv4 address, its four octets taken as one number, most significant
    /// octet first.
    V4 { ip: u32, port: u16 },
    /// An IPv6 address, its eight groups taken as one number, most
    /// significant group first.
    V6 { ip: u128, port: u16, flowinfo: u32, scope_id: u32 },
}

/// The octet of a dotted address that follows `pos`, preceded by a dot unless
/// it is the first, and the position behind it.
pub open spec fn octet_at(s: Seq<char>, pos: int, index: int) -> Option<(int, int)> {
    if index == 0 {
        number_at(s, pos, false, Some(3), true, 255)
    } else {
        match expect(s, pos, '.') {
            Some(p) => number_at(s, p, false, Some(3), true, 255),
            None => None,
        }
    }
}

/// The octets from number `index` on, added to the octets `acc` read so far.
pub open spec fn ipv4_from(s: Seq<char>, pos: int, index: int, acc: int) -> Option<(int, int)>
    decreases 4 - index,
{
    if index >= 4 {
        Some((acc, pos))
    } else {
        match octet_at(s, pos, index) {
            Some((v, next)) => ipv4_from(s, next, index + 1, acc * 256 + v),
            None => None,
        }
    }
}

/// The dotted IPv4 address at `pos`, as one number, and the position behind
/// it.
pub open spec fn ipv4_at(s: Seq<char>, pos: int) -> Option<(int, int)> {
    ipv4_from(s, pos, 0, 0)
}

/// The power of 65536 with exponent `n`: the weight of a group that has `n`
/// groups behind it.
pub open spec fn scale(n: nat) -> int
    decreases n,
{
    if n == 0 {
        1
    } else {
        65536 * scale((n - 1) as nat)
    }
}

/// A run of groups of an IPv6 address.
pub struct Groups {
    /// The groups as one number, most significant first.
    pub value: int,
    /// How many groups were read.
    pub count: int,
    /// The position behind the last of them.
    pub next: int,
    /// Whether the run ended in a dotted IPv4 address.
    pub dotted: bool,
}

/// The hexadecimal group that follows `pos`, preceded by a colon unless it is
/// the first, and the position behind it.
pub open spec fn group_at(s: Seq<char>, pos: int, index: int) -> Option<(int, int)> {
    if index == 0 {
        number_at(s, pos, true, Some(4), false, 0xffff)
    } else {
        match expect(s, pos, ':') {
            Some(p) => number_at(s, p, true, Some(4), false, 0xffff),
            None => None,
        }
    }
}

/// The dotted IPv4 address that follows `pos`, preceded by a colon unless it
/// stands first, and the position behind it.
pub open spec fn dotted_at(s: Seq<char>, pos: int, index: int) -> Option<(int, int)> {
    if index == 0 {
        ipv4_at(s, pos)
    } else {
        match expect(s, pos, ':') {
            Some(p) => ipv4_at(s, p),
            None => None,
        }
    }
}

/// The longest run of at most `limit` groups from `pos` on, continuing the
/// `index` groups of value `acc` read so far. Where at least two groups are
/// still missing a dotted IPv4 address is taken first, stands for two groups
/// and ends the run.
pub open spec fn groups_from(s: Seq<char>, pos: int, limit: int, index: int, acc: int) -> Groups
    decreases limit - index,
{
    if index >= limit {
        Groups { value: acc, count: index, next: pos, dotted: false }
    } else {
        match (if index < limit - 1 {
            dotted_at(s, pos, index)
        } else {
            None
        }) {
            Some((v, next)) => Groups {
                value: acc * 0x1_0000_0000 + v,
                count: index + 2,
                next,
                dotted: true,
            },
            None => match group_at(s, pos, index) {
                Some((g, next)) => groups_from(s, next, limit, index + 1, acc * 65536 + g),
                None => Groups { value: acc, count: index, next: pos, dotted: false },
            },
        }
    }
}

/// The IPv6 address at `pos`, as one number, and the position behind it:
/// either eight groups, or fewer groups, `::`, and further groups that fill
/// the address from its end, with at least one zero group in between.
pub open spec fn ipv6_at(s: Seq<char>, pos: int) -> Option<(int, int)> {
    let head = groups_from(s, pos, 8, 0, 0);
    if head.count == 8 {
        Some((head.value, head.next))
    } else if head.dotted {
        None
    } else {
        match expect(s, head.next, ':') {
            None => None,
            Some(p) => match expect(s, p, ':') {
                None => None,
                Some(q) => {
                    let tail = groups_from(s, q, 7 - head.count, 0, 0);
                    Some(
                        (head.value * scale((8 - head.count) as nat) + tail.value, tail.next),
                    )
                },
            },
        }
    }
}

/// The port at `pos`, which a colon precedes, and the position behind it.
pub open spec fn port_at(s: Seq<char>, pos: int) -> Option<(int, int)> {
    match expect(s, pos, ':') {
        Some(p) => number_at(s, p, false, None, false, 0xffff),
        None => None,
    }
}

/// The scope of an IPv6 address at `pos`, a `%` and a number, and the
/// position behind it; zero and `pos` where none stands there.
pub open spec fn scope_at(s: Seq<char>, pos: int) -> (int, int) {
    match expect(s, pos, '%') {
        Some(p) => match number_at(s, p, false, None, false, 0xffff_ffff) {
            Some(found) => found,
            None => (0, pos),
        },
        None => (0, pos),
    }
}

/// The IPv4 socket address that the whole of `s` denotes.
pub open spec fn socket_v4(s: Seq<char>) -> Option<SocketAddress> {
    match ipv4_at(s, 0) {
        Some((ip, p)) => match port_at(s, p) {
            Some((port, end)) => if end == s.len() {
                Some(SocketAddress::V4 { ip: ip as u32, port: port as u16 })
            } else {
                None
            },
            None => None,
        },
        None => None,
    }
}

/// The IPv6 socket address that the whole of `s` denotes.
pub open spec fn socket_v6(s: Seq<char>) -> Option<SocketAddress> {
    match expect(s, 0, '[') {
        Some(p) => match ipv6_at(s, p) {
            Some((ip, q)) => match expect(s, scope_at(s, q).1, ']') {
                Some(r) => match port_at(s, r) {
                    Some((port, end)) => if end == s.len() {
                        Some(
                            SocketAddress::V6 {
                                ip: ip as u128,
                                port: port as u16,
                                flowinfo: 0,
                                scope_id: scope_at(s, q).0 as u32,
                            },
                        )
                    } else {
                        None
                    },
                    None => None,
                },
                None => None,
            },
            None => None,
        },
        None => None,
    }
}

/// The socket address that the whole of `s` denotes, if `s` is the literal of
/// one.
pub open spec fn socket_literal(s: Seq<char>) -> Option<SocketAddress> {
    match socket_v4(s) {
        Some(a) => Some(a),
        None => socket_v6(s),
    }
}

/// Reads the dotted IPv4 address at `pos`.
fn read_ipv4(chars: &Vec<char>, pos: usize) -> (res: Option<(u32, usize)>)
    requires
        pos <= chars.len(),
    ensures
        match res {
            Some((ip, next)) => ipv4_at(chars@, pos as int) == Some((ip as int, next as int))
                && pos < next <= chars.len(),
            None => ipv4_at(chars@, pos as int) is None,
        },
{
    let mut ip: u32 = 0;
    let mut cur: usize = pos;
    let mut index: usize = 0;
    while index < 4
        invariant
            index <= 4,
            pos <= cur <= chars.len(),
            index > 0 ==> pos < cur,
            index == 0 ==> ip == 0,
            index == 1 ==> ip < 0x100,
            index == 2 ==> ip < 0x1_0000,
            index == 3 ==> ip < 0x100_0000,
            ipv4_at(chars@, pos as int) == ipv4_from(chars@, cur as int, index as int, ip as int),
        decreases 4 - index,
    {
        let mut start: usize = cur;
        if index > 0 {
            if !at(chars, cur, '.') {
                return None;
            }
            start = cur + 1;
        }
        match read_number(chars, start, false, Some(3), true, 255) {
            Some((v, next)) => {
                ip = ip * 256 + v;
                cur = next;
                index += 1;
            },
            None => {
                return None;
            },
        }
    }
    Some((ip, cur))
}

/// The weights of the groups of an address by their number.
pub proof fn lemma_scale_values()
    ensures
        scale(0) == 1,
        scale(1) == 0x1_0000,
        scale(2) == 0x1_0000_0000,
        scale(3) == 0x1_0000_0000_0000,
        scale(4) == 0x1_0000_0000_0000_0000,
        scale(5) == 0x1_0000_0000_0000_0000_0000,
        scale(6) == 0x1_0000_0000_0000_0000_0000_0000,
        scale(7) == 0x1_0000_0000_0000_0000_0000_0000_0000,
        scale(8) == 0x1_0000_0000_0000_0000_0000_0000_0000_0000,
{
    reveal_with_fuel(scale, 9);
}

/// Reads the longest run of at most `limit` groups at `pos`: their value, their
/// count, the position behind them, and whether a dotted address ended them.
fn read_groups(chars: &Vec<char>, pos: usize, limit: usize) -> (res: (u128, usize, usize, bool))
    requires
        pos <= chars.len(),
        limit <= 8,
    ensures
        groups_from(chars@, pos as int, limit as int, 0, 0) == (Groups {
            value: res.0 as int,
            count: res.1 as int,
            next: res.2 as int,
            dotted: res.3,
        }),
        res.1 <= limit,
        pos <= res.2 <= chars.len(),
        res.0 < scale(res.1 as nat),
{
    let mut value: u128 = 0;
    let mut cur: usize = pos;
    let mut index: usize = 0;
    proof {
        lemma_scale_values();
    }
    while index < limit
        invariant
            index <= limit <= 8,
            pos <= cur <= chars.len(),
            value < scale(index as nat),
            groups_from(chars@, pos as int, limit as int, 0, 0) == groups_from(
                chars@,
                cur as int,
                limit as int,
                index as int,
                value as int,
            ),
        decreases limit - index,
    {
        proof {
            lemma_scale_values();
            assert(scale((index + 1) as nat) == 65536 * scale(index as nat));
            assert(scale((index + 2) as nat) == 65536 * scale((index + 1) as nat));
        }
        let start: usize = if index > 0 && at(chars, cur, ':') {
            cur + 1
        } else {
            cur
        };
        let separated: bool = index == 0 || start > cur;
        if separated && index < limit - 1 {
            if let Some((v, next)) = read_ipv4(chars, start) {
                return (value * 0x1_0000_0000 + v as u128, index + 2, next, true);
            }
        }
        if !separated {
            return (value, index, cur, false);
        }
        match read_number(chars, start, true, Some(4), false, 0xffff) {
            Some((g, next)) => {
                value = value * 65536 + g as u128;
                cur = next;
                index += 1;
            },
            None => {
                return (value, index, cur, false);
            },
        }
    }
    (value, index, cur, false)
}

/// Reads the IPv6 address at `pos`.
fn read_ipv6(chars: &Vec<char>, pos: usize) -> (res: Option<(u128, usize)>)
    requires
        pos <= chars.len(),
    ensures
        match res {
            Some((ip, next)) => ipv6_at(chars@, pos as int) == Some((ip as int, next as int))
                && pos <= next <= chars.len(),
            None => ipv6_at(chars@, pos as int) is None,
        },
{
    let (head, count, behind, dotted) = read_groups(chars, pos, 8);
    proof {
        lemma_scale_values();
    }
    if count == 8 {
        return Some((head, behind));
    }
    if dotted {
        return None;
    }
    if !at(chars, behind, ':') || !at(chars, behind + 1, ':') {
        return None;
    }
    let (tail, tail_count, end, _) = read_groups(chars, behind + 2, 7 - count);
    let mut ip: u128 = head;
    let mut shifted: usize = 0;
    while shifted < 8 - count
        invariant
            count < 8,
            shifted <= 8 - count,
            head < scale(count as nat),
            ip == head * scale(shifted as nat),
            ip < scale((count + shifted) as nat),
        decreases 8 - count - shifted,
    {
        proof {
            lemma_scale_values();
            assert(scale((shifted + 1) as nat) == 65536 * scale(shifted as nat));
            assert(scale((count + shifted + 1) as nat) == 65536 * scale((count + shifted) as nat));
            assert(head * (65536 * scale(shifted as nat)) == (head * scale(shifted as nat)) * 65536)
                by (nonlinear_arith);
        }
        ip = ip * 65536;
        shifted += 1;
    }
    proof {
        lemma_scale_values();
        lemma_scale_sum(count as nat, (8 - count) as nat);
        lemma_scale_grows(tail_count as nat, (7 - count) as nat);
        assert(scale((8 - count) as nat) == 65536 * scale((7 - count) as nat));
        assert(head * scale((8 - count) as nat) + tail < scale(8)) by (nonlinear_arith)
            requires
                0 <= head < scale(count as nat),
                0 <= tail < scale((7 - count) as nat),
                scale((8 - count) as nat) == 65536 * scale((7 - count) as nat),
                scale(count as nat) * scale((8 - count) as nat) == scale(8),
                scale((7 - count) as nat) > 0,
        ;
    }
    Some((ip + tail, end))
}

/// Weights multiply as the counts of groups add.
proof fn lemma_scale_sum(a: nat, b: nat)
    ensures
        scale(a) * scale(b) == scale(a + b),
        scale(a) > 0,
    decreases a,
{
    if a > 0 {
        lemma_scale_sum((a - 1) as nat, b);
        assert((65536 * scale((a - 1) as nat)) * scale(b) == 65536 * (scale((a - 1) as nat)
            * scale(b))) by (nonlinear_arith);
    }
}

/// A longer run of groups weighs more.
proof fn lemma_scale_grows(a: nat, b: nat)
    requires
        a <= b,
    ensures
        0 < scale(a) <= scale(b),
    decreases b,
{
    lemma_scale_sum(a, 0);
    if a < b {
        lemma_scale_grows(a, (b - 1) as nat);
    }
}

/// The four octets as one number, most significant first.
pub open spec fn packed_octets(octets: Seq<u8>) -> int {
    ((octets[0] * 256 + octets[1]) * 256 + octets[2]) * 256 + octets[3]
}

/// The groups as one number, most significant first.
pub open spec fn packed_groups(groups: Seq<u16>) -> int
    decreases groups.len(),
{
    if groups.len() == 0 {
        0
    } else {
        packed_groups(groups.drop_last()) * 65536 + groups.last()
    }
}

impl SocketAddress {
    /// The IPv4 socket address with the given octets and port.
    pub fn v4(octets: [u8; 4], port: u16) -> (address: SocketAddress)
        ensures
            address == (SocketAddress::V4 { ip: packed_octets(octets@) as u32, port }),
    {
        let ip: u32 = ((octets[0] as u32 * 256 + octets[1] as u32) * 256 + octets[2] as u32) * 256
            + octets[3] as u32;
        SocketAddress::V4 { ip, port }
    }

    /// The IPv6 socket address with the given groups and port, without flow
    /// information or scope.
    pub fn v6(groups: [u16; 8], port: u16) -> (address: SocketAddress)
        ensures
            address == (SocketAddress::V6 {
                ip: packed_groups(groups@) as u128,
                port,
                flowinfo: 0,
                scope_id: 0,
            }),
    {
        let mut ip: u128 = 0;
        let mut i: usize = 0;
        proof {
            lemma_scale_values();
        }
        while i < 8
            invariant
                i <= 8,
                ip == packed_groups(groups@.take(i as int)),
                ip < scale(i as nat),
            decreases 8 - i,
        {
            proof {
                lemma_scale_values();
                assert(scale((i + 1) as nat) == 65536 * scale(i as nat));
                assert(groups@.take(i + 1).drop_last() == groups@.take(i as int));
            }
            ip = ip * 65536 + groups[i] as u128;
            i += 1;
        }
        proof {
            assert(groups@.take(8) == groups@);
        }
        SocketAddress::V6 { ip, port, flowinfo: 0, scope_id: 0 }
    }

    /// The port of the address.
    pub fn port(&self) -> (port: u16)
        ensures
            port == match *self {
                SocketAddress::V4 { port, .. } => port,
                SocketAddress::V6 { port, .. } => port,
            },
    {
        match *self {
            SocketAddress::V4 { port, .. } => port,
            SocketAddress::V6 { port, .. } => port,
        }
    }

    /// Reads a socket address literal. The whole of `s` must be the literal:
    /// an IPv4 address or a bracketed IPv6 address, a colon and a port.
    pub fn parse(s: &str) -> (res: Option<SocketAddress>)
        ensures
            res == socket_literal(s@),
    {
        Self::read(&chars_of(s))
    }

    /// Reads the socket address literal that the characters `s` make up.
    pub fn read(s: &Vec<char>) -> (res: Option<SocketAddress>)
        ensures
            res == socket_literal(s@),
    {
        match Self::parse_v4(s) {
            Some(a) => Some(a),
            None => Self::parse_v6(s),
        }
    }

    fn parse_v4(s: &Vec<char>) -> (res: Option<SocketAddress>)
        ensures
            res == socket_v4(s@),
    {
        let (ip, behind) = match read_ipv4(s, 0) {
            Some(found) => found,
            None => {
                return None;
            },
        };
        match read_port(s, behind) {
            Some((port, end)) => {
                if end == s.len() {
                    Some(SocketAddress::V4 { ip, port })
                } else {
                    None
                }
            },
            None => None,
        }
    }

    fn parse_v6(s: &Vec<char>) -> (res: Option<SocketAddress>)
        ensures
            res == socket_v6(s@),
    {
        if !at(s, 0, '[') {
            return None;
        }
        let (ip, behind) = match read_ipv6(s, 1) {
            Some(found) => found,
            None => {
                return None;
            },
        };
        let (scope_id, closing) = read_scope(s, behind);
        if !at(s, closing, ']') {
            return None;
        }
        match read_port(s, closing + 1) {
            Some((port, end)) => {
                if end == s.len() {
                    Some(SocketAddress::V6 { ip, port, flowinfo: 0, scope_id })
                } else {
                    None
                }
            },
            None => None,
        }
    }
}

/// Reads the port at `pos`, behind its colon.
fn read_port(chars: &Vec<char>, pos: usize) -> (res: Option<(u16, usize)>)
    requires
        pos <= chars.len(),
    ensures
        match res {
            Some((port, next)) => port_at(chars@, pos as int) == Some((port as int, next as int))
                && next <= chars.len(),
            None => port_at(chars@, pos as int) is None,
        },
{
    if !at(chars, pos, ':') {
        return None;
    }
    match read_number(chars, pos + 1, false, None, false, 0xffff) {
        Some((port, next)) => Some((port as u16, next)),
        None => None,
    }
}

/// Reads the scope at `pos`, if one stands there.
fn read_scope(chars: &Vec<char>, pos: usize) -> (res: (u32, usize))
    requires
        pos <= chars.len(),
    ensures
        scope_at(chars@, pos as int) == (res.0 as int, res.1 as int),
        pos <= res.1 <= chars.len(),
{
    if !at(chars, pos, '%') {
        return (0, pos);
    }
    match read_number(chars, pos + 1, false, None, false, 0xffff_ffff) {
        Some(found) => found,
        None => (0, pos),
    }
}

} // verus!
