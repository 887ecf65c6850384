//! Socket addresses written out as literals.
//!
//! An IPv4 address is written as its four octets in decimal, an IPv6 address
//! in brackets as all of its eight groups in hexadecimal, followed by `%` and
//! its scope where that is not zero. The port follows a colon. Reading such a
//! literal gives the address back.
use crate::address::{
    dotted_at, group_at, groups_from, ipv4_at, ipv4_from, ipv6_at, lemma_scale_values, octet_at,
    port_at, scale, scope_at, socket_literal, socket_v4, socket_v6, Groups, SocketAddress,
};
use crate::number::{digit, digit_char, numeral, write_numeral};
use crate::scan::{expect, lemma_run_length, number_at, run_length, run_value};
use vstd::prelude::*;

verus! {

/// The octet of `ip` that has `behind` octets behind it.
pub open spec fn octet(ip: u32, behind: nat) -> nat {
    if behind == 0 {
        ip as nat % 256
    } else if behind == 1 {
        ip as nat / 0x100 % 256
    } else if behind == 2 {
        ip as nat / 0x1_0000 % 256
    } else {
        ip as nat / 0x100_0000 % 256
    }
}

/// The group of `ip` that has `behind` groups behind it.
pub open spec fn group(ip: u128, behind: nat) -> nat {
    (ip as int / scale(behind) % 65536) as nat
}

/// The dotted form of the IPv4 address `ip`.
pub open spec fn dotted(ip: u32) -> Seq<char> {
    numeral(octet(ip, 3), false) + seq!['.'] + numeral(octet(ip, 2), false) + seq!['.'] + numeral(
        octet(ip, 1),
        false,
    ) + seq!['.'] + numeral(octet(ip, 0), false)
}

/// The groups of `ip` from number `from` on, parted by colons.
pub open spec fn groups_text(ip: u128, from: nat) -> Seq<char>
    decreases 8 - from,
{
    if from >= 7 {
        numeral(group(ip, 0), true)
    } else {
        numeral(group(ip, (7 - from) as nat), true) + seq![':'] + groups_text(ip, from + 1)
    }
}

/// The scope of an IPv6 address as it stands in a literal: nothing where it
/// is zero.
pub open spec fn scope_text(scope_id: u32) -> Seq<char> {
    if scope_id == 0 {
        Seq::empty()
    } else {
        seq!['%'] + numeral(scope_id as nat, false)
    }
}

/// The literal of `address`. Flow information is not written.
pub open spec fn literal(address: SocketAddress) -> Seq<char> {
    match address {
        SocketAddress::V4 { ip, port } => dotted(ip) + seq![':'] + numeral(port as nat, false),
        SocketAddress::V6 { ip, port, flowinfo, scope_id } => seq!['['] + groups_text(ip, 0)
            + scope_text(scope_id) + seq![']', ':'] + numeral(port as nat, false),
    }
}

impl SocketAddress {
    /// Writes the address out as a literal. Flow information is not written.
    pub fn literal(&self) -> (s: String)
        ensures
            s@ == literal(*self),
    {
        let mut s = String::new();
        match *self {
            SocketAddress::V4 { ip, port } => {
                write_numeral(&mut s, (ip / 0x100_0000 % 256) as u64, false);
                s.push('.');
                write_numeral(&mut s, (ip / 0x1_0000 % 256) as u64, false);
                s.push('.');
                write_numeral(&mut s, (ip / 0x100 % 256) as u64, false);
                s.push('.');
                write_numeral(&mut s, (ip % 256) as u64, false);
                s.push(':');
                write_numeral(&mut s, port as u64, false);
                proof {
                    assert(s@ =~= literal(*self));
                }
            },
            SocketAddress::V6 { ip, port, flowinfo, scope_id } => {
                s.push('[');
                write_groups(&mut s, ip);
                if scope_id != 0 {
                    s.push('%');
                    write_numeral(&mut s, scope_id as u64, false);
                }
                s.push(']');
                s.push(':');
                write_numeral(&mut s, port as u64, false);
                proof {
                    assert(s@ =~= literal(*self));
                }
            },
        }
        s
    }
}

/// Appends the eight groups of `ip`, parted by colons, to `out`.
fn write_groups(out: &mut String, ip: u128)
    ensures
        final(out)@ == old(out)@ + groups_text(ip, 0),
{
    let mut weight: u128 = 0x1_0000_0000_0000_0000_0000_0000_0000;
    let mut from: usize = 0;
    proof {
        lemma_scale_values();
    }
    while from < 7
        invariant
            from <= 7,
            weight == scale((7 - from) as nat),
            weight > 0,
            out@ + groups_text(ip, from as nat) == old(out)@ + groups_text(ip, 0),
        decreases 7 - from,
    {
        let ghost before = out@;
        let ghost text = numeral(group(ip, (7 - from) as nat), true);
        write_numeral(out, (ip / weight % 65536) as u64, true);
        out.push(':');
        proof {
            lemma_scale_values();
            assert(scale((7 - from) as nat) == 65536 * scale((6 - from) as nat));
            assert(out@ + groups_text(ip, (from + 1) as nat) =~= before + (text + seq![':']
                + groups_text(ip, (from + 1) as nat)));
        }
        weight = weight / 65536;
        from += 1;
    }
    write_numeral(out, (ip % 65536) as u64, true);
}

/// A numeral is made of digits, is not empty, and begins with a zero only
/// where it is the numeral of zero.
proof fn lemma_numeral_digits(n: nat, hex: bool)
    ensures
        numeral(n, hex).len() >= 1,
        forall|i: int|
            0 <= i < numeral(n, hex).len() ==> digit(#[trigger] numeral(n, hex)[i], hex) is Some,
        numeral(n, hex)[0] == '0' ==> n == 0,
        n == 0 ==> numeral(n, hex).len() == 1,
    decreases n,
{
    if hex {
        if n >= 16 {
            lemma_numeral_digits(n / 16, hex);
            assert(digit(digit_char(n as int % 16), hex) is Some);
        } else {
            assert(digit(digit_char(n as int), hex) is Some);
        }
    } else {
        if n >= 10 {
            lemma_numeral_digits(n / 10, hex);
            assert(digit(digit_char(n as int % 10), hex) is Some);
        } else {
            assert(digit(digit_char(n as int), hex) is Some);
        }
    }
}

/// The digits of the numeral of `n`, where they stand in `s` at `pos`, have
/// the value `n`.
proof fn lemma_numeral_value(s: Seq<char>, pos: int, n: nat, hex: bool)
    requires
        0 <= pos,
        pos + numeral(n, hex).len() <= s.len(),
        s.subrange(pos, pos + numeral(n, hex).len()) == numeral(n, hex),
    ensures
        run_value(s, pos, numeral(n, hex).len(), hex) == n,
    decreases n,
{
    let text = numeral(n, hex);
    let len = text.len();
    lemma_numeral_digits(n, hex);
    assert(s[pos + len - 1] == s.subrange(pos, pos + len)[len - 1]);
    if hex {
        if n >= 16 {
            let shorter = numeral(n / 16, hex);
            assert(s.subrange(pos, pos + shorter.len()) == shorter) by {
                assert(s.subrange(pos, pos + shorter.len()) =~= text.drop_last());
            }
            lemma_numeral_value(s, pos, n / 16, hex);
            assert(digit(digit_char(n as int % 16), hex) == Some(n as int % 16));
        } else {
            assert(digit(digit_char(n as int), hex) == Some(n as int));
            assert(run_value(s, pos, 0, hex) == 0);
        }
    } else {
        if n >= 10 {
            let shorter = numeral(n / 10, hex);
            assert(s.subrange(pos, pos + shorter.len()) == shorter) by {
                assert(s.subrange(pos, pos + shorter.len()) =~= text.drop_last());
            }
            lemma_numeral_value(s, pos, n / 10, hex);
            assert(digit(digit_char(n as int % 10), hex) == Some(n as int % 10));
        } else {
            assert(digit(digit_char(n as int), hex) == Some(n as int));
            assert(run_value(s, pos, 0, hex) == 0);
        }
    }
}

/// An octet has at most three decimal digits, a group at most four
/// hexadecimal ones.
proof fn lemma_numeral_length(n: nat, hex: bool)
    ensures
        !hex && n < 256 ==> numeral(n, hex).len() <= 3,
        hex && n < 65536 ==> numeral(n, hex).len() <= 4,
{
    reveal_with_fuel(numeral, 5);
}

/// Where the numeral of `n` stands in `s` at `pos` and no digit follows it,
/// the number read at `pos` is `n`, as long as `n` and its count of digits
/// are within the limits given.
proof fn lemma_numeral_read(
    s: Seq<char>,
    pos: int,
    n: nat,
    hex: bool,
    most: Option<int>,
    plain: bool,
    max: int,
)
    requires
        0 <= pos,
        pos + numeral(n, hex).len() <= s.len(),
        s.subrange(pos, pos + numeral(n, hex).len()) == numeral(n, hex),
        pos + numeral(n, hex).len() == s.len() || digit(s[pos + numeral(n, hex).len()], hex)
            is None,
        n <= max,
        most is Some ==> numeral(n, hex).len() <= most.unwrap(),
    ensures
        number_at(s, pos, hex, most, plain, max) == Some((n as int, pos + numeral(n, hex).len())),
{
    let text = numeral(n, hex);
    let len = text.len();
    lemma_numeral_digits(n, hex);
    assert forall|i: int| pos <= i < pos + len implies digit(#[trigger] s[i], hex) is Some by {
        assert(s[i] == s.subrange(pos, pos + len)[i - pos]);
        assert(digit(text[i - pos], hex) is Some);
    }
    lemma_run_length(s, pos, pos + len, hex);
    lemma_numeral_value(s, pos, n, hex);
    assert(s[pos] == s.subrange(pos, pos + len)[0]);
}

/// Where two texts stand in `s` one behind the other, each stands there.
proof fn lemma_parts(s: Seq<char>, pos: int, x: Seq<char>, y: Seq<char>)
    requires
        0 <= pos,
        pos + x.len() + y.len() <= s.len(),
        s.subrange(pos, pos + x.len() + y.len()) == x + y,
    ensures
        s.subrange(pos, pos + x.len()) == x,
        s.subrange(pos + x.len(), pos + x.len() + y.len()) == y,
{
    let both = s.subrange(pos, pos + x.len() + y.len());
    assert forall|i: int| 0 <= i < x.len() implies s.subrange(pos, pos + x.len())[i] == x[i] by {
        assert(both[i] == (x + y)[i]);
    }
    assert(s.subrange(pos, pos + x.len()) =~= x);
    assert forall|i: int| 0 <= i < y.len() implies s.subrange(
        pos + x.len(),
        pos + x.len() + y.len(),
    )[i] == y[i] by {
        assert(both[x.len() + i] == (x + y)[x.len() + i]);
    }
    assert(s.subrange(pos + x.len(), pos + x.len() + y.len()) =~= y);
}

/// Where the dotted form of `ip` stands in `s` at `pos` and no digit follows
/// it, the IPv4 address read at `pos` is `ip`.
proof fn lemma_dotted_read(s: Seq<char>, pos: int, ip: u32)
    requires
        0 <= pos,
        pos + dotted(ip).len() <= s.len(),
        s.subrange(pos, pos + dotted(ip).len()) == dotted(ip),
        pos + dotted(ip).len() == s.len() || digit(s[pos + dotted(ip).len()], false) is None,
    ensures
        ipv4_at(s, pos) == Some((ip as int, pos + dotted(ip).len())),
{
    let dot = seq!['.'];
    let a = numeral(octet(ip, 3), false);
    let b = numeral(octet(ip, 2), false);
    let c = numeral(octet(ip, 1), false);
    let d = numeral(octet(ip, 0), false);
    let pb = pos + a.len() + 1;
    let pc = pb + b.len() + 1;
    let pd = pc + c.len() + 1;
    lemma_parts(s, pos, a + dot + b + dot + c + dot, d);
    lemma_parts(s, pos, a + dot + b + dot + c, dot);
    lemma_parts(s, pos, a + dot + b + dot, c);
    lemma_parts(s, pos, a + dot + b, dot);
    lemma_parts(s, pos, a + dot, b);
    lemma_parts(s, pos, a, dot);
    assert(s[pb - 1] == s.subrange(pb - 1, pb)[0]);
    assert(s[pc - 1] == s.subrange(pc - 1, pc)[0]);
    assert(s[pd - 1] == s.subrange(pd - 1, pd)[0]);
    lemma_numeral_length(octet(ip, 3), false);
    lemma_numeral_length(octet(ip, 2), false);
    lemma_numeral_length(octet(ip, 1), false);
    lemma_numeral_length(octet(ip, 0), false);
    lemma_numeral_read(s, pos, octet(ip, 3), false, Some(3), true, 255);
    lemma_numeral_read(s, pb, octet(ip, 2), false, Some(3), true, 255);
    lemma_numeral_read(s, pc, octet(ip, 1), false, Some(3), true, 255);
    lemma_numeral_read(s, pd, octet(ip, 0), false, Some(3), true, 255);
    reveal_with_fuel(ipv4_from, 5);
    assert(octet_at(s, pos, 0) == Some((octet(ip, 3) as int, pb - 1)));
    assert(octet_at(s, pb - 1, 1) == Some((octet(ip, 2) as int, pc - 1)));
    assert(octet_at(s, pc - 1, 2) == Some((octet(ip, 1) as int, pd - 1)));
    assert(octet_at(s, pd - 1, 3) == Some((octet(ip, 0) as int, pd + d.len())));
}

/// Where `s` is the dotted form `text` of `ip`, a colon and the numeral of
/// `port`, it denotes the IPv4 socket address of `ip` and `port`.
proof fn lemma_socket_v4_read(s: Seq<char>, text: Seq<char>, ip: u32, port: u16)
    requires
        text == dotted(ip),
        s == text + seq![':'] + numeral(port as nat, false),
    ensures
        socket_v4(s) == Some(SocketAddress::V4 { ip, port }),
{
    let number = numeral(port as nat, false);
    let p = text.len() as int;
    assert(s.len() == p + 1 + number.len());
    assert(s.subrange(0, p) =~= text);
    assert(s[p] == ':');
    assert(s.subrange(p + 1, p + 1 + number.len()) =~= number);
    assert(ipv4_at(s, 0) == Some((ip as int, p))) by {
        lemma_dotted_read(s, 0, ip);
    }
    assert(port_at(s, p) == Some((port as int, s.len() as int))) by {
        lemma_numeral_read(s, p + 1, port as nat, false, None, false, 0xffff);
    }
}

/// Reading the literal of an IPv4 socket address gives the address back.
pub proof fn lemma_literal_v4(ip: u32, port: u16)
    ensures
        socket_literal(literal(SocketAddress::V4 { ip, port })) == Some(
            SocketAddress::V4 { ip, port },
        ),
{
    lemma_socket_v4_read(literal(SocketAddress::V4 { ip, port }), dotted(ip), ip, port);
}

/// A run of digits ends at the latest where a character is no digit.
proof fn lemma_run_stops(s: Seq<char>, pos: int, bound: int, hex: bool)
    requires
        0 <= pos <= bound < s.len(),
        digit(s[bound], hex) is None,
    ensures
        pos + run_length(s, pos, hex) <= bound,
    decreases bound - pos,
{
    if pos < bound {
        lemma_run_stops(s, pos + 1, bound, hex);
    }
}

/// No dotted address stands at `pos` where no dot stands between `pos` and
/// the next character that is no decimal digit.
proof fn lemma_no_dot(s: Seq<char>, pos: int, bound: int)
    requires
        0 <= pos <= bound < s.len(),
        digit(s[bound], false) is None,
        forall|i: int| pos <= i <= bound ==> s[i] != '.',
    ensures
        ipv4_at(s, pos) is None,
{
    reveal_with_fuel(ipv4_from, 2);
    lemma_run_stops(s, pos, bound, false);
}

/// The groups of an address, written out, hold no dot.
proof fn lemma_groups_text_chars(ip: u128, from: nat)
    ensures
        forall|i: int| 0 <= i < groups_text(ip, from).len() ==> groups_text(ip, from)[i] != '.',
    decreases 8 - from,
{
    let all = groups_text(ip, from);
    if from >= 7 {
        lemma_numeral_digits(group(ip, 0), true);
        assert forall|i: int| 0 <= i < all.len() implies all[i] != '.' by {
            assert(digit(numeral(group(ip, 0), true)[i], true) is Some);
        }
    } else {
        let text = numeral(group(ip, (7 - from) as nat), true);
        let rest = groups_text(ip, from + 1);
        lemma_numeral_digits(group(ip, (7 - from) as nat), true);
        lemma_groups_text_chars(ip, from + 1);
        assert(all == text + seq![':'] + rest);
        assert forall|i: int| 0 <= i < all.len() implies all[i] != '.' by {
            if i < text.len() {
                assert(digit(text[i], true) is Some);
            } else if i > text.len() {
                assert(all[i] == rest[i - text.len() - 1]);
            }
        }
    }
}

/// The groups before a group, with that group behind them, are the groups
/// up to and with it.
proof fn lemma_group_step(ip: u128, behind: nat)
    requires
        behind < 8,
    ensures
        (ip as int / scale(behind + 1)) * 65536 + group(ip, behind) == ip as int / scale(behind),
        ip as int / scale(8) == 0,
        ip as int / scale(0) == ip,
{
    lemma_scale_values();
    let weight = scale(behind);
    assert(scale(behind + 1) == weight * 65536);
    assert(weight > 0);
    vstd::arithmetic::div_mod::lemma_div_denominator(ip as int, weight, 65536);
    vstd::arithmetic::div_mod::lemma_basic_div(ip as int, scale(8));
    assert(ip as int / 1 == ip);
}

/// Where the groups of `ip` from number `from` on stand in `s` behind `pos`,
/// with a colon before them unless they begin the address, and a character
/// that is no digit follows them, the groups read at `pos` complete the
/// groups before them to the address `ip`.
proof fn lemma_groups_read(s: Seq<char>, pos: int, start: int, ip: u128, from: nat)
    requires
        from <= 7,
        0 <= pos,
        from == 0 ==> start == pos,
        from > 0 ==> start == pos + 1 && pos < s.len() && s[pos] == ':',
        start + groups_text(ip, from).len() < s.len(),
        s.subrange(start, start + groups_text(ip, from).len()) == groups_text(ip, from),
        digit(s[start + groups_text(ip, from).len()], true) is None,
        s[start + groups_text(ip, from).len()] != '.',
    ensures
        groups_from(s, pos, 8, from as int, ip as int / scale((8 - from) as nat)) == (Groups {
            value: ip as int,
            count: 8,
            next: start + groups_text(ip, from).len(),
            dotted: false,
        }),
    decreases 8 - from,
{
    let behind = (7 - from) as nat;
    let g = group(ip, behind);
    let text = numeral(g, true);
    let all = groups_text(ip, from);
    let end = start + all.len();
    let acc = ip as int / scale((8 - from) as nat);
    lemma_group_step(ip, behind);
    lemma_numeral_length(g, true);
    lemma_numeral_digits(g, true);
    lemma_groups_text_chars(ip, from);
    assert forall|i: int| start <= i <= end implies s[i] != '.' by {
        if i < end {
            assert(s[i] == s.subrange(start, end)[i - start]);
        }
    }
    reveal_with_fuel(groups_from, 2);
    if from < 7 {
        let rest = groups_text(ip, from + 1);
        let colon = seq![':'];
        assert(all == text + colon + rest);
        lemma_parts(s, start, text + colon, rest);
        lemma_parts(s, start, text, colon);
        let next = start + text.len();
        assert(s[next] == s.subrange(next, next + 1)[0]);
        lemma_numeral_read(s, start, g, true, Some(4), false, 0xffff);
        assert(group_at(s, pos, from as int) == Some((g as int, next)));
        assert(dotted_at(s, pos, from as int) is None) by {
            lemma_no_dot(s, start, next);
        }
        lemma_groups_read(s, next, next + 1, ip, from + 1);
        assert(acc * 65536 + g == ip as int / scale((8 - (from + 1)) as nat));
    } else {
        assert(all == text);
        lemma_numeral_read(s, start, g, true, Some(4), false, 0xffff);
        assert(group_at(s, pos, from as int) == Some((g as int, end)));
        assert(acc * 65536 + g == ip as int);
    }
}

/// Reading the literal of an IPv6 socket address without flow information
/// gives the address back.
pub proof fn lemma_literal_v6(ip: u128, port: u16, scope_id: u32)
    ensures
        socket_literal(literal(SocketAddress::V6 { ip, port, flowinfo: 0, scope_id })) == Some(
            SocketAddress::V6 { ip, port, flowinfo: 0, scope_id },
        ),
{
    let address = SocketAddress::V6 { ip, port, flowinfo: 0, scope_id };
    let s = literal(address);
    let groups = groups_text(ip, 0);
    let scope = scope_text(scope_id);
    let number = numeral(port as nat, false);
    let q = 1 + groups.len() as int;
    let r = q + scope.len() as int;
    assert(s == seq!['['] + groups + scope + seq![']', ':'] + number);
    assert(s.len() == r + 2 + number.len());
    assert(s[0] == '[');
    assert(s.subrange(1, q) =~= groups);
    assert(s.subrange(q, r) =~= scope);
    assert(s[r] == ']');
    assert(s[r + 1] == ':');
    assert(s.subrange(r + 2, r + 2 + number.len()) =~= number);
    assert(socket_v4(s) is None) by {
        reveal_with_fuel(ipv4_from, 2);
        assert(run_length(s, 0, false) == 0);
    }
    if scope_id != 0 {
        assert(scope == seq!['%'] + numeral(scope_id as nat, false));
        assert(s[q] == s.subrange(q, r)[0]);
    }
    assert(ipv6_at(s, 1) == Some((ip as int, q))) by {
        lemma_group_step(ip, 0);
        lemma_groups_read(s, 1, 1, ip, 0);
    }
    assert(scope_at(s, q) == (scope_id as int, r)) by {
        if scope_id != 0 {
            let id = numeral(scope_id as nat, false);
            lemma_parts(s, q, seq!['%'], id);
            lemma_numeral_read(s, q + 1, scope_id as nat, false, None, false, 0xffff_ffff);
        }
    }
    assert(port_at(s, r + 1) == Some((port as int, s.len() as int))) by {
        lemma_numeral_read(s, r + 2, port as nat, false, None, false, 0xffff);
    }
    assert(socket_v6(s) == Some(address));
}

/// Reading the literal of a socket address gives the address back: its IP and
/// its port, and the scope of an IPv6 address. Flow information has no place
/// in a literal, so an address that carries some is left out.
pub proof fn lemma_literal_read(address: SocketAddress)
    requires
        address matches SocketAddress::V6 { flowinfo, .. } ==> flowinfo == 0,
    ensures
        socket_literal(literal(address)) == Some(address),
{
    match address {
        SocketAddress::V4 { ip, port } => lemma_literal_v4(ip, port),
        SocketAddress::V6 { ip, port, flowinfo, scope_id } => lemma_literal_v6(ip, port, scope_id),
    }
}

} // verus!
