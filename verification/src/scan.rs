//! Reading numbers out of the middle of a text.
//!
//! A number here is the longest run of digits that begins at a position. It
//! carries no sign, may be limited in its count of digits, and may be
//! forbidden to begin with a needless zero.
use crate::number::{digit, digit_of, radix};
use vstd::prelude::*;

verus! {

/// How many digits stand in a row in `s` from `pos` on.
pub open spec fn run_length(s: Seq<char>, pos: int, hex: bool) -> nat
    decreases s.len() - pos,
{
    if 0 <= pos < s.len() && digit(s[pos], hex) is Some {
        1 + run_length(s, pos + 1, hex)
    } else {
        0
    }
}

/// The value of the `n` digits of `s` that begin at `pos`.
pub open spec fn run_value(s: Seq<char>, pos: int, n: nat, hex: bool) -> int
    decreases n,
{
    if n == 0 {
        0
    } else {
        run_value(s, pos, (n - 1) as nat, hex) * radix(hex) + digit(s[pos + n - 1], hex).unwrap()
    }
}

/// The number at `pos` and the position behind it. There is none where no
/// digit stands at `pos`, where the run is longer than `most` digits, where
/// `plain` is set and a zero begins a run of several digits, or where the
/// value is above `max`.
pub open spec fn number_at(
    s: Seq<char>,
    pos: int,
    hex: bool,
    most: Option<int>,
    plain: bool,
    max: int,
) -> Option<(int, int)> {
    let n = run_length(s, pos, hex);
    if n == 0 {
        None
    } else if most is Some && n > most.unwrap() {
        None
    } else if plain && s[pos] == '0' && n > 1 {
        None
    } else if run_value(s, pos, n, hex) > max {
        None
    } else {
        Some((run_value(s, pos, n, hex), pos + n))
    }
}

/// The position behind the character `c`, where `c` stands at `pos`.
pub open spec fn expect(s: Seq<char>, pos: int, c: char) -> Option<int> {
    if 0 <= pos < s.len() && s[pos] == c {
        Some(pos + 1)
    } else {
        None
    }
}

/// A run of digits that is closed off at `end` has the length `end - pos`.
pub proof fn lemma_run_length(s: Seq<char>, pos: int, end: int, hex: bool)
    requires
        0 <= pos <= end <= s.len(),
        forall|i: int| pos <= i < end ==> digit(#[trigger] s[i], hex) is Some,
        end == s.len() || digit(s[end], hex) is None,
    ensures
        run_length(s, pos, hex) == end - pos,
    decreases end - pos,
{
    if pos < end {
        lemma_run_length(s, pos + 1, end, hex);
    }
}

/// The value of a run does not shrink as digits are added to it.
pub proof fn lemma_run_value_grows(s: Seq<char>, pos: int, n: nat, m: nat, hex: bool)
    requires
        0 <= pos,
        pos + m <= s.len(),
        n <= m,
        forall|i: int| pos <= i < pos + m ==> digit(#[trigger] s[i], hex) is Some,
    ensures
        0 <= run_value(s, pos, n, hex) <= run_value(s, pos, m, hex),
    decreases m,
{
    if n < m {
        lemma_run_value_grows(s, pos, n, (m - 1) as nat, hex);
        assert(digit(s[pos + m - 1], hex) is Some);
    } else if n > 0 {
        lemma_run_value_grows(s, pos, (n - 1) as nat, (n - 1) as nat, hex);
        assert(digit(s[pos + n - 1], hex) is Some);
    }
}

/// Reads the number at `pos` as [`number_at`] describes.
pub fn read_number(
    chars: &Vec<char>,
    pos: usize,
    hex: bool,
    most: Option<usize>,
    plain: bool,
    max: u32,
) -> (res: Option<(u32, usize)>)
    requires
        pos <= chars.len(),
    ensures
        match res {
            Some((v, next)) => {
                &&& number_at(
                    chars@,
                    pos as int,
                    hex,
                    match most {
                        Some(m) => Some(m as int),
                        None => None,
                    },
                    plain,
                    max as int,
                ) == Some((v as int, next as int))
                &&& pos < next <= chars.len()
                &&& v <= max
            },
            None => number_at(
                chars@,
                pos as int,
                hex,
                match most {
                    Some(m) => Some(m as int),
                    None => None,
                },
                plain,
                max as int,
            ) is None,
        },
{
    let mut end: usize = pos;
    while end < chars.len() && digit_of(chars[end], hex).is_some()
        invariant
            pos <= end <= chars.len(),
            forall|i: int| pos <= i < end ==> digit(#[trigger] chars@[i], hex) is Some,
        decreases chars.len() - end,
    {
        end += 1;
    }
    proof {
        lemma_run_length(chars@, pos as int, end as int, hex);
    }
    let count: usize = end - pos;
    if count == 0 {
        return None;
    }
    if let Some(m) = most {
        if count > m {
            return None;
        }
    }
    if plain && chars[pos] == '0' && count > 1 {
        return None;
    }
    let base: u64 = if hex {
        16
    } else {
        10
    };
    let mut value: u64 = 0;
    let mut i: usize = pos;
    while i < end
        invariant
            pos <= i <= end <= chars.len(),
            base == radix(hex),
            value <= max,
            run_length(chars@, pos as int, hex) == end - pos,
            value == run_value(chars@, pos as int, (i - pos) as nat, hex),
            forall|i: int| pos <= i < end ==> digit(#[trigger] chars@[i], hex) is Some,
        decreases end - i,
    {
        let d = digit_of(chars[i], hex).unwrap();
        let next: u64 = value * base + d as u64;
        i += 1;
        assert(run_value(chars@, pos as int, (i - pos) as nat, hex) == next);
        if next > max as u64 {
            proof {
                lemma_run_value_grows(
                    chars@,
                    pos as int,
                    (i - pos) as nat,
                    (end - pos) as nat,
                    hex,
                );
            }
            return None;
        }
        value = next;
    }
    Some((value as u32, end))
}

/// Tells whether the character `c` stands at `pos`.
pub fn at(chars: &Vec<char>, pos: usize, c: char) -> (found: bool)
    ensures
        found == (expect(chars@, pos as int, c) is Some),
{
    pos < chars.len() && chars[pos] == c
}

} // verus!
