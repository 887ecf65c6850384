//! Characters of a string, and tests on how a string begins.
use vstd::prelude::*;

verus! {

/// `s` begins with `prefix`.
pub open spec fn begins_with(s: Seq<char>, prefix: Seq<char>) -> bool {
    prefix.len() <= s.len() && s.subrange(0, prefix.len() as int) == prefix
}

/// What follows `prefix` in `s`, where `s` begins with it.
pub open spec fn strip(s: Seq<char>, prefix: Seq<char>) -> Option<Seq<char>> {
    if begins_with(s, prefix) {
        Some(s.skip(prefix.len() as int))
    } else {
        None
    }
}

/// The fields of `s`: the stretches of text that the separator `sep` parts,
/// in order. A text without separator is one field; an empty text is one
/// empty field.
pub open spec fn fields(s: Seq<char>, sep: char) -> Seq<Seq<char>>
    decreases s.len(),
{
    if s.len() == 0 {
        seq![Seq::empty()]
    } else {
        let before = fields(s.drop_last(), sep);
        if s.last() == sep {
            before.push(Seq::empty())
        } else {
            before.update(before.len() - 1, before.last().push(s.last()))
        }
    }
}

/// The position of the first of `fields` that equals `name`.
pub open spec fn first_match(fields: Seq<Seq<char>>, name: Seq<char>) -> Option<int>
    decreases fields.len(),
{
    if fields.len() == 0 {
        None
    } else {
        match first_match(fields.drop_last(), name) {
            Some(i) => Some(i),
            None => if fields.last() == name {
                Some(fields.len() - 1)
            } else {
                None
            },
        }
    }
}

/// The texts `fields` with `sep` between each two of them.
pub open spec fn joined(fields: Seq<Seq<char>>, sep: char) -> Seq<char>
    decreases fields.len(),
{
    if fields.len() == 0 {
        Seq::empty()
    } else if fields.len() == 1 {
        fields[0]
    } else {
        joined(fields.drop_last(), sep) + seq![sep] + fields.last()
    }
}

/// The fields of a text hold no separator, and with the separator between
/// them they make up the text again.
pub proof fn lemma_fields_joined(s: Seq<char>, sep: char)
    ensures
        fields(s, sep).len() >= 1,
        joined(fields(s, sep), sep) == s,
        forall|i: int, j: int|
            0 <= i < fields(s, sep).len() && 0 <= j < fields(s, sep)[i].len() ==> fields(
                s,
                sep,
            )[i][j] != sep,
    decreases s.len(),
{
    let all = fields(s, sep);
    if s.len() > 0 {
        let before = fields(s.drop_last(), sep);
        let c = s.last();
        lemma_fields_joined(s.drop_last(), sep);
        assert(s == s.drop_last().push(c));
        if c == sep {
            assert(all.drop_last() == before);
            assert(joined(all, sep) =~= s);
        } else {
            let grown = before.last().push(c);
            assert(all.last() == grown);
            if all.len() == 1 {
                assert(joined(all, sep) =~= s);
            } else {
                assert(all.drop_last() == before.drop_last());
                assert(joined(all, sep) =~= joined(before, sep).push(c));
            }
            assert forall|i: int, j: int|
                0 <= i < all.len() && 0 <= j < all[i].len() implies all[i][j] != sep by {
                if i < all.len() - 1 {
                    assert(all[i] == before[i]);
                } else if j < before.last().len() {
                    assert(all[i][j] == before[i][j]);
                }
            }
        }
    }
}

/// The first match is a field that equals the name, and no field before it
/// does; there is none only where no field equals the name.
pub proof fn lemma_first_match(fields: Seq<Seq<char>>, name: Seq<char>)
    ensures
        match first_match(fields, name) {
            Some(i) => 0 <= i < fields.len() && fields[i] == name && forall|j: int|
                0 <= j < i ==> fields[j] != name,
            None => forall|j: int| 0 <= j < fields.len() ==> fields[j] != name,
        },
    decreases fields.len(),
{
    if fields.len() > 0 {
        lemma_first_match(fields.drop_last(), name);
        assert forall|j: int| 0 <= j < fields.len() - 1 implies fields[j] == fields.drop_last()[j] by {
        }
    }
}

/// The last index of a character is a place where it stands, and it stands
/// nowhere behind; there is none only where it stands nowhere.
pub proof fn lemma_last_index_of(s: Seq<char>, c: char)
    ensures
        match last_index_of(s, c) {
            Some(i) => 0 <= i < s.len() && s[i] == c && forall|j: int|
                i < j < s.len() ==> s[j] != c,
            None => forall|j: int| 0 <= j < s.len() ==> s[j] != c,
        },
    decreases s.len(),
{
    if s.len() > 0 && s.last() != c {
        lemma_last_index_of(s.drop_last(), c);
        assert forall|j: int| 0 <= j < s.len() - 1 implies s[j] == s.drop_last()[j] by {
        }
    }
}

/// The texts that `fields` holds.
pub open spec fn texts(fields: Seq<Vec<char>>) -> Seq<Seq<char>> {
    fields.map_values(|f: Vec<char>| f@)
}

/// The position of the last `c` in `s`.
pub open spec fn last_index_of(s: Seq<char>, c: char) -> Option<int>
    decreases s.len(),
{
    if s.len() == 0 {
        None
    } else if s.last() == c {
        Some(s.len() - 1)
    } else {
        last_index_of(s.drop_last(), c)
    }
}

/// `String::push` of the standard library appends one character to the text
/// and leaves what stood before it unchanged.
pub assume_specification[ String::push ](s: &mut String, c: char)
    ensures
        final(s)@ == old(s)@.push(c),
;

/// The text made of `chars[from..to]`.
pub fn text_of(chars: &Vec<char>, from: usize, to: usize) -> (s: String)
    requires
        from <= to <= chars.len(),
    ensures
        s@ == chars@.subrange(from as int, to as int),
{
    let mut s = String::new();
    let mut i: usize = from;
    while i < to
        invariant
            from <= i <= to <= chars.len(),
            s@ == chars@.subrange(from as int, i as int),
        decreases to - i,
    {
        s.push(chars[i]);
        i += 1;
        assert(chars@.subrange(from as int, i as int) == chars@.subrange(from as int, i - 1).push(
            chars@[i - 1],
        ));
    }
    s
}

/// The characters of `s`, in order.
pub fn chars_of(s: &str) -> (chars: Vec<char>)
    ensures
        chars@ == s@,
{
    let mut chars: Vec<char> = Vec::new();
    for c in it: s.chars()
        invariant
            it.seq() == s@,
            chars@ == s@.take(it.index()),
    {
        chars.push(c);
    }
    chars
}

/// Tells where the rest of `chars` begins if `chars` begins with `prefix`.
pub fn strip_prefix(chars: &Vec<char>, prefix: &str) -> (rest: Option<usize>)
    ensures
        match rest {
            Some(n) => strip(chars@, prefix@) == Some(chars@.skip(n as int)) && n == prefix@.len()
                && n <= chars.len(),
            None => strip(chars@, prefix@) is None,
        },
{
    let wanted = chars_of(prefix);
    if wanted.len() > chars.len() {
        return None;
    }
    let mut i: usize = 0;
    while i < wanted.len()
        invariant
            i <= wanted.len() <= chars.len(),
            wanted@ == prefix@,
            chars@.subrange(0, i as int) == wanted@.subrange(0, i as int),
        decreases wanted.len() - i,
    {
        if chars[i] != wanted[i] {
            proof {
                assert(chars@.subrange(0, wanted.len() as int)[i as int] != wanted@[i as int]);
            }
            return None;
        }
        i += 1;
        assert(chars@.subrange(0, i as int) == chars@.subrange(0, i - 1).push(chars@[i - 1]));
        assert(wanted@.subrange(0, i as int) == wanted@.subrange(0, i - 1).push(wanted@[i - 1]));
    }
    proof {
        assert(wanted@.subrange(0, i as int) == wanted@);
    }
    Some(i)
}

/// Finds the last `c` in `chars[from..]`.
pub fn find_last(chars: &Vec<char>, from: usize, c: char) -> (found: Option<usize>)
    requires
        from <= chars.len(),
    ensures
        match found {
            Some(i) => last_index_of(chars@.skip(from as int), c) == Some(i - from) && from <= i
                < chars.len() && chars@[i as int] == c,
            None => last_index_of(chars@.skip(from as int), c) is None,
        },
{
    let ghost text = chars@.skip(from as int);
    let mut i: usize = chars.len();
    proof {
        assert(text.take(i - from) == text);
    }
    while i > from
        invariant
            from <= i <= chars.len(),
            text == chars@.skip(from as int),
            last_index_of(text, c) == last_index_of(text.take(i - from), c),
        decreases i,
    {
        i -= 1;
        proof {
            assert(text.take(i - from + 1).drop_last() == text.take(i - from));
        }
        if chars[i] == c {
            return Some(i);
        }
    }
    None
}

/// The characters `chars[from..to]`.
pub fn part_of(chars: &Vec<char>, from: usize, to: usize) -> (part: Vec<char>)
    requires
        from <= to <= chars.len(),
    ensures
        part@ == chars@.subrange(from as int, to as int),
{
    let mut part: Vec<char> = Vec::new();
    let mut i: usize = from;
    while i < to
        invariant
            from <= i <= to <= chars.len(),
            part@ == chars@.subrange(from as int, i as int),
        decreases to - i,
    {
        part.push(chars[i]);
        i += 1;
        assert(chars@.subrange(from as int, i as int) == chars@.subrange(from as int, i - 1).push(
            chars@[i - 1],
        ));
    }
    part
}

/// Tells whether `a` and `b` hold the same characters.
pub fn same_chars(a: &Vec<char>, b: &Vec<char>) -> (same: bool)
    ensures
        same == (a@ == b@),
{
    if a.len() != b.len() {
        return false;
    }
    let mut i: usize = 0;
    while i < a.len()
        invariant
            i <= a.len() == b.len(),
            a@.take(i as int) == b@.take(i as int),
        decreases a.len() - i,
    {
        if a[i] != b[i] {
            return false;
        }
        i += 1;
        assert(a@.take(i as int) == a@.take(i - 1).push(a@[i - 1]));
        assert(b@.take(i as int) == b@.take(i - 1).push(b@[i - 1]));
    }
    proof {
        assert(a@.take(i as int) == a@);
        assert(b@.take(i as int) == b@);
    }
    true
}

/// Parts `chars` into its fields at each `sep`.
pub fn split(chars: &Vec<char>, sep: char) -> (parts: Vec<Vec<char>>)
    ensures
        texts(parts@) == fields(chars@, sep),
        parts.len() > 0,
{
    let mut parts: Vec<Vec<char>> = Vec::new();
    let mut current: Vec<char> = Vec::new();
    let mut i: usize = 0;
    proof {
        assert(chars@.take(0) == Seq::<char>::empty());
        assert(texts(parts@).push(current@) == seq![Seq::<char>::empty()]);
    }
    while i < chars.len()
        invariant
            i <= chars.len(),
            texts(parts@).push(current@) == fields(chars@.take(i as int), sep),
        decreases chars.len() - i,
    {
        let ghost before = texts(parts@).push(current@);
        let c = chars[i];
        proof {
            assert(chars@.take(i + 1).drop_last() == chars@.take(i as int));
            assert(chars@.take(i + 1).last() == c);
        }
        if c == sep {
            parts.push(current);
            current = Vec::new();
            proof {
                assert(texts(parts@) == before);
            }
        } else {
            current.push(c);
            proof {
                assert(texts(parts@).push(current@) == before.update(
                    before.len() - 1,
                    before.last().push(c),
                ));
            }
        }
        i += 1;
    }
    proof {
        assert(chars@.take(i as int) == chars@);
    }
    let ghost held = texts(parts@);
    let ghost last = current@;
    parts.push(current);
    proof {
        assert(texts(parts@) == held.push(last));
    }
    parts
}

/// Finds the first of `parts` that equals `name`.
pub fn find_first(parts: &Vec<Vec<char>>, name: &Vec<char>) -> (found: Option<usize>)
    ensures
        match found {
            Some(i) => first_match(texts(parts@), name@) == Some(i as int) && i < parts.len(),
            None => first_match(texts(parts@), name@) is None,
        },
{
    let ghost all = texts(parts@);
    let mut i: usize = 0;
    while i < parts.len()
        invariant
            i <= parts.len(),
            all == texts(parts@),
            first_match(all.take(i as int), name@) is None,
        decreases parts.len() - i,
    {
        proof {
            assert(all.take(i + 1).drop_last() == all.take(i as int));
            assert(all.take(i + 1).last() == parts@[i as int]@);
        }
        if same_chars(&parts[i], name) {
            proof {
                lemma_match_stays(all, i + 1, name@);
            }
            return Some(i);
        }
        i += 1;
    }
    proof {
        assert(all.take(i as int) == all);
    }
    None
}

/// A match among the first `n` fields is the first match among them all.
proof fn lemma_match_stays(fields: Seq<Seq<char>>, n: int, name: Seq<char>)
    requires
        0 <= n <= fields.len(),
        first_match(fields.take(n), name) is Some,
    ensures
        first_match(fields, name) == first_match(fields.take(n), name),
    decreases fields.len() - n,
{
    if n < fields.len() {
        assert(fields.take(n + 1).drop_last() == fields.take(n));
        lemma_match_stays(fields, n + 1, name);
    } else {
        assert(fields.take(n) == fields);
    }
}

} // verus!
