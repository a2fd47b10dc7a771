//! Character-level helpers for the token grammar: spaces, prefixes, hex
//! numbers and splitting on a separator.
use vstd::prelude::*;

verus! {

/// The characters of `s` with every space removed.
pub open spec fn without_spaces(s: Seq<char>) -> Seq<char>
    decreases s.len(),
{
    if s.len() == 0 {
        s
    } else if s.last() == ' ' {
        without_spaces(s.drop_last())
    } else {
        without_spaces(s.drop_last()).push(s.last())
    }
}

pub open spec fn has_prefix(s: Seq<char>, p: Seq<char>) -> bool {
    p.len() <= s.len() && s.subrange(0, p.len() as int) == p
}

pub open spec fn has_suffix(s: Seq<char>, p: Seq<char>) -> bool {
    p.len() <= s.len() && s.subrange(s.len() - p.len(), s.len() as int) == p
}

/// `s` opens with `open`, closes with `close`, and the two do not overlap.
pub open spec fn enclosed(s: Seq<char>, open: Seq<char>, close: Seq<char>) -> bool {
    open.len() + close.len() <= s.len() && has_prefix(s, open) && has_suffix(s, close)
}

/// What lies between `open` and `close` in an enclosed `s`.
pub open spec fn inner(s: Seq<char>, open: Seq<char>, close: Seq<char>) -> Seq<char> {
    s.subrange(open.len() as int, s.len() - close.len())
}

/// The value of a hexadecimal digit.
pub open spec fn hex_digit(c: char) -> Option<nat> {
    if '0' <= c <= '9' {
        Some((c as nat - '0' as nat) as nat)
    } else if 'a' <= c <= 'f' {
        Some((c as nat - 'a' as nat + 10) as nat)
    } else if 'A' <= c <= 'F' {
        Some((c as nat - 'A' as nat + 10) as nat)
    } else {
        None
    }
}

pub open spec fn all_hex(s: Seq<char>) -> bool {
    forall|i: int| 0 <= i < s.len() ==> (#[trigger] hex_digit(s[i])) is Some
}

/// The value of a string of hexadecimal digits, most significant first.
pub open spec fn hex_value(s: Seq<char>) -> nat
    decreases s.len(),
{
    if s.len() == 0 {
        0
    } else {
        hex_value(s.drop_last()) * 16 + hex_digit(s.last())->0
    }
}

/// Unsigned hexadecimal text as std's `from_str_radix` reads it: an optional
/// `+`, then one or more digits, whose value must not exceed `max`.
pub open spec fn hex_number(s: Seq<char>, max: nat) -> Option<nat> {
    let digits = if s.len() > 0 && s[0] == '+' { s.drop_first() } else { s };
    if digits.len() > 0 && all_hex(digits) && hex_value(digits) <= max {
        Some(hex_value(digits))
    } else {
        None
    }
}

/// The pieces of `s` between occurrences of `sep`; never empty.
pub open spec fn split_on(s: Seq<char>, sep: char) -> Seq<Seq<char>>
    decreases s.len(),
{
    if s.len() == 0 {
        seq![Seq::empty()]
    } else {
        let init = split_on(s.drop_last(), sep);
        if s.last() == sep {
            init.push(Seq::empty())
        } else {
            init.update(init.len() - 1, init.last().push(s.last()))
        }
    }
}

/// The characters of `s`.
pub fn chars_of(s: &str) -> (r: Vec<char>)
    ensures
        r@ == s@,
{
    broadcast use vstd::string::axiom_spec_iter;

    let mut out: Vec<char> = Vec::new();
    for c in iter: s.chars()
        invariant
            iter.seq() == s@,
            out@ == iter.seq().subrange(0, iter.index() as int),
    {
        out.push(c);
    }
    out
}

/// A copy of `s` without its spaces.
pub fn strip_spaces(s: &Vec<char>) -> (r: Vec<char>)
    ensures
        r@ == without_spaces(s@),
{
    let mut out: Vec<char> = Vec::new();
    let mut i: usize = 0;
    while i < s.len()
        invariant
            0 <= i <= s@.len(),
            out@ == without_spaces(s@.subrange(0, i as int)),
        decreases s@.len() - i,
    {
        assert(s@.subrange(0, i + 1 as int).drop_last() =~= s@.subrange(0, i as int));
        if s[i] != ' ' {
            out.push(s[i]);
        }
        i = i + 1;
    }
    assert(s@.subrange(0, s@.len() as int) =~= s@);
    out
}

/// Whether `s[start..]` begins with `p`.
pub fn prefix_at(s: &Vec<char>, start: usize, p: &Vec<char>) -> (r: bool)
    requires
        start <= s@.len(),
    ensures
        r == has_prefix(s@.subrange(start as int, s@.len() as int), p@),
{
    if p.len() > s.len() - start {
        return false;
    }
    let mut i: usize = 0;
    while i < p.len()
        invariant
            start + p@.len() <= s@.len(),
            s@.len() <= usize::MAX,
            0 <= i <= p@.len(),
            forall|j: int| 0 <= j < i ==> s@[start + j] == p@[j],
        decreases p@.len() - i,
    {
        assert(start + i < s@.len());
        if s[start + i] != p[i] {
            assert(s@.subrange(start as int, s@.len() as int).subrange(0, p@.len() as int)[i as int]
                != p@[i as int]);
            return false;
        }
        i = i + 1;
    }
    assert(s@.subrange(start as int, s@.len() as int).subrange(0, p@.len() as int) =~= p@);
    true
}

pub fn starts_with(s: &Vec<char>, p: &Vec<char>) -> (r: bool)
    ensures
        r == has_prefix(s@, p@),
{
    let r = prefix_at(s, 0, p);
    assert(s@.subrange(0, s@.len() as int) =~= s@);
    r
}

pub fn ends_with(s: &Vec<char>, p: &Vec<char>) -> (r: bool)
    ensures
        r == has_suffix(s@, p@),
{
    if p.len() > s.len() {
        return false;
    }
    let r = prefix_at(s, s.len() - p.len(), p);
    assert(s@.subrange(s@.len() - p@.len(), s@.len() as int).subrange(0, p@.len() as int)
        =~= s@.subrange(s@.len() - p@.len(), s@.len() as int));
    r
}

/// `s[start..end]` as a new vector.
pub fn slice_of(s: &Vec<char>, start: usize, end: usize) -> (r: Vec<char>)
    requires
        start <= end <= s@.len(),
    ensures
        r@ == s@.subrange(start as int, end as int),
{
    let mut out: Vec<char> = Vec::new();
    let mut i = start;
    while i < end
        invariant
            start <= i <= end <= s@.len(),
            out@ == s@.subrange(start as int, i as int),
        decreases end - i,
    {
        out.push(s[i]);
        i = i + 1;
        assert(out@ =~= s@.subrange(start as int, i as int));
    }
    out
}

/// The part of an enclosed `s` between `open` and `close`, or `None` when `s`
/// is not enclosed by them.
pub fn take_inner(s: &Vec<char>, open: &Vec<char>, close: &Vec<char>) -> (r: Option<Vec<char>>)
    ensures
        r is Some <==> enclosed(s@, open@, close@),
        r is Some ==> r->0@ == inner(s@, open@, close@),
{
    if open.len() > s.len() || close.len() > s.len() - open.len() {
        return None;
    }
    if !starts_with(s, open) || !ends_with(s, close) {
        return None;
    }
    Some(slice_of(s, open.len(), s.len() - close.len()))
}

pub fn hex_digit_value(c: char) -> (r: Option<u8>)
    ensures
        r is Some <==> hex_digit(c) is Some,
        r is Some ==> r->0 == hex_digit(c)->0 && r->0 < 16,
{
    if '0' <= c && c <= '9' {
        Some((c as u32 - '0' as u32) as u8)
    } else if 'a' <= c && c <= 'f' {
        Some((c as u32 - 'a' as u32 + 10) as u8)
    } else if 'A' <= c && c <= 'F' {
        Some((c as u32 - 'A' as u32 + 10) as u8)
    } else {
        None
    }
}

/// Reads hexadecimal text whose value is at most `max`.
pub fn parse_hex(s: &Vec<char>, max: u32) -> (r: Option<u32>)
    ensures
        r is Some <==> hex_number(s@, max as nat) is Some,
        r is Some ==> r->0 == hex_number(s@, max as nat)->0,
{
    let start: usize = if s.len() > 0 && s[0] == '+' {
        1
    } else {
        0
    };
    let ghost digits = s@.subrange(start as int, s@.len() as int);
    assert(digits =~= (if s@.len() > 0 && s@[0] == '+' { s@.drop_first() } else { s@ }));
    if start == s.len() {
        return None;
    }
    let mut acc: u32 = 0;
    let mut i = start;
    while i < s.len()
        invariant
            start < s@.len(),
            start <= i <= s@.len(),
            digits == s@.subrange(start as int, s@.len() as int),
            digits == (if s@.len() > 0 && s@[0] == '+' { s@.drop_first() } else { s@ }),
            all_hex(s@.subrange(start as int, i as int)),
            acc == hex_value(s@.subrange(start as int, i as int)),
            acc <= max,
        decreases s@.len() - i,
    {
        let ghost before = s@.subrange(start as int, i as int);
        let ghost after = s@.subrange(start as int, i + 1 as int);
        assert(after.drop_last() =~= before);
        let d = match hex_digit_value(s[i]) {
            Some(d) => d,
            None => {
                proof {
                    assert(digits[i - start] == s@[i as int]);
                    assert(hex_digit(digits[i - start]) is None);
                }
                return None;
            },
        };
        assert(all_hex(after)) by {
            assert forall|j: int| 0 <= j < after.len() implies (#[trigger] hex_digit(after[j])) is Some by {
                if j < before.len() {
                    assert(after[j] == before[j]);
                }
            }
        }
        if acc as u64 * 16 + d as u64 > max as u64 {
            proof {
                assert(hex_value(after) > max);
                assert(digits.subrange(0, i + 1 - start) =~= after);
                lemma_hex_tail_grows(digits, (i + 1 - start) as nat, max as nat);
            }
            return None;
        }
        acc = acc * 16 + d as u32;
        i = i + 1;
    }
    assert(digits =~= s@.subrange(start as int, i as int));
    Some(acc)
}

/// Once a prefix of the digits exceeds `max`, the whole string does too.
proof fn lemma_hex_tail_grows(digits: Seq<char>, n: nat, max: nat)
    requires
        0 < n <= digits.len(),
        all_hex(digits.subrange(0, n as int)),
        hex_value(digits.subrange(0, n as int)) > max,
    ensures
        !(all_hex(digits) && hex_value(digits) <= max),
    decreases digits.len() - n,
{
    if n < digits.len() && all_hex(digits) {
        let next = digits.subrange(0, n + 1 as int);
        assert(next.drop_last() =~= digits.subrange(0, n as int));
        assert(all_hex(next)) by {
            assert forall|j: int| 0 <= j < next.len() implies (#[trigger] hex_digit(next[j])) is Some by {
                assert(next[j] == digits[j]);
            }
        }
        lemma_hex_tail_grows(digits, n + 1, max);
    } else if n == digits.len() {
        assert(digits.subrange(0, n as int) =~= digits);
    }
}

/// The pieces of `s` between occurrences of `sep`.
pub fn split_chars(s: &Vec<char>, sep: char) -> (r: Vec<Vec<char>>)
    ensures
        r@.len() == split_on(s@, sep).len(),
        forall|k: int| 0 <= k < r@.len() ==> (#[trigger] r@[k])@ == split_on(s@, sep)[k],
{
    let mut parts: Vec<Vec<char>> = Vec::new();
    let mut cur: Vec<char> = Vec::new();
    let mut i: usize = 0;
    assert(s@.subrange(0, 0) =~= Seq::<char>::empty());
    while i < s.len()
        invariant
            0 <= i <= s@.len(),
            parts@.len() + 1 == split_on(s@.subrange(0, i as int), sep).len(),
            forall|k: int| 0 <= k < parts@.len() ==> (#[trigger] parts@[k])@ == split_on(
                s@.subrange(0, i as int),
                sep,
            )[k],
            cur@ == split_on(s@.subrange(0, i as int), sep).last(),
        decreases s@.len() - i,
    {
        let ghost prev = split_on(s@.subrange(0, i as int), sep);
        assert(s@.subrange(0, i + 1 as int).drop_last() =~= s@.subrange(0, i as int));
        if s[i] == sep {
            let done = cur;
            parts.push(done);
            cur = Vec::new();
        } else {
            cur.push(s[i]);
        }
        i = i + 1;
    }
    assert(s@.subrange(0, s@.len() as int) =~= s@);
    parts.push(cur);
    parts
}

} // verus!
