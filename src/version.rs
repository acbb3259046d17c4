//! Comparing release versions written `major.minor.patch`.
use crate::paths::same_text;
use vstd::prelude::*;

verus! {

/// The first `.` at or after `from`, or the end of `s`.
pub open spec fn next_dot(s: Seq<char>, from: int) -> int
    decreases s.len() - from,
{
    if from < 0 || from >= s.len() {
        s.len() as int
    } else if s[from] == '.' {
        from
    } else {
        next_dot(s, from + 1)
    }
}

pub open spec fn is_digit(c: char) -> bool {
    '0' <= c && c <= '9'
}

/// The number that a run of decimal digits writes.
pub open spec fn digits_value(d: Seq<char>) -> int
    decreases d.len(),
{
    if d.len() == 0 {
        0
    } else {
        digits_value(d.drop_last()) * 10 + (d.last() as int - '0' as int)
    }
}

/// The digits of an unsigned number's text, after an optional `+`.
pub open spec fn unsigned_digits(s: Seq<char>) -> Seq<char> {
    if s.len() > 0 && s[0] == '+' {
        s.skip(1)
    } else {
        s
    }
}

/// The `u32` that `s` writes in decimal, as `str::parse` reads it: an
/// optional `+`, then at least one digit, and a value that fits.
pub open spec fn u32_of_text(s: Seq<char>) -> Option<u32> {
    let d = unsigned_digits(s);
    if d.len() > 0 && (forall|i: int| 0 <= i < d.len() ==> is_digit(#[trigger] d[i])) && digits_value(d)
        <= u32::MAX {
        Some(digits_value(d) as u32)
    } else {
        None
    }
}

/// The version that `s` writes: its first three `.`-separated fields, each a
/// number; none when there are fewer fields or one of them is no number.
pub open spec fn version_of(s: Seq<char>) -> Option<(u32, u32, u32)> {
    let d0 = next_dot(s, 0);
    let d1 = next_dot(s, d0 + 1);
    let d2 = next_dot(s, d1 + 1);
    if d0 < s.len() && d1 < s.len() {
        match (
            u32_of_text(s.subrange(0, d0)),
            u32_of_text(s.subrange(d0 + 1, d1)),
            u32_of_text(s.subrange(d1 + 1, d2)),
        ) {
            (Some(a), Some(b), Some(c)) => Some((a, b, c)),
            _ => None,
        }
    } else {
        None
    }
}

/// `l` comes after `c`, comparing major, then minor, then patch.
pub open spec fn version_after(l: (u32, u32, u32), c: (u32, u32, u32)) -> bool {
    l.0 > c.0 || (l.0 == c.0 && (l.1 > c.1 || (l.1 == c.1 && l.2 > c.2)))
}

/// `latest` is newer than `current`: by version where both are versions,
/// else whenever the texts differ.
pub open spec fn newer_than(latest: Seq<char>, current: Seq<char>) -> bool {
    match (version_of(latest), version_of(current)) {
        (Some(l), Some(c)) => version_after(l, c),
        _ => latest != current,
    }
}

/// Digits never write a negative number.
pub proof fn lemma_digits_value_nonneg(d: Seq<char>)
    requires
        forall|i: int| 0 <= i < d.len() ==> is_digit(#[trigger] d[i]),
    ensures
        digits_value(d) >= 0,
    decreases d.len(),
{
    if d.len() > 0 {
        let p = d.drop_last();
        assert forall|i: int| 0 <= i < p.len() implies is_digit(#[trigger] p[i]) by {
            assert(p[i] == d[i]);
        }
        lemma_digits_value_nonneg(p);
        assert(is_digit(d[d.len() - 1]));
    }
}

/// A longer run of digits never writes a smaller number.
pub proof fn lemma_digits_value_grows(d: Seq<char>, k: int)
    requires
        0 <= k <= d.len(),
        forall|i: int| 0 <= i < d.len() ==> is_digit(#[trigger] d[i]),
    ensures
        digits_value(d.subrange(0, k)) <= digits_value(d),
    decreases d.len() - k,
{
    if k < d.len() {
        let t = d.subrange(0, k + 1);
        assert(t.drop_last() =~= d.subrange(0, k));
        assert(is_digit(d[k]));
        assert(t.last() == d[k]);
        let p = d.subrange(0, k);
        assert forall|i: int| 0 <= i < p.len() implies is_digit(#[trigger] p[i]) by {
            assert(p[i] == d[i]);
        }
        lemma_digits_value_nonneg(p);
        lemma_digits_value_grows(d, k + 1);
    } else {
        assert(d.subrange(0, k) =~= d);
    }
}

/// The first `.` at or after `from`, or the end of `s`.
fn find_dot(s: &str, from: usize) -> (r: usize)
    requires
        from <= s@.len(),
    ensures
        r as int == next_dot(s@, from as int),
        from <= r <= s@.len(),
{
    let n = s.unicode_len();
    let mut i: usize = from;
    while i < n
        invariant
            n == s@.len(),
            from <= i <= n,
            next_dot(s@, from as int) == next_dot(s@, i as int),
        decreases n - i,
    {
        if s.get_char(i) == '.' {
            return i;
        }
        i += 1;
    }
    i
}

/// The `u32` that the characters `from..to` of `s` write.
fn parse_u32_field(s: &str, from: usize, to: usize) -> (r: Option<u32>)
    requires
        from <= to <= s@.len(),
    ensures
        r == u32_of_text(s@.subrange(from as int, to as int)),
{
    let ghost text = s@.subrange(from as int, to as int);
    let mut start: usize = from;
    if start < to && s.get_char(start) == '+' {
        start += 1;
        assert(text.skip(1) =~= s@.subrange(start as int, to as int));
    } else {
        assert(text =~= s@.subrange(start as int, to as int));
    }
    let ghost d = s@.subrange(start as int, to as int);
    assert(d == unsigned_digits(text));
    if start == to {
        return None;
    }
    let mut value: u64 = 0;
    let mut i: usize = start;
    while i < to
        invariant
            to <= s@.len(),
            start < to,
            start <= i <= to,
            d == s@.subrange(start as int, to as int),
            d == unsigned_digits(text),
            text == s@.subrange(from as int, to as int),
            forall|k: int| 0 <= k < i - start ==> is_digit(#[trigger] d[k]),
            value as int == digits_value(d.subrange(0, i - start)),
            value <= u32::MAX,
        decreases to - i,
    {
        let c = s.get_char(i);
        if c < '0' || c > '9' {
            assert(!is_digit(d[i - start]));
            return None;
        }
        let ghost prefix = d.subrange(0, i - start + 1);
        assert(prefix.drop_last() =~= d.subrange(0, i - start));
        assert(prefix.last() == c);
        value = value * 10 + ((c as u32) - ('0' as u32)) as u64;
        i += 1;
        if value > 4294967295 {
            proof {
                if forall|k: int| 0 <= k < d.len() ==> is_digit(#[trigger] d[k]) {
                    lemma_digits_value_grows(d, i - start);
                }
            }
            return None;
        }
    }
    assert(d.subrange(0, i - start) =~= d);
    Some(value as u32)
}

/// The version that `s` writes, if it writes one.
fn parse_version(s: &str) -> (r: Option<(u32, u32, u32)>)
    ensures
        r == version_of(s@),
{
    let n = s.unicode_len();
    let d0 = find_dot(s, 0);
    if d0 >= n {
        return None;
    }
    let d1 = find_dot(s, d0 + 1);
    if d1 >= n {
        return None;
    }
    let d2 = find_dot(s, d1 + 1);
    let a = parse_u32_field(s, 0, d0);
    let b = parse_u32_field(s, d0 + 1, d1);
    let c = parse_u32_field(s, d1 + 1, d2);
    match (a, b, c) {
        (Some(a), Some(b), Some(c)) => Some((a, b, c)),
        _ => None,
    }
}

/// Whether `latest` is a newer release than `current`: compared as versions
/// where both are versions, and as differing texts otherwise.
pub fn is_newer_version(latest: &str, current: &str) -> (r: bool)
    ensures
        r == newer_than(latest@, current@),
{
    match (parse_version(latest), parse_version(current)) {
        (Some(l), Some(c)) => l.0 > c.0 || (l.0 == c.0 && (l.1 > c.1 || (l.1 == c.1 && l.2 > c.2))),
        _ => !same_text(latest, current),
    }
}

} // verus!
