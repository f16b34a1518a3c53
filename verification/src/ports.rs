//! Port patterns of network rules (`*`, `443`, `8000-8100`, `80,443`) and the
//! decimal numbers in them.

use vstd::prelude::*;
use crate::text::{to_chars, chars_find, chars_slice, find_spec, occurs_at, seqs_of, split_chars, split_spec};

verus! {

/// `c` is an ASCII decimal digit.
pub open spec fn is_digit(c: char) -> bool {
    '0' <= c && c <= '9'
}

/// The value of a sequence of decimal digits.
pub open spec fn digits_value(d: Seq<char>) -> nat
    decreases d.len(),
{
    if d.len() == 0 {
        0
    } else {
        digits_value(d.drop_last()) * 10 + (d.last() as nat - '0' as nat) as nat
    }
}

/// Every character of `d` is a decimal digit.
pub open spec fn all_digits(d: Seq<char>) -> bool {
    forall|i: int| 0 <= i < d.len() ==> is_digit(#[trigger] d[i])
}

/// The text after an optional leading `+`.
pub open spec fn unsigned_digits(s: Seq<char>) -> Seq<char> {
    if s.len() > 0 && s[0] == '+' {
        s.skip(1)
    } else {
        s
    }
}

/// What `u16::from_str` gives: an optional `+` followed by at least one
/// decimal digit, whose value is at most 65535.
pub open spec fn parse_u16_spec(s: Seq<char>) -> Option<u16> {
    let d = unsigned_digits(s);
    if d.len() > 0 && all_digits(d) && digits_value(d) <= 65535 {
        Some(digits_value(d) as u16)
    } else {
        None
    }
}

/// A longer run of digits has no smaller value.
proof fn lemma_digits_monotone(d: Seq<char>, k: int)
    requires
        0 <= k <= d.len(),
        forall|i: int| 0 <= i < d.len() ==> is_digit(#[trigger] d[i]),
    ensures
        digits_value(d.take(k)) <= digits_value(d),
    decreases d.len() - k,
{
    if k < d.len() {
        lemma_digits_monotone(d, k + 1);
        assert(d.take(k + 1).drop_last() =~= d.take(k));
        assert(is_digit(d[k]));
    } else {
        assert(d.take(k) =~= d);
    }
}

/// Parses a decimal `u16` as `u16::from_str` does.
pub fn parse_u16(s: &Vec<char>) -> (r: Option<u16>)
    ensures
        r == parse_u16_spec(s@),
{
    let start: usize = if s.len() > 0 && s[0] == '+' { 1 } else { 0 };
    let ghost d = unsigned_digits(s@);
    assert(d =~= s@.subrange(start as int, s@.len() as int));
    if start == s.len() {
        return None;
    }
    let mut v: u32 = 0;
    for i in start..s.len()
        invariant
            start <= s.len(),
            d.len() == s.len() - start,
            d == s@.subrange(start as int, s@.len() as int),
            d == unsigned_digits(s@),
            v as nat == digits_value(d.take(i - start)),
            v <= 65535,
            forall|j: int| 0 <= j < i - start ==> is_digit(#[trigger] d[j]),
    {
        let c = s[i];
        assert(d[i - start] == c);
        if !('0' <= c && c <= '9') {
            assert(!is_digit(d[i - start]));
            assert(!all_digits(d));
            assert(parse_u16_spec(s@) is None);
            return None;
        }
        assert(d.take(i - start + 1).drop_last() =~= d.take(i - start));
        v = v * 10 + (c as u32 - '0' as u32);
        if v > 65535 {
            proof {
                if all_digits(d) {
                    lemma_digits_monotone(d, i - start + 1);
                    assert(digits_value(d.take(i - start + 1)) > 65535);
                    assert(digits_value(d) > 65535);
                }
                assert(parse_u16_spec(s@) is None);
            }
            return None;
        }
    }
    assert(d.take(s.len() - start) =~= d);
    Some(v as u16)
}

/// The ranges that one comma-separated part of a port pattern contributes:
/// `a-b` gives `(a, b)` when both ends are numbers, a single number `p` gives
/// `(p, p)`, and anything else nothing.
pub open spec fn part_ranges(part: Seq<char>) -> Seq<(u16, u16)> {
    match find_spec(part, seq!['-']) {
        Some(i) => match (parse_u16_spec(part.take(i)), parse_u16_spec(part.skip(i + 1))) {
            (Some(a), Some(b)) => seq![(a, b)],
            _ => Seq::empty(),
        },
        None => match parse_u16_spec(part) {
            Some(p) => seq![(p, p)],
            None => Seq::empty(),
        },
    }
}

/// The ranges of a list of pattern parts, in order.
pub open spec fn ranges_of_parts(parts: Seq<Seq<char>>) -> Seq<(u16, u16)>
    decreases parts.len(),
{
    if parts.len() == 0 {
        Seq::empty()
    } else {
        ranges_of_parts(parts.drop_last()) + part_ranges(parts.last())
    }
}

/// The port ranges of a pattern: all ports for `*`, otherwise the ranges of
/// its comma-separated parts.
pub open spec fn port_ranges(pattern: Seq<char>) -> Seq<(u16, u16)> {
    if pattern == seq!['*'] {
        seq![(0u16, 65535u16)]
    } else {
        ranges_of_parts(split_spec(pattern, ','))
    }
}

/// Whether `port` lies in one of the (inclusive) ranges.
pub open spec fn port_in(ranges: Seq<(u16, u16)>, port: u16) -> bool {
    exists|i: int| 0 <= i < ranges.len() && ranges[i].0 <= port && port <= (#[trigger] ranges[i]).1
}

/// The ranges one part of a port pattern contributes (see [`part_ranges`]).
fn ranges_of_part(part: &Vec<char>, dash: &Vec<char>) -> (r: Vec<(u16, u16)>)
    requires
        dash@ == seq!['-'],
    ensures
        r@ == part_ranges(part@),
{
    match chars_find(part, dash) {
        Some(k) => {
            assert(occurs_at(part@, dash@, k as int));
            assert(dash@.len() == 1);
            assert(k + 1 <= part@.len());
            assert(k < part.len());
            let start = chars_slice(part, 0, k);
            let end = chars_slice(part, k + 1, part.len());
            assert(start@ =~= part@.take(k as int));
            assert(end@ =~= part@.skip(k + 1));
            match (parse_u16(&start), parse_u16(&end)) {
                (Some(s), Some(e)) => {
                    let r = vec![(s, e)];
                    assert(r@ =~= seq![(s, e)]);
                    r
                },
                _ => Vec::new(),
            }
        },
        None => match parse_u16(part) {
            Some(p) => {
                let r = vec![(p, p)];
                assert(r@ =~= seq![(p, p)]);
                r
            },
            None => Vec::new(),
        },
    }
}

/// The port ranges of one rule.
pub struct PortPattern {
    ranges: Vec<(u16, u16)>,
}

impl PortPattern {
    /// The inclusive port ranges of the pattern.
    pub closed spec fn ranges(&self) -> Seq<(u16, u16)> {
        self.ranges@
    }

    /// Parses a port pattern (see [`port_ranges`]).
    pub fn parse(pattern: &str) -> (r: Self)
        ensures
            r.ranges() == port_ranges(pattern@),
    {
        Self::parse_chars(&to_chars(pattern))
    }

    /// Parses the characters of a port pattern (see [`port_ranges`]).
    pub fn parse_chars(pattern: &Vec<char>) -> (r: Self)
        ensures
            r.ranges() == port_ranges(pattern@),
    {
        if pattern.len() == 1 && pattern[0] == '*' {
            assert(pattern@ =~= seq!['*']);
            let r = PortPattern { ranges: vec![(0u16, 65535u16)] };
            assert(r.ranges@ =~= seq![(0u16, 65535u16)]);
            return r;
        }
        assert(pattern@ != seq!['*']);
        let parts = split_chars(pattern, ',');
        let dash: Vec<char> = vec!['-'];
        assert(dash@ =~= seq!['-']);
        let mut ranges: Vec<(u16, u16)> = Vec::new();
        for i in 0..parts.len()
            invariant
                seqs_of(parts@) == split_spec(pattern@, ','),
                dash@ == seq!['-'],
                ranges@ == ranges_of_parts(seqs_of(parts@).take(i as int)),
        {
            let ghost ps = seqs_of(parts@);
            assert(ps.take(i + 1).drop_last() =~= ps.take(i as int));
            assert(ps.take(i + 1).last() == parts[i as int]@);
            let ghost before = ranges@;
            let mut more = ranges_of_part(&parts[i], &dash);
            ranges.append(&mut more);
        }
        assert(seqs_of(parts@).take(parts.len() as int) =~= seqs_of(parts@));
        PortPattern { ranges }
    }

    /// Whether `port` lies in one of the pattern's ranges.
    pub fn matches(&self, port: u16) -> (r: bool)
        ensures
            r == port_in(self.ranges(), port),
    {
        for i in 0..self.ranges.len()
            invariant
                forall|j: int|
                    0 <= j < i ==> !(self.ranges@[j].0 <= port && port <= (
                    #[trigger] self.ranges@[j]).1),
        {
            let (s, e) = self.ranges[i];
            if port >= s && port <= e {
                assert(self.ranges@[i as int].0 <= port && port <= self.ranges@[i as int].1);
                return true;
            }
        }
        false
    }
}

} // verus!
