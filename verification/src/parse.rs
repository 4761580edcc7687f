use vstd::prelude::*;
use vstd::slice::{slice_subrange, slice_to_vec};
use crate::cache::MetricName;
use crate::value::MetricValue;

verus! {

/// The index of the first occurrence of `b` in `s` at or after `from`,
/// or `s.len()` when there is none.
pub open spec fn find_byte(s: Seq<u8>, b: u8, from: int) -> int
    decreases s.len() - from,
{
    if from >= s.len() {
        s.len() as int
    } else if s[from] == b {
        from
    } else {
        find_byte(s, b, from + 1)
    }
}

pub proof fn lemma_find_byte(s: Seq<u8>, b: u8, from: int)
    requires
        0 <= from <= s.len(),
    ensures
        from <= find_byte(s, b, from) <= s.len(),
        find_byte(s, b, from) < s.len() ==> s[find_byte(s, b, from)] == b,
        forall|k: int| from <= k < find_byte(s, b, from) ==> s[k] != b,
    decreases s.len() - from,
{
    if from < s.len() && s[from] != b {
        lemma_find_byte(s, b, from + 1);
    }
}

/// An ASCII decimal digit.
pub open spec fn is_digit(b: u8) -> bool {
    48 <= b && b <= 57
}

pub open spec fn all_digits(s: Seq<u8>) -> bool {
    forall|i: int| 0 <= i < s.len() ==> is_digit(#[trigger] s[i])
}

/// The number that a decimal digit string denotes.
pub open spec fn digits_value(s: Seq<u8>) -> int
    decreases s.len(),
{
    if s.len() == 0 {
        0
    } else {
        digits_value(s.drop_last()) * 10 + (s.last() - 48)
    }
}

spec fn pow10(n: nat) -> int
    decreases n,
{
    if n == 0 {
        1
    } else {
        10 * pow10((n - 1) as nat)
    }
}

proof fn lemma_pow10_pos(n: nat)
    ensures
        pow10(n) >= 1,
    decreases n,
{
    if n > 0 {
        lemma_pow10_pos((n - 1) as nat);
    }
}

proof fn lemma_pow10_mono(a: nat, b: nat)
    requires
        a <= b,
    ensures
        pow10(a) <= pow10(b),
    decreases b,
{
    if a < b {
        lemma_pow10_mono(a, (b - 1) as nat);
        lemma_pow10_pos((b - 1) as nat);
    }
}

proof fn lemma_pow10_18()
    ensures
        pow10(18) == 1000000000000000000,
{
    reveal_with_fuel(pow10, 20);
}

/// A record's value field: an optional minus sign followed by one to
/// eighteen decimal digits. The digit bound keeps every denoted value
/// well inside the `i64` range.
pub open spec fn valid_number(s: Seq<u8>) -> bool {
    if s.len() > 0 && s[0] == 45 {
        let d = s.subrange(1, s.len() as int);
        1 <= d.len() <= 18 && all_digits(d)
    } else {
        1 <= s.len() <= 18 && all_digits(s)
    }
}

pub open spec fn number_value(s: Seq<u8>) -> int {
    if s.len() > 0 && s[0] == 45 {
        -digits_value(s.subrange(1, s.len() as int))
    } else {
        digits_value(s)
    }
}

/// A complete record line (terminator excluded): `name:value|k`. The
/// name is the nonempty span before the first `:` byte, the value
/// satisfies `valid_number`, and the kind byte k is `c` (a counter
/// delta) or `g` (a gauge reading), set off by a `|` byte.
pub open spec fn valid_line(l: Seq<u8>) -> bool {
    let c = find_byte(l, 58, 0);
    let bar = find_byte(l, 124, c + 1);
    &&& 1 <= c
    &&& c < l.len()
    &&& bar == l.len() - 2
    &&& valid_number(l.subrange(c + 1, bar))
    &&& (l[l.len() - 1] == 99 || l[l.len() - 1] == 103)
}

pub open spec fn line_name(l: Seq<u8>) -> Seq<u8> {
    l.subrange(0, find_byte(l, 58, 0))
}

pub open spec fn line_value(l: Seq<u8>) -> MetricValue {
    let c = find_byte(l, 58, 0);
    let bar = find_byte(l, 124, c + 1);
    let v = number_value(l.subrange(c + 1, bar));
    if l[l.len() - 1] == 99 {
        MetricValue::Counter(v as i64)
    } else {
        MetricValue::Gauge(v as i64)
    }
}

/// What one parse step yields at a position of the buffer: a complete
/// record with the count of bytes consumed (terminator included); a
/// clean end of input (the buffer is exhausted, or its tail has no
/// terminator and so ends mid-record); or a malformed record.
pub enum SpecParse {
    Consumed { name: Seq<u8>, value: MetricValue, consumed: int },
    End,
    Malformed,
}

pub open spec fn spec_parse(buf: Seq<u8>, pos: int) -> SpecParse {
    let nl = find_byte(buf, 10, pos);
    if pos >= buf.len() {
        SpecParse::End
    } else if nl == buf.len() {
        SpecParse::End
    } else {
        let l = buf.subrange(pos, nl);
        if valid_line(l) {
            SpecParse::Consumed { name: line_name(l), value: line_value(l), consumed: nl + 1 - pos }
        } else {
            SpecParse::Malformed
        }
    }
}

/// A consumed record always makes strict progress and stays within the
/// buffer.
pub proof fn lemma_spec_parse_consumed(buf: Seq<u8>, pos: int)
    requires
        0 <= pos <= buf.len(),
    ensures
        spec_parse(buf, pos) matches SpecParse::Consumed { consumed, .. } ==> 1 <= consumed
            && pos + consumed <= buf.len(),
{
    lemma_find_byte(buf, 10, pos);
}

/// What the executable parser yields; its view is the `SpecParse` step
/// it stands for.
pub enum ParseOutcome {
    Consumed { name: MetricName, value: MetricValue, consumed: usize },
    End,
    Malformed,
}

impl View for ParseOutcome {
    type V = SpecParse;

    open spec fn view(&self) -> SpecParse {
        match self {
            ParseOutcome::Consumed { name, value, consumed } => SpecParse::Consumed {
                name: name@,
                value: *value,
                consumed: *consumed as int,
            },
            ParseOutcome::End => SpecParse::End,
            ParseOutcome::Malformed => SpecParse::Malformed,
        }
    }
}

/// The index of the first `b` at or after `from`, or the length of the
/// buffer when there is none.
pub fn find_byte_at(buf: &[u8], b: u8, from: usize) -> (r: usize)
    requires
        from <= buf@.len(),
    ensures
        r == find_byte(buf@, b, from as int),
{
    let mut j: usize = from;
    while j < buf.len()
        invariant
            from <= j <= buf@.len(),
            find_byte(buf@, b, from as int) == find_byte(buf@, b, j as int),
        decreases buf@.len() - j,
    {
        if buf[j] == b {
            return j;
        }
        j = j + 1;
    }
    j
}

/// Parse a record's value field.
fn parse_number(ns: &[u8]) -> (r: Option<i64>)
    ensures
        match r {
            Some(v) => valid_number(ns@) && v as int == number_value(ns@),
            None => !valid_number(ns@),
        },
{
    let n: usize = ns.len();
    let neg: bool = n > 0 && ns[0] == 45;
    let start: usize = if neg {
        1
    } else {
        0
    };
    let ghost d = ns@.subrange(start as int, n as int);
    proof {
        if !neg {
            assert(ns@.subrange(0int, n as int) =~= ns@);
        }
    }
    if n - start < 1 || n - start > 18 {
        return None;
    }
    let mut acc: i64 = 0;
    let mut i: usize = start;
    while i < n
        invariant
            start <= i <= n,
            n == ns@.len(),
            n - start <= 18,
            neg == (ns@.len() > 0 && ns@[0] == 45),
            start as int == (if neg { 1int } else { 0int }),
            d == ns@.subrange(start as int, n as int),
            !neg ==> d == ns@,
            all_digits(ns@.subrange(start as int, i as int)),
            acc == digits_value(ns@.subrange(start as int, i as int)),
            0 <= acc,
            acc < pow10((i - start) as nat),
        decreases n - i,
    {
        let b: u8 = ns[i];
        if b < 48 || b > 57 {
            assert(!all_digits(d)) by {
                assert(d[i - start] == ns@[i as int]);
            }
            return None;
        }
        proof {
            lemma_pow10_mono((i - start) as nat, 17);
            lemma_pow10_18();
            assert(pow10(18) == 10 * pow10(17));
            let p0 = ns@.subrange(start as int, i as int);
            let p1 = ns@.subrange(start as int, i + 1 as int);
            assert(p1.drop_last() =~= p0);
            assert(p1.last() == ns@[i as int]);
            assert forall|k: int| 0 <= k < p1.len() implies is_digit(#[trigger] p1[k]) by {
                if k < p0.len() {
                    assert(p1[k] == p0[k]);
                }
            }
        }
        acc = acc * 10 + (b - 48) as i64;
        i = i + 1;
    }
    assert(ns@.subrange(start as int, i as int) =~= d);
    let v: i64 = if neg {
        -acc
    } else {
        acc
    };
    assert(valid_number(ns@) && v as int == number_value(ns@)) by {
        if neg {
            assert(ns@.subrange(1int, n as int) == d);
        } else {
            assert(ns@.subrange(0int, n as int) =~= ns@);
        }
    }
    Some(v)
}

/// Parse one complete record line (terminator excluded).
fn parse_line(line: &[u8]) -> (r: Option<(MetricName, MetricValue)>)
    ensures
        match r {
            Some(p) => valid_line(line@) && p.0@ == line_name(line@) && p.1 == line_value(line@),
            None => !valid_line(line@),
        },
{
    let n: usize = line.len();
    let c: usize = find_byte_at(line, 58, 0);
    proof {
        lemma_find_byte(line@, 58, 0);
    }
    if c == 0 || c >= n {
        return None;
    }
    let bar: usize = find_byte_at(line, 124, c + 1);
    proof {
        lemma_find_byte(line@, 124, c + 1 as int);
    }
    if bar != n - 2 {
        return None;
    }
    let kind: u8 = line[n - 1];
    if kind != 99 && kind != 103 {
        return None;
    }
    let ns: &[u8] = slice_subrange(line, c + 1, bar);
    match parse_number(ns) {
        Some(v) => {
            let name_bytes: Vec<u8> = slice_to_vec(slice_subrange(line, 0, c));
            let value: MetricValue = if kind == 99 {
                MetricValue::Counter(v)
            } else {
                MetricValue::Gauge(v)
            };
            assert(valid_line(line@));
            assert(value == line_value(line@));
            Some((MetricName::from_bytes(name_bytes), value))
        },
        None => None,
    }
}

/// One parse step at `pos`: the next complete record, a clean end of
/// input, or a malformed record.
pub fn parse_next(buf: &[u8], pos: usize) -> (r: ParseOutcome)
    requires
        pos <= buf@.len(),
    ensures
        r@ == spec_parse(buf@, pos as int),
{
    if pos == buf.len() {
        return ParseOutcome::End;
    }
    let nl: usize = find_byte_at(buf, 10, pos);
    proof {
        lemma_find_byte(buf@, 10, pos as int);
    }
    if nl == buf.len() {
        return ParseOutcome::End;
    }
    let line: &[u8] = slice_subrange(buf, pos, nl);
    match parse_line(line) {
        Some((name, value)) => ParseOutcome::Consumed { name, value, consumed: nl - pos + 1 },
        None => ParseOutcome::Malformed,
    }
}

} // verus!
