//! Durations as written in rule files (`30s`, `5h`), their order by length
//! and the policy that merges the `for` durations of several rules.
use vstd::prelude::*;

use prometheus_parser::PromDuration as P;

use crate::text::{chars_of, decimal, digit_of, digits_value, is_digit, push_decimal, string_of};

verus! {

/// A duration with the unit it was written in.
#[derive(Clone, Copy, Debug, PartialEq, Eq, Structural)]
pub enum Duration {
    Seconds(u64),
    Minutes(u64),
    Hours(u64),
    Days(u64),
    Weeks(u64),
    Years(u64),
}

pub open spec fn magnitude(d: Duration) -> u64 {
    match d {
        Duration::Seconds(v) => v,
        Duration::Minutes(v) => v,
        Duration::Hours(v) => v,
        Duration::Days(v) => v,
        Duration::Weeks(v) => v,
        Duration::Years(v) => v,
    }
}

pub open spec fn unit_char(d: Duration) -> char {
    match d {
        Duration::Seconds(_) => 's',
        Duration::Minutes(_) => 'm',
        Duration::Hours(_) => 'h',
        Duration::Days(_) => 'd',
        Duration::Weeks(_) => 'w',
        Duration::Years(_) => 'y',
    }
}

/// Seconds in one of the duration's units (a year counts 365 days).
pub open spec fn unit_seconds(d: Duration) -> nat {
    match d {
        Duration::Seconds(_) => 1,
        Duration::Minutes(_) => 60,
        Duration::Hours(_) => 3600,
        Duration::Days(_) => 86400,
        Duration::Weeks(_) => 604800,
        Duration::Years(_) => 31536000,
    }
}

/// The length of the duration in seconds: the measure durations are ordered by.
pub open spec fn seconds(d: Duration) -> nat {
    magnitude(d) as nat * unit_seconds(d)
}

/// The literal text of a duration: magnitude, then unit symbol.
pub open spec fn duration_text(d: Duration) -> Seq<char> {
    decimal(magnitude(d) as nat).push(unit_char(d))
}

/// The duration a unit symbol and a magnitude denote, if the symbol is known.
pub open spec fn duration_from_pair(unit: Seq<char>, value: u64) -> Option<Duration> {
    if unit == seq!['s'] {
        Some(Duration::Seconds(value))
    } else if unit == seq!['m'] {
        Some(Duration::Minutes(value))
    } else if unit == seq!['h'] {
        Some(Duration::Hours(value))
    } else if unit == seq!['d'] {
        Some(Duration::Days(value))
    } else if unit == seq!['w'] {
        Some(Duration::Weeks(value))
    } else if unit == seq!['y'] {
        Some(Duration::Years(value))
    } else {
        None
    }
}

/// Whether `s` is a non-empty run of decimal digits whose value fits in `u64`.
pub open spec fn is_magnitude(s: Seq<char>) -> bool {
    &&& s.len() > 0
    &&& forall|i: int| 0 <= i < s.len() ==> is_digit(#[trigger] s[i])
    &&& digits_value(s) <= u64::MAX
}

/// What a `for` text denotes: at least two characters, the last one the unit
/// symbol and the rest the magnitude.
pub open spec fn parsed_for(s: Seq<char>) -> Option<Duration> {
    if s.len() >= 2 && is_magnitude(s.drop_last()) {
        duration_from_pair(seq![s.last()], digits_value(s.drop_last()) as u64)
    } else {
        None
    }
}

/// The first of the shortest durations present in `ds`, if any is present.
pub open spec fn shortest(ds: Seq<Option<Duration>>) -> Option<Duration>
    decreases ds.len(),
{
    if ds.len() == 0 {
        None
    } else {
        let rest = shortest(ds.drop_last());
        match ds.last() {
            None => rest,
            Some(d) => match rest {
                None => Some(d),
                Some(m) => if seconds(d) < seconds(m) {
                    Some(d)
                } else {
                    Some(m)
                },
            },
        }
    }
}

/// The duration chosen from the shortest one found: never under an hour, and
/// exactly an hour when none was found.
pub open spec fn chosen_for(m: Option<Duration>) -> Duration {
    match m {
        Some(d) => if seconds(d) > 3600 {
            d
        } else {
            Duration::Hours(1)
        },
        None => Duration::Hours(1),
    }
}

impl Duration {
    /// The length in seconds, exactly.
    pub fn seconds(&self) -> (r: u128)
        ensures
            r as nat == seconds(*self),
    {
        match *self {
            Duration::Seconds(v) => v as u128,
            Duration::Minutes(v) => v as u128 * 60,
            Duration::Hours(v) => v as u128 * 3600,
            Duration::Days(v) => v as u128 * 86400,
            Duration::Weeks(v) => v as u128 * 604800,
            Duration::Years(v) => v as u128 * 31536000,
        }
    }

    /// The literal text, such as `1h`.
    pub fn to_text(&self) -> (r: String)
        ensures
            r@ == duration_text(*self),
    {
        let mut out: Vec<char> = Vec::new();
        self.push_text(&mut out);
        string_of(&out)
    }

    /// Appends the literal text to `out`.
    pub fn push_text(&self, out: &mut Vec<char>)
        ensures
            final(out)@ == old(out)@ + duration_text(*self),
    {
        let (v, u) = match *self {
            Duration::Seconds(v) => (v, 's'),
            Duration::Minutes(v) => (v, 'm'),
            Duration::Hours(v) => (v, 'h'),
            Duration::Days(v) => (v, 'd'),
            Duration::Weeks(v) => (v, 'w'),
            Duration::Years(v) => (v, 'y'),
        };
        push_decimal(v, out);
        out.push(u);
        assert(out@ =~= old(out)@ + duration_text(*self));
    }
}

/// Relies on `prometheus_parser::PromDuration::from_pair`: the units `s`, `m`,
/// `h`, `d`, `w`, `y` give the matching duration of that magnitude, anything
/// else an error.
#[verifier::external_body]
fn from_pair(unit: &str, value: u64) -> (r: Result<Duration, String>)
    ensures
        r is Ok <==> duration_from_pair(unit@, value) is Some,
        r is Ok ==> r->Ok_0 == duration_from_pair(unit@, value)->0,
{
    match P::from_pair(unit, value)? {
        P::Seconds(v) => Ok(Duration::Seconds(v)),
        P::Minutes(v) => Ok(Duration::Minutes(v)),
        P::Hours(v) => Ok(Duration::Hours(v)),
        P::Days(v) => Ok(Duration::Days(v)),
        P::Weeks(v) => Ok(Duration::Weeks(v)),
        P::Years(v) => Ok(Duration::Years(v)),
    }
}

/// Reads a run of decimal digits as a `u64`; `None` when it is empty, holds
/// another character, or does not fit.
pub fn parse_magnitude(s: &Vec<char>) -> (r: Option<u64>)
    ensures
        r is Some <==> is_magnitude(s@),
        r is Some ==> r->0 == digits_value(s@),
{
    if s.len() == 0 {
        return None;
    }
    let mut v: u64 = 0;
    let mut i: usize = 0;
    while i < s.len()
        invariant
            i <= s.len(),
            forall|j: int| 0 <= j < i ==> is_digit(#[trigger] s@[j]),
            v as nat == digits_value(s@.subrange(0, i as int)),
        decreases s.len() - i,
    {
        assert(s@.subrange(0, i + 1 as int).drop_last() =~= s@.subrange(0, i as int));
        assert(s@.subrange(0, i + 1 as int).last() == s@[i as int]);
        let d = match digit_of(s[i]) {
            Some(d) => d,
            None => return None,
        };
        if v > (u64::MAX - d) / 10 {
            proof {
                assert(v * 10 + d > u64::MAX) by (nonlinear_arith)
                    requires
                        v > (u64::MAX - d) / 10,
                        d <= 9,
                ;
                lemma_prefix_value_bound(s@, i as int + 1);
            }
            return None;
        }
        v = v * 10 + d;
        i = i + 1;
    }
    assert(s@.subrange(0, i as int) =~= s@);
    Some(v)
}

/// The value of a prefix never exceeds that of the whole sequence.
proof fn lemma_prefix_value_bound(s: Seq<char>, n: int)
    requires
        0 <= n <= s.len(),
    ensures
        digits_value(s.subrange(0, n)) <= digits_value(s),
    decreases s.len() - n,
{
    if n < s.len() {
        lemma_prefix_value_bound(s, n + 1);
        assert(s.subrange(0, n + 1).drop_last() =~= s.subrange(0, n));
    } else {
        assert(s.subrange(0, n) =~= s);
    }
}

/// Reads a `for` text such as `5h`; `None` where it is malformed.
pub fn parse_for(text: &str) -> (r: Option<Duration>)
    ensures
        r == parsed_for(text@),
{
    let cs = chars_of(text);
    if cs.len() < 2 {
        return None;
    }
    let mut prefix: Vec<char> = Vec::new();
    let mut i: usize = 0;
    while i + 1 < cs.len()
        invariant
            i + 1 <= cs.len(),
            prefix@ == cs@.subrange(0, i as int),
        decreases cs.len() - i,
    {
        prefix.push(cs[i]);
        i = i + 1;
        assert(prefix@ =~= cs@.subrange(0, i as int));
    }
    assert(prefix@ =~= cs@.drop_last());
    let unit_chars: Vec<char> = vec![cs[cs.len() - 1]];
    let unit = string_of(&unit_chars);
    assert(unit@ =~= seq![cs@.last()]);
    match parse_magnitude(&prefix) {
        Some(value) => match from_pair(unit.as_str(), value) {
            Ok(d) => Some(d),
            Err(_) => None,
        },
        None => None,
    }
}

/// Merges declared `for` texts: the shortest of those that parse, raised to
/// an hour; an hour when none parses.
pub fn merge_for_texts(texts: &Vec<Option<String>>) -> (r: Duration)
    ensures
        r == chosen_for(shortest(texts@.map_values(|t: Option<String>| for_of(opt_text(t))))),
        seconds(r) >= 3600,
{
    let ghost parsed = texts@.map_values(|t: Option<String>| for_of(opt_text(t)));
    let mut best: Option<Duration> = None;
    let mut i: usize = 0;
    while i < texts.len()
        invariant
            i <= texts.len(),
            parsed == texts@.map_values(|t: Option<String>| for_of(opt_text(t))),
            best == shortest(parsed.subrange(0, i as int)),
        decreases texts.len() - i,
    {
        let d = match &texts[i] {
            Some(t) => parse_for(t.as_str()),
            None => None,
        };
        assert(parsed.subrange(0, i + 1 as int).drop_last() =~= parsed.subrange(0, i as int));
        best = match d {
            None => best,
            Some(d) => match best {
                None => Some(d),
                Some(m) => if d.seconds() < m.seconds() {
                    Some(d)
                } else {
                    Some(m)
                },
            },
        };
        i = i + 1;
    }
    assert(parsed.subrange(0, i as int) =~= parsed);
    match best {
        Some(d) => if d.seconds() > 3600 {
            d
        } else {
            Duration::Hours(1)
        },
        None => Duration::Hours(1),
    }
}

/// The duration a declared `for` field contributes, if it has one that parses.
pub open spec fn for_of(t: Option<Seq<char>>) -> Option<Duration> {
    match t {
        Some(s) => parsed_for(s),
        None => None,
    }
}

/// The characters of an optional string.
pub open spec fn opt_text(t: Option<String>) -> Option<Seq<char>> {
    match t {
        Some(s) => Some(s@),
        None => None,
    }
}

} // verus!
