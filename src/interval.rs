use vstd::prelude::*;
use vstd::string::*;

use crate::text::{is_digit, lemma_nat_text, nat_text, nat_to_text, parse_unsigned, unsigned_value};

verus! {

/// How often a scheduled transaction recurs: every `n` weeks or every `n` months.
#[derive(Clone, Copy, Debug, PartialEq, Eq)]
pub enum Interval {
    Week(u16),
    Month(u16),
}

/// Why a text is not an interval.
#[derive(Clone, Copy, Debug, PartialEq, Eq)]
pub enum IntervalError {
    /// Not exactly two whitespace-separated words.
    InvalidFormat,
    /// The first word is not a count that fits in 16 bits.
    InvalidNumber,
    /// The second word is not `week`, `weeks`, `month` or `months`.
    InvalidIntervalType,
}

/// Characters with the Unicode `White_Space` property.
pub open spec fn is_ws(c: char) -> bool {
    ('\t' <= c && c <= '\r') || c == ' ' || c == '\u{85}' || c == '\u{A0}' || c == '\u{1680}' || (
    '\u{2000}' <= c && c <= '\u{200A}') || c == '\u{2028}' || c == '\u{2029}' || c == '\u{202F}'
        || c == '\u{205F}' || c == '\u{3000}'
}

/// Whether `c` lower-cases to the lower-case ASCII letter `t`: `t` itself,
/// its upper case, or for `k` the Kelvin sign.
pub open spec fn lowers_to(c: char, t: char) -> bool {
    c == t || (c as u32) + 32 == t as u32 || (t == 'k' && c == '\u{212A}')
}

/// First index at or after `i` that does not hold whitespace.
pub open spec fn skip_ws(s: Seq<char>, i: int) -> int
    decreases s.len() - i,
{
    if i >= s.len() || !is_ws(s[i]) {
        i
    } else {
        skip_ws(s, i + 1)
    }
}

/// First index at or after `i` that holds whitespace, or the end.
pub open spec fn word_end(s: Seq<char>, i: int) -> int
    decreases s.len() - i,
{
    if i >= s.len() || is_ws(s[i]) {
        i
    } else {
        word_end(s, i + 1)
    }
}

/// Whether the word `w` lower-cases to the lower-case ASCII word `t`.
pub open spec fn word_matches(w: Seq<char>, t: Seq<char>) -> bool {
    w.len() == t.len() && forall|i: int| 0 <= i < w.len() ==> lowers_to(#[trigger] w[i], t[i])
}

/// The unit that a word names, whatever its case.
pub open spec fn unit_of(w: Seq<char>, n: u16) -> Result<Interval, IntervalError> {
    if word_matches(w, "week"@) || word_matches(w, "weeks"@) {
        Ok(Interval::Week(n))
    } else if word_matches(w, "month"@) || word_matches(w, "months"@) {
        Ok(Interval::Month(n))
    } else {
        Err(IntervalError::InvalidIntervalType)
    }
}

/// What a text denotes as an interval: exactly two whitespace-separated
/// words, a count and a unit.
pub open spec fn interval_value(s: Seq<char>) -> Result<Interval, IntervalError> {
    let a = skip_ws(s, 0);
    let b = word_end(s, a);
    let c = skip_ws(s, b);
    let d = word_end(s, c);
    let e = skip_ws(s, d);
    if a == s.len() || c == s.len() || e != s.len() {
        Err(IntervalError::InvalidFormat)
    } else {
        match unsigned_value(s.subrange(a, b)) {
            Some(n) => if n <= u16::MAX {
                unit_of(s.subrange(c, d), n as u16)
            } else {
                Err(IntervalError::InvalidNumber)
            },
            None => Err(IntervalError::InvalidNumber),
        }
    }
}

/// `"{n} Month"` for one month, `"{n} Months"` otherwise; `"{n} Week"` for a
/// count of zero weeks, `"{n} Weeks"` otherwise (one week too, as the stored
/// workbooks have it).
pub open spec fn interval_text(i: Interval) -> Seq<char> {
    match i {
        Interval::Month(n) => nat_text(n as nat) + (if n == 1 { " Month"@ } else { " Months"@ }),
        Interval::Week(n) => nat_text(n as nat) + (if n == 0 { " Week"@ } else { " Weeks"@ }),
    }
}

proof fn lemma_skip_ws_run(s: Seq<char>, i: int, j: int)
    requires
        0 <= i <= j <= s.len(),
        forall|k: int| i <= k < j ==> is_ws(#[trigger] s[k]),
        j == s.len() || !is_ws(s[j]),
    ensures
        skip_ws(s, i) == j,
    decreases j - i,
{
    if i < j {
        lemma_skip_ws_run(s, i + 1, j);
    }
}

proof fn lemma_word_end_run(s: Seq<char>, i: int, j: int)
    requires
        0 <= i <= j <= s.len(),
        forall|k: int| i <= k < j ==> !is_ws(#[trigger] s[k]),
        j == s.len() || is_ws(s[j]),
    ensures
        word_end(s, i) == j,
    decreases j - i,
{
    if i < j {
        lemma_word_end_run(s, i + 1, j);
    }
}

proof fn lemma_skip_ws_bounds(s: Seq<char>, i: int)
    requires
        0 <= i <= s.len(),
    ensures
        i <= skip_ws(s, i) <= s.len(),
    decreases s.len() - i,
{
    if i < s.len() && is_ws(s[i]) {
        lemma_skip_ws_bounds(s, i + 1);
    }
}

proof fn lemma_word_end_bounds(s: Seq<char>, i: int)
    requires
        0 <= i <= s.len(),
    ensures
        i <= word_end(s, i) <= s.len(),
    decreases s.len() - i,
{
    if i < s.len() && !is_ws(s[i]) {
        lemma_word_end_bounds(s, i + 1);
    }
}

/// Exec form of `skip_ws`.
fn skip_whitespace(s: &str, i: usize) -> (r: usize)
    requires
        i <= s@.len(),
    ensures
        r == skip_ws(s@, i as int),
{
    let n = s.unicode_len();
    let mut j = i;
    while j < n && is_whitespace(s.get_char(j))
        invariant
            i <= j <= n == s@.len(),
            skip_ws(s@, i as int) == skip_ws(s@, j as int),
        decreases n - j,
    {
        j = j + 1;
    }
    j
}

/// Exec form of `word_end`.
fn end_of_word(s: &str, i: usize) -> (r: usize)
    requires
        i <= s@.len(),
    ensures
        r == word_end(s@, i as int),
{
    let n = s.unicode_len();
    let mut j = i;
    while j < n && !is_whitespace(s.get_char(j))
        invariant
            i <= j <= n == s@.len(),
            word_end(s@, i as int) == word_end(s@, j as int),
        decreases n - j,
    {
        j = j + 1;
    }
    j
}

fn is_whitespace(c: char) -> (r: bool)
    ensures
        r == is_ws(c),
{
    ('\t' <= c && c <= '\r') || c == ' ' || c == '\u{85}' || c == '\u{A0}' || c == '\u{1680}' || (
    '\u{2000}' <= c && c <= '\u{200A}') || c == '\u{2028}' || c == '\u{2029}' || c == '\u{202F}'
        || c == '\u{205F}' || c == '\u{3000}'
}

/// Whether the characters of `s` in `from..to` lower-case to `w`, which is
/// lower-case ASCII.
fn word_is(s: &str, from: usize, to: usize, w: &str) -> (r: bool)
    requires
        from <= to <= s@.len(),
    ensures
        r == word_matches(s@.subrange(from as int, to as int), w@),
{
    let ghost f = s@.subrange(from as int, to as int);
    let n = w.unicode_len();
    if n != to - from {
        return false;
    }
    let mut i: usize = 0;
    while i < n
        invariant
            n == w@.len() == to - from,
            from <= to <= s@.len(),
            f == s@.subrange(from as int, to as int),
            i <= n,
            forall|j: int| 0 <= j < i ==> lowers_to(#[trigger] f[j], w@[j]),
        decreases n - i,
    {
        let c = s.get_char(from + i);
        let t = w.get_char(i);
        assert(f[i as int] == c);
        if !(c == t || (c as u32) + 32 == t as u32 || (t == 'k' && c == '\u{212A}')) {
            return false;
        }
        i = i + 1;
    }
    true
}

impl Interval {
    /// Reads an interval such as `2 Weeks` or `1 month`.
    pub fn parse(s: &str) -> (r: Result<Interval, IntervalError>)
        ensures
            r == interval_value(s@),
    {
        let n = s.unicode_len();
        let a = skip_whitespace(s, 0);
        proof { lemma_skip_ws_bounds(s@, 0); }
        let b = end_of_word(s, a);
        proof { lemma_word_end_bounds(s@, a as int); }
        let c = skip_whitespace(s, b);
        proof { lemma_skip_ws_bounds(s@, b as int); }
        let d = end_of_word(s, c);
        proof { lemma_word_end_bounds(s@, c as int); }
        let e = skip_whitespace(s, d);
        if a == n || c == n || e != n {
            return Err(IntervalError::InvalidFormat);
        }
        let count = match parse_unsigned(substring(s, a, b), 65535) {
            Some(v) => v as u16,
            None => {
                return Err(IntervalError::InvalidNumber);
            },
        };
        proof {
            reveal_strlit("week");
            reveal_strlit("weeks");
            reveal_strlit("month");
            reveal_strlit("months");
        }
        if word_is(s, c, d, "week") || word_is(s, c, d, "weeks") {
            Ok(Interval::Week(count))
        } else if word_is(s, c, d, "month") || word_is(s, c, d, "months") {
            Ok(Interval::Month(count))
        } else {
            Err(IntervalError::InvalidIntervalType)
        }
    }

    /// Text of the interval, as `interval_text` gives it.
    pub fn format(&self) -> (r: String)
        ensures
            r@ == interval_text(*self),
    {
        match self {
            Interval::Month(n) => {
                let mut s = nat_to_text(*n as u64);
                if *n == 1 {
                    s.append(" Month");
                } else {
                    s.append(" Months");
                }
                s
            },
            Interval::Week(n) => {
                let mut s = nat_to_text(*n as u64);
                if *n == 0 {
                    s.append(" Week");
                } else {
                    s.append(" Weeks");
                }
                s
            },
        }
    }
}

impl std::str::FromStr for Interval {
    type Err = IntervalError;

    fn from_str(s: &str) -> Result<Interval, IntervalError> {
        Interval::parse(s)
    }
}

/// The characters of `s` in `from..to`.
fn substring(s: &str, from: usize, to: usize) -> (r: &str)
    requires
        from <= to <= s@.len(),
    ensures
        r@ == s@.subrange(from as int, to as int),
{
    s.substring_char(from, to)
}

/// Reading back the text of an interval gives the interval.
pub proof fn lemma_interval_round_trip(i: Interval)
    ensures
        interval_value(interval_text(i)) == Ok::<Interval, IntervalError>(i),
{
    let n: nat = match i {
        Interval::Month(n) => n as nat,
        Interval::Week(n) => n as nat,
    };
    let unit: Seq<char> = match i {
        Interval::Month(n) => if n == 1 { " Month"@ } else { " Months"@ },
        Interval::Week(n) => if n == 0 { " Week"@ } else { " Weeks"@ },
    };
    reveal_strlit(" Month");
    reveal_strlit(" Months");
    reveal_strlit(" Week");
    reveal_strlit(" Weeks");
    reveal_strlit("week");
    reveal_strlit("weeks");
    reveal_strlit("month");
    reveal_strlit("months");
    let t = nat_text(n);
    let s = interval_text(i);
    assert(s =~= t + unit);
    lemma_nat_text(n);
    let b = t.len() as int;
    let len = s.len() as int;
    assert forall|k: int| 0 <= k < b implies !is_ws(#[trigger] s[k]) by {
        assert(s[k] == t[k]);
        assert(is_digit(t[k]));
    }
    lemma_skip_ws_run(s, 0, 0);
    lemma_word_end_run(s, 0, b);
    lemma_skip_ws_run(s, b, b + 1);
    assert forall|k: int| b + 1 <= k < len implies !is_ws(#[trigger] s[k]) by {
        assert(s[k] == unit[k - b]);
    }
    lemma_word_end_run(s, b + 1, len);
    lemma_skip_ws_run(s, len, len);
    assert(s.subrange(0, b) =~= t);
    assert(unsigned_value(t) == Some(n)) by {
        assert(t[0] != '+') by {
            assert(is_digit(t[0]));
        }
    }
    let w = s.subrange(b + 1, len);
    assert(w =~= unit.subrange(1, unit.len() as int));
    match i {
        Interval::Month(m) => {
            assert(!lowers_to(w[0], 'w'));
            assert(!word_matches(w, "week"@));
            assert(!word_matches(w, "weeks"@));
            if m == 1 {
                reveal_strlit("Month");
                assert(w =~= "Month"@);
                assert(word_matches(w, "month"@));
            } else {
                reveal_strlit("Months");
                assert(w =~= "Months"@);
                assert(word_matches(w, "months"@));
            }
        },
        Interval::Week(m) => {
            if m == 0 {
                reveal_strlit("Week");
                assert(w =~= "Week"@);
                assert(word_matches(w, "week"@));
            } else {
                reveal_strlit("Weeks");
                assert(w =~= "Weeks"@);
                assert(word_matches(w, "weeks"@));
            }
        },
    }
}

} // verus!
