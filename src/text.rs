use vstd::prelude::*;
use vstd::string::*;

verus! {

/// Largest magnitude, in cents, that a monetary text field may denote: that
/// of the least `i64`, so that every amount a record holds can be read back.
pub const MAX_CENTS: u64 = 9_223_372_036_854_775_808;

pub open spec fn is_digit(c: char) -> bool {
    '0' <= c && c <= '9'
}

pub open spec fn digit_val(c: char) -> nat {
    (c as u32 - '0' as u32) as nat
}

pub open spec fn digit_char(d: nat) -> char {
    if d == 0 { '0' }
    else if d == 1 { '1' }
    else if d == 2 { '2' }
    else if d == 3 { '3' }
    else if d == 4 { '4' }
    else if d == 5 { '5' }
    else if d == 6 { '6' }
    else if d == 7 { '7' }
    else if d == 8 { '8' }
    else { '9' }
}

pub open spec fn all_digits(s: Seq<char>) -> bool {
    forall|i: int| 0 <= i < s.len() ==> is_digit(#[trigger] s[i])
}

/// The number that a string of decimal digits denotes.
pub open spec fn digits_value(s: Seq<char>) -> nat
    decreases s.len(),
{
    if s.len() == 0 {
        0
    } else {
        digits_value(s.drop_last()) * 10 + digit_val(s.last())
    }
}

/// Decimal text of a natural number, without leading zeros.
pub open spec fn nat_text(n: nat) -> Seq<char>
    decreases n,
{
    if n < 10 {
        seq![digit_char(n)]
    } else {
        nat_text(n / 10).push(digit_char(n % 10))
    }
}

/// Decimal text padded with zeros on the left to at least `w` characters.
pub open spec fn padded_text(n: nat, w: nat) -> Seq<char> {
    let t = nat_text(n);
    if t.len() >= w {
        t
    } else {
        Seq::new((w - t.len()) as nat, |i: int| '0') + t
    }
}

/// What an unsigned integer field denotes: an optional `+`, then one or
/// more decimal digits.
pub open spec fn unsigned_value(s: Seq<char>) -> Option<nat> {
    let body = if s.len() > 0 && s[0] == '+' { s.drop_first() } else { s };
    if body.len() > 0 && all_digits(body) {
        Some(digits_value(body))
    } else {
        None
    }
}

/// Index of the first `c` in `s`, or `s.len()` where there is none.
pub open spec fn index_of(s: Seq<char>, c: char) -> nat
    decreases s.len(),
{
    if s.len() == 0 {
        0
    } else if s[0] == c {
        0
    } else {
        1 + index_of(s.drop_first(), c)
    }
}

/// Cents denoted by the digits after the decimal point: the first two
/// count, the rest are dropped.
pub open spec fn fraction_cents(f: Seq<char>) -> nat {
    (if f.len() > 0 { digit_val(f[0]) * 10 } else { 0 }) + (if f.len() > 1 { digit_val(f[1]) } else { 0 })
}

pub open spec fn unsigned_part(s: Seq<char>) -> Seq<char> {
    if s.len() > 0 && (s[0] == '-' || s[0] == '+') { s.drop_first() } else { s }
}

/// What a monetary field denotes, in cents: an optional sign, decimal digits,
/// and optionally a point followed by more digits, with at least one digit
/// in all. Digits beyond the cent are cut off, not rounded; exponent forms
/// such as `1e3` are not amounts. Magnitudes above `MAX_CENTS` are not
/// accepted.
pub open spec fn cents_value(s: Seq<char>) -> Option<int> {
    let neg = s.len() > 0 && s[0] == '-';
    let body = unsigned_part(s);
    let k = index_of(body, '.');
    let whole = body.subrange(0, k as int);
    let frac = if k < body.len() { body.subrange(k as int + 1, body.len() as int) } else { Seq::empty() };
    let mag = digits_value(whole) * 100 + fraction_cents(frac);
    if all_digits(whole) && all_digits(frac) && whole.len() + frac.len() > 0 && mag <= MAX_CENTS {
        Some(if neg { -mag } else { mag as int })
    } else {
        None
    }
}

pub open spec fn abs(c: int) -> nat {
    if c < 0 { (-c) as nat } else { c as nat }
}

/// Text of an amount of cents with exactly two decimals, `-` before a
/// negative amount.
pub open spec fn cents_text(c: int) -> Seq<char> {
    let m = abs(c);
    (if c < 0 { seq!['-'] } else { Seq::empty() }) + nat_text(m / 100) + seq![
        '.',
        digit_char((m % 100) / 10),
        digit_char(m % 10),
    ]
}

pub proof fn lemma_digit_char(d: nat)
    requires
        d < 10,
    ensures
        is_digit(digit_char(d)),
        digit_val(digit_char(d)) == d,
{
}

pub proof fn lemma_nat_text(n: nat)
    ensures
        nat_text(n).len() >= 1,
        all_digits(nat_text(n)),
        digits_value(nat_text(n)) == n,
    decreases n,
{
    if n < 10 {
        lemma_digit_char(n);
        assert(nat_text(n).drop_last() =~= Seq::<char>::empty());
        assert(digits_value(Seq::<char>::empty()) == 0);
        assert(digits_value(nat_text(n)) == digits_value(nat_text(n).drop_last()) * 10 + digit_val(
            nat_text(n).last(),
        ));
    } else {
        lemma_nat_text(n / 10);
        lemma_digit_char(n % 10);
        let t = nat_text(n);
        assert(t.drop_last() =~= nat_text(n / 10));
        assert forall|i: int| 0 <= i < t.len() implies is_digit(#[trigger] t[i]) by {
            if i < t.len() - 1 {
                assert(t[i] == nat_text(n / 10)[i]);
            }
        }
    }
}

pub proof fn lemma_index_of_absent(s: Seq<char>, c: char)
    requires
        forall|i: int| 0 <= i < s.len() ==> s[i] != c,
    ensures
        index_of(s, c) == s.len(),
    decreases s.len(),
{
    if s.len() > 0 {
        lemma_index_of_absent(s.drop_first(), c);
    }
}

pub proof fn lemma_index_of_concat(a: Seq<char>, b: Seq<char>, c: char)
    requires
        forall|i: int| 0 <= i < a.len() ==> a[i] != c,
        b.len() > 0,
        b[0] == c,
    ensures
        index_of(a + b, c) == a.len(),
    decreases a.len(),
{
    if a.len() > 0 {
        assert((a + b).drop_first() =~= a.drop_first() + b);
        lemma_index_of_concat(a.drop_first(), b, c);
    } else {
        assert(a + b =~= b);
    }
}

pub proof fn lemma_index_of_bounds(s: Seq<char>, c: char)
    ensures
        index_of(s, c) <= s.len(),
        index_of(s, c) < s.len() ==> s[index_of(s, c) as int] == c,
        forall|i: int| 0 <= i < index_of(s, c) ==> s[i] != c,
    decreases s.len(),
{
    if s.len() > 0 && s[0] != c {
        lemma_index_of_bounds(s.drop_first(), c);
        assert forall|i: int| 0 <= i < index_of(s, c) implies s[i] != c by {
            if i > 0 {
                assert(s[i] == s.drop_first()[i - 1]);
            }
        }
    }
}

/// A digit string that grows on the right never denotes less.
pub proof fn lemma_digits_prefix(s: Seq<char>, k: int)
    requires
        0 <= k <= s.len(),
    ensures
        digits_value(s.subrange(0, k)) <= digits_value(s),
    decreases s.len(),
{
    if k < s.len() {
        assert(s.drop_last().subrange(0, k) =~= s.subrange(0, k));
        lemma_digits_prefix(s.drop_last(), k);
    } else {
        assert(s.subrange(0, k) =~= s);
    }
}

/// Formatting an amount of cents and reading the text back gives the amount.
pub proof fn lemma_cents_round_trip(c: int)
    requires
        abs(c) <= MAX_CENTS,
    ensures
        cents_value(cents_text(c)) == Some(c),
{
    let m = abs(c);
    let t = cents_text(c);
    let w = nat_text(m / 100);
    let tail = seq!['.', digit_char((m % 100) / 10), digit_char(m % 10)];
    lemma_nat_text(m / 100);
    lemma_digit_char((m % 100) / 10);
    lemma_digit_char(m % 10);
    let body = unsigned_part(t);
    assert(body =~= w + tail);
    assert forall|i: int| 0 <= i < w.len() implies w[i] != '.' by {
        assert(is_digit(w[i]));
    }
    lemma_index_of_concat(w, tail, '.');
    assert(body.subrange(0, w.len() as int) =~= w);
    let frac = body.subrange(w.len() as int + 1, body.len() as int);
    assert(frac =~= seq![digit_char((m % 100) / 10), digit_char(m % 10)]);
    assert(all_digits(frac));
    assert(fraction_cents(frac) == m % 100);
}

/// `&'static str` of one decimal digit.
fn digit_str(d: u64) -> (r: &'static str)
    requires
        d < 10,
    ensures
        r@ == seq![digit_char(d as nat)],
{
    if d == 0 {
        proof { reveal_strlit("0"); }
        "0"
    } else if d == 1 {
        proof { reveal_strlit("1"); }
        "1"
    } else if d == 2 {
        proof { reveal_strlit("2"); }
        "2"
    } else if d == 3 {
        proof { reveal_strlit("3"); }
        "3"
    } else if d == 4 {
        proof { reveal_strlit("4"); }
        "4"
    } else if d == 5 {
        proof { reveal_strlit("5"); }
        "5"
    } else if d == 6 {
        proof { reveal_strlit("6"); }
        "6"
    } else if d == 7 {
        proof { reveal_strlit("7"); }
        "7"
    } else if d == 8 {
        proof { reveal_strlit("8"); }
        "8"
    } else {
        proof { reveal_strlit("9"); }
        "9"
    }
}

/// Decimal text of `n`.
pub fn nat_to_text(n: u64) -> (r: String)
    ensures
        r@ == nat_text(n as nat),
    decreases n,
{
    if n < 10 {
        String::from_str(digit_str(n))
    } else {
        let mut s = nat_to_text(n / 10);
        s.append(digit_str(n % 10));
        s
    }
}

/// Text of the magnitude of an amount of cents, with two decimals.
pub fn magnitude_to_text(c: i64) -> (r: String)
    ensures
        r@ == cents_text(abs(c as int) as int),
{
    let m: u64 = if c < 0 { (-(c as i128)) as u64 } else { c as u64 };
    let mut s = nat_to_text(m / 100);
    proof { reveal_strlit("."); }
    s.append(".");
    s.append(digit_str((m % 100) / 10));
    s.append(digit_str(m % 10));
    proof {
        assert(s@ =~= cents_text(abs(c as int) as int));
    }
    s
}

/// Text of an amount of cents with two decimals.
pub fn cents_to_text(c: i64) -> (r: String)
    ensures
        r@ == cents_text(c as int),
{
    let mag = magnitude_to_text(c);
    if c < 0 {
        proof { reveal_strlit("-"); }
        let mut s = String::from_str("-");
        s.append(mag.as_str());
        proof {
            assert(s@ =~= cents_text(c as int));
        }
        s
    } else {
        mag
    }
}

/// Whether every character of `s` in `from..to` is a decimal digit.
fn digits_in(s: &str, from: usize, to: usize) -> (r: bool)
    requires
        from <= to <= s@.len(),
    ensures
        r == all_digits(s@.subrange(from as int, to as int)),
{
    let mut i = from;
    while i < to
        invariant
            from <= i <= to <= s@.len(),
            all_digits(s@.subrange(from as int, i as int)),
        decreases to - i,
    {
        let c = s.get_char(i);
        if !('0' <= c && c <= '9') {
            assert(s@.subrange(from as int, to as int)[i - from] == c);
            return false;
        }
        assert forall|j: int| 0 <= j < i + 1 - from implies is_digit(
            #[trigger] s@.subrange(from as int, i + 1)[j],
        ) by {
            if j < i - from {
                assert(s@.subrange(from as int, i + 1)[j] == s@.subrange(from as int, i as int)[j]);
            }
        }
        i = i + 1;
    }
    true
}

/// The number that the digits of `s` in `from..to` denote, if they are all
/// digits and it is at most `max`.
fn scan_digits(s: &str, from: usize, to: usize, max: u64) -> (r: Option<u64>)
    requires
        from <= to <= s@.len(),
    ensures
        r == (if all_digits(s@.subrange(from as int, to as int)) && digits_value(
            s@.subrange(from as int, to as int),
        ) <= max {
            Some(digits_value(s@.subrange(from as int, to as int)) as u64)
        } else {
            None
        }),
{
    let ghost whole = s@.subrange(from as int, to as int);
    let mut acc: u64 = 0;
    let mut i = from;
    assert(whole.subrange(0, 0) =~= Seq::<char>::empty());
    while i < to
        invariant
            from <= i <= to <= s@.len(),
            whole == s@.subrange(from as int, to as int),
            all_digits(whole.subrange(0, i - from)),
            acc as nat == digits_value(whole.subrange(0, i - from)),
            acc <= max,
        decreases to - i,
    {
        let c = s.get_char(i);
        assert(whole[i - from] == c);
        if !('0' <= c && c <= '9') {
            return None;
        }
        let d = (c as u32 - '0' as u32) as u64;
        let ghost next = whole.subrange(0, i + 1 - from);
        assert(next.drop_last() =~= whole.subrange(0, i - from));
        assert forall|j: int| 0 <= j < next.len() implies is_digit(#[trigger] next[j]) by {
            if j < next.len() - 1 {
                assert(next[j] == whole.subrange(0, i - from)[j]);
            }
        }
        if d > max || acc > (max - d) / 10 {
            proof {
                assert(digits_value(next) > max) by (nonlinear_arith)
                    requires
                        digits_value(next) == acc * 10 + d,
                        d > max || acc > (max - d) / 10,
                        d <= 9,
                ;
                if all_digits(whole) {
                    lemma_digits_prefix(whole, i + 1 - from);
                }
            }
            return None;
        }
        acc = acc * 10 + d;
        i = i + 1;
    }
    assert(whole.subrange(0, to - from) =~= whole);
    Some(acc)
}

/// Reads an unsigned integer field that must not exceed `max`.
pub fn parse_unsigned(s: &str, max: u64) -> (r: Option<u64>)
    ensures
        r == (match unsigned_value(s@) {
            Some(v) => if v <= max { Some(v as u64) } else { None },
            None => None,
        }),
{
    let n = s.unicode_len();
    let start: usize = if n > 0 && s.get_char(0) == '+' { 1 } else { 0 };
    proof {
        let body = if s@.len() > 0 && s@[0] == '+' { s@.drop_first() } else { s@ };
        assert(body =~= s@.subrange(start as int, n as int));
    }
    if start == n {
        return None;
    }
    scan_digits(s, start, n, max)
}

/// Reads a monetary field as cents.
#[verifier::rlimit(40)]
pub fn parse_cents(s: &str) -> (r: Option<i128>)
    ensures
        r matches Some(v) ==> cents_value(s@) == Some(v as int),
        r is None ==> cents_value(s@) is None,
{
    let n = s.unicode_len();
    let neg = n > 0 && s.get_char(0) == '-';
    let start: usize = if n > 0 && (s.get_char(0) == '-' || s.get_char(0) == '+') { 1 } else { 0 };
    let ghost body = unsigned_part(s@);
    assert(body =~= s@.subrange(start as int, n as int));
    let mut k = start;
    while k < n
        invariant
            start <= k <= n,
            n == s@.len(),
            forall|j: int| start <= j < k ==> s@[j] != '.',
        ensures
            start <= k <= n,
            k < n ==> s@[k as int] == '.',
            forall|j: int| start <= j < k ==> s@[j] != '.',
        decreases n - k,
    {
        if s.get_char(k) == '.' {
            break;
        }
        k = k + 1;
    }
    proof {
        lemma_index_of_bounds(body, '.');
        let ki = index_of(body, '.') as int;
        if ki < k - start {
            assert(body[ki] == s@[start + ki]);
        }
        if k < n {
            assert(body[k - start] == '.');
        } else {
            assert(forall|j: int| 0 <= j < body.len() ==> body[j] == s@[start + j]);
            lemma_index_of_absent(body, '.');
        }
        assert(ki == k - start);
        assert(body.subrange(0, ki) =~= s@.subrange(start as int, k as int));
    }
    let whole = scan_digits(s, start, k, MAX_CENTS / 100);
    let fstart: usize = if k < n { k + 1 } else { n };
    let ghost frac = if k < n { body.subrange(k - start + 1, body.len() as int) } else { Seq::<char>::empty() };
    assert(frac =~= s@.subrange(fstart as int, n as int));
    if !digits_in(s, fstart, n) {
        return None;
    }
    if k - start == 0 && n - fstart == 0 {
        return None;
    }
    let w = match whole {
        Some(w) => w,
        None => {
            proof {
                let wd = s@.subrange(start as int, k as int);
                if all_digits(wd) {
                    let dv = digits_value(wd);
                    let fc = fraction_cents(frac);
                    assert(dv * 100 + fc > MAX_CENTS) by (nonlinear_arith)
                        requires
                            dv > 92233720368547758,
                            fc >= 0,
                    ;
                }
            }
            return None;
        },
    };
    let d1: u64 = if n - fstart > 0 { (s.get_char(fstart) as u32 - '0' as u32) as u64 } else { 0 };
    let d2: u64 = if n - fstart > 1 { (s.get_char(fstart + 1) as u32 - '0' as u32) as u64 } else { 0 };
    proof {
        if n - fstart > 0 {
            assert(frac[0] == s@[fstart as int]);
        }
        if n - fstart > 1 {
            assert(frac[1] == s@[fstart + 1]);
        }
    }
    assert(w * 100 + d1 * 10 + d2 <= 9223372036854775899) by (nonlinear_arith)
        requires
            w <= 92233720368547758,
            d1 <= 9,
            d2 <= 9,
    ;
    let mag: u64 = w * 100 + d1 * 10 + d2;
    if mag > MAX_CENTS {
        return None;
    }
    if neg {
        Some(-(mag as i128))
    } else {
        Some(mag as i128)
    }
}

/// `v` brought into the range of `i64`.
pub open spec fn clamp_i64(v: int) -> int {
    if v < i64::MIN {
        i64::MIN as int
    } else if v > i64::MAX {
        i64::MAX as int
    } else {
        v
    }
}

/// `v` brought into the range of `i64`.
pub fn saturate(v: i128) -> (r: i64)
    ensures
        r as int == clamp_i64(v as int),
{
    if v < i64::MIN as i128 {
        i64::MIN
    } else if v > i64::MAX as i128 {
        i64::MAX
    } else {
        v as i64
    }
}

/// Character-wise equality of two strings.
pub fn str_eq(a: &str, b: &str) -> (r: bool)
    ensures
        r == (a@ == b@),
{
    let n = a.unicode_len();
    if n != b.unicode_len() {
        return false;
    }
    let mut i: usize = 0;
    while i < n
        invariant
            n == a@.len() == b@.len(),
            i <= n,
            a@.subrange(0, i as int) == b@.subrange(0, i as int),
        decreases n - i,
    {
        if a.get_char(i) != b.get_char(i) {
            return false;
        }
        assert(a@.subrange(0, i + 1) =~= a@.subrange(0, i as int).push(a@[i as int]));
        assert(b@.subrange(0, i + 1) =~= b@.subrange(0, i as int).push(b@[i as int]));
        i = i + 1;
    }
    assert(a@ =~= a@.subrange(0, n as int));
    assert(b@ =~= b@.subrange(0, n as int));
    true
}

} // verus!
