//! Points in time, held as whole microseconds since the Unix epoch.
//!
//! Session records give times either as JSON numbers of seconds or as RFC 3339
//! texts. Both are turned into microseconds here, so that every comparison of
//! times elsewhere is a comparison of integers.

use vstd::prelude::*;

use crate::text::chars_of;

verus! {

/// A number of microseconds since the Unix epoch.
pub type Micros = i64;

/// Microseconds in one second.
pub const MICROS_PER_SECOND: i64 = 1_000_000;

#[verifier::external_type_specification]
#[verifier::external_body]
pub struct ExSystemTime(std::time::SystemTime);

/// Reads the system clock (`SystemTime::now`). Nothing is claimed of the
/// value: it is the time.
#[verifier::external_body]
fn system_now() -> (r: std::time::SystemTime) {
    std::time::SystemTime::now()
}

/// The time from the Unix epoch to `t` (`SystemTime::duration_since` with
/// `UNIX_EPOCH`); `None` when `t` stands before the epoch. Nothing is claimed
/// of the value: it rests on the clock.
#[verifier::external_body]
fn since_epoch(t: std::time::SystemTime) -> (r: Option<std::time::Duration>) {
    t.duration_since(std::time::UNIX_EPOCH).ok()
}

/// The whole microseconds of a duration (`Duration::as_micros`). Nothing is
/// claimed of the value: the duration is opaque here.
#[verifier::external_body]
fn duration_micros(d: std::time::Duration) -> (r: u128) {
    d.as_micros()
}

/// The system clock in whole microseconds since the Unix epoch; zero when the
/// clock stands before the epoch.
fn unix_micros_now() -> (r: u128) {
    match since_epoch(system_now()) {
        Some(d) => duration_micros(d),
        None => 0,
    }
}

/// The current time as [`Micros`], saturating at `i64::MAX`.
pub fn now_micros() -> (r: Micros)
    ensures
        r >= 0,
{
    let t = unix_micros_now();
    if t > i64::MAX as u128 {
        i64::MAX
    } else {
        t as i64
    }
}

/// The instant that `chrono` reads from an RFC 3339 text, in milliseconds
/// since the epoch; `None` when the text is not RFC 3339.
pub uninterp spec fn rfc3339_millis(text: Seq<char>) -> Option<i64>;

/// Parses `text` with `chrono::DateTime::parse_from_rfc3339` and gives
/// `timestamp_millis` of the result. The contract claims only that the result
/// depends on the text alone.
#[verifier::external_body]
pub(crate) fn parse_rfc3339_millis(text: &str) -> (r: Option<i64>)
    ensures
        r == rfc3339_millis(text@),
{
    chrono::DateTime::parse_from_rfc3339(text).ok().map(|t| t.timestamp_millis())
}

/// The instant an RFC 3339 text names, in microseconds.
pub open spec fn rfc3339_micros(text: Seq<char>) -> Option<Micros> {
    match rfc3339_millis(text) {
        Some(ms) => if i64::MIN <= ms * 1000 <= i64::MAX {
            Some((ms * 1000) as i64)
        } else {
            None
        },
        None => None,
    }
}

/// Milliseconds as microseconds; `None` when they do not fit in [`Micros`].
pub fn micros_from_millis(ms: i64) -> (r: Option<Micros>)
    ensures
        r == if i64::MIN <= ms * 1000 <= i64::MAX {
            Some((ms * 1000) as i64)
        } else {
            None::<i64>
        },
{
    ms.checked_mul(1000)
}

/// The instant an RFC 3339 text names, in microseconds.
pub fn parse_rfc3339_micros(text: &str) -> (r: Option<Micros>)
    ensures
        r == rfc3339_micros(text@),
{
    match parse_rfc3339_millis(text) {
        Some(ms) => micros_from_millis(ms),
        None => None,
    }
}

// ---------------------------------------------------------------------------
// Decimal numbers
// ---------------------------------------------------------------------------

/// The longest number text read; `serde_json` never prints a longer one.
pub const MAX_NUMBER_CHARS: usize = 32;

pub open spec fn is_digit(c: char) -> bool {
    '0' <= c && c <= '9'
}

pub open spec fn digit_value(c: char) -> nat {
    ((c as u32) - ('0' as u32)) as nat
}

/// The value of a string of decimal digits.
pub open spec fn digits_value(s: Seq<char>) -> nat
    decreases s.len(),
{
    if s.len() == 0 {
        0
    } else {
        digits_value(s.drop_last()) * 10 + digit_value(s.last())
    }
}

pub open spec fn pow10(n: nat) -> nat
    decreases n,
{
    if n == 0 {
        1
    } else {
        10 * pow10((n - 1) as nat)
    }
}

/// The first position at or after `i` that does not hold a digit.
pub open spec fn digit_run(s: Seq<char>, i: int) -> int
    decreases s.len() - i,
{
    if 0 <= i < s.len() && is_digit(s[i]) {
        digit_run(s, i + 1)
    } else {
        i
    }
}

/// A decimal number taken apart: its sign, all its mantissa digits (those
/// before and after the point), how many of them follow the point, and the
/// exponent.
pub struct NumberParts {
    pub negative: bool,
    pub digits: Seq<char>,
    pub frac_len: nat,
    pub exponent: int,
}

/// The parts of a JSON number text `-?d+(.d+)?([eE][+-]?d+)?`; `None` for
/// any other text.
pub open spec fn number_parts(s: Seq<char>) -> Option<NumberParts> {
    let a: int = if s.len() > 0 && s[0] == '-' {
        1
    } else {
        0
    };
    let b = digit_run(s, a);
    let has_frac = b < s.len() && s[b] == '.';
    let c = if has_frac {
        digit_run(s, b + 1)
    } else {
        b
    };
    let digits = if has_frac {
        s.subrange(a, b) + s.subrange(b + 1, c)
    } else {
        s.subrange(a, b)
    };
    let frac_len: nat = if has_frac {
        (c - b - 1) as nat
    } else {
        0
    };
    let has_exp = c < s.len() && (s[c] == 'e' || s[c] == 'E');
    let exp_neg = has_exp && c + 1 < s.len() && s[c + 1] == '-';
    let exp_signed = has_exp && c + 1 < s.len() && (s[c + 1] == '-' || s[c + 1] == '+');
    let e0 = if exp_signed {
        c + 2
    } else {
        c + 1
    };
    let f = digit_run(s, e0);
    if b == a || (has_frac && c == b + 1) {
        None
    } else if !has_exp {
        if c == s.len() {
            Some(NumberParts { negative: a == 1, digits, frac_len, exponent: 0 })
        } else {
            None
        }
    } else if f == e0 || f != s.len() {
        None
    } else {
        let e = digits_value(s.subrange(e0, f)) as int;
        Some(
            NumberParts {
                negative: a == 1,
                digits,
                frac_len,
                exponent: if exp_neg {
                    -e
                } else {
                    e
                },
            },
        )
    }
}

/// `d` times ten to the `shift`, cut toward zero to a whole number.
pub open spec fn scaled(d: nat, shift: int) -> nat {
    if shift >= 0 {
        d * pow10(shift as nat)
    } else {
        d / pow10((-shift) as nat)
    }
}

/// The number of microseconds that a number text of seconds stands for, cut
/// toward zero; `None` when the text is no number, is longer than
/// [`MAX_NUMBER_CHARS`], or the value does not fit an `i64`.
pub open spec fn number_micros(s: Seq<char>) -> Option<Micros> {
    if s.len() > MAX_NUMBER_CHARS {
        None
    } else {
        match number_parts(s) {
            None => None,
            Some(p) => {
                let mag = scaled(digits_value(p.digits), p.exponent - p.frac_len + 6);
                if p.negative {
                    if mag <= 0x8000_0000_0000_0000 {
                        Some((-mag) as i64)
                    } else {
                        None
                    }
                } else {
                    if mag <= 0x7fff_ffff_ffff_ffff {
                        Some(mag as i64)
                    } else {
                        None
                    }
                }
            },
        }
    }
}

proof fn lemma_pow10_positive(n: nat)
    ensures
        pow10(n) >= 1,
    decreases n,
{
    if n > 0 {
        lemma_pow10_positive((n - 1) as nat);
    }
}

proof fn lemma_pow10_monotone(m: nat, n: nat)
    requires
        m <= n,
    ensures
        pow10(m) <= pow10(n),
    decreases n,
{
    if m < n {
        lemma_pow10_monotone(m, (n - 1) as nat);
        lemma_pow10_positive((n - 1) as nat);
    }
}

proof fn lemma_digits_value_bound(s: Seq<char>)
    requires
        forall|i: int| 0 <= i < s.len() ==> is_digit(#[trigger] s[i]),
    ensures
        digits_value(s) < pow10(s.len()),
    decreases s.len(),
{
    if s.len() > 0 {
        let t = s.drop_last();
        assert forall|i: int| 0 <= i < t.len() implies is_digit(#[trigger] t[i]) by {
            assert(t[i] == s[i]);
        }
        lemma_digits_value_bound(t);
        let v = digits_value(t);
        let p = pow10(t.len());
        let d = digit_value(s.last());
        assert(is_digit(s[s.len() - 1]));
        assert(d <= 9);
        assert(v * 10 + d < 10 * p) by (nonlinear_arith)
            requires
                v < p,
                d <= 9,
        ;
    }
}

proof fn lemma_pow10_31()
    ensures
        pow10(31) == 10_000_000_000_000_000_000_000_000_000_000,
{
    reveal_with_fuel(pow10, 32);
}

/// The first position at or after `i` that does not hold a digit.
fn scan_digits(cs: &Vec<char>, i: usize) -> (j: usize)
    requires
        i <= cs@.len(),
    ensures
        j as int == digit_run(cs@, i as int),
        i <= j <= cs@.len(),
        forall|k: int| i <= k < j ==> is_digit(#[trigger] cs@[k]),
{
    let mut j = i;
    while j < cs.len() && '0' <= cs[j] && cs[j] <= '9'
        invariant
            i <= j <= cs@.len(),
            digit_run(cs@, i as int) == digit_run(cs@, j as int),
            forall|k: int| i <= k < j ==> is_digit(#[trigger] cs@[k]),
        decreases cs@.len() - j,
    {
        j += 1;
    }
    j
}

/// `v * 10^k + digits_value(cs[from..to])`, for a short run of digits.
fn accumulate_digits(v: u128, cs: &Vec<char>, from: usize, to: usize, Ghost(prefix): Ghost<
    Seq<char>,
>) -> (r: u128)
    requires
        from <= to <= cs@.len(),
        forall|k: int| from <= k < to ==> is_digit(#[trigger] cs@[k]),
        forall|k: int| 0 <= k < prefix.len() ==> is_digit(#[trigger] prefix[k]),
        v == digits_value(prefix),
        prefix.len() + (to - from) <= MAX_NUMBER_CHARS,
    ensures
        r == digits_value(prefix + cs@.subrange(from as int, to as int)),
{
    let mut r = v;
    let mut k = from;
    let ghost mut acc = prefix;
    while k < to
        invariant
            from <= k <= to <= cs@.len(),
            forall|m: int| from <= m < to ==> is_digit(#[trigger] cs@[m]),
            acc == prefix + cs@.subrange(from as int, k as int),
            forall|m: int| 0 <= m < acc.len() ==> is_digit(#[trigger] acc[m]),
            acc.len() <= MAX_NUMBER_CHARS,
            prefix.len() + (to - from) <= MAX_NUMBER_CHARS,
            r == digits_value(acc),
        decreases to - k,
    {
        let c = cs[k];
        proof {
            lemma_digits_value_bound(acc);
            lemma_pow10_monotone(acc.len(), 31);
            lemma_pow10_31();
            assert(is_digit(cs@[k as int]));
        }
        let d: u32 = (c as u32) - ('0' as u32);
        r = r * 10 + d as u128;
        proof {
            let next = acc.push(c);
            assert(next.drop_last() =~= acc);
            assert(next =~= prefix + cs@.subrange(from as int, k + 1));
            assert forall|m: int| 0 <= m < next.len() implies is_digit(#[trigger] next[m]) by {
                if m < acc.len() {
                    assert(next[m] == acc[m]);
                }
            }
            acc = next;
        }
        k += 1;
    }
    r
}

proof fn lemma_pow10_succ(n: nat)
    ensures
        pow10(n + 1) == 10 * pow10(n),
{
}

/// `d` scaled by ten to the `shift`, when the result is at most `2^63`.
fn scale_micros(d: u128, shift: i128) -> (r: Option<u128>)
    requires
        d < pow10(32),
        shift > i128::MIN,
    ensures
        r == (if scaled(d as nat, shift as int) <= 0x8000_0000_0000_0000 {
            Some(scaled(d as nat, shift as int) as u128)
        } else {
            None
        }),
{
    let limit: u128 = 0x8000_0000_0000_0000;
    if shift >= 0 {
        if d == 0 {
            assert(0 * pow10(shift as nat) == 0);
            return Some(0);
        }
        if d > limit {
            proof {
                lemma_pow10_positive(shift as nat);
                assert(d * pow10(shift as nat) >= d) by (nonlinear_arith)
                    requires
                        pow10(shift as nat) >= 1,
                ;
            }
            return None;
        }
        let mut m: u128 = d;
        let mut i: i128 = 0;
        assert(pow10(0) == 1);
        assert(d * pow10(0) == d);
        while i < shift
            invariant
                0 <= i <= shift,
                d >= 1,
                m == d * pow10(i as nat),
                m <= limit,
                limit == 0x8000_0000_0000_0000,
            decreases shift - i,
        {
            proof {
                lemma_pow10_succ(i as nat);
                assert(d * pow10((i + 1) as nat) == (d * pow10(i as nat)) * 10) by (nonlinear_arith)
                    requires
                        pow10((i + 1) as nat) == 10 * pow10(i as nat),
                ;
            }
            m = m * 10;
            i = i + 1;
            if m > limit {
                proof {
                    lemma_pow10_monotone(i as nat, shift as nat);
                    assert(d * pow10(i as nat) <= d * pow10(shift as nat)) by (nonlinear_arith)
                        requires
                            pow10(i as nat) <= pow10(shift as nat),
                    ;
                }
                return None;
            }
        }
        Some(m)
    } else {
        let k: i128 = -shift;
        if k > 32 {
            proof {
                lemma_pow10_monotone(32, k as nat);
                assert(d as nat / pow10(k as nat) == 0) by (nonlinear_arith)
                    requires
                        d < pow10(k as nat),
                ;
            }
            return Some(0);
        }
        let mut p: u128 = 1;
        let mut i: i128 = 0;
        while i < k
            invariant
                0 <= i <= k <= 32,
                p == pow10(i as nat),
            decreases k - i,
        {
            proof {
                lemma_pow10_succ(i as nat);
                lemma_pow10_monotone((i + 1) as nat, 32);
                lemma_pow10_31();
                lemma_pow10_succ(31);
            }
            p = p * 10;
            i = i + 1;
        }
        proof {
            lemma_pow10_positive(k as nat);
        }
        let mag = d / p;
        if mag > limit {
            None
        } else {
            Some(mag)
        }
    }
}

/// The microseconds that a JSON number text of seconds stands for.
#[verifier::spinoff_prover]
#[verifier::rlimit(40)]
pub fn parse_number_micros(s: &str) -> (r: Option<Micros>)
    ensures
        r == number_micros(s@),
{
    let cs = chars_of(s);
    let n = cs.len();
    if n > MAX_NUMBER_CHARS {
        return None;
    }
    let a: usize = if n > 0 && cs[0] == '-' {
        1
    } else {
        0
    };
    let b = scan_digits(&cs, a);
    if b == a {
        return None;
    }
    let has_frac = b < n && cs[b] == '.';
    let c = if has_frac {
        scan_digits(&cs, b + 1)
    } else {
        b
    };
    if has_frac && c == b + 1 {
        return None;
    }
    let ghost empty = Seq::<char>::empty();
    assert(empty + cs@.subrange(a as int, b as int) =~= cs@.subrange(a as int, b as int));
    let mut dv = accumulate_digits(0, &cs, a, b, Ghost(empty));
    if has_frac {
        dv = accumulate_digits(dv, &cs, b + 1, c, Ghost(cs@.subrange(a as int, b as int)));
    }
    let ghost digits = if has_frac {
        cs@.subrange(a as int, b as int) + cs@.subrange(b + 1, c as int)
    } else {
        cs@.subrange(a as int, b as int)
    };
    proof {
        assert forall|k: int| 0 <= k < digits.len() implies is_digit(#[trigger] digits[k]) by {
            if k < b - a {
                assert(digits[k] == cs@[a + k]);
            } else {
                assert(digits[k] == cs@[b + 1 + (k - (b - a))]);
            }
        }
        lemma_digits_value_bound(digits);
        lemma_pow10_monotone(digits.len(), 32);
    }
    let frac_len: usize = if has_frac {
        c - b - 1
    } else {
        0
    };
    let has_exp = c < n && (cs[c] == 'e' || cs[c] == 'E');
    let mut exp: i128 = 0;
    if !has_exp {
        if c != n {
            return None;
        }
    } else {
        let exp_neg = c + 1 < n && cs[c + 1] == '-';
        let exp_signed = c + 1 < n && (cs[c + 1] == '-' || cs[c + 1] == '+');
        let e0 = if exp_signed {
            c + 2
        } else {
            c + 1
        };
        if e0 > n {
            return None;
        }
        let f = scan_digits(&cs, e0);
        if f == e0 || f != n {
            return None;
        }
        assert(empty + cs@.subrange(e0 as int, f as int) =~= cs@.subrange(e0 as int, f as int));
        let ev = accumulate_digits(0, &cs, e0, f, Ghost(empty));
        proof {
            let ed = cs@.subrange(e0 as int, f as int);
            assert forall|k: int| 0 <= k < ed.len() implies is_digit(#[trigger] ed[k]) by {
                assert(ed[k] == cs@[e0 + k]);
            }
            lemma_digits_value_bound(ed);
            lemma_pow10_monotone(ed.len(), 31);
            lemma_pow10_31();
        }
        exp = if exp_neg {
            -(ev as i128)
        } else {
            ev as i128
        };
    }
    let shift: i128 = exp - frac_len as i128 + 6;
    let mag = match scale_micros(dv, shift) {
        Some(m) => m,
        None => {
            return None;
        },
    };
    if a == 1 {
        let neg: i128 = -(mag as i128);
        Some(neg as i64)
    } else {
        if mag > 0x7fff_ffff_ffff_ffff {
            None
        } else {
            Some(mag as i64)
        }
    }
}

} // verus!
