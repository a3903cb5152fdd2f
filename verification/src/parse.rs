//! Parsing decimal number strings into fixed-point values.
//!
//! Providers hand numbers over as text.  The accepted shape is an optional
//! sign, one or more integer digits, and optionally a point followed by
//! one to six fractional digits — six because that is the precision
//! [`Fixed`] carries; anything else, or a value outside the `i64`
//! micro-unit range, is rejected.

use vstd::prelude::*;
use vstd::string::StrSliceExecFns;

use crate::date::{digit_val, is_digit};
use crate::fixed::Fixed;

verus! {

/// Numeric value of a digit string.
pub open spec fn digits_val(s: Seq<char>) -> int
    decreases s.len(),
{
    if s.len() == 0 {
        0
    } else {
        digits_val(s.drop_last()) * 10 + digit_val(s.last())
    }
}

/// Every character is a decimal digit.
pub open spec fn all_digits(s: Seq<char>) -> bool {
    forall|i: int| 0 <= i < s.len() ==> is_digit(#[trigger] s[i])
}

/// Index of the first `.` in `s`, or `s.len()` when there is none.
pub open spec fn dot_pos(s: Seq<char>) -> int
    decreases s.len(),
{
    if s.len() == 0 {
        0
    } else if s[0] == '.' {
        0
    } else {
        1 + dot_pos(s.skip(1))
    }
}

/// Micro-units contributed by a fractional digit string of length 1..=6.
pub open spec fn frac_scale(n: int) -> int {
    if n == 1 {
        100_000
    } else if n == 2 {
        10_000
    } else if n == 3 {
        1_000
    } else if n == 4 {
        100
    } else if n == 5 {
        10
    } else {
        1
    }
}

/// The sign-free part of a decimal string.
pub open spec fn decimal_body(s: Seq<char>) -> Seq<char> {
    if s.len() > 0 && (s[0] == '+' || s[0] == '-') {
        s.skip(1)
    } else {
        s
    }
}

/// Whether the string is negative.
pub open spec fn decimal_negative(s: Seq<char>) -> bool {
    s.len() > 0 && s[0] == '-'
}

/// Magnitude of a decimal body in micro-units, unbounded.
pub open spec fn body_micros(body: Seq<char>) -> int {
    let d = dot_pos(body);
    let ip = body.take(d);
    let fp = body.skip(d + 1);
    if d == body.len() {
        digits_val(ip) * 1_000_000
    } else {
        digits_val(ip) * 1_000_000 + digits_val(fp) * frac_scale(fp.len() as int)
    }
}

/// The accepted decimal shape: optional sign, at least one integer digit,
/// and, if a point is present, one to six fractional digits; the value
/// must fit the `i64` micro-unit range.
pub open spec fn is_decimal(s: Seq<char>) -> bool {
    let body = decimal_body(s);
    let d = dot_pos(body);
    let ip = body.take(d);
    let fp = body.skip(d + 1);
    &&& ip.len() >= 1
    &&& all_digits(ip)
    &&& (d == body.len() || (1 <= fp.len() <= 6 && all_digits(fp)))
    &&& (if decimal_negative(s) {
        -body_micros(body) >= i64::MIN
    } else {
        body_micros(body) <= i64::MAX
    })
}

/// The micro-unit value a well-shaped decimal string denotes.
pub open spec fn decimal_micros(s: Seq<char>) -> int {
    if decimal_negative(s) {
        -body_micros(decimal_body(s))
    } else {
        body_micros(decimal_body(s))
    }
}

/// A digit string's value only grows as digits are appended.
proof fn lemma_digits_val_prefix(s: Seq<char>, i: int)
    requires
        0 <= i <= s.len(),
        all_digits(s),
    ensures
        digits_val(s.take(i)) <= digits_val(s),
        digits_val(s) >= 0,
    decreases s.len() - i,
{
    if i == s.len() {
        assert(s.take(i) =~= s);
        lemma_digits_val_nonneg(s);
    } else {
        lemma_digits_val_prefix(s, i + 1);
        assert(s.take(i + 1).drop_last() =~= s.take(i));
        assert(is_digit(s.take(i + 1).last()));
        lemma_digits_val_nonneg(s.take(i));
        assert(digits_val(s.take(i + 1)) == digits_val(s.take(i)) * 10 + digit_val(
            s.take(i + 1).last(),
        ));
        assert(digits_val(s.take(i)) * 10 >= digits_val(s.take(i))) by (nonlinear_arith)
            requires
                digits_val(s.take(i)) >= 0,
        ;
    }
}

proof fn lemma_digits_val_nonneg(s: Seq<char>)
    requires
        all_digits(s),
    ensures
        digits_val(s) >= 0,
    decreases s.len(),
{
    if s.len() > 0 {
        assert(all_digits(s.drop_last())) by {
            assert(forall|i: int| 0 <= i < s.len() - 1 ==> is_digit(#[trigger] s[i]));
        }
        lemma_digits_val_nonneg(s.drop_last());
        assert(is_digit(s.last()));
        assert(digits_val(s.drop_last()) * 10 >= 0) by (nonlinear_arith)
            requires
                digits_val(s.drop_last()) >= 0,
        ;
    }
}

/// Read the value of `s[from..to]`, all digits, bailing out when the
/// running value leaves the `i64` micro-unit range.
#[verifier::loop_isolation(false)]
fn read_digits(s: &str, from: usize, to: usize) -> (r: Option<u64>)
    requires
        from <= to <= s@.len(),
        all_digits(s@.subrange(from as int, to as int)),
    ensures
        match r {
            Some(v) => v == digits_val(s@.subrange(from as int, to as int)) && v
                <= 9_223_372_036_854,
            None => digits_val(s@.subrange(from as int, to as int)) > 9_223_372_036_854,
        },
{
    let ghost whole = s@.subrange(from as int, to as int);
    let mut acc: u64 = 0;
    let mut i: usize = from;
    while i < to
        invariant
            from <= i <= to,
            acc == digits_val(s@.subrange(from as int, i as int)),
            acc <= 9_223_372_036_854,
        decreases to - i,
    {
        let c = s.get_char(i);
        proof {
            assert(whole[i - from] == c);
            assert(is_digit(c));
            assert(s@.subrange(from as int, i + 1).drop_last() =~= s@.subrange(
                from as int,
                i as int,
            ));
            assert(s@.subrange(from as int, i + 1).last() == c);
        }
        let d: u64 = (c as u32 - 48) as u64;
        let next: u64 = acc * 10 + d;
        if next > 9_223_372_036_854 {
            proof {
                lemma_digits_val_prefix(whole, i + 1 - from);
                assert(whole.take(i + 1 - from) =~= s@.subrange(from as int, i + 1));
            }
            return None;
        }
        acc = next;
        i = i + 1;
    }
    Some(acc)
}

/// Parse a decimal number string into micro-units.  `None` exactly when
/// the string does not have the accepted shape or its value does not fit.
#[verifier::loop_isolation(false)]
#[verifier::rlimit(60)]
pub fn parse_fixed(s: &str) -> (r: Option<Fixed>)
    ensures
        r is Some <==> is_decimal(s@),
        r matches Some(v) ==> v.micros == decimal_micros(s@),
{
    let n = s.unicode_len();
    if n == 0 {
        return None;
    }
    let first = s.get_char(0);
    let negative = first == '-';
    let start: usize = if first == '-' || first == '+' {
        1
    } else {
        0
    };
    let ghost body = decimal_body(s@);
    proof {
        assert(body =~= s@.subrange(start as int, n as int));
    }
    // find the dot
    let mut dot: usize = start;
    while dot < n && s.get_char(dot) != '.'
        invariant
            start <= dot <= n,
            forall|j: int| start <= j < dot ==> s@[j] != '.',
        decreases n - dot,
    {
        dot = dot + 1;
    }
    proof {
        lemma_dot_pos_found(body, (dot - start) as int);
        assert(dot_pos(body) == dot - start);
    }
    // integer part digits
    let mut i: usize = start;
    while i < dot
        invariant
            start <= i <= dot,
            forall|j: int| start <= j < i ==> is_digit(#[trigger] s@[j]),
        decreases dot - i,
    {
        if !crate::date::is_digit_exec(s.get_char(i)) {
            proof {
                let ip = body.take(dot_pos(body));
                assert(ip[i - start] == s@[i as int]);
                assert(!all_digits(ip));
            }
            return None;
        }
        i = i + 1;
    }
    if dot == start {
        proof {
            assert(body.take(dot_pos(body)).len() == 0);
        }
        return None;
    }
    let ghost ip = body.take(dot_pos(body));
    proof {
        assert(all_digits(ip)) by {
            assert(forall|j: int| 0 <= j < ip.len() ==> ip[j] == s@[start + j]);
        }
        assert(ip =~= s@.subrange(start as int, dot as int));
    }
    // fractional part digits
    let frac_len: usize = if dot < n {
        n - dot - 1
    } else {
        0
    };
    if dot < n && (frac_len < 1 || frac_len > 6) {
        return None;
    }
    let mut j: usize = if dot < n {
        dot + 1
    } else {
        n
    };
    while j < n
        invariant
            j <= n,
            dot < n ==> dot + 1 <= j,
            dot >= n ==> j == n,
            forall|t: int| dot + 1 <= t < j ==> is_digit(#[trigger] s@[t]),
        decreases n - j,
    {
        if !crate::date::is_digit_exec(s.get_char(j)) {
            proof {
                let fp = body.skip(dot_pos(body) + 1);
                assert(fp[j - dot - 1] == s@[j as int]);
                assert(!all_digits(fp));
            }
            return None;
        }
        j = j + 1;
    }
    let ghost fp = body.skip(dot_pos(body) + 1);
    proof {
        if dot < n {
            assert(fp =~= s@.subrange(dot + 1, n as int));
            assert(all_digits(fp)) by {
                assert(forall|t: int| 0 <= t < fp.len() ==> fp[t] == s@[dot + 1 + t]);
            }
            assert(fp.len() == frac_len);
        }
    }
    // numeric value
    let ip_val: u64 = match read_digits(s, start, dot) {
        Some(v) => v,
        None => {
            proof {
                lemma_too_big(s@, negative);
            }
            return None;
        },
    };
    let frac_val: u64 = if dot < n {
        match read_digits(s, dot + 1, n) {
            Some(v) => v,
            None => {
                proof {
                    lemma_frac_small(fp);
                }
                return None;
            },
        }
    } else {
        0
    };
    let scale: u64 = if dot >= n {
        0
    } else if frac_len == 1 {
        100_000
    } else if frac_len == 2 {
        10_000
    } else if frac_len == 3 {
        1_000
    } else if frac_len == 4 {
        100
    } else if frac_len == 5 {
        10
    } else {
        1
    };
    let magnitude: u64 = ip_val * 1_000_000 + frac_val * scale;
    proof {
        assert(magnitude == body_micros(body));
    }
    if negative {
        if magnitude > 0x8000_0000_0000_0000u64 {
            return None;
        }
        if magnitude == 0x8000_0000_0000_0000u64 {
            return Some(Fixed { micros: i64::MIN });
        }
        Some(Fixed { micros: -(magnitude as i64) })
    } else {
        if magnitude > i64::MAX as u64 {
            return None;
        }
        Some(Fixed { micros: magnitude as i64 })
    }
}

/// When the first `k` characters hold no dot and either `k` is the length
/// or character `k` is a dot, `dot_pos` is `k`.
proof fn lemma_dot_pos_found(s: Seq<char>, k: int)
    requires
        0 <= k <= s.len(),
        forall|j: int| 0 <= j < k ==> s[j] != '.',
        k == s.len() || s[k] == '.',
    ensures
        dot_pos(s) == k,
    decreases s.len(),
{
    if s.len() > 0 && k > 0 {
        lemma_dot_pos_found(s.skip(1), k - 1);
    }
}

/// A fractional part of at most six digits stays below the bail-out bound.
proof fn lemma_frac_small(fp: Seq<char>)
    requires
        all_digits(fp),
        fp.len() <= 6,
    ensures
        digits_val(fp) <= 999_999,
{
    lemma_digits_bounded(fp);
}

/// A digit string of length `n` is below `10^n`.
proof fn lemma_digits_bounded(s: Seq<char>)
    requires
        all_digits(s),
        s.len() <= 6,
    ensures
        digits_val(s) < if s.len() == 0 {
            1int
        } else if s.len() == 1 {
            10int
        } else if s.len() == 2 {
            100int
        } else if s.len() == 3 {
            1000int
        } else if s.len() == 4 {
            10000int
        } else if s.len() == 5 {
            100000int
        } else {
            1000000int
        },
    decreases s.len(),
{
    if s.len() > 0 {
        assert(all_digits(s.drop_last())) by {
            assert(forall|i: int| 0 <= i < s.len() - 1 ==> is_digit(#[trigger] s[i]));
        }
        lemma_digits_bounded(s.drop_last());
        lemma_digits_val_nonneg(s.drop_last());
        assert(is_digit(s.last()));
    }
}

/// When the integer digits already exceed the bail-out bound, the whole
/// value cannot fit the `i64` micro-unit range.
proof fn lemma_too_big(s: Seq<char>, negative: bool)
    requires
        digits_val(decimal_body(s).take(dot_pos(decimal_body(s)))) > 9_223_372_036_854,
        all_digits(decimal_body(s).take(dot_pos(decimal_body(s)))),
        dot_pos(decimal_body(s)) == decimal_body(s).len() || all_digits(
            decimal_body(s).skip(dot_pos(decimal_body(s)) + 1),
        ),
    ensures
        !is_decimal(s),
{
    let body = decimal_body(s);
    let d = dot_pos(body);
    let ip = body.take(d);
    let fp = body.skip(d + 1);
    assert(digits_val(ip) * 1_000_000 >= 9_223_372_036_855_000_000) by (nonlinear_arith)
        requires
            digits_val(ip) >= 9_223_372_036_855,
    ;
    if d != body.len() {
        lemma_digits_val_nonneg(fp);
    }
}

/// Parse a decimal string, falling back to zero when it is rejected — the
/// behaviour the pipeline uses for the sentiment index value.
pub fn parse_fixed_or_zero(s: &str) -> (r: Fixed)
    ensures
        is_decimal(s@) ==> r.micros == decimal_micros(s@),
        !is_decimal(s@) ==> r.micros == 0,
{
    match parse_fixed(s) {
        Some(v) => v,
        None => Fixed { micros: 0 },
    }
}

} // verus!
