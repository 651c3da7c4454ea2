//! Verified parsing of the numeric directive values.
//!
//! `Request-rate` fields are non-negative integers; `Crawl-delay` is a
//! decimal number of seconds, split exactly into whole seconds and
//! nanoseconds, so that `2.35` yields 2 seconds and 350000000 nanoseconds.

use vstd::prelude::*;
use crate::chars::first_index_of;
use crate::model::crawl_delay::CrawlDelay;

verus! {

/// Whether `c` is an ASCII decimal digit.
pub open spec fn is_digit_char(c: char) -> bool {
    ('0' as u32) <= (c as u32) && (c as u32) <= ('9' as u32)
}

/// The value of one digit.
pub open spec fn digit_val(c: char) -> nat {
    ((c as u32) - ('0' as u32)) as nat
}

/// Whether every character of `s` is a digit.
pub open spec fn all_digits(s: Seq<char>) -> bool {
    forall|i: int| 0 <= i < s.len() ==> is_digit_char(s[i])
}

/// The number a digit string denotes, most significant digit first.
pub open spec fn digits_value(s: Seq<char>) -> nat
    decreases s.len(),
{
    if s.len() == 0 {
        0
    } else {
        digits_value(s.drop_last()) * 10 + digit_val(s.last())
    }
}

/// Powers of ten.
pub open spec fn pow10(n: nat) -> nat
    decreases n,
{
    if n == 0 {
        1
    } else {
        10 * pow10((n - 1) as nat)
    }
}

/// A string of `n` digits denotes a value below `10^n`.
pub proof fn lemma_digits_value_bound(s: Seq<char>)
    requires
        all_digits(s),
    ensures
        digits_value(s) < pow10(s.len()),
    decreases s.len(),
{
    if s.len() > 0 {
        assert(all_digits(s.drop_last())) by {
            assert(forall|i: int| 0 <= i < s.len() - 1 ==> s.drop_last()[i] == s[i]);
        }
        lemma_digits_value_bound(s.drop_last());
        assert(digit_val(s.last()) <= 9);
    }
}

/// A digit string's value only grows as more digits are read.
pub proof fn lemma_digits_value_take(s: Seq<char>, i: int)
    requires
        0 <= i <= s.len(),
        all_digits(s),
    ensures
        digits_value(s) >= digits_value(s.take(i)),
    decreases s.len() - i,
{
    if i < s.len() {
        lemma_digits_value_take(s, i + 1);
        assert(s.take(i + 1).drop_last() =~= s.take(i));
        assert(digits_value(s.take(i + 1)) == digits_value(s.take(i)) * 10 + digit_val(
            s.take(i + 1).last(),
        ));
    } else {
        assert(s.take(i) =~= s);
    }
}

/// What parsing a `Request-rate` field yields: an optional `+` sign, then at
/// least one digit, and a value that fits in `usize`; anything else fails.
pub open spec fn parsed_usize(s: Seq<char>) -> Option<usize> {
    let digits = if s.len() > 0 && s[0] == '+' {
        s.skip(1)
    } else {
        s
    };
    if digits.len() > 0 && all_digits(digits) && digits_value(digits) <= usize::MAX as nat {
        Some(digits_value(digits) as usize)
    } else {
        None
    }
}

/// Whether `c` is a digit.
fn is_digit(c: char) -> (r: bool)
    ensures
        r == is_digit_char(c),
{
    c >= '0' && c <= '9'
}

/// The value of one digit.
fn digit_of(c: char) -> (r: u32)
    requires
        is_digit_char(c),
    ensures
        r as nat == digit_val(c),
{
    (c as u32) - ('0' as u32)
}

/// Check that the character range `[from, to)` holds only digits.
fn all_digits_range(v: &Vec<char>, from: usize, to: usize) -> (r: bool)
    requires
        from <= to <= v@.len(),
    ensures
        r == all_digits(v@.subrange(from as int, to as int)),
{
    let mut i: usize = from;
    while i < to
        invariant
            from <= i <= to <= v@.len(),
            forall|j: int| from <= j < i ==> is_digit_char(v@[j]),
        decreases to - i,
    {
        if !is_digit(v[i]) {
            assert(v@.subrange(from as int, to as int)[i - from] == v@[i as int]);
            return false;
        }
        i = i + 1;
    }
    assert forall|j: int| 0 <= j < to - from implies is_digit_char(
        #[trigger] v@.subrange(from as int, to as int)[j],
    ) by {
        assert(v@.subrange(from as int, to as int)[j] == v@[j + from]);
    }
    true
}

/// Read the digit range `[from, to)` as a `usize`, or fail on overflow.
fn digits_to_usize(v: &Vec<char>, from: usize, to: usize) -> (r: Option<usize>)
    requires
        from <= to <= v@.len(),
        all_digits(v@.subrange(from as int, to as int)),
    ensures
        match r {
            Some(x) => x as nat == digits_value(v@.subrange(from as int, to as int))
                && digits_value(v@.subrange(from as int, to as int)) <= usize::MAX as nat,
            None => digits_value(v@.subrange(from as int, to as int)) > usize::MAX as nat,
        },
{
    let ghost digits = v@.subrange(from as int, to as int);
    let mut acc: usize = 0;
    let mut i: usize = from;
    assert(digits.take(0) =~= Seq::<char>::empty());
    while i < to
        invariant
            from <= i <= to <= v@.len(),
            digits == v@.subrange(from as int, to as int),
            all_digits(digits),
            acc as nat == digits_value(digits.take(i - from)),
        decreases to - i,
    {
        proof {
            assert(digits[i - from] == v@[i as int]);
            assert(digits.take(i - from + 1).drop_last() =~= digits.take(i - from));
            assert(digits.take(i - from + 1).last() == digits[i - from]);
        }
        let d = digit_of(v[i]) as usize;
        if acc <= (usize::MAX - d) / 10 {
            acc = acc * 10 + d;
        } else {
            proof {
                assert(digits_value(digits.take(i - from + 1)) > usize::MAX as nat);
                lemma_digits_value_take(digits, i - from + 1);
            }
            return None;
        }
        i = i + 1;
    }
    assert(digits.take(i - from) =~= digits);
    Some(acc)
}

/// Parse a `Request-rate` field exactly as `usize::from_str` would: an
/// optional `+` sign, then one or more digits, rejecting overflow.
pub fn parse_usize_field(v: &Vec<char>) -> (r: Option<usize>)
    ensures
        r == parsed_usize(v@),
{
    let n = v.len();
    let start: usize = if n > 0 && v[0] == '+' {
        1
    } else {
        0
    };
    assert(v@.subrange(start as int, n as int) =~= if v@.len() > 0 && v@[0] == '+' {
        v@.skip(1)
    } else {
        v@
    });
    if n == start {
        return None;
    }
    if !all_digits_range(v, start, n) {
        return None;
    }
    digits_to_usize(v, start, n)
}

/// Read the digit range `[from, to)` as a `u64`, clamping at `u64::MAX`.
fn digits_to_u64_clamped(v: &Vec<char>, from: usize, to: usize) -> (r: u64)
    requires
        from <= to <= v@.len(),
        all_digits(v@.subrange(from as int, to as int)),
    ensures
        r as nat == if digits_value(v@.subrange(from as int, to as int)) <= u64::MAX as nat {
            digits_value(v@.subrange(from as int, to as int))
        } else {
            u64::MAX as nat
        },
{
    let ghost digits = v@.subrange(from as int, to as int);
    let mut acc: u64 = 0;
    let mut saturated = false;
    let mut i: usize = from;
    assert(digits.take(0) =~= Seq::<char>::empty());
    while i < to
        invariant
            from <= i <= to <= v@.len(),
            digits == v@.subrange(from as int, to as int),
            all_digits(digits),
            !saturated ==> acc as nat == digits_value(digits.take(i - from)),
            saturated ==> acc == u64::MAX && digits_value(digits.take(i - from))
                > u64::MAX as nat,
        decreases to - i,
    {
        proof {
            assert(digits[i - from] == v@[i as int]);
            assert(digits.take(i - from + 1).drop_last() =~= digits.take(i - from));
            assert(digits.take(i - from + 1).last() == digits[i - from]);
        }
        let d = digit_of(v[i]) as u64;
        if saturated {
        } else if acc <= (u64::MAX - d) / 10 {
            acc = acc * 10 + d;
        } else {
            acc = u64::MAX;
            saturated = true;
        }
        i = i + 1;
    }
    assert(digits.take(i - from) =~= digits);
    acc
}

/// The nanosecond part a fraction string denotes: its first nine digits,
/// padded with zeros on the right.
pub open spec fn nanos_of_fraction(frac: Seq<char>) -> nat {
    if frac.len() >= 9 {
        digits_value(frac.take(9))
    } else {
        digits_value(frac) * pow10((9 - frac.len()) as nat)
    }
}

/// Read the fraction digits `[from, to)` as nanoseconds.
fn fraction_nanos(v: &Vec<char>, from: usize, to: usize) -> (r: u32)
    requires
        from <= to <= v@.len(),
        all_digits(v@.subrange(from as int, to as int)),
    ensures
        r as nat == nanos_of_fraction(v@.subrange(from as int, to as int)),
        r < 1000000000,
{
    let ghost frac = v@.subrange(from as int, to as int);
    let used: usize = if to - from > 9 {
        9
    } else {
        to - from
    };
    let mut acc: u32 = 0;
    let mut i: usize = from;
    assert(frac.take(0) =~= Seq::<char>::empty());
    while i < from + used
        invariant
            from <= i <= from + used,
            used <= 9,
            from + used <= to <= v@.len(),
            frac == v@.subrange(from as int, to as int),
            all_digits(frac),
            acc as nat == digits_value(frac.take(i - from)),
            (acc as nat) < pow10((i - from) as nat),
        decreases from + used - i,
    {
        proof {
            assert(frac[i - from] == v@[i as int]);
            assert(frac.take(i - from + 1).drop_last() =~= frac.take(i - from));
            assert(frac.take(i - from + 1).last() == frac[i - from]);
            assert(all_digits(frac.take(i - from + 1))) by {
                assert(forall|j: int|
                    0 <= j < i - from + 1 ==> frac.take(i - from + 1)[j] == frac[j]);
            }
            lemma_digits_value_bound(frac.take(i - from + 1));
            assert(pow10((i - from + 1) as nat) <= pow10(9)) by {
                lemma_pow10_le((i - from + 1) as nat, 9);
            }
            lemma_pow10_9();
        }
        let d = digit_of(v[i]);
        acc = acc * 10 + d;
        i = i + 1;
    }
    proof {
        lemma_pow10_9();
    }
    if used == 9 {
        assert(frac.take(9) =~= frac.take(i - from));
        proof {
            assert(all_digits(frac.take(9))) by {
                assert(forall|j: int| 0 <= j < 9 ==> frac.take(9)[j] == frac[j]);
            }
            lemma_digits_value_bound(frac.take(9));
            lemma_pow10_le((i - from) as nat, 9);
        }
        assert(frac.len() >= 9);
        assert(acc as nat == digits_value(frac.take(9)));
        assert(acc as nat == nanos_of_fraction(frac));
        acc
    } else {
        // Pad with zeros on the right up to nine digits.
        assert(frac.take(i - from) =~= frac);
        let mut pad: usize = 9 - used;
        let ghost total = digits_value(frac) * pow10((9 - frac.len()) as nat);
        proof {
            lemma_digits_value_bound(frac);
            lemma_pow10_mul_bound(digits_value(frac), frac.len(), (9 - frac.len()) as nat);
        }
        while pad > 0
            invariant
                pad <= 9,
                acc as nat * pow10(pad as nat) == total,
                total < 1000000000,
            decreases pad,
        {
            proof {
                assert(pow10(pad as nat) == 10 * pow10((pad - 1) as nat));
                assert((acc * 10) as nat * pow10((pad - 1) as nat) == acc as nat * pow10(
                    pad as nat,
                )) by (nonlinear_arith)
                    requires
                        pow10(pad as nat) == 10 * pow10((pad - 1) as nat),
                ;
                assert(pow10((pad - 1) as nat) >= 1) by {
                    lemma_pow10_pos((pad - 1) as nat);
                }
                assert(acc as nat * pow10((pad - 1) as nat) * 10 < 10000000000) by (nonlinear_arith)
                    requires
                        (acc * 10) as nat * pow10((pad - 1) as nat) == acc as nat * pow10(
                            pad as nat,
                        ),
                        acc as nat * pow10(pad as nat) < 1000000000,
                        pow10((pad - 1) as nat) >= 1,
                ;
                assert(acc as nat * 10 <= acc as nat * pow10(pad as nat)) by (nonlinear_arith)
                    requires
                        pow10(pad as nat) >= 10,
                        acc >= 0,
                ;
                assert(pow10(pad as nat) >= 10);
            }
            acc = acc * 10;
            pad = pad - 1;
        }
        assert(pow10(0) == 1);
        assert(pad == 0);
        assert(acc as nat * pow10(pad as nat) == total);
        assert(acc as nat * 1 == total);
        assert(acc as nat == total);
        assert(frac.len() < 9);
        assert(acc as nat == nanos_of_fraction(frac));
        acc
    }
}

/// The ninth power of ten, spelled out.
proof fn lemma_pow10_9()
    ensures
        pow10(9) == 1000000000,
{
    reveal_with_fuel(pow10, 10);
}

/// `pow10` is positive.
proof fn lemma_pow10_pos(n: nat)
    ensures
        pow10(n) >= 1,
    decreases n,
{
    if n > 0 {
        lemma_pow10_pos((n - 1) as nat);
    }
}

/// `pow10` is monotone.
proof fn lemma_pow10_le(a: nat, b: nat)
    requires
        a <= b,
    ensures
        pow10(a) <= pow10(b),
    decreases b,
{
    if a < b {
        lemma_pow10_le(a, (b - 1) as nat);
        lemma_pow10_pos((b - 1) as nat);
    }
}

/// A value below `10^a`, scaled by `10^b` with `a + b <= 9`, stays below `10^9`.
proof fn lemma_pow10_mul_bound(x: nat, a: nat, b: nat)
    requires
        x < pow10(a),
        a + b <= 9,
    ensures
        x * pow10(b) < 1000000000,
    decreases b,
{
    lemma_pow10_9();
    lemma_pow10_le(a + b, 9);
    assert(pow10(a + b) == pow10(a) * pow10(b)) by {
        lemma_pow10_add(a, b);
    }
    lemma_pow10_pos(b);
    assert(x * pow10(b) < pow10(a) * pow10(b)) by (nonlinear_arith)
        requires
            x < pow10(a),
            pow10(b) >= 1,
    ;
}

/// `10^(a+b) == 10^a * 10^b`.
proof fn lemma_pow10_add(a: nat, b: nat)
    ensures
        pow10(a + b) == pow10(a) * pow10(b),
    decreases a,
{
    if a == 0 {
        assert(pow10(0) == 1);
        assert(a + b == b);
        assert(pow10(a) * pow10(b) == pow10(b));
    } else {
        let pa1 = pow10((a - 1) as nat);
        let pb = pow10(b);
        lemma_pow10_add((a - 1) as nat, b);
        assert(pow10((a - 1) as nat + b) == pa1 * pb);
        assert(pow10(a + b) == 10 * pow10((a - 1) as nat + b));
        assert(10 * (pa1 * pb) == (10 * pa1) * pb) by (nonlinear_arith);
        assert(pow10(a) == 10 * pa1);
        assert(pow10(a) * pow10(b) == (10 * pa1) * pb);
        assert(pow10(a + b) == pow10(a) * pow10(b));
    }
}

/// What parsing a `Crawl-delay` value yields: an optional sign, then digits
/// with at most one decimal point and at least one digit in all.  A negative
/// value clamps to zero; an integer part beyond `u64::MAX` clamps to
/// `u64::MAX` seconds; the fraction is read to nanosecond precision,
/// truncated beyond nine digits.
pub open spec fn parsed_crawl_delay(s: Seq<char>) -> Option<CrawlDelay> {
    let negative = s.len() > 0 && s[0] == '-';
    let body = if s.len() > 0 && (s[0] == '-' || s[0] == '+') {
        s.skip(1)
    } else {
        s
    };
    let whole = match first_index_of(body, '.') {
        Some(i) => body.take(i),
        None => body,
    };
    let frac = match first_index_of(body, '.') {
        Some(i) => body.skip(i + 1),
        None => Seq::<char>::empty(),
    };
    if !(all_digits(whole) && all_digits(frac) && whole.len() + frac.len() > 0) {
        None
    } else if negative {
        Some(CrawlDelay { seconds: 0, nanoseconds: 0 })
    } else if digits_value(whole) > u64::MAX as nat {
        Some(CrawlDelay { seconds: u64::MAX, nanoseconds: 0 })
    } else {
        Some(
            CrawlDelay {
                seconds: digits_value(whole) as u64,
                nanoseconds: nanos_of_fraction(frac) as u32,
            },
        )
    }
}

/// Parse a `Crawl-delay` value into a duration.
pub fn parse_crawl_delay_value(v: &Vec<char>) -> (r: Option<CrawlDelay>)
    ensures
        r == parsed_crawl_delay(v@),
{
    let n = v.len();
    let negative = n > 0 && v[0] == '-';
    let start: usize = if n > 0 && (v[0] == '-' || v[0] == '+') {
        1
    } else {
        0
    };
    let ghost body = if v@.len() > 0 && (v@[0] == '-' || v@[0] == '+') {
        v@.skip(1)
    } else {
        v@
    };
    assert(body =~= v@.skip(start as int));
    let (whole_to, frac_from) = match crate::chars::find_char_from(v, start, '.') {
        Some(i) => (i, i + 1),
        None => (n, n),
    };
    let ghost whole = v@.subrange(start as int, whole_to as int);
    let ghost frac = v@.subrange(frac_from as int, n as int);
    proof {
        match first_index_of(body, '.') {
            Some(i) => {
                assert(whole =~= body.take(i));
                assert(frac =~= body.skip(i + 1));
            },
            None => {
                assert(whole =~= body);
                assert(frac =~= Seq::<char>::empty());
            },
        }
    }
    if !all_digits_range(v, start, whole_to) {
        return None;
    }
    if !all_digits_range(v, frac_from, n) {
        return None;
    }
    if whole_to - start == 0 && n - frac_from == 0 {
        return None;
    }
    if negative {
        return Some(CrawlDelay { seconds: 0, nanoseconds: 0 });
    }
    let seconds = digits_to_u64_clamped(v, start, whole_to);
    if seconds == u64::MAX {
        // Either the true value or a clamp; both give `u64::MAX` seconds, and
        // a clamped value drops its fraction.
        if digits_value_exceeds_u64(v, start, whole_to) {
            return Some(CrawlDelay { seconds: u64::MAX, nanoseconds: 0 });
        }
    }
    let nanoseconds = fraction_nanos(v, frac_from, n);
    Some(CrawlDelay { seconds, nanoseconds })
}

/// Whether the digit range `[from, to)` denotes a value above `u64::MAX`.
fn digits_value_exceeds_u64(v: &Vec<char>, from: usize, to: usize) -> (r: bool)
    requires
        from <= to <= v@.len(),
        all_digits(v@.subrange(from as int, to as int)),
    ensures
        r == (digits_value(v@.subrange(from as int, to as int)) > u64::MAX as nat),
{
    let ghost digits = v@.subrange(from as int, to as int);
    let mut acc: u64 = 0;
    let mut saturated = false;
    let mut i: usize = from;
    assert(digits.take(0) =~= Seq::<char>::empty());
    while i < to
        invariant
            from <= i <= to <= v@.len(),
            digits == v@.subrange(from as int, to as int),
            all_digits(digits),
            !saturated ==> acc as nat == digits_value(digits.take(i - from)),
            saturated ==> digits_value(digits.take(i - from)) > u64::MAX as nat,
        decreases to - i,
    {
        proof {
            assert(digits[i - from] == v@[i as int]);
            assert(digits.take(i - from + 1).drop_last() =~= digits.take(i - from));
            assert(digits.take(i - from + 1).last() == digits[i - from]);
        }
        let d = digit_of(v[i]) as u64;
        if saturated {
        } else if acc <= (u64::MAX - d) / 10 {
            acc = acc * 10 + d;
        } else {
            saturated = true;
        }
        i = i + 1;
    }
    assert(digits.take(i - from) =~= digits);
    saturated
}

} // verus!
