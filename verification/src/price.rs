//! Prices as exact decimals in millionths of a currency unit. Parsing
//! accepts an optional sign, an integer part and a fraction, with a comma
//! accepted for the decimal point; anything else is kept only for display.

use vstd::prelude::*;

use crate::json::{digit_run, is_digit};
use crate::text::spec_digits;

verus! {

/// Numeric value of the digit run `s[i..j)`.
pub open spec fn digits_val(s: Seq<char>, i: int, j: int) -> int
    decreases j - i,
{
    if i >= j {
        0
    } else {
        digits_val(s, i, j - 1) * 10 + ((s[j - 1] as u32) - ('0' as u32))
    }
}

/// Value of a fraction run scaled to millionths, reading at most six digits.
pub open spec fn frac_micros(s: Seq<char>, i: int, j: int) -> int {
    let jj = if j > i + 6 {
        i + 6
    } else {
        j
    };
    let scale = if jj - i == 0 {
        1000000int
    } else if jj - i == 1 {
        100000int
    } else if jj - i == 2 {
        10000int
    } else if jj - i == 3 {
        1000int
    } else if jj - i == 4 {
        100int
    } else if jj - i == 5 {
        10int
    } else {
        1int
    };
    digits_val(s, i, jj) * scale
}

/// The parsed price in millionths: sign, digits, optionally a point (or
/// comma) and a fraction. At least one digit must be present; the integer
/// part may hold at most twelve digits; exponents are not read.
pub open spec fn spec_parse_price(s: Seq<char>) -> Option<int> {
    let neg = s.len() > 0 && s[0] == '-';
    let plus = s.len() > 0 && s[0] == '+';
    let i0 = if neg || plus {
        1int
    } else {
        0int
    };
    let il = digit_run(s, i0);
    let p1 = i0 + il;
    let sep = p1 < s.len() && (s[p1] == '.' || s[p1] == ',');
    let fl = if sep {
        digit_run(s, p1 + 1)
    } else {
        0
    };
    let end = if sep {
        p1 + 1 + fl
    } else {
        p1
    };
    if end != s.len() || il + fl == 0 || il > 12 {
        None
    } else {
        let mag = digits_val(s, i0, p1) * 1000000 + (if sep {
            frac_micros(s, p1 + 1, p1 + 1 + fl)
        } else {
            0
        });
        Some(
            if neg {
                -mag
            } else {
                mag
            },
        )
    }
}

proof fn lemma_digits_val_len(s: Seq<char>, i: int, j: int)
    requires
        0 <= i <= j <= s.len(),
        forall|k: int| i <= k < j ==> is_digit(s[k]),
    ensures
        0 <= digits_val(s, i, j) < pow10(j - i),
    decreases j - i,
{
    if i < j {
        lemma_digits_val_len(s, i, j - 1);
        pow10_pos(j - 1 - i);
        assert(digits_val(s, i, j - 1) <= pow10(j - 1 - i) - 1);
        assert(digits_val(s, i, j - 1) * 10 <= (pow10(j - 1 - i) - 1) * 10) by (nonlinear_arith)
            requires
                digits_val(s, i, j - 1) <= pow10(j - 1 - i) - 1,
        ;
    }
}

proof fn pow10_values()
    ensures
        pow10(6) == 1000000,
        pow10(12) == 0xE8D4A51000,
{
    assert(pow10(0) == 1);
    assert(pow10(1) == 10);
    assert(pow10(2) == 100);
    assert(pow10(3) == 1000);
    assert(pow10(4) == 10000);
    assert(pow10(5) == 100000);
    assert(pow10(6) == 1000000);
    assert(pow10(7) == 10000000);
    assert(pow10(8) == 100000000);
    assert(pow10(9) == 1000000000);
    assert(pow10(10) == 10000000000);
    assert(pow10(11) == 100000000000);
    assert(pow10(12) == 1000000000000);
}

pub open spec fn pow10(n: int) -> int
    decreases n,
{
    if n <= 0 {
        1
    } else {
        10 * pow10(n - 1)
    }
}

proof fn pow10_mono(a: int, b: int)
    requires
        a <= b,
    ensures
        pow10(a) <= pow10(b),
    decreases b - a,
{
    if a < b {
        pow10_mono(a, b - 1);
        pow10_pos(b - 1);
    }
}

proof fn pow10_pos(n: int)
    ensures
        pow10(n) >= 1,
    decreases n,
{
    if n > 0 {
        pow10_pos(n - 1);
    }
}

fn digit_run_len(s: &[char], i: usize) -> (r: usize)
    requires
        i <= s@.len(),
    ensures
        r == digit_run(s@, i as int),
        i + r <= s@.len(),
        forall|k: int| i <= k < i + r ==> is_digit(s@[k]),
{
    let mut j = i;
    while j < s.len() && '0' <= s[j] && s[j] <= '9'
        invariant
            i <= j <= s.len(),
            digit_run(s@, i as int) == (j - i) + digit_run(s@, j as int),
            forall|k: int| i <= k < j ==> is_digit(s@[k]),
        decreases s.len() - j,
    {
        j = j + 1;
    }
    proof {
        lemma_digit_run_bound(s@, j as int);
    }
    j - i
}

proof fn lemma_digit_run_bound(s: Seq<char>, i: int)
    requires
        0 <= i <= s.len(),
    ensures
        0 <= digit_run(s, i) <= s.len() - i,
    decreases s.len() - i,
{
    if i < s.len() && is_digit(s[i]) {
        lemma_digit_run_bound(s, i + 1);
    }
}

fn digits_value(s: &[char], i: usize, j: usize) -> (r: i64)
    requires
        i <= j <= s@.len(),
        j - i <= 12,
        forall|k: int| i <= k < j ==> is_digit(s@[k]),
    ensures
        r == digits_val(s@, i as int, j as int),
        0 <= r <= 0xE8D4A51000,
{
    proof {
        pow10_values();
    }
    let mut v: i64 = 0;
    let mut k = i;
    while k < j
        invariant
            i <= k <= j <= s@.len(),
            j - i <= 12,
            forall|m: int| i <= m < j ==> is_digit(s@[m]),
            v == digits_val(s@, i as int, k as int),
            0 <= v < pow10(k - i),
            pow10(12) == 0xE8D4A51000,
        decreases j - k,
    {
        proof {
            lemma_digits_val_len(s@, i as int, k + 1);
            pow10_mono(k + 1 - i, 12);
            pow10_pos(k - i);
        }
        let d = (s[k] as u32) - ('0' as u32);
        proof {
            assert(v * 10 <= (pow10(k - i) - 1) * 10) by (nonlinear_arith)
                requires
                    0 <= v <= pow10(k - i) - 1,
            ;
            assert((pow10(k - i) - 1) * 10 + 9 < pow10(k + 1 - i));
            assert(pow10(k + 1 - i) <= pow10(12));
        }
        v = v * 10 + (d as i64);
        k = k + 1;
    }
    proof {
        lemma_digits_val_len(s@, i as int, j as int);
        pow10_mono(j - i, 12);
    }
    v
}

/// Parse a price text to millionths, or nothing when it is not a plain
/// decimal number.
#[verifier::rlimit(30)]
pub fn parse_price(s: &str) -> (r: Option<i64>)
    ensures
        match r {
            Some(v) => spec_parse_price(s@) == Some(v as int) && -0x4000000000000000 < v
                < 0x4000000000000000,
            None => spec_parse_price(s@) is None,
        },
{
    let cs = crate::text::to_chars(s);
    let n = cs.len();
    let neg = n > 0 && cs[0] == '-';
    let plus = n > 0 && cs[0] == '+';
    let i0: usize = if neg || plus {
        1
    } else {
        0
    };
    if i0 > n {
        return None;
    }
    let il = digit_run_len(cs.as_slice(), i0);
    let p1 = i0 + il;
    let sep = p1 < n && (cs[p1] == '.' || cs[p1] == ',');
    let fl: usize = if sep {
        digit_run_len(cs.as_slice(), p1 + 1)
    } else {
        0
    };
    let end: usize = if sep {
        p1 + 1 + fl
    } else {
        p1
    };
    if end != n || il + fl == 0 || il > 12 {
        return None;
    }
    let intval = digits_value(cs.as_slice(), i0, p1);
    let frac: i64 = if sep {
        let jj = if fl > 6 {
            p1 + 1 + 6
        } else {
            p1 + 1 + fl
        };
        let fval = digits_value(cs.as_slice(), p1 + 1, jj);
        let scale: i64 = if jj - (p1 + 1) == 0 {
            1000000
        } else if jj - (p1 + 1) == 1 {
            100000
        } else if jj - (p1 + 1) == 2 {
            10000
        } else if jj - (p1 + 1) == 3 {
            1000
        } else if jj - (p1 + 1) == 4 {
            100
        } else if jj - (p1 + 1) == 5 {
            10
        } else {
            1
        };
        proof {
            lemma_digits_val_len(cs@, p1 + 1, jj as int);
            pow10_mono(jj - (p1 + 1), 6);
            pow10_values();
            assert(fval < pow10(jj - (p1 + 1)));
            assert(fval * scale <= 1000000 * 1000000) by (nonlinear_arith)
                requires
                    0 <= fval,
                    0 <= scale <= 1000000,
                    fval < 1000000 || scale == 1,
                    fval <= 0xE8D4A51000,
            ;
        }
        fval * scale
    } else {
        0
    };
    proof {
        assert(intval * 1000000 <= 0xE8D4A51000 * 1000000) by (nonlinear_arith)
            requires
                0 <= intval <= 0xE8D4A51000,
        ;
    }
    let mag: i64 = intval * 1000000 + frac;
    if neg {
        Some(-mag)
    } else {
        Some(mag)
    }
}

/// Round a non-negative `v` to a multiple of `unit`, ties to the even
/// multiple.
pub open spec fn spec_round_even(v: int, unit: int) -> int {
    let d = v / unit;
    let r = v % unit;
    let twice = 2 * r;
    if twice < unit {
        d
    } else if twice > unit {
        d + 1
    } else if d % 2 == 0 {
        d
    } else {
        d + 1
    }
}

fn round_even(v: i64, unit: i64) -> (r: i64)
    requires
        unit == 10000 || unit == 1000000,
        0 <= v < 0x4000000000000000,
    ensures
        r == spec_round_even(v as int, unit as int),
{
    let d = v / unit;
    let m = v % unit;
    let twice = 2 * m;
    if twice < unit {
        d
    } else if twice > unit {
        d + 1
    } else if d % 2 == 0 {
        d
    } else {
        d + 1
    }
}

/// The digits of `n` in decimal, with a leading `-` when negative.
pub open spec fn spec_int_digits(n: int) -> Seq<char> {
    if n < 0 {
        seq!['-'] + spec_digits((-n) as nat)
    } else {
        spec_digits(n as nat)
    }
}

/// A price in millionths rendered with the given number of decimals (zero or
/// two), the magnitude rounded with ties to even, a `-` kept for negative
/// values.
pub open spec fn spec_price_number(micros: int, decimals: int) -> Seq<char> {
    let sign: Seq<char> = if micros < 0 {
        seq!['-']
    } else {
        Seq::<char>::empty()
    };
    let mag = if micros < 0 {
        -micros
    } else {
        micros
    };
    if decimals == 0 {
        sign + spec_digits(spec_round_even(mag, 1000000) as nat)
    } else {
        let cents = spec_round_even(mag, 10000);
        sign + spec_digits((cents / 100) as nat) + seq!['.'] + seq![
            spec_digits(((cents % 100) / 10) as nat).last(),
            spec_digits(((cents % 100) % 10) as nat).last(),
        ]
    }
}

/// Render a price number. `decimals` is zero or two.
pub fn format_price_number(micros: i64, decimals: usize) -> (r: Vec<char>)
    requires
        decimals == 0 || decimals == 2,
        -0x4000000000000000 < micros < 0x4000000000000000,
    ensures
        r@ == spec_price_number(micros as int, decimals as int),
{
    let mut out: Vec<char> = Vec::new();
    if micros < 0 {
        out.push('-');
    }
    let mag: i64 = if micros < 0 {
        -micros
    } else {
        micros
    };
    if decimals == 0 {
        let units = round_even(mag, 1000000);
        let d = crate::text::digits_of(units as u64);
        crate::text::push_all(&mut out, d.as_slice());
        proof {
            assert(out@ =~= spec_price_number(micros as int, 0));
        }
        out
    } else {
        let cents = round_even(mag, 10000);
        let d = crate::text::digits_of((cents / 100) as u64);
        crate::text::push_all(&mut out, d.as_slice());
        out.push('.');
        let tens = crate::text::digits_of(((cents % 100) / 10) as u64);
        let ones = crate::text::digits_of((cents % 100 % 10) as u64);
        out.push(tens[tens.len() - 1]);
        out.push(ones[ones.len() - 1]);
        proof {
            assert(spec_digits((((cents % 100) / 10)) as nat).len() == 1);
            assert(spec_digits(((cents % 100 % 10)) as nat).len() == 1);
            assert(out@ =~= spec_price_number(micros as int, 2));
        }
        out
    }
}

/// The fractional part is below one ten-thousandth of a unit.
pub open spec fn spec_is_integral(micros: int) -> bool {
    (if micros < 0 {
        -micros
    } else {
        micros
    }) % 1000000 < 100
}

pub fn price_is_integral(micros: i64) -> (r: bool)
    requires
        -0x4000000000000000 < micros < 0x4000000000000000,
    ensures
        r == spec_is_integral(micros as int),
{
    let mag: i64 = if micros < 0 {
        -micros
    } else {
        micros
    };
    mag % 1000000 < 100
}


/// Length of the digit run starting at `i`.
pub fn digit_run_pub(s: &[char], i: usize) -> (r: usize)
    requires
        i <= s@.len(),
    ensures
        r == digit_run(s@, i as int),
        i + r <= s@.len(),
        forall|k: int| i <= k < i + r ==> is_digit(s@[k]),
{
    digit_run_len(s, i)
}

/// Numeric value of a digit run of at most twelve digits.
pub fn digits_value_pub(s: &[char], i: usize, j: usize) -> (r: i64)
    requires
        i <= j <= s@.len(),
        j - i <= 12,
        forall|k: int| i <= k < j ==> is_digit(s@[k]),
    ensures
        r == digits_val(s@, i as int, j as int),
        0 <= r <= 0xE8D4A51000,
{
    digits_value(s, i, j)
}

pub proof fn pow10_mono_pub(a: int, b: int)
    requires
        a <= b,
    ensures
        pow10(a) <= pow10(b),
{
    pow10_mono(a, b);
}

pub proof fn pow10_values_pub()
    ensures
        pow10(6) == 1000000,
        pow10(10) == 10000000000,
        pow10(12) == 0xE8D4A51000,
{
    pow10_values();
    assert(pow10(10) == 10000000000) by {
        assert(pow10(0) == 1);
        assert(pow10(1) == 10);
        assert(pow10(2) == 100);
        assert(pow10(3) == 1000);
        assert(pow10(4) == 10000);
        assert(pow10(5) == 100000);
        assert(pow10(6) == 1000000);
        assert(pow10(7) == 10000000);
        assert(pow10(8) == 100000000);
        assert(pow10(9) == 1000000000);
        assert(pow10(10) == 10000000000);
    }
}

} // verus!
