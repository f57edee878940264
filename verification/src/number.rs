//! Prices as fixed-point decimals.  A price is held to six decimal places —
//! the precision of the output format — as a sign and a count of
//! millionths ("micro-units").  Parsing reads a plain decimal numeral
//! (optional sign, digits, optional fractional part) and rounds anything
//! beyond the sixth fractional digit half-up; formatting emits the value
//! with exactly six digits after the decimal point.
use vstd::prelude::*;

use crate::scan::digits_end;
use crate::scan::digits_val;
use crate::scan::is_digit;
use crate::scan::lemma_digits_end;
use crate::scan::lemma_digits_val_bound;
use crate::scan::lemma_pow10_mono;
use crate::scan::parse_digits;
use crate::scan::pow10;
use crate::scan::scan_digits_end;

verus! {

/// A price: `micro` counts millionths of a unit, `neg` carries the sign of
/// the numeral the price was read from.
#[derive(Clone, Copy, Debug, PartialEq, Eq, Structural)]
pub struct Price {
    pub neg: bool,
    pub micro: u64,
}

/// Length of the sign prefix of the numeral `s`: one byte when it starts
/// with `+` or `-`, else zero.
pub open spec fn sign_len(s: Seq<u8>) -> int {
    if s.len() > 0 && (s[0] == 43 || s[0] == 45) {
        1
    } else {
        0
    }
}

/// `s` is a well-formed decimal numeral: an optional sign, a run of integer
/// digits, and an optional `.` followed by a run of fractional digits, with
/// at least one digit overall and at most 13 integer digits (so that the
/// value in micro-units fits a 64-bit count).
pub open spec fn price_wf(s: Seq<u8>) -> bool {
    let a = sign_len(s);
    let ie = digits_end(s, a);
    &&& ie - a <= 13
    &&& if ie == s.len() {
        ie > a
    } else {
        &&& s[ie] == 46
        &&& digits_end(s, ie + 1) == s.len()
        &&& (ie > a || s.len() > ie + 1)
    }
}

/// Micro-units contributed by the fractional digit run `s[fs..fe]`: the
/// first six digits, scaled, rounded half-up by the seventh digit.
pub open spec fn frac_micro(s: Seq<u8>, fs: int, fe: int) -> int {
    if fe - fs <= 6 {
        digits_val(s, fs, fe) * pow10((6 - (fe - fs)) as nat)
    } else {
        digits_val(s, fs, fs + 6) + if s[fs + 6] >= 53 {
            1int
        } else {
            0int
        }
    }
}

/// Magnitude of the numeral `s` in micro-units.
pub open spec fn price_val_micro(s: Seq<u8>) -> int {
    let a = sign_len(s);
    let ie = digits_end(s, a);
    let frac = if ie == s.len() {
        0int
    } else {
        frac_micro(s, ie + 1, s.len() as int)
    };
    digits_val(s, a, ie) * 1000000 + frac
}

/// The price a well-formed numeral `s` denotes.
pub open spec fn price_of(s: Seq<u8>) -> Price {
    Price { neg: s.len() > 0 && s[0] == 45, micro: price_val_micro(s) as u64 }
}

pub proof fn lemma_pow10_add(m: nat, n: nat)
    ensures
        pow10(m + n) == pow10(m) * pow10(n),
    decreases m,
{
    if m > 0 {
        lemma_pow10_add((m - 1) as nat, n);
        vstd::arithmetic::mul::lemma_mul_is_associative(10, pow10((m - 1) as nat), pow10(n));
    }
}

/// The fractional contribution never exceeds one million (it reaches one
/// million only when a seventh digit rounds `999999` up).
pub proof fn lemma_frac_micro_bound(s: Seq<u8>, fs: int, fe: int)
    requires
        0 <= fs <= fe <= s.len(),
        forall|k: int| fs <= k < fe ==> is_digit(s[k]),
    ensures
        0 <= frac_micro(s, fs, fe) <= 1000000,
{
    assert(pow10(6) == 1000000) by {
        reveal_with_fuel(pow10, 7);
    }
    if fe - fs <= 6 {
        let l = (fe - fs) as nat;
        let dv = digits_val(s, fs, fe);
        let sc = pow10((6 - (fe - fs)) as nat);
        lemma_digits_val_bound(s, fs, fe);
        lemma_pow10_add(l, (6 - (fe - fs)) as nat);
        lemma_pow10_mono(0, (6 - (fe - fs)) as nat);
        assert(dv * sc <= 1000000) by (nonlinear_arith)
            requires
                0 <= dv,
                dv <= pow10(l) - 1,
                pow10(l) * sc == 1000000,
                sc >= 1,
        {
        }
    } else {
        lemma_digits_val_bound(s, fs, fs + 6);
    }
}

/// Reads the fractional digit run `v[fs..fe]` as micro-units, rounding
/// half-up at the sixth place.
fn parse_frac(v: &Vec<u8>, fs: usize, fe: usize) -> (r: u64)
    requires
        fs <= fe <= v@.len(),
        forall|k: int| fs <= k < fe ==> is_digit(v@[k]),
    ensures
        r == frac_micro(v@, fs as int, fe as int),
        r <= 1000000,
{
    proof {
        lemma_frac_micro_bound(v@, fs as int, fe as int);
    }
    if fe - fs <= 6 {
        let fval = parse_digits(v, fs, fe);
        let scale: u64 = pow10_exec((6 - (fe - fs)) as u64);
        fval * scale
    } else {
        let fval = parse_digits(v, fs, fs + 6);
        proof {
            lemma_digits_val_bound(v@, fs as int, fs + 6);
            assert(pow10(6) == 1000000) by {
                reveal_with_fuel(pow10, 7);
            }
        }
        if v[fs + 6] >= 53 {
            fval + 1
        } else {
            fval
        }
    }
}

/// Parses the whole of `v` as a decimal numeral.  Yields the price exactly
/// when `v` is well-formed (`price_wf`); rejects anything else — including
/// exponent notation and numerals whose integer part runs past 13 digits.
pub fn parse_price(v: &Vec<u8>) -> (r: Option<Price>)
    ensures
        r == (if price_wf(v@) {
            Some(price_of(v@))
        } else {
            None::<Price>
        }),
{
    let n = v.len();
    let a: usize = if n > 0 && (v[0] == 43 || v[0] == 45) {
        1
    } else {
        0
    };
    let neg = n > 0 && v[0] == 45;
    let ie = scan_digits_end(v, a);
    proof {
        lemma_digits_end(v@, a as int);
    }
    if ie - a > 13 {
        return None;
    }
    let int_val: u64 = parse_digits(v, a, ie);
    let frac: u64;
    if ie == n {
        if ie == a {
            return None;
        }
        frac = 0;
    } else {
        if v[ie] != 46 {
            return None;
        }
        let fe = scan_digits_end(v, ie + 1);
        proof {
            lemma_digits_end(v@, ie + 1);
        }
        if fe != n {
            return None;
        }
        if ie == a && n == ie + 1 {
            return None;
        }
        frac = parse_frac(v, ie + 1, n);
    }
    proof {
        lemma_pow10_mono((ie - a) as nat, 13);
        assert(pow10(13) == 10000000000000) by {
            reveal_with_fuel(pow10, 14);
        }
    }
    Some(Price { neg, micro: int_val * 1000000 + frac })
}

/// Ten raised to `n`, for `n` up to six.
pub fn pow10_exec(n: u64) -> (r: u64)
    requires
        n <= 6,
    ensures
        r == pow10(n as nat),
{
    proof {
        reveal_with_fuel(pow10, 7);
    }
    if n == 0 {
        1
    } else if n == 1 {
        10
    } else if n == 2 {
        100
    } else if n == 3 {
        1000
    } else if n == 4 {
        10000
    } else if n == 5 {
        100000
    } else {
        1000000
    }
}

/// Decimal digits of `n`, most significant first, with no leading zeros
/// (a single `0` for zero).
pub open spec fn dec_digits(n: nat) -> Seq<u8>
    decreases n,
{
    if n < 10 {
        seq![(48 + n) as u8]
    } else {
        dec_digits(n / 10) + seq![(48 + n % 10) as u8]
    }
}

/// Six decimal digits of `f`, most significant first, zero-padded;
/// `f` is below one million.
pub open spec fn frac6_digits(f: int) -> Seq<u8> {
    seq![
        (48 + f / 100000 % 10) as u8,
        (48 + f / 10000 % 10) as u8,
        (48 + f / 1000 % 10) as u8,
        (48 + f / 100 % 10) as u8,
        (48 + f / 10 % 10) as u8,
        (48 + f % 10) as u8,
    ]
}

/// The bytes a price prints as: sign, integer part, `.`, and exactly six
/// fractional digits.
pub open spec fn price_bytes(p: Price) -> Seq<u8> {
    let sign: Seq<u8> = if p.neg {
        seq![45u8]
    } else {
        Seq::<u8>::empty()
    };
    sign + dec_digits((p.micro / 1000000) as nat) + seq![46u8] + frac6_digits(
        (p.micro % 1000000) as int,
    )
}

/// Formats `n` in decimal with no leading zeros.
pub fn fmt_u64(n: u64) -> (r: Vec<u8>)
    ensures
        r@ == dec_digits(n as nat),
    decreases n,
{
    if n < 10 {
        let mut r: Vec<u8> = Vec::new();
        r.push(48 + n as u8);
        proof {
            assert(r@ =~= dec_digits(n as nat));
        }
        r
    } else {
        let mut r = fmt_u64(n / 10);
        r.push(48 + (n % 10) as u8);
        proof {
            assert(r@ =~= dec_digits(n as nat));
        }
        r
    }
}

/// Formats a price as its sign, integer part, and six fractional digits.
pub fn fmt_price(p: &Price) -> (r: Vec<u8>)
    ensures
        r@ == price_bytes(*p),
{
    let mut r: Vec<u8> = Vec::new();
    if p.neg {
        r.push(45);
    }
    let mut whole = fmt_u64(p.micro / 1000000);
    r.append(&mut whole);
    r.push(46);
    let f = p.micro % 1000000;
    r.push(48 + (f / 100000 % 10) as u8);
    r.push(48 + (f / 10000 % 10) as u8);
    r.push(48 + (f / 1000 % 10) as u8);
    r.push(48 + (f / 100 % 10) as u8);
    r.push(48 + (f / 10 % 10) as u8);
    r.push(48 + (f % 10) as u8);
    proof {
        assert(r@ =~= price_bytes(*p));
    }
    r
}

/// Rescaling to milli-units: one thousandth of the price, in micro-units,
/// rounded half-up.
pub open spec fn milli_micro(m: u64) -> u64 {
    if m % 1000 >= 500 {
        (m / 1000 + 1) as u64
    } else {
        (m / 1000) as u64
    }
}

/// Divides a price by one thousand, rounding half-up; the sign is kept.
pub open spec fn milli_of(p: Price) -> Price {
    Price { neg: p.neg, micro: milli_micro(p.micro) }
}

/// Law: rescaling keeps the sign, and the rescaled price is the old price
/// divided by one thousand — exactly whenever the old micro-unit count is
/// a multiple of one thousand, and otherwise to within half a micro-unit
/// of the true quotient.
pub proof fn lemma_milli_conversion(p: Price)
    ensures
        milli_of(p).neg == p.neg,
        p.micro % 1000 == 0 ==> 1000 * milli_of(p).micro == p.micro,
        -500 <= 1000 * (milli_of(p).micro as int) - p.micro <= 500,
{
}

pub fn to_milli(p: &Price) -> (r: Price)
    ensures
        r == milli_of(*p),
{
    let q = p.micro / 1000;
    let rem = p.micro % 1000;
    Price { neg: p.neg, micro: if rem >= 500 {
        q + 1
    } else {
        q
    } }
}

} // verus!
