//! Calendar dates without a time component.  A date is a year, month and
//! day, valid under the usual Gregorian rules (leap years included).
//! Parsing takes the first whitespace-delimited token of a field — the
//! upstream feed sometimes appends a time of day, which is discarded — and
//! reads it against the dashed year-month-day pattern; formatting emits
//! month/day/four-digit-year with leading zeros and slash separators.
use vstd::prelude::*;

use crate::scan::digits_end;
use crate::scan::digits_val;
use crate::scan::lemma_digits_end;
use crate::scan::lemma_digits_val_bound;
use crate::scan::lemma_nonspace_end;
use crate::scan::lemma_space_end;
use crate::scan::nonspace_end;
use crate::scan::parse_digits;
use crate::scan::pow10;
use crate::scan::scan_digits_end;
use crate::scan::scan_nonspace_end;
use crate::scan::scan_space_end;
use crate::scan::space_end;

verus! {

/// A calendar date; well-formed values satisfy `wf`.
#[derive(Clone, Copy, Debug, PartialEq, Eq, Structural)]
pub struct Date {
    pub year: u32,
    pub month: u32,
    pub day: u32,
}

pub open spec fn is_leap_year(y: int) -> bool {
    y % 4 == 0 && (y % 100 != 0 || y % 400 == 0)
}

pub open spec fn days_in_month(y: int, m: int) -> int {
    if m == 2 {
        if is_leap_year(y) {
            29
        } else {
            28
        }
    } else if m == 4 || m == 6 || m == 9 || m == 11 {
        30
    } else {
        31
    }
}

/// A valid Gregorian date with a four-digit year.
pub open spec fn valid_date(y: int, m: int, d: int) -> bool {
    &&& 0 <= y <= 9999
    &&& 1 <= m <= 12
    &&& 1 <= d <= days_in_month(y, m)
}

impl Date {
    pub open spec fn wf(self) -> bool {
        valid_date(self.year as int, self.month as int, self.day as int)
    }
}

/// `s` is a dashed year-month-day token: one to four year digits, a dash,
/// one or two month digits, a dash, one or two day digits, nothing after,
/// and the three values form a valid date.
pub open spec fn date_token_wf(s: Seq<u8>) -> bool {
    let ye = digits_end(s, 0);
    let me = digits_end(s, ye + 1);
    let de = digits_end(s, me + 1);
    &&& 1 <= ye <= 4
    &&& ye < s.len() && s[ye] == 45
    &&& 1 <= me - (ye + 1) <= 2
    &&& me < s.len() && s[me] == 45
    &&& de == s.len()
    &&& 1 <= de - (me + 1) <= 2
    &&& valid_date(
        digits_val(s, 0, ye),
        digits_val(s, ye + 1, me),
        digits_val(s, me + 1, de),
    )
}

/// The date a well-formed token denotes.
pub open spec fn date_of_token(s: Seq<u8>) -> Date {
    let ye = digits_end(s, 0);
    let me = digits_end(s, ye + 1);
    let de = digits_end(s, me + 1);
    Date {
        year: digits_val(s, 0, ye) as u32,
        month: digits_val(s, ye + 1, me) as u32,
        day: digits_val(s, me + 1, de) as u32,
    }
}

/// The first whitespace-delimited token of `s` (after leading whitespace),
/// as a subrange.
pub open spec fn token_of(s: Seq<u8>) -> Seq<u8> {
    s.subrange(space_end(s, 0), nonspace_end(s, space_end(s, 0)))
}

/// A date field is well-formed when it holds a token and that token is a
/// well-formed date token.
pub open spec fn date_field_wf(s: Seq<u8>) -> bool {
    &&& space_end(s, 0) < s.len()
    &&& date_token_wf(token_of(s))
}

pub open spec fn date_of_field(s: Seq<u8>) -> Date {
    date_of_token(token_of(s))
}

pub proof fn lemma_date_of_field_wf(s: Seq<u8>)
    requires
        date_field_wf(s),
    ensures
        date_of_field(s).wf(),
{
    let t = token_of(s);
    let ye = digits_end(t, 0);
    let me = digits_end(t, ye + 1);
    let de = digits_end(t, me + 1);
    lemma_digits_end(t, 0);
    lemma_digits_end(t, ye + 1);
    lemma_digits_end(t, me + 1);
    lemma_digits_val_bound(t, 0, ye);
    lemma_digits_val_bound(t, ye + 1, me);
    lemma_digits_val_bound(t, me + 1, de);
}

pub fn valid_date_exec(y: u32, m: u32, d: u32) -> (r: bool)
    ensures
        r == valid_date(y as int, m as int, d as int),
{
    let leap = y % 4 == 0 && (y % 100 != 0 || y % 400 == 0);
    let dim: u32 = if m == 2 {
        if leap {
            29
        } else {
            28
        }
    } else if m == 4 || m == 6 || m == 9 || m == 11 {
        30
    } else {
        31
    };
    y <= 9999 && 1 <= m && m <= 12 && 1 <= d && d <= dim
}

/// Parses a date field: skips leading whitespace, takes the token up to the
/// next whitespace, and reads it as a dashed year-month-day date.  Returns
/// the date exactly when the field is well-formed (`date_field_wf`).
pub fn parse_date(v: &Vec<u8>) -> (r: Option<Date>)
    ensures
        r == (if date_field_wf(v@) {
            Some(date_of_field(v@))
        } else {
            None::<Date>
        }),
{
    let ts = scan_space_end(v, 0);
    if ts == v.len() {
        return None;
    }
    let te = scan_nonspace_end(v, ts);
    proof {
        lemma_space_end(v@, 0);
        lemma_nonspace_end(v@, ts as int);
    }
    let t = crate::scan::copy_range(v, ts, te);
    let n = t.len();
    let ye = scan_digits_end(&t, 0);
    proof {
        lemma_digits_end(t@, 0);
    }
    if ye < 1 || ye > 4 {
        return None;
    }
    if ye == n || t[ye] != 45 {
        return None;
    }
    let me = scan_digits_end(&t, ye + 1);
    proof {
        lemma_digits_end(t@, ye + 1);
    }
    if me - (ye + 1) < 1 || me - (ye + 1) > 2 {
        return None;
    }
    if me == n || t[me] != 45 {
        return None;
    }
    let de = scan_digits_end(&t, me + 1);
    proof {
        lemma_digits_end(t@, me + 1);
    }
    if de != n {
        return None;
    }
    if de - (me + 1) < 1 || de - (me + 1) > 2 {
        return None;
    }
    proof {
        lemma_digits_val_bound(t@, 0, ye as int);
        lemma_digits_val_bound(t@, ye + 1, me as int);
        lemma_digits_val_bound(t@, me + 1, de as int);
        crate::scan::lemma_pow10_mono(ye as nat, 4);
        crate::scan::lemma_pow10_mono((me - (ye + 1)) as nat, 2);
        crate::scan::lemma_pow10_mono((de - (me + 1)) as nat, 2);
        assert(pow10(4) == 10000) by {
            reveal_with_fuel(pow10, 5);
        }
        assert(pow10(2) == 100) by {
            reveal_with_fuel(pow10, 3);
        }
        assert(pow10(1) == 10) by {
            reveal_with_fuel(pow10, 2);
        }
    }
    let y = parse_digits(&t, 0, ye) as u32;
    let m = parse_digits(&t, ye + 1, me) as u32;
    let d = parse_digits(&t, me + 1, de) as u32;
    if !valid_date_exec(y, m, d) {
        return None;
    }
    Some(Date { year: y, month: m, day: d })
}

/// The bytes a date prints as: two month digits, `/`, two day digits, `/`,
/// four year digits.
pub open spec fn date_bytes(dt: Date) -> Seq<u8> {
    seq![
        (48 + dt.month / 10 % 10) as u8,
        (48 + dt.month % 10) as u8,
        47u8,
        (48 + dt.day / 10 % 10) as u8,
        (48 + dt.day % 10) as u8,
        47u8,
        (48 + dt.year / 1000 % 10) as u8,
        (48 + dt.year / 100 % 10) as u8,
        (48 + dt.year / 10 % 10) as u8,
        (48 + dt.year % 10) as u8,
    ]
}

/// Formats a date as month/day/four-digit-year with leading zeros.
pub fn fmt_date(dt: &Date) -> (r: Vec<u8>)
    requires
        dt.wf(),
    ensures
        r@ == date_bytes(*dt),
{
    let mut r: Vec<u8> = Vec::new();
    r.push(48 + (dt.month / 10 % 10) as u8);
    r.push(48 + (dt.month % 10) as u8);
    r.push(47);
    r.push(48 + (dt.day / 10 % 10) as u8);
    r.push(48 + (dt.day % 10) as u8);
    r.push(47);
    r.push(48 + (dt.year / 1000 % 10) as u8);
    r.push(48 + (dt.year / 100 % 10) as u8);
    r.push(48 + (dt.year / 10 % 10) as u8);
    r.push(48 + (dt.year % 10) as u8);
    proof {
        assert(r@ =~= date_bytes(*dt));
    }
    r
}

} // verus!
