//! Dates: from seconds since the start of 1970 to the calendar, in UTC.
use vstd::prelude::*;
use vstd::string::*;

use crate::text::{dec_text, padded, push_dec_padded};

verus! {

/// The last day whose year fits in 32 bits, counted from the start of 1970.
pub const LAST_DAY: u64 = 784_351_576_776;

/// A date and a time of day.
pub struct Civil {
    pub year: i32,
    pub month: u8,
    pub day: u8,
    pub hour: u8,
    pub minute: u8,
    pub second: u8,
}

/// The date in a tuple of year, month, day, hour, minute, second.
pub open spec fn civil(t: (i32, u8, u8, u8, u8, u8)) -> Civil {
    Civil { year: t.0, month: t.1, day: t.2, hour: t.3, minute: t.4, second: t.5 }
}

/// Whether a year has a 29th of February.
pub open spec fn is_leap(y: int) -> bool {
    y % 4 == 0 && (y % 100 != 0 || y % 400 == 0)
}

/// The days of a month.
pub open spec fn days_in_month(y: int, m: int) -> int {
    if m == 2 {
        if is_leap(y) {
            29
        } else {
            28
        }
    } else if m == 4 || m == 6 || m == 9 || m == 11 {
        30
    } else {
        31
    }
}

/// The days of a year before a month.
pub open spec fn days_before_month(y: int, m: int) -> int
    decreases m,
{
    if m <= 1 {
        0
    } else {
        days_before_month(y, m - 1) + days_in_month(y, m - 1)
    }
}

/// The days from the start of year 1 to the start of year `y`.
pub open spec fn days_before_year(y: int) -> int {
    365 * (y - 1) + (y - 1) / 4 - (y - 1) / 100 + (y - 1) / 400
}

/// The days from the start of 1970 to a date.
pub open spec fn days_to(y: int, m: int, d: int) -> int {
    days_before_year(y) - days_before_year(1970) + days_before_month(y, m) + d - 1
}

/// Whether a date and a time of day exist.
pub open spec fn valid_civil(c: Civil) -> bool {
    &&& 1 <= c.month <= 12
    &&& 1 <= c.day <= days_in_month(c.year as int, c.month as int)
    &&& c.hour < 24
    &&& c.minute < 60
    &&& c.second < 60
}

/// The seconds from the start of 1970 to a date and a time of day.
pub open spec fn seconds_to(c: Civil) -> int {
    days_to(c.year as int, c.month as int, c.day as int) * 86_400 + c.hour * 3600 + c.minute * 60
        + c.second
}

proof fn lemma_before_month(y: int)
    ensures
        days_before_month(y, 1) == 0,
        days_before_month(y, 2) == 31,
        days_before_month(y, 3) == 31 + days_in_month(y, 2),
        days_before_month(y, 4) == 62 + days_in_month(y, 2),
        days_before_month(y, 5) == 92 + days_in_month(y, 2),
        days_before_month(y, 6) == 123 + days_in_month(y, 2),
        days_before_month(y, 7) == 153 + days_in_month(y, 2),
        days_before_month(y, 8) == 184 + days_in_month(y, 2),
        days_before_month(y, 9) == 215 + days_in_month(y, 2),
        days_before_month(y, 10) == 245 + days_in_month(y, 2),
        days_before_month(y, 11) == 276 + days_in_month(y, 2),
        days_before_month(y, 12) == 306 + days_in_month(y, 2),
{
    reveal_with_fuel(days_before_month, 13);
}

/// The length of a year.
#[verifier::spinoff_prover]
proof fn lemma_year_length(y: int)
    ensures
        days_before_year(y + 1) == days_before_year(y) + 365 + (if is_leap(y) {
            1int
        } else {
            0
        }),
{
    lemma_div_step(y, 4);
    lemma_div_step(y, 100);
    lemma_div_step(y, 400);
    lemma_multiple(y, 100, 4);
    lemma_multiple(y, 4, 25);
}

/// A multiple of a product is one of each factor.
proof fn lemma_multiple(y: int, k: int, j: int)
    requires
        k > 0,
        j > 0,
    ensures
        y % (k * j) == 0 ==> y % k == 0,
{
    if y % (k * j) == 0 {
        let q = y / (k * j);
        assert(k * j > 0) by (nonlinear_arith)
            requires
                k > 0,
                j > 0,
        ;
        vstd::arithmetic::div_mod::lemma_fundamental_div_mod(y, k * j);
        assert(y == (q * j) * k) by (nonlinear_arith)
            requires
                y == (k * j) * q,
        ;
        vstd::arithmetic::div_mod::lemma_fundamental_div_mod_converse(y, k, q * j, 0);
    }
}

/// How a quotient grows by one step.
proof fn lemma_div_step(y: int, k: int)
    requires
        k > 0,
    ensures
        y / k - (y - 1) / k == (if y % k == 0 {
            1int
        } else {
            0
        }),
{
    vstd::arithmetic::div_mod::lemma_fundamental_div_mod(y, k);
    vstd::arithmetic::div_mod::lemma_fundamental_div_mod(y - 1, k);
    let q = y / k;
    if y % k == 0 {
        assert((q - 1) * k + (k - 1) == y - 1) by (nonlinear_arith)
            requires
                y == k * q,
        ;
        vstd::arithmetic::div_mod::lemma_fundamental_div_mod_converse(y - 1, k, q - 1, k - 1);
    } else {
        assert(q * k + (y % k - 1) == y - 1) by (nonlinear_arith)
            requires
                y == k * q + y % k,
        ;
        vstd::arithmetic::div_mod::lemma_fundamental_div_mod_converse(y - 1, k, q, y % k - 1);
    }
}

/// A day of a cycle of 400 years that begins on a first of March: centuries,
/// groups of four years, years, days.
proof fn lemma_cycle(era: int, c: int, q: int, a: int, doy: int)
    requires
        0 <= era,
        0 <= c <= 3,
        0 <= q <= 24,
        0 <= a <= 3,
        doy == 365 ==> a == 3 && (q < 24 || c == 3),
    ensures
        ({
            let y = 400 * era + 100 * c + 4 * q + a;
            &&& 146_097 * era + 36_524 * c + 1461 * q + 365 * a + doy == days_before_year(y + 1)
                + doy
            &&& doy == 365 ==> is_leap(y + 1)
        }),
{
    let y = 400 * era + 100 * c + 4 * q + a;
    assert(y / 4 == 100 * era + 25 * c + q);
    assert(y / 100 == 4 * era + c);
    assert(y / 400 == era);
}

/// From a day of a year that begins in March to a date.
proof fn lemma_march_year(y: int, doy: int, mp: int, d: int)
    requires
        0 <= doy <= 365,
        doy == 365 ==> is_leap(y + 1),
        mp == (5 * doy + 2) / 153,
        d == doy - (153 * mp + 2) / 5 + 1,
    ensures
        0 <= mp <= 11,
        ({
            let m = if mp < 10 {
                mp + 3
            } else {
                mp - 9
            };
            let year = if m <= 2 {
                y + 1
            } else {
                y
            };
            &&& 1 <= d <= days_in_month(year, m)
            &&& days_before_year(year) + days_before_month(year, m) + d - 1 == days_before_year(
                y + 1,
            ) + doy - 306
        }),
{
    lemma_year_length(y);
    lemma_before_month(y);
    lemma_before_month(y + 1);
    if mp == 0 {
    } else if mp == 1 {
    } else if mp == 2 {
    } else if mp == 3 {
    } else if mp == 4 {
    } else if mp == 5 {
    } else if mp == 6 {
    } else if mp == 7 {
    } else if mp == 8 {
    } else if mp == 9 {
    } else if mp == 10 {
    } else {
        assert(mp == 11);
    }
}

/// The date that lies a number of days after the start of 1970.
fn date_of_days(days: u64) -> (r: (i32, u8, u8))
    requires
        days <= LAST_DAY,
    ensures
        1 <= r.1 <= 12,
        1 <= r.2 <= days_in_month(r.0 as int, r.1 as int),
        days_to(r.0 as int, r.1 as int, r.2 as int) == days,
{
    let z: u64 = days + 719_468;
    let era: u64 = z / 146_097;
    let doe: u64 = z % 146_097;
    let c: u64 = if doe / 36_524 < 4 {
        doe / 36_524
    } else {
        3
    };
    let r: u64 = doe - 36_524 * c;
    let q: u64 = r / 1461;
    let r2: u64 = r % 1461;
    let a: u64 = if r2 / 365 < 4 {
        r2 / 365
    } else {
        3
    };
    let doy: u64 = r2 - 365 * a;
    let mp: u64 = (5 * doy + 2) / 153;
    assert(0 <= doy <= 365);
    assert(q <= 24);
    let march_year: u64 = 400 * era + 100 * c + 4 * q + a;
    proof {
        lemma_cycle(era as int, c as int, q as int, a as int, doy as int);
        lemma_march_year(
            march_year as int,
            doy as int,
            mp as int,
            doy - (153 * mp + 2) / 5 + 1,
        );
    }
    let day: u8 = (doy - (153 * mp + 2) / 5 + 1) as u8;
    let month: u8 = if mp < 10 {
        (mp + 3) as u8
    } else {
        (mp - 9) as u8
    };
    let year: u64 = if month <= 2 {
        march_year + 1
    } else {
        march_year
    };
    proof {
        lemma_year_bound(year as int, month as int, day as int, days as int);
    }
    (year as i32, month, day)
}

/// The date and the time of day of a moment, given in seconds since the start
/// of 1970. The year has to fit in 32 bits.
pub fn civil_from_unix(unix_secs: u64) -> (r: (i32, u8, u8, u8, u8, u8))
    requires
        unix_secs / 86_400 <= LAST_DAY,
    ensures
        valid_civil(civil(r)),
        seconds_to(civil(r)) == unix_secs,
{
    let (year, month, day) = date_of_days(unix_secs / 86_400);
    let sod: u64 = unix_secs % 86_400;
    let hour: u8 = (sod / 3600) as u8;
    let minute: u8 = ((sod % 3600) / 60) as u8;
    let second: u8 = (sod % 60) as u8;
    (year, month, day, hour, minute, second)
}

proof fn lemma_year_bound(y: int, m: int, d: int, days: int)
    requires
        1 <= m <= 12,
        1 <= d <= days_in_month(y, m),
        0 <= y,
        days == days_to(y, m, d),
        days <= LAST_DAY,
    ensures
        y <= 0x7FFF_FFFF,
{
    lemma_before_month(y);
    if y > 0x7FFF_FFFF {
        let a = y - 1;
        assert(a >= 0x7FFF_FFFF);
        assert(365 * a + a / 4 - a / 100 + a / 400 >= 784_352_295_939);
    }
}

/// A moment as text: `2000-01-01T00:00:00Z`.
pub open spec fn rfc3339_text(c: Civil) -> Seq<char> {
    padded(dec_text(c.year as nat), 4, '0') + "-"@ + padded(dec_text(c.month as nat), 2, '0')
        + "-"@ + padded(dec_text(c.day as nat), 2, '0') + "T"@ + padded(
        dec_text(c.hour as nat),
        2,
        '0',
    ) + ":"@ + padded(dec_text(c.minute as nat), 2, '0') + ":"@ + padded(
        dec_text(c.second as nat),
        2,
        '0',
    ) + "Z"@
}

/// A moment as text, from seconds since the start of 1970.
pub fn rfc3339(unix_secs: u64) -> (r: String)
    requires
        unix_secs / 86_400 <= LAST_DAY,
    ensures
        exists|c: Civil|
            valid_civil(c) && seconds_to(c) == unix_secs && r@ == #[trigger] rfc3339_text(c),
{
    let (year, month, day, hour, minute, second) = civil_from_unix(unix_secs);
    let ghost c = Civil { year, month, day, hour, minute, second };
    let mut s = String::new();
    proof {
        lemma_year_positive(c);
    }
    push_dec_padded(&mut s, year as u64, 4, '0');
    s.append("-");
    push_dec_padded(&mut s, month as u64, 2, '0');
    s.append("-");
    push_dec_padded(&mut s, day as u64, 2, '0');
    s.append("T");
    push_dec_padded(&mut s, hour as u64, 2, '0');
    s.append(":");
    push_dec_padded(&mut s, minute as u64, 2, '0');
    s.append(":");
    push_dec_padded(&mut s, second as u64, 2, '0');
    s.append("Z");
    assert(s@ =~= rfc3339_text(c));
    s
}

proof fn lemma_year_positive(c: Civil)
    requires
        valid_civil(c),
        seconds_to(c) >= 0,
    ensures
        c.year >= 1970,
{
    lemma_before_month(c.year as int);
    let y = c.year as int;
    if y < 1970 {
        let a = y - 1;
        assert(365 * a + a / 4 - a / 100 + a / 400 <= 719_162 - 365);
        assert(days_to(y, c.month as int, c.day as int) < 0);
    }
}

/// A moment has one date and one time of day.
pub proof fn lemma_civil_unique(a: Civil, b: Civil)
    requires
        valid_civil(a),
        valid_civil(b),
        seconds_to(a) == seconds_to(b),
    ensures
        a == b,
{
    let ya = a.year as int;
    let yb = b.year as int;
    lemma_before_month(ya);
    lemma_before_month(yb);
    lemma_years_ordered(ya, yb);
    lemma_years_ordered(yb, ya);
    assert(days_to(ya, a.month as int, a.day as int) == days_to(yb, b.month as int, b.day as int));
    lemma_day_in_year(ya, a.month as int, a.day as int);
    lemma_day_in_year(yb, b.month as int, b.day as int);
    assert(ya == yb);
    assert(a.month == b.month);
}

proof fn lemma_day_in_year(y: int, m: int, d: int)
    requires
        1 <= m <= 12,
        1 <= d <= days_in_month(y, m),
    ensures
        days_before_year(y) <= days_before_year(y) + days_before_month(y, m) + d - 1
            < days_before_year(y + 1),
{
    lemma_before_month(y);
    lemma_year_length(y);
}

/// Later years begin later.
proof fn lemma_years_ordered(a: int, b: int)
    ensures
        a < b ==> days_before_year(a + 1) <= days_before_year(b),
{
    if a < b {
        let n = b - 1 - a;
        assert(a / 4 <= (b - 1) / 4);
        assert((b - 1) / 100 - a / 100 <= n);
        assert(a / 400 <= (b - 1) / 400);
    }
}

} // verus!
