//! Proleptic Gregorian calendar arithmetic for the billing-start fallback:
//! midnight at the first day of a calendar month, as milliseconds since the
//! Unix epoch (the wall-clock numbers read as UTC).

use vstd::prelude::*;

verus! {

/// Milliseconds in one day.
pub const MS_PER_DAY: i64 = 86_400_000;

/// Gregorian leap-year rule.
pub open spec fn is_leap_year(y: int) -> bool {
    y % 4 == 0 && (y % 100 != 0 || y % 400 == 0)
}

/// Days in a calendar year.
pub open spec fn days_in_year(y: int) -> int {
    if is_leap_year(y) {
        366
    } else {
        365
    }
}

/// Days in one calendar month (1 = January .. 12 = December).
pub open spec fn days_in_month(y: int, m: int) -> int {
    if m == 2 {
        if is_leap_year(y) { 29 } else { 28 }
    } else if m == 4 || m == 6 || m == 9 || m == 11 {
        30
    } else {
        31
    }
}

/// Days from 1970-01-01 to the first day of year `y` (negative before 1970).
pub open spec fn days_before_year(y: int) -> int
    decreases (if y >= 1970 { y - 1970 } else { 1970 - y }),
{
    if y == 1970 {
        0
    } else if y > 1970 {
        days_before_year(y - 1) + days_in_year(y - 1)
    } else {
        days_before_year(y + 1) - days_in_year(y)
    }
}

/// Days from the first of January of `y` to the first of month `m`.
pub open spec fn days_before_month(y: int, m: int) -> int
    decreases m,
{
    if m <= 1 {
        0
    } else {
        days_before_month(y, m - 1) + days_in_month(y, m - 1)
    }
}

/// Midnight at the first day of month `m` of year `y`, in milliseconds
/// since the Unix epoch.
pub open spec fn month_start_millis(y: int, m: int) -> int {
    (days_before_year(y) + days_before_month(y, m)) * (MS_PER_DAY as int)
}

/// Years this module accepts; generous enough for any date the time
/// library can report.
pub open spec fn year_in_range(y: int) -> bool {
    -400_000 <= y <= 400_000
}

/// The day count grows by 365 to 366 days per elapsed year in either
/// direction from 1970.
proof fn lemma_days_before_year_bound(y: int)
    ensures
        y >= 1970 ==> 365 * (y - 1970) <= days_before_year(y) <= 366 * (y - 1970),
        y < 1970 ==> -366 * (1970 - y) <= days_before_year(y) <= -365 * (1970 - y),
    decreases (if y >= 1970 { y - 1970 } else { 1970 - y }),
{
    if y > 1970 {
        lemma_days_before_year_bound(y - 1);
        assert(365 * (y - 1970) == 365 * (y - 1 - 1970) + 365) by (nonlinear_arith);
        assert(366 * (y - 1970) == 366 * (y - 1 - 1970) + 366) by (nonlinear_arith);
    } else if y < 1970 {
        lemma_days_before_year_bound(y + 1);
        assert(366 * (1970 - y) == 366 * (1970 - y - 1) + 366) by (nonlinear_arith);
        assert(365 * (1970 - y) == 365 * (1970 - y - 1) + 365) by (nonlinear_arith);
    }
}

fn divisible_exec(y: i32, d: i32) -> (r: bool)
    requires
        2 <= d <= 400,
    ensures
        r == ((y as int) % (d as int) == 0),
{
    let mag: i64 = if y >= 0 {
        y as i64
    } else {
        -(y as i64)
    };
    let a: u64 = mag as u64;
    let rem: u64 = a % (d as u64);
    proof {
        if y < 0 {
            lemma_divisibility_sign(y as int, d as int);
        }
    }
    rem == 0
}

/// Divisibility does not depend on the sign of the dividend.
proof fn lemma_divisibility_sign(x: int, d: int)
    requires
        d > 0,
    ensures
        ((-x) % d == 0) == (x % d == 0),
{
    let q = x / d;
    let r = x % d;
    vstd::arithmetic::div_mod::lemma_fundamental_div_mod(x, d);
    assert(x == q * d + r);
    if r == 0 {
        assert(-x == (-q) * d + 0) by (nonlinear_arith)
            requires
                x == q * d,
        ;
        vstd::arithmetic::div_mod::lemma_fundamental_div_mod_converse(-x, d, -q, 0);
    } else {
        assert(-x == (-q - 1) * d + (d - r)) by (nonlinear_arith)
            requires
                x == q * d + r,
        ;
        vstd::arithmetic::div_mod::lemma_fundamental_div_mod_converse(-x, d, -q - 1, d - r);
    }
}

fn is_leap_year_exec(y: i32) -> (r: bool)
    ensures
        r == is_leap_year(y as int),
{
    divisible_exec(y, 4) && (!divisible_exec(y, 100) || divisible_exec(y, 400))
}

fn days_in_year_exec(y: i32) -> (r: i64)
    ensures
        r == days_in_year(y as int),
{
    if is_leap_year_exec(y) {
        366
    } else {
        365
    }
}

fn days_before_year_exec(year: i32) -> (r: i64)
    requires
        year_in_range(year as int),
    ensures
        r == days_before_year(year as int),
        -402_000 * 366 <= r <= 400_000 * 366,
{
    proof {
        lemma_days_before_year_bound(year as int);
    }
    let mut days: i64 = 0;
    if year >= 1970 {
        let mut y: i32 = 1970;
        while y < year
            invariant
                1970 <= y <= year <= 400_000,
                days == days_before_year(y as int),
                0 <= days <= 400_000 * 366,
            decreases year - y,
        {
            proof {
                lemma_days_before_year_bound(y as int + 1);
            }
            days = days + days_in_year_exec(y);
            y = y + 1;
        }
    } else {
        let mut y: i32 = 1970;
        while y > year
            invariant
                -400_000 <= year <= y <= 1970,
                days == days_before_year(y as int),
                -402_000 * 366 <= days <= 0,
            decreases y - year,
        {
            proof {
                lemma_days_before_year_bound(y as int - 1);
            }
            days = days - days_in_year_exec(y - 1);
            y = y - 1;
        }
    }
    days
}

/// Midnight (00:00:00) at the first day of the given month, as absolute
/// milliseconds since the Unix epoch, the wall-clock fields read as UTC.
pub fn month_start_ms(year: i32, month: u8) -> (r: i64)
    requires
        1 <= month <= 12,
        year_in_range(year as int),
    ensures
        r == month_start_millis(year as int, month as int),
{
    let mut days: i64 = days_before_year_exec(year);
    let mut m: u8 = 1;
    while m < month
        invariant
            1 <= m <= month <= 12,
            days == days_before_year(year as int) + days_before_month(year as int, m as int),
            -402_000 * 366 <= days <= 400_000 * 366 + 31 * (m as int - 1),
        decreases month - m,
    {
        let dm: i64 = if m == 2 {
            if is_leap_year_exec(year) { 29 } else { 28 }
        } else if m == 4 || m == 6 || m == 9 || m == 11 {
            30
        } else {
            31
        };
        assert(dm == days_in_month(year as int, m as int));
        days = days + dm;
        m = m + 1;
    }
    days * MS_PER_DAY
}

} // verus!
