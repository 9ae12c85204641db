//! Civil dates, day numbers, and the day a log line belongs to.
use vstd::arithmetic::div_mod::{lemma_fundamental_div_mod, lemma_fundamental_div_mod_converse};
use vstd::prelude::*;

verus! {

/// Leap years of the Gregorian calendar.
pub open spec fn is_leap(y: int) -> bool {
    y % 4 == 0 && (y % 100 != 0 || y % 400 == 0)
}

/// The number of days of a month.
pub open spec fn days_in_month(y: int, m: int) -> int {
    if m == 2 {
        if is_leap(y) {
            29
        } else {
            28
        }
    } else if m == 4 || m == 6 || m == 9 || m == 11 {
        30
    } else {
        31
    }
}

/// A date that the calendar has.
pub open spec fn valid_date(y: int, m: int, d: int) -> bool {
    1 <= m <= 12 && 1 <= d <= days_in_month(y, m)
}

/// The number of days of a year that come before a month.
pub open spec fn month_start(y: int, m: int) -> int
    decreases m,
{
    if m <= 1 {
        0
    } else {
        month_start(y, m - 1) + days_in_month(y, m - 1)
    }
}

/// The number of leap years from year 1 to year `y`.
pub open spec fn leap_years(y: int) -> int {
    y / 4 - y / 100 + y / 400
}

/// The number of days from 1970-01-01 to the first day of a year.
pub open spec fn year_start(y: int) -> int {
    365 * (y - 1970) + leap_years(y - 1) - leap_years(1969)
}

/// The number of days from 1970-01-01 to a date.
pub open spec fn day_number(y: int, m: int, d: int) -> int {
    year_start(y) + month_start(y, m) + d - 1
}

/// The month that a month number stands for: 0 is December of the year before,
/// 13 and 14 are January and February of the year after, and further numbers
/// repeat every twelve.
pub open spec fn month_of(m: int) -> int {
    if m == 0 {
        12
    } else if m <= 2 {
        m
    } else {
        let k = (m - 3) % 12 + 3;
        if k > 12 {
            k - 12
        } else {
            k
        }
    }
}

/// The year that a year and a month number stand for.
pub open spec fn year_of(y: int, m: int) -> int {
    if m == 0 {
        y - 1
    } else if m > 2 && (m - 3) % 12 + 3 > 12 {
        y + 1
    } else {
        y
    }
}

/// The number of days from 1970-01-01 to a date whose month number need not be
/// a month and whose day need not be a day of that month.
pub open spec fn civil_day(y: int, m: int, d: int) -> int {
    day_number(year_of(y, m), month_of(m), d)
}

/// The 400-year cycle of a date, with years taken to begin in March.
pub open spec fn cycle_of(y: int, m: int) -> int {
    (if m <= 2 {
        y - 1
    } else {
        y
    }) / 400
}

/// Whether the day number, and what it is computed from, fits in 64 bits.
pub open spec fn civil_fits(y: int, m: int, d: int) -> bool {
    &&& i64::MIN <= cycle_of(y, m) * 146097
    &&& i64::MIN <= civil_day(y, m, d)
    &&& civil_day(y, m, d) + 719468 <= i64::MAX
}

proof fn lemma_month_start_table(y: int)
    ensures
        month_start(y, 1) == 0,
        month_start(y, 2) == 31,
        ({
            let f = days_in_month(y, 2);
            &&& month_start(y, 3) == 31 + f
            &&& month_start(y, 4) == 62 + f
            &&& month_start(y, 5) == 92 + f
            &&& month_start(y, 6) == 123 + f
            &&& month_start(y, 7) == 153 + f
            &&& month_start(y, 8) == 184 + f
            &&& month_start(y, 9) == 215 + f
            &&& month_start(y, 10) == 245 + f
            &&& month_start(y, 11) == 276 + f
            &&& month_start(y, 12) == 306 + f
        }),
{
    reveal_with_fuel(month_start, 13);
}

/// A quotient grows by one exactly at the multiples.
proof fn lemma_quotient_step(y: int, k: int)
    requires
        k > 0,
    ensures
        y / k - (y - 1) / k == (if y % k == 0 {
            1int
        } else {
            0int
        }),
{
    let (q, r) = (y / k, y % k);
    lemma_fundamental_div_mod(y, k);
    if r > 0 {
        lemma_fundamental_div_mod_converse(y - 1, k, q, r - 1);
    } else {
        assert(k * (q - 1) == k * q - k) by (nonlinear_arith);
        lemma_fundamental_div_mod_converse(y - 1, k, q - 1, k - 1);
    }
}

/// What whole cycles of 400 do to quotients and remainders by their divisors.
proof fn lemma_cycle_shift(n: int, era: int, k: int, j: int)
    requires
        k > 0,
        k * j == 400,
    ensures
        (n + era * 400) % k == n % k,
        (n + era * 400) / k == n / k + j * era,
{
    lemma_fundamental_div_mod(n, k);
    let (q, r) = (n / k, n % k);
    assert(k * (q + j * era) == k * q + (k * j) * era) by (nonlinear_arith);
    lemma_fundamental_div_mod_converse(n + era * 400, k, q + j * era, r);
}

/// Leap years count up by one exactly in the leap years.
proof fn lemma_leap_years_step(y: int)
    ensures
        leap_years(y) - leap_years(y - 1) == (if is_leap(y) {
            1int
        } else {
            0int
        }),
{
    lemma_quotient_step(y, 4);
    lemma_quotient_step(y, 100);
    lemma_quotient_step(y, 400);
    assert(y % 400 == 0 ==> y % 100 == 0);
    assert(y % 100 == 0 ==> y % 4 == 0);
}

proof fn lemma_march_form(y: int, m: int, d: int)
    requires
        1 <= m <= 12,
    ensures
        ({
            let s = if m <= 2 {
                y - 1
            } else {
                y
            };
            let mp = (m + 9) % 12;
            day_number(y, m, d) == 365 * s + leap_years(s) + (153 * mp + 2) / 5 + d - 1 - 719468
        }),
{
    lemma_month_start_table(y);
    lemma_leap_years_step(y);
    if m == 1 {
    } else if m == 2 {
    } else if m == 3 {
    } else if m == 4 {
    } else if m == 5 {
    } else if m == 6 {
    } else if m == 7 {
    } else if m == 8 {
    } else if m == 9 {
    } else if m == 10 {
    } else if m == 11 {
    } else {
    }
}


proof fn lemma_cycle_split(s: int)
    ensures
        ({
            let era = s / 400;
            let yoe = s - era * 400;
            &&& 0 <= yoe <= 399
            &&& 365 * s + leap_years(s) == era * 146097 + yoe * 365 + yoe / 4 - yoe / 100
        }),
{
    let era = s / 400;
    let yoe = s - era * 400;
    lemma_fundamental_div_mod(s, 400);
    lemma_cycle_shift(yoe, era, 4, 100);
    lemma_cycle_shift(yoe, era, 100, 4);
}

/// The number of days from 1970-01-01 to a date (after Howard Hinnant).
pub fn days_from_civil(y: i64, m: u32, d: u32) -> (r: i64)
    requires
        civil_fits(y as int, m as int, d as int),
    ensures
        r == civil_day(y as int, m as int, d as int),
{
    let ghost (gy, gm, gd) = (y as int, m as int, d as int);
    let ghost s = if gm <= 2 {
        gy - 1
    } else {
        gy
    };
    proof {
        lemma_month_normal(gy, gm);
        lemma_march_form(year_of(gy, gm), month_of(gm), gd);
        lemma_cycle_split(s);
    }
    let m: i64 = m as i64;
    let d: i64 = d as i64;
    let y: i64 = if m <= 2 {
        y - 1
    } else {
        y
    };
    let era: i64 = (if y >= 0 {
        y
    } else {
        y - 399
    }) / 400;
    assert(era == s / 400);
    let yoe: i64 = y - era * 400;
    let mp: i64 = (m + 9) % 12;
    let doy: i64 = (153 * mp + 2) / 5 + d - 1;
    let doe: i64 = yoe * 365 + yoe / 4 - yoe / 100 + doy;
    era * 146097 + doe - 719468
}

proof fn lemma_month_normal(y: int, m: int)
    requires
        0 <= m,
    ensures
        1 <= month_of(m) <= 12,
        (month_of(m) + 9) % 12 == (m + 9) % 12,
        (if month_of(m) <= 2 {
            year_of(y, m) - 1
        } else {
            year_of(y, m)
        }) == (if m <= 2 {
            y - 1
        } else {
            y
        }),
{
}

/// The days of a 400-year cycle that come before its year `n`, with years taken
/// to begin in March.
spec fn cycle_days(n: int) -> int {
    365 * n + n / 4 - n / 100
}

proof fn lemma_year_of_cycle(doe: int)
    requires
        0 <= doe <= 146096,
    ensures
        ({
            let yoe = (doe - doe / 1460 + doe / 36524 - doe / 146096) / 365;
            &&& 0 <= yoe <= 399
            &&& cycle_days(yoe) <= doe
            &&& doe < cycle_days(yoe + 1) || (yoe == 399 && doe <= cycle_days(399) + 365)
        }),
{
}

/// The date of a day number.
pub open spec fn civil_of(z: int) -> (int, int, int) {
    choose|t: (int, int, int)| valid_date(t.0, t.1, t.2) && #[trigger] day_number(t.0, t.1, t.2) == z
}

/// A year has 365 days, and one more if it is a leap year.
pub proof fn law_year_length(y: int)
    ensures
        year_start(1970) == 0,
        year_start(y + 1) - year_start(y) == (if is_leap(y) {
            366int
        } else {
            365int
        }),
        month_start(y, 12) + days_in_month(y, 12) == year_start(y + 1) - year_start(y),
{
    lemma_leap_years_step(y);
    lemma_month_start_table(y);
}

proof fn lemma_year_start_grows(a: int, b: int)
    requires
        a < b,
    ensures
        year_start(a + 1) <= year_start(b),
    decreases b - a,
{
    if a + 1 < b {
        law_year_length(b - 1);
        lemma_year_start_grows(a, b - 1);
    }
}

proof fn lemma_day_in_year(y: int, m: int, d: int)
    requires
        valid_date(y, m, d),
    ensures
        year_start(y) <= day_number(y, m, d) < year_start(y + 1),
{
    lemma_month_start_table(y);
    law_year_length(y);
    if m == 1 {
    } else if m == 2 {
    } else if m == 3 {
    } else if m == 4 {
    } else if m == 5 {
    } else if m == 6 {
    } else if m == 7 {
    } else if m == 8 {
    } else if m == 9 {
    } else if m == 10 {
    } else if m == 11 {
    } else {
    }
}

proof fn lemma_month_start_grows(y: int, a: int, b: int)
    requires
        1 <= a < b <= 12,
    ensures
        month_start(y, a) + days_in_month(y, a) <= month_start(y, b),
    decreases b - a,
{
    assert(month_start(y, b) == month_start(y, b - 1) + days_in_month(y, b - 1));
    if a + 1 < b {
        lemma_month_start_grows(y, a, b - 1);
    }
}

/// Two dates of the calendar with the same day number are the same date.
pub proof fn law_day_number_injective(a: (int, int, int), b: (int, int, int))
    requires
        valid_date(a.0, a.1, a.2),
        valid_date(b.0, b.1, b.2),
        day_number(a.0, a.1, a.2) == day_number(b.0, b.1, b.2),
    ensures
        a == b,
{
    lemma_day_in_year(a.0, a.1, a.2);
    lemma_day_in_year(b.0, b.1, b.2);
    if a.0 < b.0 {
        lemma_year_start_grows(a.0, b.0);
    } else if b.0 < a.0 {
        lemma_year_start_grows(b.0, a.0);
    }
    if a.1 < b.1 {
        lemma_month_start_grows(a.0, a.1, b.1);
    } else if b.1 < a.1 {
        lemma_month_start_grows(a.0, b.1, a.1);
    }
}

/// The date of the day number of a date is that date.
pub proof fn law_civil_of_day_number(y: int, m: int, d: int)
    requires
        valid_date(y, m, d),
    ensures
        civil_of(day_number(y, m, d)) == (y, m, d),
{
    let t = (y, m, d);
    let z = day_number(y, m, d);
    assert(valid_date(t.0, t.1, t.2) && day_number(t.0, t.1, t.2) == z);
    law_day_number_injective(civil_of(z), t);
}

proof fn lemma_date_of_cycle_day(s: int, doy: int)
    requires
        0 <= doy <= 365,
        doy == 365 ==> is_leap(s + 1),
    ensures
        ({
            let mp = (5 * doy + 2) / 153;
            let d = doy - (153 * mp + 2) / 5 + 1;
            let m = if mp < 10 {
                mp + 3
            } else {
                mp - 9
            };
            let y = if m <= 2 {
                s + 1
            } else {
                s
            };
            &&& 0 <= mp <= 11
            &&& valid_date(y, m, d)
            &&& (m + 9) % 12 == mp
        }),
{
}

proof fn lemma_cycle_leap(era: int, yoe: int)
    requires
        0 <= yoe <= 399,
        yoe == 399 || cycle_days(yoe + 1) - cycle_days(yoe) == 366,
    ensures
        is_leap(yoe + era * 400 + 1),
{
    let n = yoe + 1;
    lemma_cycle_shift(n, era, 4, 100);
    lemma_cycle_shift(n, era, 100, 4);
    lemma_cycle_shift(n, era, 400, 1);
    lemma_quotient_step(n, 4);
    lemma_quotient_step(n, 100);
}

proof fn lemma_cycle_date(era: int, doe: int)
    requires
        0 <= doe <= 146096,
    ensures
        ({
            let yoe = (doe - doe / 1460 + doe / 36524 - doe / 146096) / 365;
            let s = yoe + era * 400;
            let doy = doe - (365 * yoe + yoe / 4 - yoe / 100);
            let mp = (5 * doy + 2) / 153;
            let d = doy - (153 * mp + 2) / 5 + 1;
            let m = if mp < 10 {
                mp + 3
            } else {
                mp - 9
            };
            let y = if m <= 2 {
                s + 1
            } else {
                s
            };
            &&& 0 <= yoe <= 399
            &&& 0 <= doy <= 365
            &&& 0 <= mp <= 11
            &&& valid_date(y, m, d)
            &&& day_number(y, m, d) == era * 146097 + doe - 719468
        }),
{
    lemma_year_of_cycle(doe);
    let yoe = (doe - doe / 1460 + doe / 36524 - doe / 146096) / 365;
    let s = yoe + era * 400;
    let doy = doe - cycle_days(yoe);
    assert(cycle_days(yoe + 1) - cycle_days(yoe) <= 366);
    if doy == 365 {
        lemma_cycle_leap(era, yoe);
    }
    lemma_date_of_cycle_day(s, doy);
    lemma_cycle_split(s);
    assert(s / 400 == era);
    let mp = (5 * doy + 2) / 153;
    let d = doy - (153 * mp + 2) / 5 + 1;
    let m = if mp < 10 {
        mp + 3
    } else {
        mp - 9
    };
    let y = if m <= 2 {
        s + 1
    } else {
        s
    };
    lemma_march_form(y, m, d);
}

/// The date of a day number (after Howard Hinnant).
pub fn civil_from_days(z: i64) -> (r: (i64, u32, u32))
    requires
        z + 719468 <= i64::MAX,
    ensures
        valid_date(r.0 as int, r.1 as int, r.2 as int),
        day_number(r.0 as int, r.1 as int, r.2 as int) == z,
        civil_of(z as int) == (r.0 as int, r.1 as int, r.2 as int),
{
    let z: i64 = z + 719468;
    let era: i64 = (if z >= 0 {
        z
    } else {
        z - 146096
    }) / 146097;
    let doe: i64 = z - era * 146097;
    proof {
        lemma_cycle_date(era as int, doe as int);
    }
    let yoe: i64 = (doe - doe / 1460 + doe / 36524 - doe / 146096) / 365;
    let y: i64 = yoe + era * 400;
    let doy: i64 = doe - (365 * yoe + yoe / 4 - yoe / 100);
    let mp: i64 = (5 * doy + 2) / 153;
    let d: i64 = doy - (153 * mp + 2) / 5 + 1;
    let m: i64 = if mp < 10 {
        mp + 3
    } else {
        mp - 9
    };
    let y2: i64 = if m <= 2 {
        y + 1
    } else {
        y
    };
    proof {
        law_civil_of_day_number(y2 as int, m as int, d as int);
    }
    (y2, m as u32, d as u32)
}

/// A local wall-clock time, as the system reports it; nothing is checked.
#[derive(Clone, Copy, Debug, PartialEq, Eq, Structural)]
pub struct LocalTime {
    pub year: u16,
    pub month: u16,
    pub day: u16,
    pub hour: u16,
    pub minute: u16,
    pub second: u16,
}

/// A log day: year, month, day. It begins at four in the morning.
pub type LogDay = (i64, u32, u32);

/// A log day as mathematical integers.
pub open spec fn day_ints(d: LogDay) -> (int, int, int) {
    (d.0 as int, d.1 as int, d.2 as int)
}

/// The day number of a log day.
pub open spec fn day_of(d: LogDay) -> int {
    civil_day(d.0 as int, d.1 as int, d.2 as int)
}

/// The number of the log day that a time belongs to: the hours before four
/// belong to the day before.
pub open spec fn log_day_number(t: LocalTime) -> int {
    civil_day(t.year as int, t.month as int, t.day as int) - (if t.hour < 4 {
        1int
    } else {
        0int
    })
}

/// A log day that is near enough to count with.
pub open spec fn near_day(d: LogDay) -> bool {
    valid_date(d.0 as int, d.1 as int, d.2 as int) && -1_000_000 <= day_of(d) <= 30_000_000
}

proof fn lemma_near_time(t: LocalTime)
    ensures
        civil_fits(t.year as int, t.month as int, t.day as int),
        -1_000_000 <= log_day_number(t) <= 30_000_000,
{
    let (y, m) = (t.year as int, t.month as int);
    let s = if m <= 2 {
        y - 1
    } else {
        y
    };
    lemma_month_normal(y, m);
    lemma_march_form(year_of(y, m), month_of(m), t.day as int);
    lemma_cycle_split(s);
    assert(-1 <= s / 400 <= 164);
}

/// A log day that is near fits.
pub proof fn lemma_near_day_fits(d: LogDay)
    requires
        near_day(d),
    ensures
        civil_fits(d.0 as int, d.1 as int, d.2 as int),
        day_of(d) == day_number(d.0 as int, d.1 as int, d.2 as int),
{
    let (y, m) = (d.0 as int, d.1 as int);
    let s = if m <= 2 {
        y - 1
    } else {
        y
    };
    lemma_month_normal(y, m);
    lemma_march_form(y, m, d.2 as int);
    lemma_cycle_split(s);
    assert(s / 400 >= -10);
}

/// The log day that a time belongs to.
pub fn log_day_of(t: &LocalTime) -> (r: LogDay)
    ensures
        day_ints(r) == civil_of(log_day_number(*t)),
        day_of(r) == log_day_number(*t),
        near_day(r),
        civil_fits(r.0 as int, r.1 as int, r.2 as int),
{
    proof {
        lemma_near_time(*t);
    }
    let days: i64 = days_from_civil(t.year as i64, t.month as u32, t.day as u32);
    let adjusted: i64 = if t.hour < 4 {
        days - 1
    } else {
        days
    };
    let day: LogDay = civil_from_days(adjusted);
    proof {
        lemma_near_day_fits(day);
    }
    day
}

/// From four in the morning on, a time belongs to its own date; before, to the
/// date before.
pub proof fn law_day_begins_at_four(t: LocalTime)
    requires
        valid_date(t.year as int, t.month as int, t.day as int),
    ensures
        t.hour >= 4 ==> civil_of(log_day_number(t)) == (
            t.year as int,
            t.month as int,
            t.day as int,
        ),
        t.hour < 4 && t.day > 1 ==> civil_of(log_day_number(t)) == (
            t.year as int,
            t.month as int,
            t.day - 1,
        ),
        t.hour < 4 && t.day == 1 && t.month > 1 ==> civil_of(log_day_number(t)) == (
            t.year as int,
            t.month - 1,
            days_in_month(t.year as int, t.month - 1),
        ),
        t.hour < 4 && t.day == 1 && t.month == 1 ==> civil_of(log_day_number(t)) == (
            t.year - 1,
            12int,
            31int,
        ),
{
    let (y, m, d) = (t.year as int, t.month as int, t.day as int);
    if t.hour >= 4 {
        law_civil_of_day_number(y, m, d);
    } else if d > 1 {
        law_civil_of_day_number(y, m, d - 1);
    } else if m > 1 {
        law_civil_of_day_number(y, m - 1, days_in_month(y, m - 1));
    } else {
        law_year_length(y - 1);
        law_civil_of_day_number(y - 1, 12, 31);
    }
}

/// Whether two log days are the same.
pub fn same_day(a: LogDay, b: LogDay) -> (r: bool)
    ensures
        r == (a == b),
{
    a.0 == b.0 && a.1 == b.1 && a.2 == b.2
}

/// Whether the day number of a date can be computed in 64 bits.
pub fn day_number_fits(y: i64, m: u32, d: u32) -> (r: bool)
    ensures
        r == civil_fits(y as int, m as int, d as int),
{
    let ghost (gy, gm, gd) = (y as int, m as int, d as int);
    let s: i128 = if m <= 2 {
        y as i128 - 1
    } else {
        y as i128
    };
    proof {
        lemma_month_normal(gy, gm);
        lemma_march_form(year_of(gy, gm), month_of(gm), gd);
        lemma_cycle_split(s as int);
    }
    let era: i128 = (if s >= 0 {
        s
    } else {
        s - 399
    }) / 400;
    assert(era == s as int / 400);
    let yoe: i128 = s - era * 400;
    let mp: i128 = (m as i128 + 9) % 12;
    let doe: i128 = yoe * 365 + yoe / 4 - yoe / 100 + (153 * mp + 2) / 5 + d as i128 - 1;
    let first: i128 = era * 146097;
    let shifted: i128 = first + doe;
    let lowest: i128 = i64::MIN as i128;
    let highest: i128 = i64::MAX as i128;
    lowest <= first && lowest <= shifted - 719468 && shifted <= highest
}

/// Days are counted from the first of January 1970, day 0, one after another, over
/// the ends of months and of years.
pub proof fn law_days_are_counted(y: int, m: int, d: int)
    ensures
        civil_day(1970, 1, 1) == 0,
        0 <= m ==> civil_day(y, m, d + 1) == civil_day(y, m, d) + 1,
        1 <= m < 12 ==> civil_day(y, m + 1, 1) == civil_day(y, m, days_in_month(y, m)) + 1,
        civil_day(y + 1, 1, 1) == civil_day(y, 12, 31) + 1,
        1 <= m <= 12 ==> civil_day(y, m, d) == day_number(y, m, d),
{
    law_year_length(1969);
    law_year_length(y);
    lemma_month_start_table(y);
    lemma_month_start_table(1970);
    lemma_month_start_table(y + 1);
    reveal_with_fuel(month_start, 2);
}

/// A month number that is no month: 0 is December of the year before, 13 and 14 are
/// January and February of the year after, and beyond they repeat.
pub proof fn law_other_month_numbers(y: int, m: int, d: int)
    ensures
        civil_day(y, 0, d) == civil_day(y - 1, 12, d),
        13 <= m <= 14 ==> civil_day(y, m, d) == civil_day(y + 1, m - 12, d),
        m >= 15 ==> civil_day(y, m, d) == civil_day(y, m - 12, d),
{
    if m >= 15 {
        assert((m - 3) % 12 == (m - 12 - 3) % 12);
    }
}

/// The lengths of the months, and the leap years: every fourth, but of the full
/// centuries only every fourth.
pub proof fn law_month_lengths(y: int)
    ensures
        days_in_month(y, 1) == 31,
        days_in_month(y, 2) == (if y % 400 == 0 {
            29int
        } else if y % 100 == 0 {
            28
        } else if y % 4 == 0 {
            29
        } else {
            28
        }),
        days_in_month(y, 3) == 31,
        days_in_month(y, 4) == 30,
        days_in_month(y, 5) == 31,
        days_in_month(y, 6) == 30,
        days_in_month(y, 7) == 31,
        days_in_month(y, 8) == 31,
        days_in_month(y, 9) == 30,
        days_in_month(y, 10) == 31,
        days_in_month(y, 11) == 30,
        days_in_month(y, 12) == 31,
{
}

/// A log day holds its three numbers, and has their day number.
pub proof fn law_log_day_holds(d: LogDay)
    ensures
        day_ints(d) == (d.0 as int, d.1 as int, d.2 as int),
        day_of(d) == civil_day(d.0 as int, d.1 as int, d.2 as int),
{
}

/// A time from midnight to four belongs to the log day before, every other time to
/// that of its date, whatever its minutes and seconds.
pub proof fn law_log_day_of_a_time(t: LocalTime)
    ensures
        log_day_number(t) == civil_day(t.year as int, t.month as int, t.day as int) - (if t.hour
            <= 3 {
            1int
        } else {
            0int
        }),
{
}

} // verus!
