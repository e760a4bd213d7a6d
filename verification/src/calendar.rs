//! Civil dates of the proleptic Gregorian calendar, counted from 1970-01-01.

use vstd::arithmetic::div_mod::{lemma_fundamental_div_mod, lemma_fundamental_div_mod_converse};
use vstd::arithmetic::power2::{lemma2_to64_rest, lemma_pow2_pos, pow2};
use vstd::prelude::*;

use crate::double::Double;
use crate::quotient::{law_days_are_exact, DAY};
use crate::text::{
    decimal, decimal_of, decimal_value, law_padded_numerals_read_back, pad_left, push_padded_left,
};

verus! {

/// Whether year `y` has a 29th of February.
pub open spec fn is_leap(y: int) -> bool {
    y % 4 == 0 && (y % 100 != 0 || y % 400 == 0)
}

/// The number of days of year `y`.
pub open spec fn year_length(y: int) -> int {
    if is_leap(y) {
        366
    } else {
        365
    }
}

/// The number of days of month `m` of year `y`.
pub open spec fn month_length(y: int, m: int) -> int {
    if m == 2 {
        if is_leap(y) {
            29
        } else {
            28
        }
    } else if m == 4 || m == 6 || m == 9 || m == 11 {
        30
    } else {
        31
    }
}

/// The days from 1970-01-01 to the first day of year `y`, for `y >= 1970`.
pub open spec fn days_before_year(y: int) -> int
    decreases y - 1970,
{
    if y <= 1970 {
        0
    } else {
        days_before_year(y - 1) + year_length(y - 1)
    }
}

/// The days of year `y` that precede month `m`.
pub open spec fn days_before_month(y: int, m: int) -> int
    decreases m,
{
    if m <= 1 {
        0
    } else {
        days_before_month(y, m - 1) + month_length(y, m - 1)
    }
}

/// A calendar date: year, month (1 to 12) and day of the month (from 1).
pub struct Date {
    pub year: i64,
    pub month: i64,
    pub day: i64,
}

impl Date {
    /// Whether this is a day that exists, in 1970 or later.
    pub open spec fn valid(self) -> bool {
        &&& self.year >= 1970
        &&& 1 <= self.month <= 12
        &&& 1 <= self.day <= month_length(self.year as int, self.month as int)
    }

    /// The days from 1970-01-01 to this date.
    pub open spec fn number(self) -> int {
        days_before_year(self.year as int) + days_before_month(self.year as int, self.month as int)
            + self.day - 1
    }
}

/// The leap days of the years 1 to `y`.
spec fn leaps(y: int) -> int {
    y / 4 - y / 100 + y / 400
}

proof fn lemma_leaps_step(y: int)
    requires
        y >= 1,
    ensures
        leaps(y) - leaps(y - 1) == if is_leap(y) {
            1int
        } else {
            0
        },
{
}

proof fn lemma_days_before_year(y: int)
    requires
        y >= 1970,
    ensures
        days_before_year(y) == 365 * (y - 1970) + leaps(y - 1) - 477,
    decreases y,
{
    if y > 1970 {
        lemma_days_before_year(y - 1);
        lemma_leaps_step(y - 1);
    }
}

proof fn lemma_days_before_month(y: int, m: int)
    requires
        1 <= m <= 12,
    ensures
        m == 1 ==> days_before_month(y, m) == 0,
        m == 2 ==> days_before_month(y, m) == 31,
        m >= 3 ==> days_before_month(y, m) == 59 + (if is_leap(y) {
            1int
        } else {
            0
        }) + (153 * (m - 3) + 2) / 5,
{
    reveal_with_fuel(days_before_month, 13);
}

/// The year of the 400-year era that holds its day `doe`, with years that
/// start on 1 March.
proof fn lemma_year_of_era(doe: int, yoe: int)
    requires
        0 <= doe < 146097,
        yoe == (doe - doe / 1460 + doe / 36524 - doe / 146096) / 365,
    ensures
        0 <= yoe < 400,
        0 <= doe - (365 * yoe + yoe / 4 - yoe / 100) <= 365,
        doe - (365 * yoe + yoe / 4 - yoe / 100) == 365 ==> is_leap(yoe + 1),
{
}

/// Month and day of the day `doy` of a year that starts on 1 March.
proof fn lemma_month_of_year(doy: int, mp: int, day: int)
    requires
        0 <= doy <= 365,
        mp == (5 * doy + 2) / 153,
        day == doy - (153 * mp + 2) / 5 + 1,
    ensures
        0 <= mp <= 11,
        1 <= day <= 31,
        (mp == 1 || mp == 3 || mp == 6 || mp == 8) ==> day <= 30,
        mp == 11 ==> day <= 29 && (day == 29 <==> doy == 365),
{
}

/// Whole eras hold 97 leap days each.
proof fn lemma_leaps_of_era(yoe: int, era: int)
    ensures
        leaps(yoe + era * 400) == leaps(yoe) + 97 * era,
        is_leap(yoe + era * 400 + 1) == is_leap(yoe + 1),
{
    lemma_whole_parts(yoe, era * 100, 4);
    lemma_whole_parts(yoe, era * 4, 100);
    lemma_whole_parts(yoe, era, 400);
    lemma_whole_parts(yoe + 1, era * 100, 4);
    lemma_whole_parts(yoe + 1, era * 4, 100);
    lemma_whole_parts(yoe + 1, era, 400);
}

proof fn lemma_whole_parts(a: int, k: int, d: int)
    requires
        d > 0,
    ensures
        (a + k * d) / d == a / d + k,
        (a + k * d) % d == a % d,
{
    lemma_fundamental_div_mod(a, d);
    assert(a + k * d == (a / d + k) * d + a % d) by (nonlinear_arith)
        requires
            a == d * (a / d) + a % d,
    ;
    lemma_fundamental_div_mod_converse(a + k * d, d, a / d + k, a % d);
}

/// A date given by its place in an era of years that start on 1 March.
proof fn lemma_date_of_era(era: int, yoe: int, doy: int, mp: int, date: Date)
    requires
        0 <= yoe < 400,
        0 <= doy <= 365,
        doy == 365 ==> is_leap(yoe + 1),
        mp == (5 * doy + 2) / 153,
        era * 146_097 + 365 * yoe + yoe / 4 - yoe / 100 + doy >= 719_468,
        date.day == doy - (153 * mp + 2) / 5 + 1,
        date.month == if mp < 10 {
            mp + 3
        } else {
            mp - 9
        },
        date.year == yoe + era * 400 + if mp < 10 {
            0int
        } else {
            1
        },
    ensures
        date.valid(),
        date.number() == era * 146_097 + 365 * yoe + yoe / 4 - yoe / 100 + doy - 719_468,
{
    let y = yoe + era * 400;
    lemma_month_of_year(doy, mp, date.day as int);
    lemma_leaps_of_era(yoe, era);
    assert(leaps(yoe) == yoe / 4 - yoe / 100);
    assert(365 * y + leaps(y) == era * 146_097 + 365 * yoe + yoe / 4 - yoe / 100);
    assert(y >= 1969) by {
        if y <= 1968 {
            assert(leaps(y) <= leaps(1968)) by {
                assert(y / 4 - y / 100 + y / 400 <= 477 + (y - 1968));
            }
        }
    }
    assert(y == 1969 ==> mp >= 10);
    lemma_leaps_step(y);
    lemma_days_before_year(date.year as int);
    lemma_days_before_month(date.year as int, date.month as int);
}

/// The date `days` days after 1970-01-01, by counting whole 400-year eras of
/// years that start on 1 March.
pub fn date_of_day(days: i64) -> (date: Date)
    requires
        0 <= days <= i64::MAX - 719_468,
    ensures
        date.valid(),
        date.number() == days,
{
    let z: i64 = days + 719_468;
    let era: i64 = z / 146_097;
    let doe: i64 = z - era * 146_097;
    let yoe: i64 = (doe - doe / 1460 + doe / 36_524 - doe / 146_096) / 365;
    proof {
        lemma_year_of_era(doe as int, yoe as int);
    }
    let y: i64 = yoe + era * 400;
    let doy: i64 = doe - (365 * yoe + yoe / 4 - yoe / 100);
    let mp: i64 = (5 * doy + 2) / 153;
    proof {
        lemma_month_of_year(doy as int, mp as int, doy - (153 * mp + 2) / 5 + 1);
    }
    let day: i64 = doy - (153 * mp + 2) / 5 + 1;
    let month: i64 = if mp < 10 {
        mp + 3
    } else {
        mp - 9
    };
    let year: i64 = if month <= 2 {
        y + 1
    } else {
        y
    };
    let date = Date { year, month, day };
    proof {
        lemma_date_of_era(era as int, yoe as int, doy as int, mp as int, date);
    }
    date
}

/// Later dates have larger day numbers.
proof fn lemma_number_increases(a: Date, b: Date)
    requires
        a.valid(),
        b.valid(),
        a.year < b.year || a.year == b.year && (a.month < b.month || a.month == b.month && a.day
            < b.day),
    ensures
        a.number() < b.number(),
{
    lemma_days_before_year(a.year as int);
    lemma_days_before_year(b.year as int);
    lemma_days_before_month(a.year as int, a.month as int);
    lemma_days_before_month(b.year as int, b.month as int);
    lemma_leaps_step(a.year as int);
}

/// A day has one date: two dates that lie equally many days after 1970-01-01
/// are the same date.
pub proof fn law_one_date_per_day(a: Date, b: Date)
    requires
        a.valid(),
        b.valid(),
        a.number() == b.number(),
    ensures
        a == b,
{
    if a.year < b.year || a.year == b.year && (a.month < b.month || a.month == b.month && a.day
        < b.day) {
        lemma_number_increases(a, b);
    } else if a != b {
        lemma_number_increases(b, a);
    }
}

/// The date `n` days after 1970-01-01.
pub open spec fn date_on(n: int) -> Date {
    choose|date: Date| #[trigger] date.valid() && date.number() == n
}

/// `date` as `YYYY-MM-DD`.
pub open spec fn date_text(date: Date) -> Seq<char> {
    pad_left(decimal(date.year as nat), '0', 4) + "-"@ + pad_left(
        decimal(date.month as nat),
        '0',
        2,
    ) + "-"@ + pad_left(decimal(date.day as nat), '0', 2)
}

/// Whether the calendar reaches the time `secs`, in seconds since 1970-01-01.
pub open spec fn in_calendar(secs: Double) -> bool {
    secs.is_positive_number() ==> secs.days() <= i64::MAX - 719_468
}

/// The day of the time `secs`, in seconds since 1970-01-01: a dash for a time
/// that is not a finite number above zero.
pub open spec fn day_text(secs: Double) -> Seq<char> {
    if secs.is_positive_number() {
        date_text(date_on(secs.days()))
    } else {
        "—"@
    }
}

/// Whether the calendar reaches the time `secs`.
pub fn has_day(secs: &Double) -> (r: bool)
    ensures
        r == in_calendar(*secs),
{
    !secs.positive_number() || secs.whole_days() <= i64::MAX - 719_468
}

/// `YYYY-MM-DD` from unix seconds; a dash where there is no such day.
pub fn fmt_day(secs: &Double) -> (r: String)
    requires
        in_calendar(*secs),
    ensures
        r@ == day_text(*secs),
        secs.is_positive_number() ==> exists|date: Date|
            #[trigger] date.valid() && date.number() == secs.days() && r@ == date_text(date),
        !secs.is_positive_number() ==> r@ == "—"@,
{
    if !secs.positive_number() {
        return "—".to_owned();
    }
    let days: i64 = secs.whole_days();
    let date = date_of_day(days);
    proof {
        law_one_date_per_day(date, date_on(days as int));
    }
    let mut out = String::new();
    push_padded_left(&mut out, decimal_of(date.year as u64).as_str(), '0', 4);
    out.append("-");
    push_padded_left(&mut out, decimal_of(date.month as u64).as_str(), '0', 2);
    out.append("-");
    push_padded_left(&mut out, decimal_of(date.day as u64).as_str(), '0', 2);
    assert(out@ =~= date_text(date));
    out
}

/// The second of the day in which `secs` seconds since 1970-01-01 fall; times
/// before that count as its first second.
pub open spec fn second_of_day(secs: Double) -> int {
    secs.whole() % 86_400
}

/// The time of day of `secs` as `HH:MM:SSZ`.
pub open spec fn clock_text(secs: Double) -> Seq<char> {
    let s = second_of_day(secs);
    pad_left(decimal((s / 3600) as nat), '0', 2) + ":"@ + pad_left(
        decimal((s % 3600 / 60) as nat),
        '0',
        2,
    ) + ":"@ + pad_left(decimal((s % 60) as nat), '0', 2) + "Z"@
}

/// `HH:MM:SSZ` (UTC) from unix seconds.
pub fn fmt_clock(secs: &Double) -> (r: String)
    ensures
        r@ == clock_text(*secs),
{
    let s: u64 = secs.whole_part() % 86_400;
    let mut out = String::new();
    push_padded_left(&mut out, decimal_of(s / 3600).as_str(), '0', 2);
    out.append(":");
    push_padded_left(&mut out, decimal_of(s % 3600 / 60).as_str(), '0', 2);
    out.append(":");
    push_padded_left(&mut out, decimal_of(s % 60).as_str(), '0', 2);
    out.append("Z");
    assert(out@ =~= clock_text(*secs));
    out
}

// Laws ------------------------------------------------------------------

/// Days follow each other as in the calendar: within a month, from the last
/// day of a month to the first of the next, and from the last day of December
/// to the first of January. The count starts with the first day of 1970.
pub proof fn law_days_follow_each_other(a: Date, b: Date)
    requires
        a.valid(),
        b.valid(),
        a.year < i64::MAX,
    ensures
        a.number() == 0 ==> a.year == 1970 && a.month == 1 && a.day == 1,
        b.number() == a.number() + 1 ==> {
            let last: int = match a.month {
                2 => if a.year % 4 == 0 && (a.year % 100 != 0 || a.year % 400 == 0) {
                    29
                } else {
                    28
                },
                4 | 6 | 9 | 11 => 30,
                _ => 31,
            };
            if a.day < last {
                b.year == a.year && b.month == a.month && b.day == a.day + 1
            } else if a.month < 12 {
                b.year == a.year && b.month == a.month + 1 && b.day == 1
            } else {
                b.year == a.year + 1 && b.month == 1 && b.day == 1
            }
        },
{
    let first = Date { year: 1970, month: 1, day: 1 };
    assert(days_before_month(1970, 1) == 0);
    if a.number() == 0 {
        law_one_date_per_day(a, first);
    }
    if b.number() == a.number() + 1 {
        let c = if a.day < month_length(a.year as int, a.month as int) {
            Date { day: (a.day + 1) as i64, ..a }
        } else if a.month < 12 {
            Date { month: (a.month + 1) as i64, day: 1, ..a }
        } else {
            Date { year: (a.year + 1) as i64, month: 1, day: 1 }
        };
        assert(c.number() == a.number() + 1) by {
            if a.month == 12 {
                lemma_days_before_month(a.year as int, 12);
                assert(days_before_month(a.year + 1, 1) == 0);
            }
        }
        law_one_date_per_day(b, c);
    }
}

/// A date is written as its year in at least four digits, its month and its
/// day in two each, with hyphens between.
pub proof fn law_dates_read_back(date: Date)
    requires
        date.valid(),
    ensures
        ({
            let t = date_text(date);
            let n = t.len() as int;
            &&& n >= 10
            &&& decimal_value(t.take(n - 6)) == date.year
            &&& t[n - 6] == '-'
            &&& decimal_value(t.subrange(n - 5, n - 3)) == date.month
            &&& t[n - 3] == '-'
            &&& decimal_value(t.skip(n - 2)) == date.day
        }),
{
    let t = date_text(date);
    let n = t.len() as int;
    law_padded_numerals_read_back(date.year as nat, 4);
    law_padded_numerals_read_back(date.month as nat, 2);
    law_padded_numerals_read_back(date.day as nat, 2);
    reveal_strlit("-");
    assert(t.take(n - 6) =~= pad_left(decimal(date.year as nat), '0', 4));
    assert(t.subrange(n - 5, n - 3) =~= pad_left(decimal(date.month as nat), '0', 2));
    assert(t.skip(n - 2) =~= pad_left(decimal(date.day as nat), '0', 2));
}

/// A clock shows hours, minutes and seconds in two digits each, with colons
/// between and a Z behind, and these are the seconds since midnight.
pub proof fn law_clocks_read_back(secs: Double)
    ensures
        ({
            let t = clock_text(secs);
            let (h, m, s) = (
                decimal_value(t.subrange(0, 2)),
                decimal_value(t.subrange(3, 5)),
                decimal_value(t.subrange(6, 8)),
            );
            &&& t.len() == 9
            &&& t[2] == ':' && t[5] == ':' && t[8] == 'Z'
            &&& m < 60 && s < 60 && h < 24
            &&& h * 3600 + m * 60 + s == secs.whole() % 86_400
        }),
{
    let t = clock_text(secs);
    let s = secs.whole() % 86_400;
    law_padded_numerals_read_back((s / 3600) as nat, 2);
    law_padded_numerals_read_back((s % 3600 / 60) as nat, 2);
    law_padded_numerals_read_back((s % 60) as nat, 2);
    reveal_strlit(":");
    reveal_strlit("Z");
    assert(t.subrange(0, 2) =~= pad_left(decimal((s / 3600) as nat), '0', 2));
    assert(t.subrange(3, 5) =~= pad_left(decimal((s % 3600 / 60) as nat), '0', 2));
    assert(t.subrange(6, 8) =~= pad_left(decimal((s % 60) as nat), '0', 2));
}

/// The calendar reaches every time that has no day, and every time below 2^60
/// seconds.
pub proof fn law_the_calendar_reaches_far(secs: Double)
    ensures
        !secs.is_positive_number() ==> in_calendar(secs),
        secs.value() < pow2(60) * pow2(1074) ==> in_calendar(secs),
{
    if secs.is_positive_number() && secs.value() < pow2(60) * pow2(1074) {
        law_days_are_exact(secs);
        lemma_pow2_pos(1074);
        lemma2_to64_rest();
        let p = pow2(1074) as int;
        let q = secs.days();
        assert(q <= pow2(60)) by (nonlinear_arith)
            requires
                q * (DAY * p) <= secs.value(),
                secs.value() < pow2(60) * p,
                DAY == 86_400,
                p > 0,
        ;
    }
}

} // verus!
