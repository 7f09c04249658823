//! Moments in time as dates and times of day in UTC.
use vstd::prelude::*;

use crate::number::{fits, lemma_zero_filled_order, zero_filled, zero_filled_i64};
use crate::text::{lemma_before_behind, lemma_before_irreflexive, text_before};

verus! {

/// A leap year of the Gregorian calendar.
pub open spec fn is_leap(year: int) -> bool {
    year % 4 == 0 && (year % 100 != 0 || year % 400 == 0)
}

/// How many days a month has.
pub open spec fn days_in_month(year: int, month: int) -> int {
    if month == 2 {
        if is_leap(year) {
            29
        } else {
            28
        }
    } else if month == 4 || month == 6 || month == 9 || month == 11 {
        30
    } else {
        31
    }
}

/// How many days of a year come before a month.
pub open spec fn month_start(year: int, month: int) -> int
    decreases month,
{
    if month <= 1 {
        0
    } else {
        month_start(year, month - 1) + days_in_month(year, month - 1)
    }
}

/// How many leap years there are from the year one on, up to a year.
pub open spec fn leaps(year: int) -> int {
    year / 4 - year / 100 + year / 400
}

/// The day on which a year starts, counted from the start of 1970.
pub open spec fn year_start(year: int) -> int {
    365 * (year - 1970) + leaps(year - 1) - leaps(1969)
}

/// A day, counted from the start of 1970.
pub open spec fn day_number(year: int, month: int, day: int) -> int {
    year_start(year) + month_start(year, month) + day - 1
}

/// A date of the calendar.
pub open spec fn is_date(year: int, month: int, day: int) -> bool {
    1 <= month <= 12 && 1 <= day <= days_in_month(year, month)
}

/// Years follow each other without a gap: each starts as many days after the one
/// before as that one has.
pub proof fn law_years_follow(year: int)
    ensures
        year_start(1970) == 0,
        year_start(year + 1) == year_start(year) + (if is_leap(year) {
            366int
        } else {
            365
        }),
        month_start(year, 13) == (if is_leap(year) {
            366int
        } else {
            365
        }),
{
    lemma_leaps(year);
    lemma_month_starts(year);
}

proof fn lemma_leaps(year: int)
    ensures
        leaps(year) == leaps(year - 1) + (if is_leap(year) {
            1int
        } else {
            0
        }),
{
    let a = year / 4;
    let b = year / 100;
    let c = year / 400;
    assert((year - 1) / 4 == if year % 4 == 0 {
        a - 1
    } else {
        a
    });
    assert((year - 1) / 100 == if year % 100 == 0 {
        b - 1
    } else {
        b
    });
    assert((year - 1) / 400 == if year % 400 == 0 {
        c - 1
    } else {
        c
    });
    assert(year % 400 == 0 ==> year % 100 == 0);
    assert(year % 100 == 0 ==> year % 4 == 0);
}

proof fn lemma_month_starts(year: int)
    ensures
        ({
            let leap = if is_leap(year) {
                1int
            } else {
                0
            };
            &&& month_start(year, 1) == 0
            &&& month_start(year, 2) == 31
            &&& month_start(year, 3) == 59 + leap
            &&& month_start(year, 4) == 90 + leap
            &&& month_start(year, 5) == 120 + leap
            &&& month_start(year, 6) == 151 + leap
            &&& month_start(year, 7) == 181 + leap
            &&& month_start(year, 8) == 212 + leap
            &&& month_start(year, 9) == 243 + leap
            &&& month_start(year, 10) == 273 + leap
            &&& month_start(year, 11) == 304 + leap
            &&& month_start(year, 12) == 334 + leap
            &&& month_start(year, 13) == 365 + leap
        }),
{
    reveal_with_fuel(month_start, 14);
}

/// The days of the first `y` years of an era of 400 years that start in March.
spec fn era_days(y: int) -> int {
    365 * y + y / 4 - y / 100
}

/// The year of an era in which a day of it lies.
proof fn lemma_year_of_era(doe: int)
    requires
        0 <= doe <= 146096,
    ensures
        ({
            let yoe = (doe - doe / 1460 + doe / 36524 - doe / 146096) / 365;
            &&& 0 <= yoe <= 399
            &&& era_days(yoe) <= doe
            &&& yoe < 399 ==> doe < era_days(yoe + 1)
        }),
{
    let a = doe / 1460;
    let b = doe / 36524;
    let c = doe / 146096;
    let yoe = (doe - a + b - c) / 365;
    assert(0 <= b <= 4);
    assert(0 <= c <= 1);
    assert(1460 * a <= doe < 1460 * a + 1460);
    assert(36524 * b <= doe < 36524 * b + 36524);
    assert(146096 * c <= doe < 146096 * c + 146096);
    let q = yoe / 4;
    let h = yoe / 100;
    assert(4 * q <= yoe < 4 * q + 4);
    assert(100 * h <= yoe < 100 * h + 100);
    assert(365 * yoe <= doe - a + b - c < 365 * yoe + 365);
}

/// How far into a year that starts in March a day can be: its last day is there
/// only where February has it.
proof fn lemma_day_of_year(era: int, doe: int, yoe: int)
    requires
        0 <= doe <= 146096,
        0 <= yoe <= 399,
        era_days(yoe) <= doe,
        yoe < 399 ==> doe < era_days(yoe + 1),
    ensures
        0 <= doe - era_days(yoe) <= 365,
        doe - era_days(yoe) == 365 ==> is_leap(yoe + 1 + era * 400),
        leaps(yoe + era * 400) == yoe / 4 - yoe / 100 + 97 * era,
{
    let y = yoe + 1 + era * 400;
    assert(y % 400 == (yoe + 1) % 400);
    assert(y % 100 == (yoe + 1) % 100);
    assert(y % 4 == (yoe + 1) % 4);
    let m = yoe + era * 400;
    assert(m / 4 == yoe / 4 + 100 * era);
    assert(m / 100 == yoe / 100 + 4 * era);
    assert(m / 400 == era);
}

/// The month and the day of a day of a year that starts in March.
proof fn lemma_month_of_year(doy: int)
    requires
        0 <= doy <= 365,
    ensures
        ({
            let mp = (5 * doy + 2) / 153;
            let start = (153 * mp + 2) / 5;
            &&& 0 <= mp <= 11
            &&& start <= doy
            &&& mp == 0 ==> start == 0 && doy < 31
            &&& mp == 1 ==> start == 31 && doy < 61
            &&& mp == 2 ==> start == 61 && doy < 92
            &&& mp == 3 ==> start == 92 && doy < 122
            &&& mp == 4 ==> start == 122 && doy < 153
            &&& mp == 5 ==> start == 153 && doy < 184
            &&& mp == 6 ==> start == 184 && doy < 214
            &&& mp == 7 ==> start == 214 && doy < 245
            &&& mp == 8 ==> start == 245 && doy < 275
            &&& mp == 9 ==> start == 275 && doy < 306
            &&& mp == 10 ==> start == 306 && doy < 337
            &&& mp == 11 ==> start == 337
        }),
{
}

/// The date that a day of a year that starts in March has.
proof fn lemma_civil(march_year: int, doy: int)
    requires
        0 <= doy <= 365,
        doy == 365 ==> is_leap(march_year + 1),
    ensures
        ({
            let mp = (5 * doy + 2) / 153;
            let day = doy - (153 * mp + 2) / 5 + 1;
            let month = if mp < 10 {
                mp + 3
            } else {
                mp - 9
            };
            let year = if month <= 2 {
                march_year + 1
            } else {
                march_year
            };
            &&& is_date(year, month, day)
            &&& day_number(year, month, day) == 365 * march_year + leaps(march_year) + doy - 719468
        }),
{
    lemma_month_of_year(doy);
    lemma_month_starts(march_year);
    lemma_month_starts(march_year + 1);
    lemma_leaps(march_year);
}

/// The date of a day that is counted from the start of 1970.
pub fn civil_from_days(z: i64) -> (r: (i64, u32, u32))
    requires
        z <= i64::MAX - 719468,
    ensures
        is_date(r.0 as int, r.1 as int, r.2 as int),
        day_number(r.0 as int, r.1 as int, r.2 as int) == z,
{
    let shifted: i64 = z + 719468;
    let (era, doe) = floor_div(shifted, 146097);
    let yoe: i64 = (doe - doe / 1460 + doe / 36524 - doe / 146096) / 365;
    proof {
        lemma_year_of_era(doe as int);
        lemma_day_of_year(era as int, doe as int, yoe as int);
        vstd::arithmetic::div_mod::lemma_fundamental_div_mod(shifted as int, 146097);
    }
    let march_year: i64 = yoe + era * 400;
    let doy: i64 = doe - (365 * yoe + yoe / 4 - yoe / 100);
    proof {
        assert(doy == doe - era_days(yoe as int));
        lemma_month_of_year(doy as int);
        lemma_civil(march_year as int, doy as int);
        assert(365 * march_year + leaps(march_year as int) + doy == shifted);
    }
    let mp: i64 = (5 * doy + 2) / 153;
    let day: i64 = doy - (153 * mp + 2) / 5 + 1;
    let month: i64 = if mp < 10 {
        mp + 3
    } else {
        mp - 9
    };
    let year: i64 = if month <= 2 {
        march_year + 1
    } else {
        march_year
    };
    (year, month as u32, day as u32)
}

/// Divides with a remainder that is not negative.
fn floor_div(a: i64, b: i64) -> (r: (i64, i64))
    requires
        0 < b <= 0x1_0000_0000,
    ensures
        r.0 == a as int / b as int,
        r.1 == a as int % b as int,
        0 <= r.1 < b,
{
    if a >= 0 {
        (a / b, a % b)
    } else {
        let n: i64 = -(a + 1);
        let q: i64 = n / b;
        let m: i64 = n % b;
        proof {
            let ai = a as int;
            let bi = b as int;
            assert(n == bi * q + m) by {
                vstd::arithmetic::div_mod::lemma_fundamental_div_mod(n as int, bi);
            }
            assert(ai == bi * (-q - 1) + (bi - 1 - m)) by (nonlinear_arith)
                requires
                    ai == -n - 1,
                    n == bi * q + m,
            ;
            vstd::arithmetic::div_mod::lemma_fundamental_div_mod_converse(
                ai,
                bi,
                -q - 1,
                bi - 1 - m,
            );
        }
        (-q - 1, b - 1 - m)
    }
}

/// A moment as a date and a time of day.
#[derive(Debug, Clone, Copy, PartialEq, Eq)]
pub struct Moment {
    pub year: i64,
    pub month: u32,
    pub day: u32,
    pub hour: i64,
    pub minute: i64,
    pub second: i64,
    pub milli: i64,
}

impl Moment {
    /// A date with a time of day.
    pub open spec fn is_valid(self) -> bool {
        &&& is_date(self.year as int, self.month as int, self.day as int)
        &&& 0 <= self.hour < 24
        &&& 0 <= self.minute < 60
        &&& 0 <= self.second < 60
        &&& 0 <= self.milli < 1000
    }

    /// The milliseconds since the start of 1970.
    pub open spec fn since_epoch(self) -> int {
        (((day_number(self.year as int, self.month as int, self.day as int) * 24 + self.hour) * 60
            + self.minute) * 60 + self.second) * 1000 + self.milli
    }

    /// The moment as RFC 3339 has it.
    pub open spec fn text(self) -> Seq<char> {
        zero_filled(self.year as int, 4) + "-"@ + zero_filled(self.month as int, 2) + "-"@
            + zero_filled(self.day as int, 2) + "T"@ + zero_filled(self.hour as int, 2) + ":"@
            + zero_filled(self.minute as int, 2) + ":"@ + zero_filled(self.second as int, 2)
            + "."@ + zero_filled(self.milli as int, 3) + "Z"@
    }

    /// Writes the moment as RFC 3339 has it.
    pub fn format(&self) -> (r: String)
        ensures
            r@ == self.text(),
    {
        let mut out = zero_filled_i64(self.year, 4);
        out.append("-");
        out.append(zero_filled_i64(self.month as i64, 2).as_str());
        out.append("-");
        out.append(zero_filled_i64(self.day as i64, 2).as_str());
        out.append("T");
        out.append(zero_filled_i64(self.hour, 2).as_str());
        out.append(":");
        out.append(zero_filled_i64(self.minute, 2).as_str());
        out.append(":");
        out.append(zero_filled_i64(self.second, 2).as_str());
        out.append(".");
        out.append(zero_filled_i64(self.milli, 3).as_str());
        out.append("Z");
        out
    }
}

/// The moment a number of milliseconds after the start of 1970.
pub fn moment_of(ms: i64) -> (r: Moment)
    ensures
        r.is_valid(),
        r.since_epoch() == ms,
{
    let (secs, milli) = floor_div(ms, 1000);
    let (days, of_day) = floor_div(secs, 86400);
    let (year, month, day) = civil_from_days(days);
    let hour: i64 = of_day / 3600;
    let minute: i64 = (of_day % 3600) / 60;
    let second: i64 = of_day % 60;
    Moment { year, month, day, hour, minute, second, milli }
}

/// A count of milliseconds as far as 64 bits hold it, with a sign.
pub open spec fn low_bits(ms: int) -> int {
    let low = ms % 0x1_0000_0000_0000_0000;
    if low < 0x8000_0000_0000_0000 {
        low
    } else {
        low - 0x1_0000_0000_0000_0000
    }
}

/// Writes a moment, given in milliseconds since the start of 1970, as RFC 3339
/// has it.
pub fn format_timestamp_ms(ms: u128) -> (r: String)
    ensures
        exists|m: Moment| #[trigger] m.is_valid() && m.since_epoch() == low_bits(ms as int) && r@
            == m.text(),
{
    let low: u64 = (ms % 0x1_0000_0000_0000_0000) as u64;
    let signed: i64 = if low < 0x8000_0000_0000_0000 {
        low as i64
    } else {
        -((0xffff_ffff_ffff_ffff - low) as i64) - 1
    };
    let moment = moment_of(signed);
    let r = moment.format();
    assert(moment.is_valid() && moment.since_epoch() == low_bits(ms as int) && r@ == moment.text());
    r
}

proof fn lemma_years_rise(a: int, b: int)
    requires
        a <= b,
    ensures
        year_start(a) <= year_start(b),
    decreases b - a,
{
    if a < b {
        law_years_follow(b - 1);
        lemma_years_rise(a, b - 1);
    }
}

proof fn lemma_day_in_year(year: int, month: int, day: int)
    requires
        is_date(year, month, day),
    ensures
        year_start(year) <= day_number(year, month, day) < year_start(year + 1),
{
    lemma_month_starts(year);
    law_years_follow(year);
}

/// A day has one date: dates with the same day number are the same.
pub proof fn law_dates_are_unique(y1: int, m1: int, d1: int, y2: int, m2: int, d2: int)
    requires
        is_date(y1, m1, d1),
        is_date(y2, m2, d2),
        day_number(y1, m1, d1) == day_number(y2, m2, d2),
    ensures
        y1 == y2 && m1 == m2 && d1 == d2,
{
    lemma_day_in_year(y1, m1, d1);
    lemma_day_in_year(y2, m2, d2);
    if y1 < y2 {
        lemma_years_rise(y1 + 1, y2);
    }
    if y2 < y1 {
        lemma_years_rise(y2 + 1, y1);
    }
    lemma_month_starts(y1);
}

/// A count of milliseconds stands for one moment.
pub proof fn law_moments_are_unique(a: Moment, b: Moment)
    requires
        a.is_valid(),
        b.is_valid(),
        a.since_epoch() == b.since_epoch(),
    ensures
        a == b,
{
    let x = day_number(a.year as int, a.month as int, a.day as int);
    let y = day_number(b.year as int, b.month as int, b.day as int);
    assert(x == y && a.hour == b.hour && a.minute == b.minute && a.second == b.second && a.milli
        == b.milli);
    law_dates_are_unique(
        a.year as int,
        a.month as int,
        a.day as int,
        b.year as int,
        b.month as int,
        b.day as int,
    );
}

/// Whether a moment is before another by its year, then its month, and so on.
spec fn earlier(a: Moment, b: Moment) -> bool {
    a.year < b.year || (a.year == b.year && (a.month < b.month || (a.month == b.month && (a.day
        < b.day || (a.day == b.day && (a.hour < b.hour || (a.hour == b.hour && (a.minute < b.minute
        || (a.minute == b.minute && (a.second < b.second || (a.second == b.second && a.milli
        < b.milli)))))))))))
}

proof fn lemma_earlier(a: Moment, b: Moment)
    requires
        a.is_valid(),
        b.is_valid(),
        earlier(a, b),
    ensures
        a.since_epoch() < b.since_epoch(),
{
    let x = day_number(a.year as int, a.month as int, a.day as int);
    let y = day_number(b.year as int, b.month as int, b.day as int);
    lemma_day_in_year(a.year as int, a.month as int, a.day as int);
    lemma_day_in_year(b.year as int, b.month as int, b.day as int);
    lemma_month_starts(a.year as int);
    if a.year < b.year {
        lemma_years_rise(a.year + 1, b.year as int);
        assert(x < y);
    } else if a.month < b.month || a.day < b.day {
        assert(x < y);
    }
}

proof fn lemma_field(x: Seq<char>, y: Seq<char>, sep: Seq<char>, a: int, b: int, width: int)
    requires
        x.len() == y.len(),
        fits(a, width),
        fits(b, width),
    ensures
        ({
            let s = x + sep + zero_filled(a, width);
            let t = y + sep + zero_filled(b, width);
            &&& s.len() == t.len() == x.len() + sep.len() + width
            &&& text_before(s, t) == (text_before(x, y) || (x == y && a < b))
            &&& (s == t) == (x == y && a == b)
        }),
{
    lemma_zero_filled_order(a, b, width);
    lemma_before_irreflexive(sep);
    lemma_before_behind(x, y, sep, sep);
    lemma_before_behind(x + sep, y + sep, zero_filled(a, width), zero_filled(b, width));
}

/// Up to the year 9999 the texts of moments are of the same length, and sort as
/// the moments follow each other.
pub proof fn law_texts_sort_as_moments(a: Moment, b: Moment)
    requires
        a.is_valid(),
        b.is_valid(),
        0 <= a.year <= 9999,
        0 <= b.year <= 9999,
    ensures
        a.text().len() == 24 && b.text().len() == 24,
        text_before(a.text(), b.text()) <==> a.since_epoch() < b.since_epoch(),
{
    reveal_strlit("-");
    reveal_strlit("T");
    reveal_strlit(":");
    reveal_strlit(".");
    reveal_strlit("Z");
    reveal_with_fuel(fits, 5);
    let (x0, y0) = (zero_filled(a.year as int, 4), zero_filled(b.year as int, 4));
    lemma_zero_filled_order(a.year as int, b.year as int, 4);
    let x1 = x0 + "-"@ + zero_filled(a.month as int, 2);
    let y1 = y0 + "-"@ + zero_filled(b.month as int, 2);
    lemma_field(x0, y0, "-"@, a.month as int, b.month as int, 2);
    let x2 = x1 + "-"@ + zero_filled(a.day as int, 2);
    let y2 = y1 + "-"@ + zero_filled(b.day as int, 2);
    lemma_field(x1, y1, "-"@, a.day as int, b.day as int, 2);
    let x3 = x2 + "T"@ + zero_filled(a.hour as int, 2);
    let y3 = y2 + "T"@ + zero_filled(b.hour as int, 2);
    lemma_field(x2, y2, "T"@, a.hour as int, b.hour as int, 2);
    let x4 = x3 + ":"@ + zero_filled(a.minute as int, 2);
    let y4 = y3 + ":"@ + zero_filled(b.minute as int, 2);
    lemma_field(x3, y3, ":"@, a.minute as int, b.minute as int, 2);
    let x5 = x4 + ":"@ + zero_filled(a.second as int, 2);
    let y5 = y4 + ":"@ + zero_filled(b.second as int, 2);
    lemma_field(x4, y4, ":"@, a.second as int, b.second as int, 2);
    let x6 = x5 + "."@ + zero_filled(a.milli as int, 3);
    let y6 = y5 + "."@ + zero_filled(b.milli as int, 3);
    lemma_field(x5, y5, "."@, a.milli as int, b.milli as int, 3);
    lemma_before_behind(x6, y6, "Z"@, "Z"@);
    lemma_before_irreflexive("Z"@);
    assert(text_before(a.text(), b.text()) == earlier(a, b));
    if earlier(a, b) {
        lemma_earlier(a, b);
    } else if earlier(b, a) {
        lemma_earlier(b, a);
    } else {
        assert(a == b);
    }
}

/// The milliseconds from the start of 1970 to the end of the year 9999 lie in the
/// years 1970 to 9999.
pub proof fn law_four_digit_years(m: Moment)
    requires
        m.is_valid(),
        0 <= m.since_epoch() <= 253402300799999,
    ensures
        1970 <= m.year <= 9999,
{
    let day = day_number(m.year as int, m.month as int, m.day as int);
    lemma_day_in_year(m.year as int, m.month as int, m.day as int);
    if m.year < 1970 {
        lemma_years_rise(m.year + 1, 1970);
    }
    if m.year > 9999 {
        lemma_years_rise(10000, m.year as int);
    }
}

/// Days follow each other without a gap: the day after a date is the next one of its month,
/// or the first of the next month, or of the next year.
pub proof fn law_days_follow(year: int, month: int, day: int)
    requires
        is_date(year, month, day),
    ensures
        day < days_in_month(year, month) ==> day_number(year, month, day + 1) == day_number(
            year,
            month,
            day,
        ) + 1,
        day == days_in_month(year, month) && month < 12 ==> day_number(year, month + 1, 1)
            == day_number(year, month, day) + 1,
        day == days_in_month(year, month) && month == 12 ==> day_number(year + 1, 1, 1)
            == day_number(year, month, day) + 1,
        day_number(1970, 1, 1) == 0,
{
    law_years_follow(year);
    law_years_follow(1970);
    assert(month_start(year, 13) == month_start(year, 12) + days_in_month(year, 12));
}

/// The lengths of the months, and which years are leap years.
pub proof fn law_lengths_of_months(year: int)
    ensures
        is_leap(year) <==> year % 4 == 0 && !(year % 100 == 0 && year % 400 != 0),
        days_in_month(year, 2) == 28 || days_in_month(year, 2) == 29,
        days_in_month(year, 2) == 29 <==> is_leap(year),
        forall|m: int|
            1 <= m <= 12 && m != 2 ==> (#[trigger] days_in_month(year, m) == 30 <==> m == 4 || m == 6
                || m == 9 || m == 11),
        forall|m: int|
            1 <= m <= 12 && m != 2 ==> 30 <= #[trigger] days_in_month(year, m) <= 31,
{
}

/// The text of a moment shows its parts in their places: the date and the time of day, down
/// to the millisecond.
pub proof fn law_text_shows_the_parts(m: Moment)
    requires
        m.is_valid(),
        0 <= m.year <= 9999,
    ensures
        ({
            let s = m.text();
            &&& s.len() == 24
            &&& s.subrange(0, 4) == zero_filled(m.year as int, 4) && s[4] == '-'
            &&& s.subrange(5, 7) == zero_filled(m.month as int, 2) && s[7] == '-'
            &&& s.subrange(8, 10) == zero_filled(m.day as int, 2) && s[10] == 'T'
            &&& s.subrange(11, 13) == zero_filled(m.hour as int, 2) && s[13] == ':'
            &&& s.subrange(14, 16) == zero_filled(m.minute as int, 2) && s[16] == ':'
            &&& s.subrange(17, 19) == zero_filled(m.second as int, 2) && s[19] == '.'
            &&& s.subrange(20, 23) == zero_filled(m.milli as int, 3) && s[23] == 'Z'
        }),
{
    reveal_strlit("-");
    reveal_strlit("T");
    reveal_strlit(":");
    reveal_strlit(".");
    reveal_strlit("Z");
    reveal_with_fuel(fits, 5);
    lemma_zero_filled_order(m.year as int, m.year as int, 4);
    lemma_zero_filled_order(m.month as int, m.month as int, 2);
    lemma_zero_filled_order(m.day as int, m.day as int, 2);
    lemma_zero_filled_order(m.hour as int, m.hour as int, 2);
    lemma_zero_filled_order(m.minute as int, m.minute as int, 2);
    lemma_zero_filled_order(m.second as int, m.second as int, 2);
    lemma_zero_filled_order(m.milli as int, m.milli as int, 3);
    let s = m.text();
    assert(s.subrange(0, 4) =~= zero_filled(m.year as int, 4));
    assert(s.subrange(5, 7) =~= zero_filled(m.month as int, 2));
    assert(s.subrange(8, 10) =~= zero_filled(m.day as int, 2));
    assert(s.subrange(11, 13) =~= zero_filled(m.hour as int, 2));
    assert(s.subrange(14, 16) =~= zero_filled(m.minute as int, 2));
    assert(s.subrange(17, 19) =~= zero_filled(m.second as int, 2));
    assert(s.subrange(20, 23) =~= zero_filled(m.milli as int, 3));
}

/// A number of milliseconds that a signed number of 64 bits can hold is taken as it is; of a
/// larger one the low bits count.
pub proof fn law_moments_in_reach_are_kept(ms: int)
    requires
        ms >= 0,
    ensures
        ms <= i64::MAX ==> low_bits(ms) == ms,
        i64::MIN <= low_bits(ms) <= i64::MAX,
        low_bits(ms + 0x1_0000_0000_0000_0000) == low_bits(ms),
        low_bits(0xffff_ffff_ffff_ffff) == -1,
{
    vstd::arithmetic::div_mod::lemma_mod_add_multiples_vanish(ms, 0x1_0000_0000_0000_0000);
}

} // verus!
