//! Proleptic Gregorian calendar dates.

use vstd::prelude::*;

verus! {

/// Whether `year` is a leap year in the proleptic Gregorian calendar.
pub open spec fn leap(year: int) -> bool {
    year % 4 == 0 && (year % 100 != 0 || year % 400 == 0)
}

/// Days in `year`: 366 in a leap year, 365 otherwise.
pub open spec fn year_length(year: int) -> int {
    if leap(year) { 366 } else { 365 }
}

/// Days from 1970-01-01 to January 1st of `year`, counted year by year.
pub open spec fn days_before_year(year: int) -> int
    decreases (if year >= 1970 { year - 1970 } else { 1970 - year }),
{
    if year == 1970 {
        0
    } else if year > 1970 {
        days_before_year(year - 1) + year_length(year - 1)
    } else {
        days_before_year(year + 1) - year_length(year)
    }
}

/// Leap years counted by the 4/100/400 rule, up to (not including) `year`.
pub open spec fn leap_count_before(year: int) -> int {
    (year - 1) / 4 - (year - 1) / 100 + (year - 1) / 400
}

/// The closed form counts `y` exactly when `y` is a leap year.
#[verifier::spinoff_prover]
proof fn lemma_leap_count_step(y: int)
    ensures
        leap_count_before(y + 1) - leap_count_before(y) == (if leap(y) { 1int } else { 0int }),
{
    assert(y / 4 - (y - 1) / 4 == (if y % 4 == 0 { 1int } else { 0int }));
    assert(y / 100 - (y - 1) / 100 == (if y % 100 == 0 { 1int } else { 0int }));
    assert(y / 400 - (y - 1) / 400 == (if y % 400 == 0 { 1int } else { 0int }));
    assert(y % 400 == 0 ==> y % 100 == 0);
    assert(y % 100 == 0 ==> y % 4 == 0);
}

/// The year-by-year count agrees with the 4/100/400 closed form.
pub proof fn lemma_days_before_year_closed(y: int)
    ensures
        days_before_year(y) == 365 * (y - 1970) + leap_count_before(y) - 477,
    decreases (if y >= 1970 { y - 1970 } else { 1970 - y }),
{
    if y > 1970 {
        lemma_days_before_year_closed(y - 1);
        lemma_leap_count_step(y - 1);
    } else if y < 1970 {
        lemma_days_before_year_closed(y + 1);
        lemma_leap_count_step(y);
    }
}

/// Number of days in `month` (1 to 12) of `year`; 0 for any other month.
pub open spec fn month_length(year: int, month: int) -> int {
    if month == 2 {
        if leap(year) { 29 } else { 28 }
    } else if month == 4 || month == 6 || month == 9 || month == 11 {
        30
    } else if 1 <= month <= 12 {
        31
    } else {
        0
    }
}

/// Days in the months of `year` that come before `month`.
pub open spec fn days_before_month(year: int, month: int) -> int
    decreases month,
{
    if month <= 1 {
        0
    } else {
        days_before_month(year, month - 1) + month_length(year, month - 1)
    }
}

/// Days since 1970-01-01 of the `day`-th day of `month` in `year`.
pub open spec fn epoch_day(year: int, month: int, day: int) -> int {
    days_before_year(year) + days_before_month(year, month) + day - 1
}

/// The month that a `month` field outside 1 to 12 stands for in a day count:
/// the month with the same remainder mod 12. Months 1 to 12 stand for
/// themselves.
pub open spec fn read_month(month: int) -> int {
    (month + 11) % 12 + 1
}

/// The year that a `month` field outside 1 to 12 shifts a day count into:
/// month 0 is December of the year before, and a January or February past
/// month 12 is in the year after. Months 1 to 12 stay in `year`.
pub open spec fn read_year(year: int, month: int) -> int {
    if month == 0 {
        year - 1
    } else if month > 12 && read_month(month) <= 2 {
        year + 1
    } else {
        year
    }
}

/// Days from March 1st to the first of `month` (1 to 12), in the year that
/// starts in March; January and February come last.
spec fn days_from_march(month: int) -> int {
    if month >= 3 {
        days_before_month(1, month) - 59
    } else {
        days_before_month(1, month) + 306
    }
}

/// Month starts depend on the year only through February, and from March on
/// they follow the `(153 * mp + 2) / 5` pattern.
proof fn lemma_days_before_month_values(year: int, month: int)
    requires
        1 <= month <= 12,
    ensures
        days_before_month(year, month) == days_before_month(1, month) + (if month >= 3 && leap(
            year,
        ) {
            1int
        } else {
            0int
        }),
        days_from_march(month) == (153 * ((month + 9) % 12) + 2) / 5,
{
    reveal_with_fuel(days_before_month, 13);
}

/// The first day a [`Date`] can hold: January 1st of the smallest `i32` year
/// (see [`lemma_epoch_day_range`]).
pub open spec fn min_epoch_day() -> int {
    -784_353_015_833
}

/// The last day a [`Date`] can hold: December 31st of the largest `i32` year
/// (see [`lemma_epoch_day_range`]).
pub open spec fn max_epoch_day() -> int {
    784_351_576_776
}

/// Consecutive years are `year_length` apart, in both directions from 1970.
pub proof fn lemma_days_before_year_step(year: int)
    ensures
        days_before_year(year + 1) == days_before_year(year) + year_length(year),
{
    reveal_with_fuel(days_before_year, 2);
}

/// Later years start later: at least 365 days per year in between.
pub proof fn lemma_days_before_year_increasing(a: int, b: int)
    requires
        a <= b,
    ensures
        days_before_year(b) - days_before_year(a) >= 365 * (b - a),
    decreases b - a,
{
    if a < b {
        lemma_days_before_year_increasing(a, b - 1);
        lemma_days_before_year_step(b - 1);
    }
}

/// The months of a year fill exactly its length, and a real date lies inside
/// its year.
pub proof fn lemma_date_within_year(year: int, month: int, day: int)
    requires
        1 <= month <= 12,
        1 <= day <= month_length(year, month),
    ensures
        days_before_year(year) <= epoch_day(year, month, day) < days_before_year(year + 1),
        days_before_month(year, 13) == year_length(year),
{
    reveal_with_fuel(days_before_month, 13);
    lemma_days_before_year_step(year);
}

/// The range of days a [`Date`] can hold: from January 1st of the smallest
/// `i32` year to December 31st of the largest.
pub proof fn lemma_epoch_day_range()
    ensures
        min_epoch_day() == epoch_day(i32::MIN as int, 1, 1),
        max_epoch_day() == epoch_day(i32::MAX as int, 12, 31),
        min_epoch_day() == days_before_year(i32::MIN as int),
        max_epoch_day() + 1 == days_before_year(i32::MAX as int + 1),
{
    reveal_with_fuel(days_before_month, 13);
    lemma_days_before_year_closed(i32::MIN as int);
    lemma_days_before_year_closed(i32::MAX as int + 1);
    lemma_date_within_year(i32::MAX as int, 12, 31);
    lemma_date_within_year(i32::MIN as int, 1, 1);
}

/// A calendar date. `year` may be zero or negative (year 0 is 1 BCE in the
/// proleptic Gregorian calendar, following the astronomical convention).
#[derive(Debug, Clone, Copy, PartialEq, Eq, Structural, PartialOrd, Ord)]
pub struct Date {
    pub year: i32,
    pub month: u8,
    pub day: u8,
}

/// Why [`Date::new`] refused its arguments.
#[derive(Debug, Clone, Copy, PartialEq, Eq, Structural)]
pub enum DateError {
    MonthOutOfRange(u8),
    DayOutOfRange { year: i32, month: u8, day: u8 },
}

impl Date {
    /// A real day on the calendar: a month from 1 to 12 and a day within it.
    pub open spec fn wf(self) -> bool {
        &&& 1 <= self.month <= 12
        &&& 1 <= self.day <= month_length(self.year as int, self.month as int)
    }

    /// Days since 1970-01-01 of this date. The fields are read as they come:
    /// a day past the end of its month counts on into the next, and a month
    /// outside 1 to 12 is read as [`read_month`] of [`read_year`].
    pub open spec fn epoch_day(self) -> int {
        epoch_day(
            read_year(self.year as int, self.month as int),
            read_month(self.month as int),
            self.day as int,
        )
    }

    /// Builds a date, rejecting anything that isn't a real day on the
    /// calendar (Feb 30, day 0, month 13, etc).
    pub fn new(year: i32, month: u8, day: u8) -> (r: Result<Date, DateError>)
        ensures
            !(1 <= month <= 12) ==> r == Err::<Date, DateError>(DateError::MonthOutOfRange(month)),
            1 <= month <= 12 && !(1 <= day <= month_length(year as int, month as int)) ==> r
                == Err::<Date, DateError>(DateError::DayOutOfRange { year, month, day }),
            1 <= month <= 12 && 1 <= day <= month_length(year as int, month as int) ==> r == Ok::<
                Date,
                DateError,
            >(Date { year, month, day }),
    {
        if !(1 <= month && month <= 12) {
            return Err(DateError::MonthOutOfRange(month));
        }
        let max_day = days_in_month(year, month);
        if day == 0 || day > max_day {
            return Err(DateError::DayOutOfRange { year, month, day });
        }
        Ok(Date { year, month, day })
    }

    /// Days since 1970-01-01, using Howard Hinnant's `days_from_civil`
    /// algorithm. Works for any proleptic Gregorian date, positive or
    /// negative (and reads other field values as [`Date::epoch_day`] says).
    pub fn to_days_since_epoch(self) -> (r: i64)
        ensures
            r == self.epoch_day(),
    {
        let y = self.year as i64;
        let m = self.month as i64;
        let d = self.day as i64;
        let y = if m <= 2 { y - 1 } else { y };
        let era = (if y >= 0 { y } else { y - 399 }) / 400;
        let yoe = y - era * 400;  // [0, 399]
        let mp = (m + 9) % 12;  // [0, 11], Mar=0 .. Feb=11
        let doy = (153 * mp + 2) / 5 + d - 1;  // [0, 365]
        let doe = yoe * 365 + yoe / 4 - yoe / 100 + doy;  // [0, 146096]
        proof {
            lemma_days_from_fields(self.year as int, m as int, d as int, y as int, era as int);
        }
        era * 146_097 + doe - 719_468
    }

    /// Inverse of [`Date::to_days_since_epoch`]: the real date whose day
    /// count is `days`.
    pub fn from_days_since_epoch(days: i64) -> (r: Date)
        requires
            min_epoch_day() <= days <= max_epoch_day(),
        ensures
            r.wf(),
            r.epoch_day() == days,
    {
        proof {
            lemma_epoch_day_range();
        }
        let z = days + 719_468;
        let era = (if z >= 0 { z } else { z - 146_096 }) / 146_097;
        let doe = z - era * 146_097;  // [0, 146096]
        let ghost g_yoe = (doe - doe / 1460 + doe / 36524 - doe / 146096) / 365;
        let ghost g_doy = doe - (365 * g_yoe + g_yoe / 4 - g_yoe / 100);
        proof {
            lemma_civil_from_days(
                days as int,
                era as int,
                doe as int,
                g_yoe,
                g_doy,
                (5 * g_doy + 2) / 153,
            );
        }
        let yoe = (doe - doe / 1460 + doe / 36524 - doe / 146096) / 365;  // [0, 399]
        let y = yoe + era * 400;
        let doy = doe - (365 * yoe + yoe / 4 - yoe / 100);  // [0, 365]
        let mp = (5 * doy + 2) / 153;  // [0, 11]
        let d = (doy - (153 * mp + 2) / 5 + 1) as u8;
        let m = (if mp < 10 { mp + 3 } else { mp - 9 }) as u8;
        let y = if m <= 2 { y + 1 } else { y };
        Date { year: y as i32, month: m, day: d }
    }

    /// Returns the date `n` days after this one (or before, if negative).
    pub fn add_days(self, n: i64) -> (r: Date)
        requires
            min_epoch_day() <= self.epoch_day() + n <= max_epoch_day(),
        ensures
            r.wf(),
            r.epoch_day() == self.epoch_day() + n,
    {
        proof {
            lemma_date_day_count_bounds(self);
        }
        Self::from_days_since_epoch(self.to_days_since_epoch() + n)
    }
}

/// A month from 1 to 12 is read as itself, in its own year.
pub proof fn lemma_read_real_month(year: int, month: int)
    requires
        1 <= month <= 12,
    ensures
        read_month(month) == month,
        read_year(year, month) == year,
{
}

/// [`lemma_days_from_civil`] for any month field, read as
/// [`read_month`] of [`read_year`].
proof fn lemma_days_from_fields(year: int, m: int, d: int, y: int, era: int)
    requires
        0 <= m,
        y == (if m <= 2 { year - 1 } else { year }),
        era == y / 400,
    ensures
        ({
            let yoe = y - era * 400;
            let doy = (153 * ((m + 9) % 12) + 2) / 5 + d - 1;
            era * 146_097 + yoe * 365 + yoe / 4 - yoe / 100 + doy - 719_468 == epoch_day(
                read_year(year, m),
                read_month(m),
                d,
            )
        }),
{
    let mp = (m + 9) % 12;
    let month = if mp < 10 { mp + 3 } else { mp - 9 };
    assert(read_month(m) == month);
    assert(read_year(year, m) == y + (if mp >= 10 { 1int } else { 0int }));
    assert((month + 9) % 12 == mp);
    lemma_days_from_civil(read_year(year, m), month, d, y, era);
}

/// A year split into 400-year eras (of 146097 days each) and the year
/// within its era.
proof fn lemma_era_split(y: int)
    ensures
        ({
            let era = y / 400;
            let yoe = y - era * 400;
            &&& 0 <= yoe < 400
            &&& y / 4 == era * 100 + yoe / 4
            &&& y / 100 == era * 4 + yoe / 100
            &&& era * 146_097 + yoe * 365 + yoe / 4 - yoe / 100 == 365 * y + leap_count_before(
                y + 1,
            )
        }),
{
    let era = y / 400;
    let yoe = y - era * 400;
    assert(y / 4 == era * 100 + yoe / 4);
    assert(y / 100 == era * 4 + yoe / 100);
}

/// The arithmetic behind [`Date::to_days_since_epoch`]: with the year
/// starting in March and split into 400-year eras, the count of days matches
/// [`epoch_day`].
proof fn lemma_days_from_civil(year: int, m: int, d: int, y: int, era: int)
    requires
        1 <= m <= 12,
        y == (if m <= 2 { year - 1 } else { year }),
        era == y / 400,
    ensures
        ({
            let yoe = y - era * 400;
            let doy = (153 * ((m + 9) % 12) + 2) / 5 + d - 1;
            era * 146_097 + yoe * 365 + yoe / 4 - yoe / 100 + doy - 719_468 == epoch_day(
                year,
                m,
                d,
            )
        }),
{
    let yoe = y - era * 400;
    let march = (153 * ((m + 9) % 12) + 2) / 5;
    lemma_era_split(y);
    assert(era * 146_097 + yoe * 365 + yoe / 4 - yoe / 100 == 365 * y + leap_count_before(y + 1));
    lemma_days_before_year_closed(year);
    lemma_days_before_month_values(year, m);
    assert(march == days_from_march(m));
    if m <= 2 {
        assert(days_before_month(year, m) == days_before_month(1, m));
        assert(march == days_before_month(1, m) + 306);
    } else {
        lemma_leap_count_step(year);
        assert(march == days_before_month(1, m) - 59);
    }
}

/// The year of the era that `(doe - doe/1460 + doe/36524 - doe/146096) / 365`
/// finds for a day of the era is the one whose (March-based) year holds it.
proof fn lemma_year_of_era_bv(doe: u32)
    requires
        doe <= 146096,
    ensures
        ({
            let yoe = (doe - doe / 1460 + doe / 36524 - doe / 146096) / 365;
            &&& yoe <= 399
            &&& 365 * yoe + yoe / 4 - yoe / 100 <= doe
            &&& doe < 365 * (yoe + 1) + (yoe + 1) / 4 - (yoe + 1) / 100 + (yoe + 1) / 400
        }),
{
    assert(doe <= 146096 ==> {
            let yoe = (doe - doe / 1460 + doe / 36524 - doe / 146096) / 365;
            &&& yoe <= 399
            &&& 365 * yoe + yoe / 4 - yoe / 100 <= doe
            &&& doe < 365 * (yoe + 1) + (yoe + 1) / 4 - (yoe + 1) / 100 + (yoe + 1) / 400
        }) by (bit_vector);
}

/// The month that `(5 * doy + 2) / 153` finds for a day of the March-based
/// year is the one that holds it.
proof fn lemma_month_of_year_bv(doy: u32)
    requires
        doy <= 365,
    ensures
        ({
            let mp = (5 * doy + 2) / 153;
            &&& mp <= 11
            &&& (153 * mp + 2) / 5 <= doy
            &&& mp <= 10 ==> doy < (153 * (mp + 1) + 2) / 5
        }),
{
    assert(doy <= 365 ==> {
            let mp = (5 * doy + 2) / 153;
            &&& mp <= 11
            &&& (153 * mp + 2) / 5 <= doy
            &&& mp <= 10 ==> doy < (153 * (mp + 1) + 2) / 5
        }) by (bit_vector);
}

/// The March-based month starts are the lengths of March through January.
proof fn lemma_march_month_lengths(mp: int)
    requires
        0 <= mp <= 10,
    ensures
        (153 * (mp + 1) + 2) / 5 - (153 * mp + 2) / 5 == month_length(
            1,
            if mp < 10 { mp + 3 } else { mp - 9 },
        ),
{
    // One concrete computation per month.
    if mp == 0 {
    } else if mp == 1 {
    } else if mp == 2 {
    } else if mp == 3 {
    } else if mp == 4 {
    } else if mp == 5 {
    } else if mp == 6 {
    } else if mp == 7 {
    } else if mp == 8 {
    } else if mp == 9 {
    } else {
    }
}

/// Leap years repeat every 400 years.
pub proof fn lemma_leap_period(x: int, era: int)
    ensures
        leap(x + 400 * era) == leap(x),
{
    vstd::arithmetic::div_mod::lemma_mod_multiples_vanish(100 * era, x, 4);
    vstd::arithmetic::div_mod::lemma_mod_multiples_vanish(4 * era, x, 100);
    vstd::arithmetic::div_mod::lemma_mod_multiples_vanish(era, x, 400);
    assert(4 * (100 * era) == 400 * era) by (nonlinear_arith);
    assert(100 * (4 * era) == 400 * era) by (nonlinear_arith);
}

/// The arithmetic behind [`Date::from_days_since_epoch`]: the era, the year
/// of the era, the day of the (March-based) year and the month found from a
/// day count name a real date with that day count.
proof fn lemma_civil_from_days(days: int, era: int, doe: int, yoe: int, doy: int, mp: int)
    requires
        min_epoch_day() <= days <= max_epoch_day(),
        era == (days + 719_468) / 146_097,
        doe == days + 719_468 - era * 146_097,
        yoe == (doe - doe / 1460 + doe / 36524 - doe / 146096) / 365,
        doy == doe - (365 * yoe + yoe / 4 - yoe / 100),
        mp == (5 * doy + 2) / 153,
    ensures
        0 <= doe <= 146096,
        0 <= yoe <= 399,
        0 <= doy <= 365,
        0 <= mp <= 11,
        0 <= (153 * mp + 2) / 5 <= doy,
        ({
            let d = doy - (153 * mp + 2) / 5 + 1;
            let m = if mp < 10 { mp + 3 } else { mp - 9 };
            let y = yoe + era * 400 + (if m <= 2 { 1int } else { 0int });
            &&& i32::MIN <= y <= i32::MAX
            &&& 1 <= m <= 12
            &&& 1 <= d <= month_length(y, m)
            &&& epoch_day(y, m, d) == days
        }),
{
    lemma_epoch_day_range();
    lemma_year_of_era_bv(doe as u32);
    // The era's year `yoe + 1` (which holds the February that ends this
    // March-based year) has 365 or 366 days, as the leap rule says.
    lemma_leap_count_step(yoe + 1);
    assert(doy <= 364 + (if leap(yoe + 1) { 1int } else { 0int }));
    lemma_month_of_year_bv(doy as u32);
    let start = (153 * mp + 2) / 5;
    let d = doy - start + 1;
    let m = if mp < 10 { mp + 3 } else { mp - 9 };
    let y0 = yoe + era * 400;
    let y = y0 + (if m <= 2 { 1int } else { 0int });
    if mp <= 10 {
        lemma_march_month_lengths(mp);
        assert(month_length(y, m) == month_length(1, m));
    } else {
        assert(m == 2);
        lemma_leap_period(yoe + 1, era);
        assert(y == yoe + 1 + 400 * era);
    }
    assert((m + 9) % 12 == mp);
    lemma_days_from_civil(y, m, d, y0, era);
    assert(epoch_day(y, m, d) == days);
    lemma_date_within_year(y, m, d);
    if y > i32::MAX {
        lemma_days_before_year_increasing(i32::MAX as int + 1, y);
    }
    if y < i32::MIN {
        lemma_days_before_year_increasing(y + 1, i32::MIN as int);
    }
}

/// Between real dates, the day count orders dates as the calendar does: by
/// year, then month, then day.
pub proof fn lemma_epoch_day_order(a: Date, b: Date)
    requires
        a.wf(),
        b.wf(),
    ensures
        a.epoch_day() < b.epoch_day() <==> (a.year < b.year || (a.year == b.year && (a.month
            < b.month || (a.month == b.month && a.day < b.day)))),
{
    lemma_read_real_month(a.year as int, a.month as int);
    lemma_read_real_month(b.year as int, b.month as int);
    assert(a.epoch_day() == epoch_day(a.year as int, a.month as int, a.day as int));
    assert(b.epoch_day() == epoch_day(b.year as int, b.month as int, b.day as int));
    lemma_date_within_year(a.year as int, a.month as int, a.day as int);
    lemma_date_within_year(b.year as int, b.month as int, b.day as int);
    if a.year < b.year {
        lemma_days_before_year_increasing(a.year as int + 1, b.year as int);
    } else if b.year < a.year {
        lemma_days_before_year_increasing(b.year as int + 1, a.year as int);
    } else {
        reveal_with_fuel(days_before_month, 13);
    }
}

/// Every real date lies in the range of days a [`Date`] can hold, and any
/// month from 1 to 12 with any `u8` day, within a year of the `i32` years,
/// stays within 2^40 days of 1970.
pub proof fn lemma_epoch_day_bounds(year: int, month: int, day: int)
    requires
        i32::MIN - 1 <= year <= i32::MAX + 1,
        1 <= month <= 12,
        0 <= day <= 255,
    ensures
        i32::MIN <= year <= i32::MAX && 1 <= day <= month_length(year, month) ==> min_epoch_day()
            <= epoch_day(year, month, day) <= max_epoch_day(),
        -0x100_0000_0000 < epoch_day(year, month, day) < 0x100_0000_0000,
{
    lemma_epoch_day_range();
    lemma_days_before_year_closed(i32::MIN as int - 1);
    lemma_days_before_year_closed(i32::MAX as int + 2);
    lemma_days_before_year_increasing(i32::MIN as int - 1, year);
    lemma_days_before_year_increasing(year + 1, i32::MAX as int + 2);
    if i32::MIN <= year {
        lemma_days_before_year_increasing(i32::MIN as int, year);
    }
    if year <= i32::MAX {
        lemma_days_before_year_increasing(year + 1, i32::MAX as int + 1);
    }
    lemma_days_before_year_step(year);
    reveal_with_fuel(days_before_month, 13);
}

/// The day count of any [`Date`] value stays within 2^40 days of 1970, and
/// that of a real date within the range a [`Date`] can hold.
pub proof fn lemma_date_day_count_bounds(d: Date)
    ensures
        -0x100_0000_0000 < d.epoch_day() < 0x100_0000_0000,
        d.wf() ==> min_epoch_day() <= d.epoch_day() <= max_epoch_day(),
{
    lemma_epoch_day_bounds(
        read_year(d.year as int, d.month as int),
        read_month(d.month as int),
        d.day as int,
    );
}

/// Day counts start at 0 on 1970-01-01 and go up by one from each real date
/// to the next calendar day: the next day of the month, the first of the next
/// month, or January 1st of the next year.
pub proof fn lemma_epoch_day_steps(d: Date)
    requires
        d.wf(),
    ensures
        (Date { year: 1970, month: 1, day: 1 }).epoch_day() == 0,
        d.day < month_length(d.year as int, d.month as int) ==> (Date {
            year: d.year,
            month: d.month,
            day: (d.day + 1) as u8,
        }).epoch_day() == d.epoch_day() + 1,
        d.day == month_length(d.year as int, d.month as int) && d.month < 12 ==> (Date {
            year: d.year,
            month: (d.month + 1) as u8,
            day: 1,
        }).epoch_day() == d.epoch_day() + 1,
        d.day == 31 && d.month == 12 && d.year < i32::MAX ==> (Date {
            year: (d.year + 1) as i32,
            month: 1,
            day: 1,
        }).epoch_day() == d.epoch_day() + 1,
{
    lemma_read_real_month(d.year as int, d.month as int);
    if d.month < 12 {
        lemma_read_real_month(d.year as int, d.month as int + 1);
    }
    lemma_read_real_month(d.year as int + 1, 1);
    lemma_read_real_month(1970, 1);
    lemma_date_within_year(d.year as int, d.month as int, d.day as int);
    lemma_days_before_year_step(d.year as int);
    reveal_with_fuel(days_before_month, 13);
}

/// A real date is determined by its day count.
pub proof fn lemma_epoch_day_injective(a: Date, b: Date)
    requires
        a.wf(),
        b.wf(),
        a.epoch_day() == b.epoch_day(),
    ensures
        a == b,
{
    lemma_epoch_day_order(a, b);
    lemma_epoch_day_order(b, a);
}

#[verifier::spinoff_prover]
pub fn is_leap_year(year: i32) -> (r: bool)
    ensures
        r == leap(year as int),
{
    year % 4 == 0 && (year % 100 != 0 || year % 400 == 0)
}

pub fn days_in_month(year: i32, month: u8) -> (r: u8)
    ensures
        r == month_length(year as int, month as int),
{
    match month {
        1 | 3 | 5 | 7 | 8 | 10 | 12 => 31,
        4 | 6 | 9 | 11 => 30,
        2 => {
            if is_leap_year(year) {
                29
            } else {
                28
            }
        },
        _ => 0,
    }
}

} // verus!
