//! A rule describing when a fixed-offset region changes its clock,
//! expressed the way real DST laws are usually written: "the Nth
//! weekday of some month, at some local time" (e.g. "second Sunday in
//! March at 02:00"), or "the last weekday of some month" for the older
//! European-style rules.
//!
//! [`TransitionRule`] resolves a rule to the calendar date and wall-clock
//! reading it names for a given year. [`OffsetTransition`] pairs a rule
//! with the offsets on either side of it and turns a local reading into
//! the UTC instant(s) it refers to, including the gap a spring-forward
//! jump opens (a local time that never happens) and the fold a
//! fall-back jump creates (a local time that happens twice).

use vstd::prelude::*;

use crate::civil::{CivilDateTime, Time, UtcOffset};
use crate::civil::max_offset_seconds;
use crate::date::{
    Date,
    days_in_month,
    lemma_date_day_count_bounds,
    lemma_epoch_day_bounds,
    lemma_epoch_day_injective,
    max_epoch_day,
    min_epoch_day,
    month_length,
};

verus! {

/// Day of the week. `Monday` is first to match ISO 8601 ordering.
#[derive(Debug, Clone, Copy, PartialEq, Eq, Structural, PartialOrd, Ord)]
pub enum Weekday {
    Monday,
    Tuesday,
    Wednesday,
    Thursday,
    Friday,
    Saturday,
    Sunday,
}

impl Weekday {
    /// Position in the week, from 0 for Monday to 6 for Sunday.
    pub open spec fn number(self) -> int {
        match self {
            Weekday::Monday => 0,
            Weekday::Tuesday => 1,
            Weekday::Wednesday => 2,
            Weekday::Thursday => 3,
            Weekday::Friday => 4,
            Weekday::Saturday => 5,
            Weekday::Sunday => 6,
        }
    }

    fn index(self) -> (r: i64)
        ensures
            r == self.number(),
    {
        match self {
            Weekday::Monday => 0,
            Weekday::Tuesday => 1,
            Weekday::Wednesday => 2,
            Weekday::Thursday => 3,
            Weekday::Friday => 4,
            Weekday::Saturday => 5,
            Weekday::Sunday => 6,
        }
    }
}

impl Date {
    /// Position in the week of this date, Monday being 0: weeks run on
    /// unbroken from 1970-01-01 (epoch day 0), a Thursday.
    pub open spec fn weekday_number(self) -> int {
        (self.epoch_day() + 3) % 7
    }

    /// The day of the week this date falls on. 1970-01-01 (epoch day 0)
    /// was a Thursday.
    pub fn weekday(self) -> (r: Weekday)
        ensures
            r.number() == self.weekday_number(),
    {
        proof {
            lemma_date_day_count_bounds(self);
        }
        match self.to_days_since_epoch().rem_euclid(7) {
            0 => Weekday::Thursday,
            1 => Weekday::Friday,
            2 => Weekday::Saturday,
            3 => Weekday::Sunday,
            4 => Weekday::Monday,
            5 => Weekday::Tuesday,
            _ => Weekday::Wednesday,
        }
    }
}

/// Which occurrence of a weekday within a month a rule refers to.
#[derive(Debug, Clone, Copy, PartialEq, Eq, Structural)]
pub enum WeekdayOccurrence {
    First,
    Second,
    Third,
    Fourth,
    /// The last occurrence, whether the month has four or five of them.
    /// This is what older DST rules tend to specify, e.g. the EU's
    /// "last Sunday in March / last Sunday in October".
    Last,
}

/// A rule for when a fixed offset changes, in the style real DST laws
/// are written: e.g. "second Sunday in March at 02:00 local".
#[derive(Debug, Clone, Copy, PartialEq, Eq, Structural)]
pub struct TransitionRule {
    pub month: u8,
    pub occurrence: WeekdayOccurrence,
    pub weekday: Weekday,
    pub local_time: Time,
}

/// Why [`TransitionRule::new`] refused its arguments.
#[derive(Debug, Clone, Copy, PartialEq, Eq, Structural)]
pub enum TransitionRuleError {
    MonthOutOfRange(u8),
}

impl TransitionRule {
    /// `d` is the day this rule names in `year`: a real date in the rule's
    /// month that falls on the rule's weekday, in the week of the month that
    /// the occurrence picks (days 1-7 are the first, 8-14 the second, and so
    /// on; the last is within seven days of the month's end).
    pub open spec fn names(self, year: int, d: Date) -> bool {
        &&& d.wf()
        &&& d.year == year
        &&& d.month == self.month
        &&& d.weekday_number() == self.weekday.number()
        &&& match self.occurrence {
            WeekdayOccurrence::First => d.day <= 7,
            WeekdayOccurrence::Second => 8 <= d.day <= 14,
            WeekdayOccurrence::Third => 15 <= d.day <= 21,
            WeekdayOccurrence::Fourth => 22 <= d.day <= 28,
            WeekdayOccurrence::Last => d.day + 7 > month_length(year, self.month as int),
        }
    }

    /// The day this rule names in `year` (see [`TransitionRule::names`]).
    pub open spec fn date_named(self, year: int) -> Date {
        choose|d: Date| self.names(year, d)
    }

    /// The wall-clock reading this rule names in `year`.
    pub open spec fn datetime_named(self, year: int) -> CivilDateTime {
        CivilDateTime { date: self.date_named(year), time: self.local_time }
    }

    pub fn new(
        month: u8,
        occurrence: WeekdayOccurrence,
        weekday: Weekday,
        local_time: Time,
    ) -> (r: Result<TransitionRule, TransitionRuleError>)
        ensures
            !(1 <= month <= 12) ==> r == Err::<TransitionRule, TransitionRuleError>(
                TransitionRuleError::MonthOutOfRange(month),
            ),
            1 <= month <= 12 ==> r == Ok::<TransitionRule, TransitionRuleError>(
                TransitionRule { month, occurrence, weekday, local_time },
            ),
    {
        if !(1 <= month && month <= 12) {
            return Err(TransitionRuleError::MonthOutOfRange(month));
        }
        Ok(TransitionRule { month, occurrence, weekday, local_time })
    }

    /// The calendar date this rule falls on in a given year.
    pub fn date_in_year(self, year: i32) -> (r: Date)
        requires
            1 <= self.month <= 12,
        ensures
            self.names(year as int, r),
            r == self.date_named(year as int),
    {
        let r = match self.occurrence {
            WeekdayOccurrence::Last => {
                let last_day = days_in_month(year, self.month);
                let last = Date::new(year, self.month, last_day).unwrap();
                let back = (last.weekday().index() - self.weekday.index()).rem_euclid(7);
                let ghost target = Date { year, month: self.month, day: (last_day - back) as u8 };
                proof {
                    lemma_last_weekday(last, self.weekday.number(), back as int, target);
                }
                let r = last.add_days(-back);
                proof {
                    lemma_epoch_day_injective(r, target);
                }
                r
            },
            _ => {
                let n: i64 = match self.occurrence {
                    WeekdayOccurrence::First => 0,
                    WeekdayOccurrence::Second => 1,
                    WeekdayOccurrence::Third => 2,
                    _ => 3,
                };
                let first = Date::new(year, self.month, 1).unwrap();
                let forward = (self.weekday.index() - first.weekday().index()).rem_euclid(7);
                let ghost target = Date {
                    year,
                    month: self.month,
                    day: (1 + forward + 7 * n) as u8,
                };
                proof {
                    lemma_nth_weekday(first, self.weekday.number(), n as int, forward as int, target);
                }
                let r = first.add_days(forward + 7 * n);
                proof {
                    lemma_epoch_day_injective(r, target);
                }
                r
            },
        };
        proof {
            lemma_rule_names_one_day(self, year as int, r, self.date_named(year as int));
        }
        r
    }

    /// The local wall-clock reading (date and time together) this rule
    /// names in a given year.
    pub fn datetime_in_year(self, year: i32) -> (r: CivilDateTime)
        requires
            1 <= self.month <= 12,
        ensures
            r == self.datetime_named(year as int),
            r.date == self.date_named(year as int),
            r.time == self.local_time,
            self.names(year as int, r.date),
    {
        CivilDateTime::new(self.date_in_year(year), self.local_time)
    }
}

/// Counting forward from the first of a month to the wanted weekday, then on
/// by whole weeks, stays in the month and lands on that weekday.
proof fn lemma_nth_weekday(first: Date, w: int, n: int, forward: int, target: Date)
    requires
        first.wf(),
        first.day == 1,
        0 <= w < 7,
        0 <= n <= 3,
        forward == (w - first.weekday_number()) % 7,
        target == (Date { year: first.year, month: first.month, day: (1 + forward + 7 * n) as u8 }),
    ensures
        target.wf(),
        target.day == 1 + forward + 7 * n,
        target.epoch_day() == first.epoch_day() + forward + 7 * n,
        target.weekday_number() == w,
        min_epoch_day() <= target.epoch_day() <= max_epoch_day(),
{
    lemma_epoch_day_bounds(first.year as int, first.month as int, 1 + forward + 7 * n);
    let e = first.epoch_day() + 3;
    assert((e + forward + 7 * n) % 7 == w) by {
        vstd::arithmetic::div_mod::lemma_mod_multiples_vanish(n, e + forward, 7);
        assert(forward == (w - e % 7) % 7);
        vstd::arithmetic::div_mod::lemma_add_mod_noop(e, forward, 7);
        vstd::arithmetic::div_mod::lemma_mod_bound(e, 7);
        vstd::arithmetic::div_mod::lemma_mod_twice(e, 7);
    }
}

/// Counting back from the last of a month to the wanted weekday stays within
/// the month's last week and lands on that weekday.
proof fn lemma_last_weekday(last: Date, w: int, back: int, target: Date)
    requires
        last.wf(),
        last.day == month_length(last.year as int, last.month as int),
        0 <= w < 7,
        back == (last.weekday_number() - w) % 7,
        target == (Date { year: last.year, month: last.month, day: (last.day - back) as u8 }),
    ensures
        target.wf(),
        target.day == last.day - back,
        target.day + 7 > last.day,
        target.epoch_day() == last.epoch_day() - back,
        target.weekday_number() == w,
        min_epoch_day() <= target.epoch_day() <= max_epoch_day(),
{
    lemma_epoch_day_bounds(last.year as int, last.month as int, last.day - back);
    let e = last.epoch_day() + 3;
    assert((e - back) % 7 == w) by {
        assert(back == (e % 7 - w) % 7);
        vstd::arithmetic::div_mod::lemma_sub_mod_noop(e, back, 7);
        vstd::arithmetic::div_mod::lemma_mod_bound(e, 7);
        vstd::arithmetic::div_mod::lemma_mod_twice(e, 7);
    }
}

/// Every rule with a real month names a day in every year a [`Date`] can hold.
pub proof fn lemma_rule_names_a_day(rule: TransitionRule, year: i32)
    requires
        1 <= rule.month <= 12,
    ensures
        rule.names(year as int, rule.date_named(year as int)),
{
    let w = rule.weekday.number();
    match rule.occurrence {
        WeekdayOccurrence::Last => {
            let len = month_length(year as int, rule.month as int);
            let last = Date { year, month: rule.month, day: len as u8 };
            let back = (last.weekday_number() - w) % 7;
            let target = Date { year, month: rule.month, day: (len - back) as u8 };
            lemma_last_weekday(last, w, back, target);
            lemma_rule_names_one_day(rule, year as int, target, target);
        },
        _ => {
            let n: int = match rule.occurrence {
                WeekdayOccurrence::First => 0,
                WeekdayOccurrence::Second => 1,
                WeekdayOccurrence::Third => 2,
                _ => 3,
            };
            let first = Date { year, month: rule.month, day: 1 };
            let forward = (w - first.weekday_number()) % 7;
            let target = Date { year, month: rule.month, day: (1 + forward + 7 * n) as u8 };
            lemma_nth_weekday(first, w, n, forward, target);
            lemma_rule_names_one_day(rule, year as int, target, target);
        },
    }
}

/// Weeks run on unbroken: `n` days later is `n` places later in the week.
pub proof fn lemma_weekday_advances(a: Date, b: Date, n: int)
    requires
        b.epoch_day() == a.epoch_day() + n,
    ensures
        b.weekday_number() == (a.weekday_number() + n) % 7,
{
    vstd::arithmetic::div_mod::lemma_add_mod_noop(a.epoch_day() + 3, n, 7);
    vstd::arithmetic::div_mod::lemma_mod_twice(n, 7);
    vstd::arithmetic::div_mod::lemma_add_mod_noop((a.epoch_day() + 3) % 7, n, 7);
    vstd::arithmetic::div_mod::lemma_mod_twice(a.epoch_day() + 3, 7);
}

/// A rule names at most one day in a year, so [`TransitionRule::date_named`]
/// is that day whenever there is one.
pub proof fn lemma_rule_names_one_day(rule: TransitionRule, year: int, a: Date, b: Date)
    requires
        rule.names(year, a),
    ensures
        rule.names(year, rule.date_named(year)),
        rule.names(year, b) ==> a == b,
{
    if rule.names(year, b) {
        assert(b.epoch_day() - a.epoch_day() == b.day - a.day);
    }
}

/// A single change of UTC offset at the moment named by a
/// [`TransitionRule`], e.g. "clocks go from PST to PDT at 02:00 PST" or
/// the reverse. The rule's local time is always read using
/// `offset_before` — that's the convention real DST laws use: the wall
/// clock named in the law hasn't changed yet at the instant it names.
#[derive(Debug, Clone, Copy, PartialEq, Eq, Structural)]
pub struct OffsetTransition {
    pub rule: TransitionRule,
    pub offset_before: UtcOffset,
    pub offset_after: UtcOffset,
}

/// What a local wall-clock reading means once a nearby offset change is
/// taken into account.
#[derive(Debug, Clone, Copy, PartialEq, Eq, Structural)]
pub enum LocalResult {
    /// The reading names a moment that never happened: the clocks
    /// jumped past it. `transition_utc` is the instant (Unix seconds)
    /// the jump occurred; `gap_seconds` is how far the clock jumped, so
    /// a caller that wants a best-effort instant instead of an error can
    /// shift the reading by that much.
    Gap { transition_utc: i64, gap_seconds: i32 },
    /// The reading happened exactly once, at this UTC instant.
    Single(i64),
    /// The reading happened twice, once under each offset. `earlier` is
    /// always the smaller (earlier) UTC instant of the two.
    Ambiguous { earlier: i64, later: i64 },
}

impl OffsetTransition {
    /// How far the clock jumps, in seconds: forward when positive.
    pub open spec fn shift(self) -> int {
        self.offset_after@ - self.offset_before@
    }

    /// The wall-clock reading the rule names in `year`, in seconds since
    /// 1970-01-01 00:00:00 on that clock.
    pub open spec fn named_wall(self, year: int) -> int {
        self.rule.datetime_named(year).unix_seconds()
    }

    /// The UTC instant of the change in `year`: the named reading, taken
    /// under `offset_before`.
    pub open spec fn instant(self, year: int) -> int {
        self.named_wall(year) - self.offset_before@
    }

    /// The wall-clock reading (in seconds) shown at UTC instant `u`: under
    /// `offset_before` until the change in `year`, under `offset_after` from
    /// then on.
    pub open spec fn wall_at(self, year: int, u: int) -> int {
        if u < self.instant(year) {
            u + self.offset_before@
        } else {
            u + self.offset_after@
        }
    }

    /// What [`OffsetTransition::resolve`] answers: readings before the
    /// affected interval are taken under `offset_before`, readings after it
    /// under `offset_after`; inside it, a forward jump gives the gap and a
    /// backward one the fold. The interval starts at the named reading for a
    /// forward jump and ends there for a backward one.
    pub open spec fn resolution(self, local: CivilDateTime, year: int) -> LocalResult {
        let shift = self.shift();
        let wall = local.unix_seconds();
        let named = self.named_wall(year);
        let lo = if shift >= 0 { named } else { named + shift };
        let hi = if shift >= 0 { named + shift } else { named };
        if wall < lo {
            LocalResult::Single((wall - self.offset_before@) as i64)
        } else if wall < hi {
            if shift > 0 {
                LocalResult::Gap {
                    transition_utc: self.instant(year) as i64,
                    gap_seconds: shift as i32,
                }
            } else {
                LocalResult::Ambiguous {
                    earlier: (wall - self.offset_before@) as i64,
                    later: (wall - self.offset_after@) as i64,
                }
            }
        } else {
            LocalResult::Single((wall - self.offset_after@) as i64)
        }
    }

    pub fn new(rule: TransitionRule, offset_before: UtcOffset, offset_after: UtcOffset) -> (r:
        OffsetTransition)
        ensures
            r == (OffsetTransition { rule, offset_before, offset_after }),
    {
        OffsetTransition { rule, offset_before, offset_after }
    }

    /// The UTC instant, in Unix seconds, at which the offset changes in
    /// `year`.
    pub fn instant_in_year(self, year: i32) -> (r: i64)
        requires
            1 <= self.rule.month <= 12,
        ensures
            r == self.instant(year as int),
            r == self.rule.date_named(year as int).epoch_day() * 86_400 + 3600
                * self.rule.local_time.hour + 60 * self.rule.local_time.minute
                + self.rule.local_time.second - self.offset_before@,
    {
        self.rule.datetime_in_year(year).to_unix_seconds_with_offset(self.offset_before)
    }

    /// Resolves a local wall-clock reading against this transition for
    /// `year`, accounting for the gap a forward jump opens or the fold a
    /// backward jump creates.
    pub fn resolve(self, local: CivilDateTime, year: i32) -> (r: LocalResult)
        requires
            1 <= self.rule.month <= 12,
        ensures
            r == self.resolution(local, year as int),
    {
        let shift = self.offset_after.total_seconds() as i64
            - self.offset_before.total_seconds() as i64;
        let wall = local.to_unix_seconds();
        let named = self.rule.datetime_in_year(year);
        let named_wall = named.to_unix_seconds();
        proof {
            lemma_date_day_count_bounds(local.date);
            lemma_date_day_count_bounds(named.date);
        }
        // The named wall-clock reading is where the change happens; the
        // affected interval sits after it for a forward jump (the gap)
        // and before it for a backward jump (the fold).
        let (lo, hi) = if shift >= 0 {
            (named_wall, named_wall + shift)
        } else {
            (named_wall + shift, named_wall)
        };

        if wall < lo {
            LocalResult::Single(local.to_unix_seconds_with_offset(self.offset_before))
        } else if wall < hi {
            if shift > 0 {
                LocalResult::Gap {
                    transition_utc: self.instant_in_year(year),
                    gap_seconds: shift as i32,
                }
            } else {
                LocalResult::Ambiguous {
                    earlier: local.to_unix_seconds_with_offset(self.offset_before),
                    later: local.to_unix_seconds_with_offset(self.offset_after),
                }
            }
        } else {
            LocalResult::Single(local.to_unix_seconds_with_offset(self.offset_after))
        }
    }
}

/// The reading a rule names in a year is the rule's own `local_time` on the
/// day the rule names.
pub proof fn lemma_rule_reading(rule: TransitionRule, year: i32)
    requires
        1 <= rule.month <= 12,
    ensures
        rule.datetime_named(year as int).time == rule.local_time,
        rule.names(year as int, rule.datetime_named(year as int).date),
{
    lemma_rule_names_a_day(rule, year);
}

/// The change happens at the instant the rule's reading (its day and its full
/// `local_time`, to the second) is shown under `offset_before`, every second
/// of that offset counted.
pub proof fn lemma_instant_reads_rule(t: OffsetTransition, year: i32)
    requires
        1 <= t.rule.month <= 12,
    ensures
        t.rule.names(year as int, t.rule.date_named(year as int)),
        t.instant(year as int) + t.offset_before@ == t.rule.date_named(year as int).epoch_day()
            * 86_400 + 3600 * t.rule.local_time.hour + 60 * t.rule.local_time.minute
            + t.rule.local_time.second,
{
    lemma_rule_names_a_day(t.rule, year);
}

/// Weekdays are numbered in ISO order, Monday first, and 1970-01-01 (day 0)
/// was a Thursday.
pub proof fn lemma_weekday_numbers()
    ensures
        Weekday::Monday.number() == 0,
        Weekday::Tuesday.number() == 1,
        Weekday::Wednesday.number() == 2,
        Weekday::Thursday.number() == 3,
        Weekday::Friday.number() == 4,
        Weekday::Saturday.number() == 5,
        Weekday::Sunday.number() == 6,
        (Date { year: 1970, month: 1, day: 1 }).weekday_number() == Weekday::Thursday.number(),
{
    crate::date::lemma_epoch_day_steps(Date { year: 1970, month: 1, day: 1 });
}

/// The first to fourth occurrences are the days with 0 to 3 earlier days of
/// the same weekday in the month; the last has no later one.
pub proof fn lemma_occurrence_week(rule: TransitionRule, year: int, d: Date)
    requires
        rule.names(year, d),
    ensures
        rule.occurrence == WeekdayOccurrence::First ==> (d.day - 1) / 7 == 0,
        rule.occurrence == WeekdayOccurrence::Second ==> (d.day - 1) / 7 == 1,
        rule.occurrence == WeekdayOccurrence::Third ==> (d.day - 1) / 7 == 2,
        rule.occurrence == WeekdayOccurrence::Fourth ==> (d.day - 1) / 7 == 3,
        rule.occurrence == WeekdayOccurrence::Last ==> d.day + 7 > month_length(
            year,
            d.month as int,
        ),
{
}

/// What [`OffsetTransition::resolve`] answers is what the wall clock shows.
/// A reading in the gap is shown at no instant at all, and the gap is the
/// forward jump at the instant of the change. A single instant is the one
/// instant at which the clock shows the reading. A fold gives the two
/// instants, earlier first and one backward jump apart, at which it shows it.
pub proof fn lemma_resolution_matches_wall_clock(
    t: OffsetTransition,
    local: CivilDateTime,
    year: i32,
)
    requires
        1 <= t.rule.month <= 12,
        -max_offset_seconds() <= t.offset_before@
            <= max_offset_seconds(),
        -max_offset_seconds() <= t.offset_after@
            <= max_offset_seconds(),
    ensures
        local.unix_seconds() == local.date.epoch_day() * 86_400 + 3600 * local.time.hour + 60
            * local.time.minute + local.time.second,
        forall|u: int|
            #[trigger] t.wall_at(year as int, u) == (if u < t.instant(year as int) {
                u + t.offset_before@
            } else {
                u + t.offset_after@
            }),
        ({
            let wall = local.unix_seconds();
            match t.resolution(local, year as int) {
                LocalResult::Gap { transition_utc, gap_seconds } => {
                    &&& transition_utc == t.instant(year as int)
                    &&& gap_seconds == t.offset_after@ - t.offset_before@ > 0
                    &&& forall|u: int| t.wall_at(year as int, u) != wall
                },
                LocalResult::Single(s) => {
                    &&& t.wall_at(year as int, s as int) == wall
                    &&& forall|u: int| t.wall_at(year as int, u) == wall ==> u == s
                },
                LocalResult::Ambiguous { earlier, later } => {
                    &&& earlier < later
                    &&& later - earlier == t.offset_before@ - t.offset_after@
                    &&& t.wall_at(year as int, earlier as int) == wall
                    &&& t.wall_at(year as int, later as int) == wall
                    &&& forall|u: int| t.wall_at(year as int, u) == wall ==> u == earlier || u == later
                },
            }
        }),
{
    lemma_rule_names_a_day(t.rule, year);
    let named = t.rule.date_named(year as int);
    lemma_date_day_count_bounds(named);
    lemma_date_day_count_bounds(local.date);
}

} // verus!
