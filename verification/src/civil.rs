//! Wall-clock time and the arithmetic that ties a [`Date`] plus a
//! [`Time`] plus a [`UtcOffset`] together into an actual instant.

use vstd::prelude::*;

use crate::date::{Date, lemma_date_day_count_bounds, lemma_epoch_day_injective, max_epoch_day, min_epoch_day};

verus! {

/// `i64::div_euclid` from std. Its documentation: the quotient `q` with
/// `self == q * rhs + r` and `0 <= r < |rhs|`, panicking when `rhs` is 0 or
/// the quotient overflows. That quotient is Verus's own `/` on integers.
pub assume_specification[ <i64>::div_euclid ](lhs: i64, rhs: i64) -> (r: i64)
    requires
        rhs != 0,
        !(lhs == i64::MIN && rhs == -1),
    ensures
        r == lhs / rhs,
;

/// `i64::rem_euclid` from std. Its documentation: the least nonnegative
/// remainder `r` of `self` by `rhs`, with `0 <= r < |rhs|`, panicking when
/// `rhs` is 0 or the division overflows. That remainder is Verus's own `%` on
/// integers.
pub assume_specification[ <i64>::rem_euclid ](lhs: i64, rhs: i64) -> (r: i64)
    requires
        rhs != 0,
        !(lhs == i64::MIN && rhs == -1),
    ensures
        r == lhs % rhs,
;

/// A time of day, with no notion of timezone. Leap seconds are not
/// modeled: `second` is always in `0..=59`.
#[derive(Debug, Clone, Copy, PartialEq, Eq, Structural, PartialOrd, Ord)]
pub struct Time {
    pub hour: u8,
    pub minute: u8,
    pub second: u8,
}

/// The fields [`Time::new`] refused.
#[derive(Debug, Clone, Copy, PartialEq, Eq, Structural)]
pub struct TimeError {
    pub hour: u8,
    pub minute: u8,
    pub second: u8,
}

impl Time {
    /// A real reading of a 24-hour clock.
    pub open spec fn wf(self) -> bool {
        self.hour <= 23 && self.minute <= 59 && self.second <= 59
    }

    /// Seconds from midnight to this reading.
    pub open spec fn seconds(self) -> int {
        self.hour * 3600 + self.minute * 60 + self.second
    }

    pub fn new(hour: u8, minute: u8, second: u8) -> (r: Result<Time, TimeError>)
        ensures
            hour <= 23 && minute <= 59 && second <= 59 ==> r == Ok::<Time, TimeError>(
                Time { hour, minute, second },
            ),
            !(hour <= 23 && minute <= 59 && second <= 59) ==> r == Err::<Time, TimeError>(
                TimeError { hour, minute, second },
            ),
    {
        if hour > 23 || minute > 59 || second > 59 {
            return Err(TimeError { hour, minute, second });
        }
        Ok(Time { hour, minute, second })
    }

    pub fn seconds_since_midnight(self) -> (r: i64)
        ensures
            r == self.seconds(),
            r == 3600 * self.hour + 60 * self.minute + self.second,
    {
        self.hour as i64 * 3600 + self.minute as i64 * 60 + self.second as i64
    }
}

/// A fixed offset from UTC, such as UTC+05:30. Does not know about
/// daylight saving transitions; it is the offset in force at one instant.
#[derive(Debug, Clone, Copy, PartialEq, Eq, Structural, PartialOrd, Ord)]
pub struct UtcOffset {
    total_seconds: i32,
}

/// Why [`UtcOffset::from_hm`] refused its arguments.
#[derive(Debug, Clone, Copy, PartialEq, Eq, Structural)]
pub enum OffsetError {
    MixedSign { hours: i32, minutes: i32 },
    OutOfRange(i32),
}

/// Offsets run from -18:00 to +18:00.
pub open spec fn max_offset_seconds() -> int {
    64800
}

/// `hours` and `minutes` pull in opposite directions.
pub open spec fn mixed_sign(hours: int, minutes: int) -> bool {
    (hours > 0 && minutes < 0) || (hours < 0 && minutes > 0)
}

impl View for UtcOffset {
    type V = int;

    /// The offset in seconds east of UTC.
    closed spec fn view(&self) -> int {
        self.total_seconds as int
    }
}

impl UtcOffset {
    /// Offsets lie within ±18:00 and are whole minutes.
    #[verifier::type_invariant]
    spec fn within_range(self) -> bool {
        &&& -max_offset_seconds() <= self.total_seconds <= max_offset_seconds()
        &&& self.total_seconds % 60 == 0
    }

    /// UTC itself: an offset of zero.
    pub fn utc() -> (r: UtcOffset)
        ensures
            r@ == 0,
    {
        UtcOffset { total_seconds: 0 }
    }

    /// `hours` and `minutes` must have the same sign (or one of them
    /// zero). This is what lets India's +05:30 and Nepal's +05:45 be
    /// expressed exactly, alongside whole-hour offsets like -12:00.
    pub fn from_hm(hours: i32, minutes: i32) -> (r: Result<UtcOffset, OffsetError>)
        requires
            !mixed_sign(hours as int, minutes as int) ==> {
                &&& i32::MIN <= hours * 3600 <= i32::MAX
                &&& i32::MIN <= minutes * 60 <= i32::MAX
                &&& i32::MIN <= hours * 3600 + minutes * 60 <= i32::MAX
            },
        ensures
            mixed_sign(hours as int, minutes as int) ==> r == Err::<UtcOffset, OffsetError>(
                OffsetError::MixedSign { hours, minutes },
            ),
            !mixed_sign(hours as int, minutes as int) && !(-max_offset_seconds() <= hours * 3600
                + minutes * 60 <= max_offset_seconds()) ==> r == Err::<UtcOffset, OffsetError>(
                OffsetError::OutOfRange((hours * 3600 + minutes * 60) as i32),
            ),
            !mixed_sign(hours as int, minutes as int) && -max_offset_seconds() <= hours * 3600
                + minutes * 60 <= max_offset_seconds() ==> (r matches Ok(o) && o@ == hours * 3600
                + minutes * 60),
    {
        if (hours > 0 && minutes < 0) || (hours < 0 && minutes > 0) {
            return Err(OffsetError::MixedSign { hours, minutes });
        }
        let total_seconds = hours * 3600 + minutes * 60;
        proof {
            assert((hours * 3600 + minutes * 60) % 60 == 0) by {
                vstd::arithmetic::div_mod::lemma_mod_multiples_vanish(
                    hours * 60 + minutes,
                    0,
                    60,
                );
                assert(60 * (hours * 60 + minutes) == hours * 3600 + minutes * 60) by (
                nonlinear_arith);
            }
        }
        if !(-18 * 3600 <= total_seconds && total_seconds <= 18 * 3600) {
            return Err(OffsetError::OutOfRange(total_seconds));
        }
        Ok(UtcOffset { total_seconds })
    }

    pub fn total_seconds(self) -> (r: i32)
        ensures
            r == self@,
            -max_offset_seconds() <= r <= max_offset_seconds(),
            r % 60 == 0,
    {
        proof {
            use_type_invariant(&self);
        }
        self.total_seconds
    }
}

/// A date and time as they would appear on a wall clock, with no
/// attached timezone. Combine with a [`UtcOffset`] to get a real instant.
#[derive(Debug, Clone, Copy, PartialEq, Eq, Structural, PartialOrd, Ord)]
pub struct CivilDateTime {
    pub date: Date,
    pub time: Time,
}

/// The first second a [`CivilDateTime`] can hold, in Unix seconds.
pub open spec fn min_unix_seconds() -> int {
    min_epoch_day() * 86_400
}

/// The last second a [`CivilDateTime`] can hold, in Unix seconds.
pub open spec fn max_unix_seconds() -> int {
    max_epoch_day() * 86_400 + 86_399
}

impl CivilDateTime {
    /// A real date and a real clock reading.
    pub open spec fn wf(self) -> bool {
        self.date.wf() && self.time.wf()
    }

    /// Seconds since 1970-01-01 00:00:00 of this reading, taken as UTC.
    pub open spec fn unix_seconds(self) -> int {
        self.date.epoch_day() * 86_400 + self.time.seconds()
    }

    pub fn new(date: Date, time: Time) -> (r: CivilDateTime)
        ensures
            r == (CivilDateTime { date, time }),
    {
        CivilDateTime { date, time }
    }

    /// Seconds since the Unix epoch, treating `self` as if it were UTC.
    /// Use [`Self::to_unix_seconds_with_offset`] when the wall clock
    /// reading was taken in a non-UTC offset.
    pub fn to_unix_seconds(self) -> (r: i64)
        ensures
            r == self.unix_seconds(),
            r == self.date.epoch_day() * 86_400 + 3600 * self.time.hour + 60 * self.time.minute
                + self.time.second,
    {
        proof {
            lemma_date_day_count_bounds(self.date);
        }
        self.date.to_days_since_epoch() * 86_400 + self.time.seconds_since_midnight()
    }

    /// The real date and time `secs` seconds after 1970-01-01 00:00:00 UTC.
    pub fn from_unix_seconds(secs: i64) -> (r: CivilDateTime)
        requires
            min_unix_seconds() <= secs <= max_unix_seconds(),
        ensures
            r.wf(),
            r.unix_seconds() == secs,
            r.date.epoch_day() == secs / 86_400,
            r.time.hour == secs % 86_400 / 3600,
            r.time.minute == secs % 86_400 / 60 % 60,
            r.time.second == secs % 86_400 % 60,
    {
        let days = secs.div_euclid(86_400);
        let remainder = secs.rem_euclid(86_400);
        proof {
            vstd::arithmetic::div_mod::lemma_fundamental_div_mod(secs as int, 86_400);
            assert(0 <= remainder < 86_400);
        }
        let date = Date::from_days_since_epoch(days);
        let time = Time {
            hour: (remainder / 3600) as u8,
            minute: (remainder / 60 % 60) as u8,
            second: (remainder % 60) as u8,
        };
        CivilDateTime { date, time }
    }

    /// Converts a wall-clock reading taken at `offset` into the UTC
    /// instant it refers to (as Unix seconds).
    pub fn to_unix_seconds_with_offset(self, offset: UtcOffset) -> (r: i64)
        ensures
            r == self.unix_seconds() - offset@,
    {
        proof {
            lemma_date_day_count_bounds(self.date);
        }
        self.to_unix_seconds() - offset.total_seconds() as i64
    }

    /// The wall-clock reading that `offset` would show at the given UTC
    /// instant.
    pub fn from_unix_seconds_with_offset(secs: i64, offset: UtcOffset) -> (r: CivilDateTime)
        requires
            min_unix_seconds() <= secs + offset@ <= max_unix_seconds(),
        ensures
            r.wf(),
            r.unix_seconds() == secs + offset@,
    {
        Self::from_unix_seconds(secs + offset.total_seconds() as i64)
    }
}

/// Seconds since midnight count hours, minutes and seconds: `h:m:s` is
/// `3600 h + 60 m + s` seconds after midnight, so real times run from 0 at
/// 00:00:00 to 86399 at 23:59:59, in clock order.
pub proof fn lemma_seconds_since_midnight(a: Time, b: Time)
    ensures
        a.seconds() == 3600 * a.hour + 60 * a.minute + a.second,
        a.wf() ==> 0 <= a.seconds() <= 86_399,
        a.wf() && b.wf() ==> (a.seconds() < b.seconds() <==> (a.hour < b.hour || (a.hour
            == b.hour && (a.minute < b.minute || (a.minute == b.minute && a.second
            < b.second))))),
{
}

/// Unix seconds of a wall-clock reading: whole days since 1970-01-01 times
/// 86400, plus `3600 h + 60 m + s` for the time of day. For a real reading
/// the date is the Euclidean quotient by 86400 and the time its remainder.
pub proof fn lemma_unix_seconds_split(dt: CivilDateTime)
    ensures
        dt.unix_seconds() == dt.date.epoch_day() * 86_400 + 3600 * dt.time.hour + 60
            * dt.time.minute + dt.time.second,
        dt.wf() ==> dt.unix_seconds() / 86_400 == dt.date.epoch_day(),
        dt.wf() ==> dt.unix_seconds() % 86_400 == 3600 * dt.time.hour + 60 * dt.time.minute
            + dt.time.second,
{
    if dt.wf() {
        let t = 3600 * dt.time.hour + 60 * dt.time.minute + dt.time.second;
        assert(0 <= t < 86_400);
        vstd::arithmetic::div_mod::lemma_fundamental_div_mod_converse(
            dt.unix_seconds(),
            86_400,
            dt.date.epoch_day(),
            t,
        );
    }
}

/// A real date and time is determined by its Unix seconds: reading an
/// instant back gives the wall clock that named it.
pub proof fn lemma_unix_seconds_injective(a: CivilDateTime, b: CivilDateTime)
    requires
        a.wf(),
        b.wf(),
        a.unix_seconds() == b.unix_seconds(),
    ensures
        a == b,
{
    assert(a.date.epoch_day() == b.date.epoch_day());
    lemma_epoch_day_injective(a.date, b.date);
}

/// Going from a wall-clock reading to its UTC instant at some offset and back
/// at the same offset gives the reading again: with the contracts of
/// [`CivilDateTime::to_unix_seconds_with_offset`] and
/// [`CivilDateTime::from_unix_seconds_with_offset`], `back` is the reading
/// found from the instant `local` names.
pub proof fn lemma_offset_round_trip(local: CivilDateTime, offset: UtcOffset, back: CivilDateTime)
    requires
        local.wf(),
        back.wf(),
        back.unix_seconds() == (local.unix_seconds() - offset@) + offset@,
    ensures
        back == local,
{
    lemma_unix_seconds_injective(back, local);
}

} // verus!
