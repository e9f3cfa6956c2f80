# tzoffset_math

Calendar and UTC-offset arithmetic (proleptic Gregorian dates, wall-clock
times, fixed offsets, DST-style transition rules), verified with Verus.

- `src/date.rs`: `Date`, the day count since 1970-01-01 (Hinnant's
  algorithms in both directions), leap years and month lengths. The day count
  is specified by counting years and months (`epoch_day`).
- `src/civil.rs`: `Time`, `UtcOffset`, `CivilDateTime` and Unix seconds.
- `src/transition.rs`: `Weekday`, `TransitionRule` (the n-th or last weekday
  of a month) and `OffsetTransition::resolve` (gap, single, fold).
- `tests/`: the table-driven cases and checks of the stated contracts.
