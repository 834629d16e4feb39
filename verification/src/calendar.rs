//! The proleptic Gregorian calendar: dates, times of day, the day of the
//! week, and the order of civil times.
//!
//! Years run from -9999 to 9999. Days of the week are numbered from 0 for
//! Sunday to 6 for Saturday.

use vstd::prelude::*;

verus! {

/// The first year of the calendar.
pub const MIN_YEAR: i16 = -9999;

/// The last year of the calendar.
pub const MAX_YEAR: i16 = 9999;

/// A multiple of 400 that lifts every year of an `i16` above zero. The
/// Gregorian calendar repeats every 400 years, day of the week included, so
/// a year and the lifted year agree in all that is computed here.
pub const YEAR_LIFT: i32 = 32800;

/// Whether `year` has a 29 February.
pub open spec fn is_leap(year: int) -> bool {
    year % 4 == 0 && (year % 100 != 0 || year % 400 == 0)
}

/// The number of days of `month` in `year`.
pub open spec fn days_in_month(year: int, month: int) -> int {
    if month == 2 {
        if is_leap(year) {
            29
        } else {
            28
        }
    } else if month == 4 || month == 6 || month == 9 || month == 11 {
        30
    } else {
        31
    }
}

/// The number of days of `year` that lie before the first of `month`.
pub open spec fn days_before_month(year: int, month: int) -> int {
    let shift: int = if is_leap(year) && month > 2 {
        1
    } else {
        0
    };
    shift + if month <= 1 {
        0int
    } else if month == 2 {
        31
    } else if month == 3 {
        59
    } else if month == 4 {
        90
    } else if month == 5 {
        120
    } else if month == 6 {
        151
    } else if month == 7 {
        181
    } else if month == 8 {
        212
    } else if month == 9 {
        243
    } else if month == 10 {
        273
    } else if month == 11 {
        304
    } else {
        334
    }
}

/// The number of leap years among the lifted years `0` to `lifted - 1`.
pub open spec fn leap_years_before(lifted: int) -> int {
    (lifted + 3) / 4 - (lifted + 99) / 100 + (lifted + 399) / 400
}

/// The days from 1 January of the year `-YEAR_LIFT` to 1 January of `year`.
#[verifier::opaque]
pub open spec fn days_before_year(year: int) -> int {
    365 * (year + YEAR_LIFT) + leap_years_before(year + YEAR_LIFT)
}

/// A calendar date as plain numbers.
#[derive(Clone, Copy, Debug, PartialEq, Eq, Structural)]
pub struct CivilDate {
    pub year: i16,
    pub month: i8,
    pub day: i8,
}

/// A date and a time of day as plain numbers, without a time zone.
#[derive(Clone, Copy, Debug, PartialEq, Eq, Structural)]
pub struct CivilTime {
    pub year: i16,
    pub month: i8,
    pub day: i8,
    pub hour: i8,
    pub minute: i8,
    pub second: i8,
}

/// Whether the three numbers are a time of day.
pub open spec fn valid_time_of_day(hour: int, minute: int, second: int) -> bool {
    0 <= hour < 24 && 0 <= minute < 60 && 0 <= second < 60
}

/// The seconds from midnight to the given time of day.
pub open spec fn second_of_day(hour: int, minute: int, second: int) -> int {
    (hour * 60 + minute) * 60 + second
}

impl CivilDate {
    /// Whether the date exists in the calendar.
    pub open spec fn valid(self) -> bool {
        &&& MIN_YEAR <= self.year <= MAX_YEAR
        &&& 1 <= self.month <= 12
        &&& 1 <= self.day <= days_in_month(self.year as int, self.month as int)
    }

    /// A number that orders dates as the calendar does. It is not a count
    /// of days.
    pub open spec fn stamp(self) -> int {
        (self.year * 13 + self.month) * 32 + self.day
    }

    /// The days from 1 January of the year `-YEAR_LIFT` to this date.
    pub open spec fn day_number(self) -> int {
        days_before_year(self.year as int) + days_before_month(
            self.year as int,
            self.month as int,
        ) + self.day - 1
    }

    /// The day of the week, from 0 for Sunday to 6 for Saturday.
    pub open spec fn weekday(self) -> int {
        (self.day_number() + 6) % 7
    }

    /// Whether the date is the last one of the calendar.
    pub open spec fn is_last(self) -> bool {
        self.year == MAX_YEAR && self.month == 12 && self.day == 31
    }

    /// The date that follows this one.
    pub open spec fn successor(self) -> CivilDate {
        if self.day < days_in_month(self.year as int, self.month as int) {
            CivilDate { day: (self.day + 1) as i8, ..self }
        } else if self.month < 12 {
            CivilDate { month: (self.month + 1) as i8, day: 1, ..self }
        } else {
            CivilDate { year: (self.year + 1) as i16, month: 1, day: 1 }
        }
    }

    /// Tells whether the date exists in the calendar.
    pub fn is_valid(&self) -> (r: bool)
        ensures
            r == self.valid(),
    {
        MIN_YEAR <= self.year && self.year <= MAX_YEAR && 1 <= self.month && self.month <= 12 && 1
            <= self.day && self.day <= month_length(self.year, self.month)
    }

    /// The date that follows this one. There is none after the last date of
    /// the calendar, and none for a date that does not exist.
    pub fn next(&self) -> (r: Option<CivilDate>)
        ensures
            match r {
                Some(next) => self.valid() && !self.is_last() && next == self.successor(),
                None => !self.valid() || self.is_last(),
            },
    {
        if !self.is_valid() {
            None
        } else if self.day < month_length(self.year, self.month) {
            Some(CivilDate { year: self.year, month: self.month, day: self.day + 1 })
        } else if self.month < 12 {
            Some(CivilDate { year: self.year, month: self.month + 1, day: 1 })
        } else if self.year < MAX_YEAR {
            Some(CivilDate { year: self.year + 1, month: 1, day: 1 })
        } else {
            None
        }
    }

    /// The day of the week, from 0 for Sunday to 6 for Saturday. For a date
    /// that does not exist the number has no meaning.
    pub fn day_of_week(&self) -> (r: u8)
        ensures
            r < 7,
            self.valid() ==> r == self.weekday(),
    {
        let lifted: i64 = (self.year as i32 + YEAR_LIFT) as i64;
        let leaps: i64 = (lifted + 3) / 4 - (lifted + 99) / 100 + (lifted + 399) / 400;
        let before: i64 = match self.month {
            1 => 0,
            2 => 31,
            3 => 59,
            4 => 90,
            5 => 120,
            6 => 151,
            7 => 181,
            8 => 212,
            9 => 243,
            10 => 273,
            11 => 304,
            _ => 334,
        };
        let shift: i64 = if self.month > 2 && leap_year(self.year) {
            1
        } else {
            0
        };
        let number: i64 = 365 * lifted + leaps + before + shift + (self.day as i64) - 1;
        proof {
            reveal(days_before_year);
        }
        ((number + 6) % 7) as u8
    }
}

impl CivilTime {
    /// The date part.
    pub open spec fn date(self) -> CivilDate {
        CivilDate { year: self.year, month: self.month, day: self.day }
    }

    /// Whether the date exists and the time of day is one.
    pub open spec fn valid(self) -> bool {
        &&& self.date().valid()
        &&& valid_time_of_day(self.hour as int, self.minute as int, self.second as int)
    }

    /// A number that orders civil times as calendar and clock do: first by
    /// date, then by time of day. It is not a count of seconds.
    pub open spec fn stamp(self) -> int {
        self.date().stamp() * 86400 + second_of_day(
            self.hour as int,
            self.minute as int,
            self.second as int,
        )
    }

    /// Tells whether the date exists and the time of day is one.
    pub fn is_valid(&self) -> (r: bool)
        ensures
            r == self.valid(),
    {
        let date = CivilDate { year: self.year, month: self.month, day: self.day };
        date.is_valid() && 0 <= self.hour && self.hour < 24 && 0 <= self.minute && self.minute < 60
            && 0 <= self.second && self.second < 60
    }
}

/// Tells whether `year` has a 29 February.
pub fn leap_year(year: i16) -> (r: bool)
    ensures
        r == is_leap(year as int),
{
    let lifted: i32 = year as i32 + YEAR_LIFT;
    lifted % 4 == 0 && (lifted % 100 != 0 || lifted % 400 == 0)
}

/// The number of days of `month` in `year`.
pub fn month_length(year: i16, month: i8) -> (r: i8)
    ensures
        r == days_in_month(year as int, month as int),
{
    if month == 2 {
        if leap_year(year) {
            29
        } else {
            28
        }
    } else if month == 4 || month == 6 || month == 9 || month == 11 {
        30
    } else {
        31
    }
}

/// A year has 366 days when it is a leap year, and 365 otherwise.
pub proof fn lemma_year_length(year: int)
    requires
        MIN_YEAR <= year <= MAX_YEAR,
    ensures
        days_before_year(year + 1) - days_before_year(year) == if is_leap(year) {
            366int
        } else {
            365int
        },
{
    reveal(days_before_year);
    let y = year + YEAR_LIFT;
    assert(YEAR_LIFT % 400 == 0);
    assert(y % 4 == year % 4 && y % 100 == year % 100 && y % 400 == year % 400);
    assert((y + 4) / 4 - (y + 3) / 4 == if y % 4 == 0 { 1int } else { 0int });
    assert((y + 100) / 100 - (y + 99) / 100 == if y % 100 == 0 { 1int } else { 0int });
    assert((y + 400) / 400 - (y + 399) / 400 == if y % 400 == 0 { 1int } else { 0int });
}

/// The successor of a date exists, comes later, and no date lies between
/// the two.
pub proof fn lemma_successor(date: CivilDate)
    requires
        date.valid(),
        !date.is_last(),
    ensures
        date.successor().valid(),
        date.stamp() < date.successor().stamp(),
        forall|other: CivilDate|
            other.valid() && date.stamp() < #[trigger] other.stamp() ==> date.successor().stamp()
                <= other.stamp(),
{
    let next = date.successor();
    assert forall|other: CivilDate|
        other.valid() && date.stamp() < #[trigger] other.stamp() implies next.stamp()
        <= other.stamp() by {
        if other.year == date.year && other.month == date.month {
            assert(other.day > date.day);
        }
    }
}

/// The successor of a date is one day later, on the next day of the week.
pub proof fn lemma_successor_weekday(date: CivilDate)
    requires
        date.valid(),
        !date.is_last(),
    ensures
        date.successor().day_number() == date.day_number() + 1,
        date.successor().weekday() == (date.weekday() + 1) % 7,
{
    let next = date.successor();
    let year = date.year as int;
    let month = date.month as int;
    if date.day < days_in_month(year, month) {
        assert(next.day_number() == date.day_number() + 1);
    } else if date.month < 12 {
        assert(days_before_month(year, month + 1) == days_before_month(year, month)
            + days_in_month(year, month));
        assert(next.day_number() == date.day_number() + 1);
    } else {
        lemma_year_length(year);
        assert(days_before_month(year, 12) + 31 == if is_leap(year) { 366int } else { 365int });
        assert(days_before_month(year + 1, 1) == 0);
        assert(next.day_number() == date.day_number() + 1);
    }
}

/// Dates are ordered by their stamps as by year, month and day.
pub proof fn lemma_date_order(a: CivilDate, b: CivilDate)
    requires
        a.valid(),
        b.valid(),
    ensures
        a.stamp() == b.stamp() <==> a == b,
        a.stamp() < b.stamp() <==> (a.year < b.year || (a.year == b.year && (a.month < b.month || (
        a.month == b.month && a.day < b.day)))),
{
}

/// Civil times with the same stamp are the same, and no stamp reaches the
/// end of the calendar.
pub proof fn lemma_time_stamp(a: CivilTime, b: CivilTime)
    requires
        a.valid(),
        b.valid(),
    ensures
        a.stamp() == b.stamp() <==> a == b,
        a.stamp() <= (CivilTime {
            year: 9999,
            month: 12,
            day: 31,
            hour: 23,
            minute: 59,
            second: 59,
        }).stamp(),
{
    lemma_date_order(a.date(), b.date());
}

} // verus!
