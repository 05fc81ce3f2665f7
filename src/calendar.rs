//! Calendar gate: dates as day numbers, weekdays, and the week-boundary test.

use chrono::Datelike;
use vstd::prelude::*;

verus! {

/// Earliest day number a [`Date`] may hold (well inside the calendar's range).
pub const EARLIEST_DAY: i32 = -95_000_000;

/// Latest day number a [`Date`] may hold (well inside the calendar's range).
pub const LATEST_DAY: i32 = 95_000_000;

/// Day numbers that a [`Date`] may hold.
pub open spec fn in_calendar_range(day: int) -> bool {
    EARLIEST_DAY <= day <= LATEST_DAY
}

/// Days since Monday of the day with number `day`, where day 1 is
/// January 1 of year 1 in the proleptic Gregorian calendar, a Monday.
pub open spec fn weekday_index(day: int) -> int {
    (day - 1) % 7
}

/// Relies on chrono's `NaiveDate::from_num_days_from_ce_opt` (day 1 is
/// January 1 of year 1, defined for every day in range) and on
/// `Datelike::weekday` with `Weekday::num_days_from_monday`: the weekday of
/// a day number, counted from Monday.
#[verifier::external_body]
fn days_since_monday(day: i32) -> (r: u32)
    requires
        in_calendar_range(day as int),
    ensures
        r as int == weekday_index(day as int),
{
    chrono::NaiveDate::from_num_days_from_ce_opt(day).unwrap().weekday().num_days_from_monday()
}

/// Day of the week.
#[derive(Clone, Copy, Debug, PartialEq, Eq, Structural)]
pub enum Weekday {
    Mon,
    Tue,
    Wed,
    Thu,
    Fri,
    Sat,
    Sun,
}

/// The weekday that lies `index` days after a Monday (within one week).
pub open spec fn weekday_from_index(index: int) -> Weekday {
    if index == 0 {
        Weekday::Mon
    } else if index == 1 {
        Weekday::Tue
    } else if index == 2 {
        Weekday::Wed
    } else if index == 3 {
        Weekday::Thu
    } else if index == 4 {
        Weekday::Fri
    } else if index == 5 {
        Weekday::Sat
    } else {
        Weekday::Sun
    }
}

/// A calendar date in UTC, held as its day number: day 1 is January 1 of
/// year 1 in the proleptic Gregorian calendar.
#[derive(Clone, Copy, Debug)]
pub struct Date {
    days_from_ce: i32,
}

impl Date {
    #[verifier::type_invariant]
    spec fn in_range(&self) -> bool {
        in_calendar_range(self.days_from_ce as int)
    }

    /// The day number of this date.
    pub closed spec fn day_number(&self) -> int {
        self.days_from_ce as int
    }

    /// The date with the given day number, if it lies in the supported range.
    pub fn from_days_from_ce(days: i32) -> (r: Option<Date>)
        ensures
            r is Some <==> in_calendar_range(days as int),
            r matches Some(d) ==> d.day_number() == days as int,
    {
        if EARLIEST_DAY <= days && days <= LATEST_DAY {
            Some(Date { days_from_ce: days })
        } else {
            None
        }
    }

    /// The day number of this date.
    pub fn days_from_ce(&self) -> (r: i32)
        ensures
            r as int == self.day_number(),
            in_calendar_range(r as int),
    {
        proof {
            use_type_invariant(self);
        }
        self.days_from_ce
    }

    /// The day of the week of this date.
    pub fn weekday(&self) -> (r: Weekday)
        ensures
            r == weekday_from_index(weekday_index(self.day_number())),
    {
        let i = days_since_monday(self.days_from_ce());
        if i == 0 {
            Weekday::Mon
        } else if i == 1 {
            Weekday::Tue
        } else if i == 2 {
            Weekday::Wed
        } else if i == 3 {
            Weekday::Thu
        } else if i == 4 {
            Weekday::Fri
        } else if i == 5 {
            Weekday::Sat
        } else {
            Weekday::Sun
        }
    }
}

/// Whether the half-open span of days `(start, today]` holds a Monday.
pub open spec fn week_passed_between(start: int, today: int) -> bool {
    exists|d: int| start < d <= today && #[trigger] weekday_index(d) == 0
}

/// Whether a week boundary has been crossed since `release_start`: true iff
/// some day after `release_start`, up to and including `now`, is a Monday.
pub fn week_passed(release_start: Date, now: Date) -> (r: bool)
    ensures
        r == week_passed_between(release_start.day_number(), now.day_number()),
{
    let start = release_start.days_from_ce();
    let end = now.days_from_ce();
    if end <= start {
        return false;
    }
    let mut counter: i32 = start + 1;
    while counter <= end
        invariant
            in_calendar_range(start as int),
            in_calendar_range(end as int),
            start < counter <= end + 1,
            start == release_start.day_number(),
            end == now.day_number(),
            forall|d: int| start < d < counter ==> #[trigger] weekday_index(d) != 0,
        decreases end + 1 - counter,
    {
        if days_since_monday(counter) == 0 {
            return true;
        }
        counter = counter + 1;
    }
    false
}

/// Whether `day` is one of `skip_days`.
pub fn is_skip_day(skip_days: &[Weekday], day: Weekday) -> (r: bool)
    ensures
        r == skip_days@.contains(day),
{
    let mut i: usize = 0;
    while i < skip_days.len()
        invariant
            i <= skip_days@.len(),
            forall|j: int| 0 <= j < i ==> skip_days@[j] != day,
        decreases skip_days@.len() - i,
    {
        if skip_days[i] == day {
            return true;
        }
        i = i + 1;
    }
    false
}

} // verus!
