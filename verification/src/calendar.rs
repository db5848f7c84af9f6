//! Dates of the proleptic Gregorian calendar and moments in time, with the calendar computations
//! of the `time` crate.
use vstd::prelude::*;

verus! {

/// A day of the calendar.
#[derive(Clone, Copy, Debug, PartialEq, Eq, Structural)]
pub struct CalendarDate {
    pub year: i32,
    /// From 1 to 12.
    pub month: u8,
    /// From 1 to the length of the month.
    pub day: u8,
}

/// A moment to the second, as a clock shows it that is `offset_seconds` ahead of UTC.
#[derive(Clone, Copy, Debug, PartialEq, Eq, Structural)]
pub struct Moment {
    pub date: CalendarDate,
    pub hour: u8,
    pub minute: u8,
    pub second: u8,
    pub offset_seconds: i32,
}

/// Whether `year` has a 29th of February.
pub open spec fn is_leap(year: int) -> bool {
    year % 4 == 0 && (year % 100 != 0 || year % 400 == 0)
}

/// The number of days in a month.
pub open spec fn month_length(year: int, month: int) -> int {
    if month == 2 {
        if is_leap(year) {
            29
        } else {
            28
        }
    } else if month == 4 || month == 6 || month == 9 || month == 11 {
        30
    } else {
        31
    }
}

/// The number of days of a year that lie before a month.
pub open spec fn days_before_month(year: int, month: int) -> int
    decreases month,
{
    if month <= 1 {
        0
    } else {
        days_before_month(year, month - 1) + month_length(year, month - 1)
    }
}

/// The number of days from the first day of the year 1 to the first day of `year`.
pub open spec fn days_before_year(year: int) -> int {
    365 * (year - 1) + (year - 1) / 4 - (year - 1) / 100 + (year - 1) / 400
}

/// Whether the calendar has this day, with a year from -9999 to 9999.
pub open spec fn is_date(year: int, month: int, day: int) -> bool {
    &&& -9999 <= year <= 9999
    &&& 1 <= month <= 12
    &&& 1 <= day <= month_length(year, month)
}

/// The number of days from the first of January 1970 to the given day.
pub open spec fn day_number(year: int, month: int, day: int) -> int {
    days_before_year(year) + days_before_month(year, month) + day - 1 - 719_162
}

/// The number of the first day of the calendar.
pub open spec fn first_day() -> int {
    day_number(-9999, 1, 1)
}

/// The number of the last day of the calendar.
pub open spec fn last_day() -> int {
    day_number(9999, 12, 31)
}

/// The day of the week: 1 for Monday to 7 for Sunday. Day 0 was a Thursday.
pub open spec fn weekday_of(day: int) -> int {
    (day + 3) % 7 + 1
}

impl CalendarDate {
    /// Whether the calendar has this day.
    pub open spec fn valid(self) -> bool {
        is_date(self.year as int, self.month as int, self.day as int)
    }

    /// The number of days from the first of January 1970 to this day.
    pub open spec fn number(self) -> int {
        day_number(self.year as int, self.month as int, self.day as int)
    }

    /// Whether this day lies before `other`.
    pub open spec fn before(self, other: CalendarDate) -> bool {
        ||| self.year < other.year
        ||| self.year == other.year && self.month < other.month
        ||| self.year == other.year && self.month == other.month && self.day < other.day
    }

    /// Whether this day lies before `other`.
    pub fn is_before(self, other: CalendarDate) -> (r: bool)
        ensures
            r == self.before(other),
    {
        self.year < other.year || (self.year == other.year && (self.month < other.month || (
        self.month == other.month && self.day < other.day)))
    }
}

impl Moment {
    /// Whether there is such a moment. A clock is at most 25:59:59 ahead of or behind UTC.
    pub open spec fn valid(self) -> bool {
        &&& self.date.valid()
        &&& self.hour < 24
        &&& self.minute < 60
        &&& self.second < 60
        &&& -93_599 <= self.offset_seconds <= 93_599
    }

    /// The number of seconds since the start of 1970 in UTC.
    pub open spec fn timestamp(self) -> int {
        self.date.number() * 86_400 + self.hour * 3_600 + self.minute * 60 + self.second
            - self.offset_seconds
    }
}

/// Whether the calendar has, in UTC, the day of a Unix timestamp.
pub open spec fn is_timestamp(timestamp: int) -> bool {
    first_day() * 86_400 <= timestamp < (last_day() + 1) * 86_400
}

/// What is said of a day that the calendar does not have.
pub open spec fn date_error(year: int) -> Seq<char> {
    if -9999 <= year <= 9999 {
        "day was not in range"@
    } else {
        "year was not in range"@
    }
}

/// `time::Date::from_calendar_date` gives the day with the given year, month and day of the month
/// if the calendar has it. Otherwise its error says which component is at fault: the year if it
/// is outside -9999 to 9999, else the day.
#[verifier::external_body]
pub(crate) fn from_calendar_date(year: i32, month: u8, day: u8) -> (r: Result<CalendarDate, String>)
    requires
        1 <= month <= 12,
    ensures
        match r {
            Ok(date) => date == (CalendarDate { year, month, day }) && date.valid(),
            Err(text) => !is_date(year as int, month as int, day as int) && text@ == date_error(
                year as int,
            ),
        },
{
    let month = time::Month::try_from(month).unwrap();
    match time::Date::from_calendar_date(year, month, day) {
        Ok(date) => Ok(
            CalendarDate { year: date.year(), month: u8::from(date.month()), day: date.day() },
        ),
        Err(error) => Err(error.to_string()),
    }
}

/// `time::Date::previous_day` gives the day before, or nothing for the first day of the calendar.
#[verifier::external_body]
pub(crate) fn previous_day(date: CalendarDate) -> (r: Option<CalendarDate>)
    requires
        date.valid(),
    ensures
        match r {
            Some(previous) => previous.valid() && previous.number() == date.number() - 1,
            None => date.number() == first_day(),
        },
{
    let month = time::Month::try_from(date.month).unwrap();
    match time::Date::from_calendar_date(date.year, month, date.day).unwrap().previous_day() {
        Some(date) => Some(
            CalendarDate { year: date.year(), month: u8::from(date.month()), day: date.day() },
        ),
        None => None,
    }
}

/// `time::Date::replace_day` gives the same month with another day, if the month has that day.
#[verifier::external_body]
pub(crate) fn replace_day(date: CalendarDate, day: u8) -> (r: Option<CalendarDate>)
    requires
        date.valid(),
    ensures
        match r {
            Some(replaced) => replaced == (CalendarDate { year: date.year, month: date.month, day })
                && replaced.valid(),
            None => !is_date(date.year as int, date.month as int, day as int),
        },
{
    let month = time::Month::try_from(date.month).unwrap();
    match time::Date::from_calendar_date(date.year, month, date.day).unwrap().replace_day(day) {
        Ok(date) => Some(
            CalendarDate { year: date.year(), month: u8::from(date.month()), day: date.day() },
        ),
        Err(_) => None,
    }
}

/// Adding `time::Duration::days` to a `time::Date` moves it by that many days. It panics if the
/// calendar does not reach that far.
#[verifier::external_body]
pub(crate) fn add_days(date: CalendarDate, days: i64) -> (r: CalendarDate)
    requires
        date.valid(),
        first_day() <= date.number() + days <= last_day(),
    ensures
        r.valid(),
        r.number() == date.number() + days,
{
    let month = time::Month::try_from(date.month).unwrap();
    let date = time::Date::from_calendar_date(date.year, month, date.day).unwrap();
    let date = date + time::Duration::days(days);
    CalendarDate { year: date.year(), month: u8::from(date.month()), day: date.day() }
}

/// `time::Date::weekday` with `time::Weekday::number_from_monday` gives the day of the week, from
/// 1 for Monday to 7 for Sunday.
#[verifier::external_body]
pub(crate) fn weekday(date: CalendarDate) -> (r: u8)
    requires
        date.valid(),
    ensures
        r == weekday_of(date.number()),
{
    let month = time::Month::try_from(date.month).unwrap();
    let date = time::Date::from_calendar_date(date.year, month, date.day).unwrap();
    date.weekday().number_from_monday()
}

/// `time::OffsetDateTime::unix_timestamp` gives the number of seconds since the start of 1970 in
/// UTC.
#[verifier::external_body]
pub(crate) fn unix_timestamp(moment: Moment) -> (r: i64)
    requires
        moment.valid(),
    ensures
        r == moment.timestamp(),
{
    let month = time::Month::try_from(moment.date.month).unwrap();
    let date = time::Date::from_calendar_date(moment.date.year, month, moment.date.day).unwrap();
    let time = time::Time::from_hms(moment.hour, moment.minute, moment.second).unwrap();
    let offset = time::UtcOffset::from_whole_seconds(moment.offset_seconds).unwrap();
    time::PrimitiveDateTime::new(date, time).assume_offset(offset).unix_timestamp()
}

/// `time::OffsetDateTime::from_unix_timestamp` gives the moment in UTC with the given timestamp,
/// if the calendar reaches that far.
#[verifier::external_body]
pub(crate) fn from_unix_timestamp(timestamp: i64) -> (r: Option<Moment>)
    ensures
        match r {
            Some(moment) => moment.valid() && moment.offset_seconds == 0 && moment.timestamp()
                == timestamp,
            None => !is_timestamp(timestamp as int),
        },
{
    match time::OffsetDateTime::from_unix_timestamp(timestamp) {
        Ok(moment) => {
            let date = CalendarDate {
                year: moment.year(),
                month: u8::from(moment.month()),
                day: moment.day(),
            };
            let (hour, minute, second) = moment.to_hms();
            Some(Moment { date, hour, minute, second, offset_seconds: 0 })
        },
        Err(_) => None,
    }
}

/// A year is followed by the next one after its 365 or 366 days.
pub proof fn lemma_next_year(year: int)
    ensures
        days_before_year(year + 1) == days_before_year(year) + if is_leap(year) {
            366int
        } else {
            365
        },
{
}

/// The months of a year make up the year.
pub proof fn lemma_months(year: int)
    ensures
        days_before_month(year, 1) == 0,
        days_before_month(year, 12) + 31 == if is_leap(year) {
            366int
        } else {
            365
        },
{
    reveal_with_fuel(days_before_month, 13);
}

proof fn lemma_months_in_order(year: int, a: int, b: int)
    requires
        1 <= a < b <= 12,
    ensures
        days_before_month(year, a) + month_length(year, a) <= days_before_month(year, b),
    decreases b - a,
{
    if a < b - 1 {
        lemma_months_in_order(year, a, b - 1);
    }
}

proof fn lemma_years_in_order(a: int, b: int)
    requires
        a <= b,
    ensures
        days_before_year(a) + 365 * (b - a) <= days_before_year(b),
    decreases b - a,
{
    if a < b {
        lemma_years_in_order(a, b - 1);
        lemma_next_year(b - 1);
    }
}

proof fn lemma_within_year(d: CalendarDate)
    requires
        d.valid(),
    ensures
        days_before_month(d.year as int, d.month as int) >= 0,
        days_before_month(d.year as int, d.month as int) + d.day <= if is_leap(d.year as int) {
            366int
        } else {
            365
        },
{
    let y = d.year as int;
    lemma_months(y);
    if d.month < 12 {
        lemma_months_in_order(y, d.month as int, 12);
    }
    if d.month > 1 {
        lemma_months_in_order(y, 1, d.month as int);
    }
}

/// Of two days, the earlier one has the smaller number.
pub proof fn lemma_days_in_order(a: CalendarDate, b: CalendarDate)
    requires
        a.valid(),
        b.valid(),
    ensures
        a.before(b) <==> a.number() < b.number(),
        a == b <==> a.number() == b.number(),
{
    if a.before(b) {
        lemma_before(a, b);
    }
    if b.before(a) {
        lemma_before(b, a);
    }
}

proof fn lemma_before(a: CalendarDate, b: CalendarDate)
    requires
        a.valid(),
        b.valid(),
        a.before(b),
    ensures
        a.number() < b.number(),
{
    let y = a.year as int;
    lemma_within_year(a);
    lemma_within_year(b);
    if a.year < b.year {
        lemma_next_year(y);
        lemma_years_in_order(y + 1, b.year as int);
    } else if a.month < b.month {
        lemma_months_in_order(y, a.month as int, b.month as int);
    }
}

/// Every day of the calendar lies between its first and its last.
pub proof fn lemma_calendar_ends(d: CalendarDate)
    requires
        d.valid(),
    ensures
        first_day() <= d.number() <= last_day(),
        first_day() == -4_371_587,
        last_day() == 2_932_896,
{
    lemma_months(-9999);
    lemma_months(9999);
    let first = CalendarDate { year: (-9999) as i32, month: 1, day: 1 };
    let last = CalendarDate { year: 9999, month: 12, day: 31 };
    lemma_days_in_order(first, d);
    lemma_days_in_order(d, last);
}

/// The moment in UTC with the given timestamp.
pub open spec fn utc_moment(timestamp: int) -> Moment {
    choose|m: Moment|
        m.valid() && m.offset_seconds == 0 && #[trigger] m.timestamp() == timestamp
}

/// On one clock, different moments have different timestamps.
pub proof fn lemma_moments_differ(a: Moment, b: Moment)
    requires
        a.valid(),
        b.valid(),
        a.offset_seconds == b.offset_seconds,
        a.timestamp() == b.timestamp(),
    ensures
        a == b,
{
    let s = a.hour * 3_600 + a.minute * 60 + a.second;
    let t = b.hour * 3_600 + b.minute * 60 + b.second;
    assert(0 <= s < 86_400);
    assert(0 <= t < 86_400);
    assert(a.date.number() == b.date.number());
    lemma_days_in_order(a.date, b.date);
}

/// The moment in UTC with the given timestamp, if the calendar reaches that far.
pub fn moment_in_utc(timestamp: i64) -> (r: Option<Moment>)
    ensures
        match r {
            Some(moment) => {
                &&& is_timestamp(timestamp as int)
                &&& moment == utc_moment(timestamp as int)
                &&& moment.valid()
                &&& moment.offset_seconds == 0
                &&& moment.timestamp() == timestamp
            },
            None => !is_timestamp(timestamp as int),
        },
{
    let r = from_unix_timestamp(timestamp);
    proof {
        if let Some(moment) = r {
            lemma_calendar_ends(moment.date);
            lemma_moments_differ(moment, utc_moment(timestamp as int));
        }
    }
    r
}

} // verus!
