//! When the next statistics cycle begins.
use vstd::prelude::*;
use crate::calendar::{
    add_days, date_error, day_number, from_calendar_date, is_date, last_day, lemma_calendar_ends,
    lemma_days_in_order, lemma_months, lemma_next_year, month_length, previous_day, replace_day,
    unix_timestamp, weekday, weekday_of, CalendarDate, Moment,
};
use crate::config::{NetworkConfig, NetworkConfigView, NetworkStatisticsMode, TrafficPeriod};
use crate::number::{decimal, i64_to_text, parse_u8, read_unsigned, signed_decimal, u64_to_text};
use crate::text::{halves, is_text, lemma_find, position, split_once, to_chars};

verus! {

/// The lower-case form of a text.
pub uninterp spec fn lowercase(s: Seq<char>) -> Seq<char>;

/// The lower-case form of an ASCII character.
pub open spec fn ascii_lowercase(c: char) -> char {
    if 'A' as u32 <= c as u32 <= 'Z' as u32 {
        (c as u32 + 32) as char
    } else {
        c
    }
}

/// `str::to_lowercase` gives the lower-case form of a text, by the rules of Unicode. On ASCII text
/// it turns `A` to `Z` into `a` to `z` and leaves the rest alone. What it gives on other text has
/// a name only.
pub assume_specification[ str::to_lowercase ](s: &str) -> (r: String)
    ensures
        r@ == lowercase(s@),
        (forall|i: int| 0 <= i < s@.len() ==> (#[trigger] s@[i]) as u32 <= 127) ==> r@
            == s@.map_values(|c: char| ascii_lowercase(c)),
;

/// The day of the week that a lower-case text names, from 1 for Monday to 7 for Sunday.
pub open spec fn weekday_named(s: Seq<char>) -> Option<int> {
    if s == "mon"@ || s == "1"@ {
        Some(1)
    } else if s == "tue"@ || s == "2"@ {
        Some(2)
    } else if s == "wed"@ || s == "3"@ {
        Some(3)
    } else if s == "thu"@ || s == "4"@ {
        Some(4)
    } else if s == "fri"@ || s == "5"@ {
        Some(5)
    } else if s == "sat"@ || s == "6"@ {
        Some(6)
    } else if s == "sun"@ || s == "7"@ {
        Some(7)
    } else {
        None
    }
}

/// The number of days from one day of the week to the next occurrence of another, which is never
/// today.
pub open spec fn days_until(target: int, today: int) -> int {
    let days = (target - today) % 7;
    if days == 0 {
        7
    } else {
        days
    }
}

/// The smaller of two numbers.
pub open spec fn lesser(a: int, b: int) -> int {
    if a <= b {
        a
    } else {
        b
    }
}

/// The month after a month.
pub open spec fn next_month(year: int, month: int) -> (int, int) {
    if month == 12 {
        (year + 1, 1)
    } else {
        (year, month + 1)
    }
}

/// The day of a month on which a cycle ends. A month that is too short ends it on its last day.
pub open spec fn reset_day_in(reset_day: int, year: int, month: int) -> int {
    lesser(reset_day, month_length(year, month))
}

/// The next day after `today` on which a monthly cycle ends.
pub open spec fn next_monthly_reset(reset_day: int, today: CalendarDate) -> int {
    let (year, month) = (today.year as int, today.month as int);
    if today.day < reset_day_in(reset_day, year, month) {
        day_number(year, month, reset_day_in(reset_day, year, month))
    } else {
        let (y, m) = next_month(year, month);
        day_number(y, m, reset_day_in(reset_day, y, m))
    }
}

/// The next day after `today` on which a weekly cycle ends, for a day of the week that is given in
/// lower case.
pub open spec fn weekly_reset_day(
    setting: Seq<char>,
    lower: Seq<char>,
    today: CalendarDate,
) -> Result<int, Seq<char>> {
    match weekday_named(lower) {
        Some(target) => Ok(today.number() + days_until(target, weekday_of(today.number()))),
        None => Err("Invalid weekday '"@ + setting + "', must be 1-7 or mon-sun"@),
    }
}

/// The next day after `today` on which a monthly cycle ends.
pub open spec fn monthly_reset_day(setting: Seq<char>, today: CalendarDate) -> Result<
    int,
    Seq<char>,
> {
    match read_unsigned(setting, u8::MAX as int) {
        Some(reset_day) => if 1 <= reset_day <= 31 {
            Ok(next_monthly_reset(reset_day, today))
        } else {
            Err("Invalid day of month '"@ + decimal(reset_day as nat) + "', must be 1-31"@)
        },
        None => Err("Invalid day of month '"@ + setting + "', must be a number 1-31"@),
    }
}

/// A month and a day of the month that are written `MM/DD`. The day is not held against the month.
pub open spec fn month_and_day(setting: Seq<char>) -> Result<(int, int), Seq<char>> {
    match halves(setting, '/') {
        Some((before, after)) if !after.contains('/') => {
            match (read_unsigned(before, u8::MAX as int), read_unsigned(after, u8::MAX as int)) {
                (None, _) => Err("Invalid month in '"@ + setting + "'"@),
                (Some(_), None) => Err("Invalid day in '"@ + setting + "'"@),
                (Some(month), Some(day)) => if 1 <= month <= 12 {
                    Ok((month, day))
                } else {
                    Err("Invalid month value '"@ + decimal(month as nat) + "', must be 1-12"@)
                },
            }
        },
        _ => Err("Invalid date format for year reset '"@ + setting + "', expected 'MM/DD'"@),
    }
}

/// A month and a day of the month, as they are written in messages.
pub open spec fn month_day_text(month: int, day: int) -> Seq<char> {
    decimal(month as nat) + "/"@ + decimal(day as nat)
}

/// The next day after `today` on which a yearly cycle ends. Both this year and the year of that
/// day have to have the day.
pub open spec fn yearly_reset_day(setting: Seq<char>, today: CalendarDate) -> Result<
    int,
    Seq<char>,
> {
    match month_and_day(setting) {
        Ok((month, day)) => {
            let this_year = today.year as int;
            if !is_date(this_year, month, day) {
                Err("Invalid date '"@ + month_day_text(month, day) + "': "@ + date_error(this_year))
            } else if today.number() < day_number(this_year, month, day) {
                Ok(day_number(this_year, month, day))
            } else if is_date(this_year + 1, month, day) {
                Ok(day_number(this_year + 1, month, day))
            } else {
                Err(
                    "Invalid date '"@ + month_day_text(month, day) + "' for year "@
                        + signed_decimal(this_year + 1) + ": "@ + date_error(this_year + 1),
                )
            }
        },
        Err(e) => Err(e),
    }
}

/// The day at whose start a natural cycle ends.
pub open spec fn reset_day(config: NetworkConfigView, today: CalendarDate) -> Result<
    int,
    Seq<char>,
> {
    let setting = config.traffic_reset_day;
    match config.traffic_period {
        TrafficPeriod::Week => weekly_reset_day(setting, lowercase(setting), today),
        TrafficPeriod::Month => monthly_reset_day(setting, today),
        TrafficPeriod::Year => yearly_reset_day(setting, today),
    }
}

/// When the next cycle begins, as a Unix timestamp: after a fixed time, or at a midnight of the
/// clock that shows `now`.
pub open spec fn next_reset(config: NetworkConfigView, now: Moment) -> Result<int, Seq<char>> {
    match config.network_statistics_mode {
        NetworkStatisticsMode::Fixed => Ok(now.timestamp() + config.network_duration),
        NetworkStatisticsMode::Natural => match reset_day(config, now.date) {
            Ok(day) => Ok(day * 86_400 - now.offset_seconds),
            Err(e) => Err(e),
        },
    }
}

/// Whether the calendar reaches far enough to find the day at whose start a weekly cycle ends.
pub open spec fn week_in_calendar(lower: Seq<char>, today: CalendarDate) -> bool {
    match weekday_named(lower) {
        Some(target) => today.number() + days_until(target, weekday_of(today.number()))
            <= last_day(),
        None => true,
    }
}

/// Whether the calendar reaches far enough to find the day at whose start a monthly cycle ends.
/// The length of a month is told from the month after it, so the last month does not do.
pub open spec fn month_in_calendar(setting: Seq<char>, today: CalendarDate) -> bool {
    match read_unsigned(setting, u8::MAX as int) {
        Some(reset_day) => 1 <= reset_day <= 31 && today.year == 9999 ==> today.month < 11 || (
        today.month == 11 && today.day < reset_day_in(reset_day, 9999, 11)),
        None => true,
    }
}

/// Whether the calendar reaches far enough for the next reset to be found.
pub open spec fn reset_in_calendar(config: NetworkConfigView, today: CalendarDate) -> bool {
    let setting = config.traffic_reset_day;
    match (config.network_statistics_mode, config.traffic_period) {
        (NetworkStatisticsMode::Natural, TrafficPeriod::Week) => week_in_calendar(
            lowercase(setting),
            today,
        ),
        (NetworkStatisticsMode::Natural, TrafficPeriod::Month) => month_in_calendar(
            setting,
            today,
        ),
        _ => true,
    }
}

/// Helper to get the number of days in a given month and year.
pub fn days_in_month(year: i32, month: u8) -> (r: u8)
    requires
        is_date(year as int, month as int, 1),
        !(year == 9999 && month == 12),
    ensures
        r == month_length(year as int, month as int),
{
    let next_month: u8 = if month == 12 {
        1
    } else {
        month + 1
    };
    let next_year: i32 = if next_month == 1 {
        year + 1
    } else {
        year
    };
    let first = from_calendar_date(next_year, next_month, 1).unwrap();
    proof {
        let y = year as int;
        let length = month_length(y, month as int);
        let last = CalendarDate { year, month, day: length as u8 };
        lemma_months(y);
        lemma_months(y + 1);
        lemma_next_year(y);
        assert(last.number() == first.number() - 1);
        lemma_calendar_ends(last);
        assert forall|d: CalendarDate| d.valid() && d.number() == last.number() implies d
            == last by {
            lemma_days_in_order(d, last);
        }
    }
    previous_day(first).unwrap().day
}

/// The day of the week that a lower-case text names, from 1 for Monday to 7 for Sunday.
pub fn weekday_number(lower: &[char]) -> (r: Option<u8>)
    ensures
        match r {
            Some(n) => weekday_named(lower@) == Some(n as int),
            None => weekday_named(lower@) is None,
        },
        r matches Some(n) ==> 1 <= n <= 7,
{
    if is_text(lower, "mon") || is_text(lower, "1") {
        Some(1)
    } else if is_text(lower, "tue") || is_text(lower, "2") {
        Some(2)
    } else if is_text(lower, "wed") || is_text(lower, "3") {
        Some(3)
    } else if is_text(lower, "thu") || is_text(lower, "4") {
        Some(4)
    } else if is_text(lower, "fri") || is_text(lower, "5") {
        Some(5)
    } else if is_text(lower, "sat") || is_text(lower, "6") {
        Some(6)
    } else if is_text(lower, "sun") || is_text(lower, "7") {
        Some(7)
    } else {
        None
    }
}

/// The next day after `today` on which a weekly cycle ends, where `lower` is the lower-case form
/// of the setting.
pub fn weekly_reset(setting: &str, lower: &str, today: CalendarDate) -> (r: Result<
    CalendarDate,
    String,
>)
    requires
        today.valid(),
        week_in_calendar(lower@, today),
    ensures
        match r {
            Ok(date) => date.valid() && weekly_reset_day(setting@, lower@, today) == Ok::<
                int,
                Seq<char>,
            >(date.number()),
            Err(e) => weekly_reset_day(setting@, lower@, today) == Err::<int, Seq<char>>(e@),
        },
{
    let lower_chars = to_chars(lower);
    match weekday_number(lower_chars.as_slice()) {
        Some(target) => {
            let mut days_to_add: i64 = target as i64 - weekday(today) as i64;
            if days_to_add <= 0 {
                days_to_add += 7;
            }
            proof {
                lemma_calendar_ends(today);
            }
            Ok(add_days(today, days_to_add))
        },
        None => {
            let mut message = "Invalid weekday '".to_string();
            message.append(setting);
            message.append("', must be 1-7 or mon-sun");
            Err(message)
        },
    }
}

/// The smaller of two days of the month.
fn smaller(a: u8, b: u8) -> (r: u8)
    ensures
        r == lesser(a as int, b as int),
{
    if a <= b {
        a
    } else {
        b
    }
}

/// The next day after `today` on which a monthly cycle ends.
pub fn monthly_reset(setting: &str, today: CalendarDate) -> (r: Result<CalendarDate, String>)
    requires
        today.valid(),
        month_in_calendar(setting@, today),
    ensures
        match r {
            Ok(date) => date.valid() && monthly_reset_day(setting@, today) == Ok::<
                int,
                Seq<char>,
            >(date.number()),
            Err(e) => monthly_reset_day(setting@, today) == Err::<int, Seq<char>>(e@),
        },
{
    let chars = to_chars(setting);
    let reset_day = match parse_u8(chars.as_slice()) {
        Some(n) => n,
        None => {
            let mut message = "Invalid day of month '".to_string();
            message.append(setting);
            message.append("', must be a number 1-31");
            return Err(message);
        },
    };
    if !(1 <= reset_day && reset_day <= 31) {
        let mut message = "Invalid day of month '".to_string();
        message.append(u64_to_text(reset_day as u64).as_str());
        message.append("', must be 1-31");
        return Err(message);
    }
    let mut target_date = today;
    let max_day_current_month = days_in_month(target_date.year, target_date.month);
    let target_day = smaller(reset_day, max_day_current_month);
    if today.day >= target_day {
        let (year, month) = if target_date.month == 12 {
            (target_date.year + 1, 1u8)
        } else {
            (target_date.year, target_date.month + 1)
        };
        target_date = from_calendar_date(year, month, 1).unwrap();
    }
    let max_day_target_month = days_in_month(target_date.year, target_date.month);
    let final_day = smaller(reset_day, max_day_target_month);
    Ok(replace_day(target_date, final_day).unwrap())
}

/// A month and a day of the month that are written `MM/DD`.
pub fn parse_month_and_day(setting: &str) -> (r: Result<(u8, u8), String>)
    ensures
        match r {
            Ok((month, day)) => month_and_day(setting@) == Ok::<(int, int), Seq<char>>(
                (month as int, day as int),
            ),
            Err(e) => month_and_day(setting@) == Err::<(int, int), Seq<char>>(e@),
        },
{
    let chars = to_chars(setting);
    let parts = match split_once(chars.as_slice(), '/') {
        Some((before, after)) => {
            proof {
                lemma_find(after@, '/');
            }
            if position(after, '/') < after.len() {
                None
            } else {
                Some((before, after))
            }
        },
        None => None,
    };
    let (before, after) = match parts {
        Some(parts) => parts,
        None => {
            let mut message = "Invalid date format for year reset '".to_string();
            message.append(setting);
            message.append("', expected 'MM/DD'");
            return Err(message);
        },
    };
    let month = match parse_u8(before) {
        Some(n) => n,
        None => {
            let mut message = "Invalid month in '".to_string();
            message.append(setting);
            message.append("'");
            return Err(message);
        },
    };
    let day = match parse_u8(after) {
        Some(n) => n,
        None => {
            let mut message = "Invalid day in '".to_string();
            message.append(setting);
            message.append("'");
            return Err(message);
        },
    };
    if 1 <= month && month <= 12 {
        Ok((month, day))
    } else {
        let mut message = "Invalid month value '".to_string();
        message.append(u64_to_text(month as u64).as_str());
        message.append("', must be 1-12");
        Err(message)
    }
}

/// The next day after `today` on which a yearly cycle ends.
pub fn yearly_reset(setting: &str, today: CalendarDate) -> (r: Result<CalendarDate, String>)
    requires
        today.valid(),
    ensures
        match r {
            Ok(date) => date.valid() && yearly_reset_day(setting@, today) == Ok::<
                int,
                Seq<char>,
            >(date.number()),
            Err(e) => yearly_reset_day(setting@, today) == Err::<int, Seq<char>>(e@),
        },
{
    let (month, day) = match parse_month_and_day(setting) {
        Ok(parts) => parts,
        Err(e) => return Err(e),
    };
    let mut next_year = today.year;
    let mut message = "Invalid date '".to_string();
    message.append(u64_to_text(month as u64).as_str());
    message.append("/");
    message.append(u64_to_text(day as u64).as_str());
    assert(message@ =~= "Invalid date '"@ + month_day_text(month as int, day as int));
    let reset_date_this_year = match from_calendar_date(next_year, month, day) {
        Ok(date) => date,
        Err(e) => {
            message.append("': ");
            message.append(e.as_str());
            return Err(message);
        },
    };
    proof {
        lemma_days_in_order(today, reset_date_this_year);
    }
    if !today.is_before(reset_date_this_year) {
        next_year += 1;
    }
    match from_calendar_date(next_year, month, day) {
        Ok(date) => Ok(date),
        Err(e) => {
            message.append("' for year ");
            message.append(i64_to_text(next_year as i64).as_str());
            message.append(": ");
            message.append(e.as_str());
            Err(message)
        },
    }
}

/// Calculates the timestamp of the next reset event based on the configuration.
pub fn calculate_next_reset_timestamp(config: &NetworkConfig, now: Moment) -> (r: Result<
    i64,
    String,
>)
    requires
        now.valid(),
        reset_in_calendar(config@, now.date),
    ensures
        match r {
            Ok(timestamp) => next_reset(config@, now) == Ok::<int, Seq<char>>(timestamp as int),
            Err(e) => next_reset(config@, now) == Err::<int, Seq<char>>(e@),
        },
{
    proof {
        lemma_calendar_ends(now.date);
    }
    if config.network_statistics_mode == NetworkStatisticsMode::Fixed {
        return Ok(unix_timestamp(now) + config.network_duration as i64);
    }
    let setting = config.traffic_reset_day.as_str();
    let next_reset_date = match config.traffic_period {
        TrafficPeriod::Week => weekly_reset(setting, setting.to_lowercase().as_str(), now.date),
        TrafficPeriod::Month => monthly_reset(setting, now.date),
        TrafficPeriod::Year => yearly_reset(setting, now.date),
    };
    match next_reset_date {
        Ok(date) => Ok(
            unix_timestamp(
                Moment {
                    date,
                    hour: 0,
                    minute: 0,
                    second: 0,
                    offset_seconds: now.offset_seconds,
                },
            ),
        ),
        Err(e) => Err(e),
    }
}

/// Whether the calendar reaches far enough for the next reset to be found. It does before the
/// last weeks of the year 9999.
pub fn calendar_suffices(config: &NetworkConfig, today: CalendarDate) -> (r: bool)
    requires
        today.valid(),
    ensures
        r == reset_in_calendar(config@, today),
{
    if config.network_statistics_mode == NetworkStatisticsMode::Fixed {
        return true;
    }
    let setting = config.traffic_reset_day.as_str();
    match config.traffic_period {
        TrafficPeriod::Week => {
            let lower = to_chars(setting.to_lowercase().as_str());
            match weekday_number(lower.as_slice()) {
                Some(target) => {
                    let mut days: i64 = target as i64 - weekday(today) as i64;
                    if days <= 0 {
                        days += 7;
                    }
                    proof {
                        let december = CalendarDate { year: 9999, month: 12, day: 1 };
                        lemma_months(9999);
                        lemma_calendar_ends(today);
                        lemma_days_in_order(today, december);
                    }
                    today.year < 9999 || today.month < 12 || today.day as i64 + days <= 31
                },
                None => true,
            }
        },
        TrafficPeriod::Month => {
            let chars = to_chars(setting);
            match parse_u8(chars.as_slice()) {
                Some(reset_day) => reset_day < 1 || reset_day > 31 || today.year < 9999
                    || today.month < 11 || (today.month == 11 && today.day < smaller(
                    reset_day,
                    30,
                )),
                None => true,
            }
        },
        TrafficPeriod::Year => true,
    }
}

/// Calculates the timestamp of the next reset event, or gives nothing if the calendar does not
/// reach that far.
pub fn checked_next_reset_timestamp(config: &NetworkConfig, now: Moment) -> (r: Option<
    Result<i64, String>,
>)
    requires
        now.valid(),
    ensures
        match r {
            Some(Ok(timestamp)) => reset_in_calendar(config@, now.date) && next_reset(config@, now)
                == Ok::<int, Seq<char>>(timestamp as int),
            Some(Err(e)) => reset_in_calendar(config@, now.date) && next_reset(config@, now)
                == Err::<int, Seq<char>>(e@),
            None => !reset_in_calendar(config@, now.date),
        },
{
    if calendar_suffices(config, now.date) {
        Some(calculate_next_reset_timestamp(config, now))
    } else {
        None
    }
}

} // verus!
