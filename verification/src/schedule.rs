//! What holds of every reset: it lies ahead, at a midnight, on the next day that the setting names.
use vstd::prelude::*;
use crate::calendar::{
    day_number, is_date, is_leap, lemma_calendar_ends, lemma_days_in_order, month_length,
    weekday_of, CalendarDate, Moment,
};
use crate::config::{NetworkConfig, NetworkConfigView, NetworkStatisticsMode, TrafficPeriod};
use crate::number::{decimal, lemma_read_unsigned_bounds, read_unsigned, signed_decimal};
use crate::reset::{
    calculate_next_reset_timestamp, calendar_suffices, checked_next_reset_timestamp, days_in_month,
    lowercase, month_and_day, month_in_calendar, monthly_reset_day, next_month, next_reset,
    reset_day, reset_day_in, reset_in_calendar, weekday_named, weekday_number, weekly_reset_day,
    yearly_reset_day,
};
use crate::text::{halves_make_up_the_text, lemma_find, lemma_halves_are};

verus! {

/// A weekly cycle ends on the named day of the week, within the next seven days, and on no day
/// before that.
#[verifier::spinoff_prover]
#[verifier::rlimit(50)]
pub proof fn weekly_reset_is_next(setting: Seq<char>, lower: Seq<char>, today: CalendarDate)
    ensures
        match (weekday_named(lower), weekly_reset_day(setting, lower, today)) {
            (Some(target), Ok(day)) => {
                &&& weekday_of(day) == target
                &&& today.number() < day <= today.number() + 7
                &&& forall|other: int|
                    today.number() < other < day ==> #[trigger] weekday_of(other) != target
            },
            (None, Err(_)) => true,
            _ => false,
        },
{
}

/// A monthly cycle ends after today, on the set day of the month or, in a month that is too short,
/// on the last day of the month; and on no day before that.
pub proof fn monthly_reset_is_next(setting: Seq<char>, today: CalendarDate, other: CalendarDate)
    requires
        today.valid(),
        other.valid(),
        month_in_calendar(setting, today),
    ensures
        match monthly_reset_day(setting, today) {
            Ok(day) => {
                let wanted = read_unsigned(setting, u8::MAX as int)->0;
                &&& today.number() < day
                &&& other.number() == day ==> other.day == reset_day_in(
                    wanted,
                    other.year as int,
                    other.month as int,
                )
                &&& today.number() < other.number() < day ==> other.day != reset_day_in(
                    wanted,
                    other.year as int,
                    other.month as int,
                )
            },
            Err(_) => true,
        },
{
    if let Ok(day) = monthly_reset_day(setting, today) {
        let wanted = read_unsigned(setting, u8::MAX as int)->0;
        let (year, month) = (today.year as int, today.month as int);
        let (y, m) = if today.day < reset_day_in(wanted, year, month) {
            (year, month)
        } else {
            next_month(year, month)
        };
        let d = reset_day_in(wanted, y, m);
        let reset = CalendarDate { year: y as i32, month: m as u8, day: d as u8 };
        assert(reset.valid());
        assert(reset.number() == day);
        lemma_days_in_order(today, reset);
        lemma_days_in_order(other, reset);
        lemma_days_in_order(today, other);
    }
}

/// A yearly cycle ends after today, on the set day of the year, and on no day before that.
pub proof fn yearly_reset_is_next(setting: Seq<char>, today: CalendarDate, other: CalendarDate)
    requires
        today.valid(),
        other.valid(),
    ensures
        match (month_and_day(setting), yearly_reset_day(setting, today)) {
            (Ok((month, d)), Ok(day)) => {
                &&& today.number() < day
                &&& other.number() == day ==> other.month == month && other.day == d
                &&& today.number() < other.number() < day ==> !(other.month == month && other.day
                    == d)
            },
            (Err(e), Err(f)) => e == f,
            (Ok(_), Err(_)) => true,
            _ => false,
        },
{
    if let Ok((month, d)) = month_and_day(setting) {
        if let Ok(day) = yearly_reset_day(setting, today) {
            let this_year = today.year as int;
            let here = CalendarDate { year: today.year, month: month as u8, day: d as u8 };
            let y = if today.number() < day_number(this_year, month, d) {
                this_year
            } else {
                this_year + 1
            };
            let reset = CalendarDate { year: y as i32, month: month as u8, day: d as u8 };
            assert(here.valid());
            assert(reset.valid());
            assert(reset.number() == day);
            lemma_days_in_order(today, here);
            lemma_days_in_order(today, reset);
            lemma_days_in_order(other, reset);
            lemma_days_in_order(today, other);
        }
    }
}

/// The end of a yearly cycle is found exactly if this year has the set day and, once that day has
/// come, the next year has it too. So the 29th of February is refused in common years, and from
/// that day on in leap years.
pub proof fn yearly_reset_is_owed(setting: Seq<char>, today: CalendarDate)
    requires
        today.valid(),
        month_and_day(setting) is Ok,
    ensures
        ({
            let (month, d) = month_and_day(setting)->Ok_0;
            yearly_reset_day(setting, today) is Ok <==> is_date(today.year as int, month, d) && (
            today.number() < day_number(today.year as int, month, d) || is_date(
                today.year + 1,
                month,
                d,
            ))
        }),
{
}

/// The day at whose start a natural cycle ends lies after today.
pub proof fn reset_day_is_later(config: NetworkConfigView, today: CalendarDate)
    requires
        today.valid(),
        config.network_statistics_mode == NetworkStatisticsMode::Natural,
        reset_in_calendar(config, today),
    ensures
        match reset_day(config, today) {
            Ok(day) => today.number() < day,
            Err(_) => true,
        },
{
    let setting = config.traffic_reset_day;
    match config.traffic_period {
        TrafficPeriod::Week => weekly_reset_is_next(setting, lowercase(setting), today),
        TrafficPeriod::Month => monthly_reset_is_next(setting, today, today),
        TrafficPeriod::Year => yearly_reset_is_next(setting, today, today),
    }
}

/// In natural mode the next reset lies strictly after now, at a midnight of the clock that shows
/// now. In fixed mode it lies exactly the set number of seconds after now, and there is always
/// one.
pub proof fn next_reset_is_later(config: NetworkConfigView, now: Moment)
    requires
        now.valid(),
        reset_in_calendar(config, now.date),
    ensures
        match (config.network_statistics_mode, next_reset(config, now)) {
            (NetworkStatisticsMode::Natural, Ok(t)) => now.timestamp() < t && (t
                + now.offset_seconds) % 86_400 == 0,
            (NetworkStatisticsMode::Natural, Err(_)) => true,
            (NetworkStatisticsMode::Fixed, Ok(t)) => t == now.timestamp()
                + config.network_duration,
            (NetworkStatisticsMode::Fixed, Err(_)) => false,
        },
{
    if config.network_statistics_mode == NetworkStatisticsMode::Natural {
        reset_day_is_later(config, now.date);
    }
}

#[verifier::spinoff_prover]
#[verifier::rlimit(50)]
proof fn lemma_weekly_reset_stays(
    setting: Seq<char>,
    lower: Seq<char>,
    today: CalendarDate,
    later: CalendarDate,
    day: int,
)
    requires
        weekly_reset_day(setting, lower, today) == Ok::<int, Seq<char>>(day),
        today.number() <= later.number() < day,
    ensures
        weekly_reset_day(setting, lower, later) == Ok::<int, Seq<char>>(day),
{
}

proof fn lemma_monthly_reset_stays(
    setting: Seq<char>,
    today: CalendarDate,
    later: CalendarDate,
    day: int,
)
    requires
        today.valid(),
        later.valid(),
        month_in_calendar(setting, today),
        monthly_reset_day(setting, today) == Ok::<int, Seq<char>>(day),
        today.number() <= later.number() < day,
    ensures
        monthly_reset_day(setting, later) == Ok::<int, Seq<char>>(day),
{
    let wanted = read_unsigned(setting, u8::MAX as int)->0;
    let (year, month) = (today.year as int, today.month as int);
    let (y, m) = if today.day < reset_day_in(wanted, year, month) {
        (year, month)
    } else {
        next_month(year, month)
    };
    let d = reset_day_in(wanted, y, m);
    let reset = CalendarDate { year: y as i32, month: m as u8, day: d as u8 };
    assert(reset.valid());
    assert(reset.number() == day);
    assert(!later.before(today) && later.before(reset)) by {
        lemma_days_in_order(later, today);
        lemma_days_in_order(later, reset);
    }
    if later.year == y && later.month == m {
        assert(later.day < reset_day_in(wanted, y, m));
    } else {
        assert(later.year == year && later.month == month);
    }
}

proof fn lemma_yearly_reset_stays(
    setting: Seq<char>,
    today: CalendarDate,
    later: CalendarDate,
    day: int,
)
    requires
        today.valid(),
        later.valid(),
        yearly_reset_day(setting, today) == Ok::<int, Seq<char>>(day),
        today.number() <= later.number() < day,
    ensures
        yearly_reset_day(setting, later) == Ok::<int, Seq<char>>(day),
{
    let (month, d) = month_and_day(setting)->Ok_0;
    let this_year = today.year as int;
    let y = if today.number() < day_number(this_year, month, d) {
        this_year
    } else {
        this_year + 1
    };
    let reset = CalendarDate { year: y as i32, month: month as u8, day: d as u8 };
    assert(reset.valid());
    assert(reset.number() == day);
    assert(!later.before(today) && later.before(reset)) by {
        lemma_days_in_order(later, today);
        lemma_days_in_order(later, reset);
    }
    assert(later.year == this_year || later.year == y);
}

/// Until a natural reset is due, calculating it again on the same clock gives the same moment.
pub proof fn reset_stays_until_due(config: NetworkConfigView, now: Moment, later: Moment)
    requires
        now.valid(),
        later.valid(),
        now.offset_seconds == later.offset_seconds,
        config.network_statistics_mode == NetworkStatisticsMode::Natural,
        reset_in_calendar(config, now.date),
        now.timestamp() <= later.timestamp(),
    ensures
        match next_reset(config, now) {
            Ok(t) => later.timestamp() < t ==> next_reset(config, later) == next_reset(config, now),
            Err(_) => true,
        },
{
    let setting = config.traffic_reset_day;
    let (today, that_day) = (now.date, later.date);
    if let Ok(day) = reset_day(config, today) {
        if later.timestamp() < day * 86_400 - now.offset_seconds {
            lemma_between(now, later, day);
            match config.traffic_period {
                TrafficPeriod::Week => lemma_weekly_reset_stays(
                    setting,
                    lowercase(setting),
                    today,
                    that_day,
                    day,
                ),
                TrafficPeriod::Month => lemma_monthly_reset_stays(setting, today, that_day, day),
                TrafficPeriod::Year => lemma_yearly_reset_stays(setting, today, that_day, day),
            }
        }
    }
}

proof fn lemma_between(now: Moment, later: Moment, day: int)
    requires
        now.valid(),
        later.valid(),
        now.offset_seconds == later.offset_seconds,
        now.timestamp() <= later.timestamp() < day * 86_400 - now.offset_seconds,
    ensures
        now.date.number() <= later.date.number() < day,
{
    let s = now.hour * 3_600 + now.minute * 60 + now.second;
    let t = later.hour * 3_600 + later.minute * 60 + later.second;
    assert(0 <= s < 86_400);
    assert(0 <= t < 86_400);
}

/// The reset can be calculated exactly if the calendar suffices, and is the same whether the
/// calendar is looked at first or not.
pub proof fn reset_is_one(
    config: &NetworkConfig,
    now: Moment,
    suffices: bool,
    checked: Option<Result<i64, String>>,
    r: Result<i64, String>,
)
    requires
        call_ensures(calendar_suffices, (config, now.date), suffices),
        call_ensures(checked_next_reset_timestamp, (config, now), checked),
        suffices ==> call_ensures(calculate_next_reset_timestamp, (config, now), r),
    ensures
        suffices <==> checked is Some,
        suffices ==> match (checked->0, r) {
            (Ok(a), Ok(b)) => a == b,
            (Err(e), Err(f)) => e@ == f@,
            _ => false,
        },
{
}

/// In fixed mode a cycle ends the set number of seconds after now, whatever else is set.
pub proof fn fixed_reset_comes_after_the_duration(
    config: &NetworkConfig,
    now: Moment,
    r: Option<Result<i64, String>>,
)
    requires
        call_ensures(checked_next_reset_timestamp, (config, now), r),
        config.network_statistics_mode == NetworkStatisticsMode::Fixed,
    ensures
        r matches Some(Ok(t)) && t == now.timestamp() + config.network_duration,
{
}

/// In natural mode a weekly cycle ends at the midnight that begins the next day after today with
/// the named day of the week, which comes within seven days. The days have three letters or a
/// number from 1 for Monday to 7 for Sunday, and the case of letters does not matter. Any other
/// setting is refused. There is no reset if the calendar ends before that day.
pub proof fn weekly_reset_comes_on_the_named_day(
    config: &NetworkConfig,
    now: Moment,
    setting: &str,
    lower: String,
    r: Option<Result<i64, String>>,
    k: int,
)
    requires
        now.valid(),
        call_ensures(checked_next_reset_timestamp, (config, now), r),
        config.network_statistics_mode == NetworkStatisticsMode::Natural,
        config.traffic_period == TrafficPeriod::Week,
        setting@ == config.traffic_reset_day@,
        call_ensures(str::to_lowercase, (setting,), lower),
        1 <= k <= 7,
    ensures
        ({
            let names = seq!["mon"@, "tue"@, "wed"@, "thu"@, "fri"@, "sat"@, "sun"@];
            let numbers = seq!["1"@, "2"@, "3"@, "4"@, "5"@, "6"@, "7"@];
            let today = now.date.number();
            &&& lower@ == names[k - 1] || lower@ == numbers[k - 1] ==> match r {
                Some(Ok(t)) => exists|day: int|
                    {
                        &&& #[trigger] weekday_of(day) == k
                        &&& today < day <= today + 7
                        &&& day <= 2_932_896
                        &&& t == day * 86_400 - now.offset_seconds
                    },
                Some(Err(_)) => false,
                None => forall|other: CalendarDate|
                    other.valid() && today < #[trigger] other.number() ==> weekday_of(
                        other.number(),
                    ) != k,
            }
            &&& !names.contains(lower@) && !numbers.contains(lower@) ==> (r matches Some(Err(e))
                && e@ == "Invalid weekday '"@ + setting@ + "', must be 1-7 or mon-sun"@)
        }),
{
    let names = seq!["mon"@, "tue"@, "wed"@, "thu"@, "fri"@, "sat"@, "sun"@];
    let numbers = seq!["1"@, "2"@, "3"@, "4"@, "5"@, "6"@, "7"@];
    assert(lower@ == lowercase(setting@));
    let today = now.date;
    lemma_calendar_ends(today);
    weekly_reset_is_next(setting@, lower@, today);
    if lower@ == names[k - 1] || lower@ == numbers[k - 1] {
        lemma_weekday_named(lower@, k);
        let day = weekly_reset_day(setting@, lower@, today)->Ok_0;
        assert(weekday_of(day) == k);
        assert forall|other: CalendarDate|
            r is None && other.valid() && today.number()
                < #[trigger] other.number() implies weekday_of(other.number()) != k by {
            lemma_calendar_ends(other);
        }
    }
    if !names.contains(lower@) && !numbers.contains(lower@) {
        assert forall|i: int| 0 <= i < 7 implies #[trigger] names[i] != lower@ && numbers[i]
            != lower@ by {
            assert(names.contains(names[i]));
            assert(numbers.contains(numbers[i]));
        }
        assert(names[0] != lower@ && names[1] != lower@ && names[2] != lower@ && names[3] != lower@
            && names[4] != lower@ && names[5] != lower@ && names[6] != lower@);
    }
}

proof fn lemma_weekday_named(lower: Seq<char>, k: int)
    requires
        1 <= k <= 7,
        lower == seq!["mon"@, "tue"@, "wed"@, "thu"@, "fri"@, "sat"@, "sun"@][k - 1] || lower
            == seq!["1"@, "2"@, "3"@, "4"@, "5"@, "6"@, "7"@][k - 1],
    ensures
        weekday_named(lower) == Some(k),
{
    reveal_strlit("mon");
    reveal_strlit("tue");
    reveal_strlit("wed");
    reveal_strlit("thu");
    reveal_strlit("fri");
    reveal_strlit("sat");
    reveal_strlit("sun");
    reveal_strlit("1");
    reveal_strlit("2");
    reveal_strlit("3");
    reveal_strlit("4");
    reveal_strlit("5");
    reveal_strlit("6");
    reveal_strlit("7");
    assert("mon"@[0] == 'm' && "tue"@[0] == 't' && "wed"@[0] == 'w' && "thu"@[0] == 't' && "fri"@[0]
        == 'f' && "sat"@[0] == 's' && "sun"@[0] == 's');
    assert("tue"@[1] == 'u' && "thu"@[1] == 'h' && "sat"@[1] == 'a' && "sun"@[1] == 'u');
    assert("1"@[0] == '1' && "2"@[0] == '2' && "3"@[0] == '3' && "4"@[0] == '4' && "5"@[0] == '5'
        && "6"@[0] == '6' && "7"@[0] == '7');
}

/// In natural mode a monthly cycle ends at the midnight that begins the next day after today whose
/// day of the month is the set one or, in a month that is too short for it, the last one. A
/// setting that is no number from 1 to 31 is refused. There is no reset in the last two months of
/// the calendar, unless the day comes in November.
pub proof fn monthly_reset_comes_on_the_set_day(
    config: &NetworkConfig,
    now: Moment,
    r: Option<Result<i64, String>>,
)
    requires
        now.valid(),
        call_ensures(checked_next_reset_timestamp, (config, now), r),
        config.network_statistics_mode == NetworkStatisticsMode::Natural,
        config.traffic_period == TrafficPeriod::Month,
    ensures
        ({
            let setting = config.traffic_reset_day@;
            let today = now.date;
            match read_unsigned(setting, 255) {
                Some(d) => if 1 <= d <= 31 {
                    match r {
                        Some(Ok(t)) => exists|date: CalendarDate|
                            {
                                let length = month_length(date.year as int, date.month as int);
                                &&& date.valid()
                                &&& date.day == d || date.day == length && length < d
                                &&& t == #[trigger] date.number() * 86_400 - now.offset_seconds
                                &&& today.number() < date.number()
                                &&& forall|other: CalendarDate|
                                    #![trigger other.number()]
                                    other.valid() && today.number() < other.number()
                                        < date.number() ==> other.day != d && !(other.day
                                        == month_length(other.year as int, other.month as int)
                                        && other.day < d)
                            },
                        Some(Err(_)) => false,
                        None => today.year == 9999 && (today.month == 12 || today.month == 11 && (
                        today.day >= d || today.day == 30)),
                    }
                } else {
                    r matches Some(Err(e)) && e@ == "Invalid day of month '"@ + decimal(d as nat)
                        + "', must be 1-31"@
                },
                None => r matches Some(Err(e)) && e@ == "Invalid day of month '"@ + setting
                    + "', must be a number 1-31"@,
            }
        }),
{
    let setting = config.traffic_reset_day@;
    let today = now.date;
    lemma_read_unsigned_bounds(setting, 255);
    if let Some(d) = read_unsigned(setting, 255) {
        if 1 <= d <= 31 {
            if let Some(Ok(t)) = r {
                let (year, month) = (today.year as int, today.month as int);
                let (y, m) = if today.day < reset_day_in(d, year, month) {
                    (year, month)
                } else {
                    next_month(year, month)
                };
                let date = CalendarDate {
                    year: y as i32,
                    month: m as u8,
                    day: reset_day_in(d, y, m) as u8,
                };
                assert(date.valid());
                monthly_reset_is_next(setting, today, date);
                assert(t == date.number() * 86_400 - now.offset_seconds);
                assert forall|other: CalendarDate|
                    #![trigger other.number()]
                    other.valid() && today.number() < other.number()
                        < date.number() implies other.day != d && !(other.day == month_length(
                    other.year as int,
                    other.month as int,
                ) && other.day < d) by {
                    monthly_reset_is_next(setting, today, other);
                }
            }
        }
    }
}

/// In natural mode a yearly cycle ends at the midnight that begins the next day after today with
/// the set month and day. A year that lacks the day is an error, for this year and, once the day
/// has come, for the next.
pub proof fn yearly_reset_comes_on_the_set_day(
    config: &NetworkConfig,
    now: Moment,
    r: Option<Result<i64, String>>,
    before: Seq<char>,
    after: Seq<char>,
    m: int,
    d: int,
)
    requires
        now.valid(),
        call_ensures(checked_next_reset_timestamp, (config, now), r),
        config.network_statistics_mode == NetworkStatisticsMode::Natural,
        config.traffic_period == TrafficPeriod::Year,
        config.traffic_reset_day@ == before + seq!['/'] + after,
        !before.contains('/'),
        !after.contains('/'),
        read_unsigned(before, 255) == Some(m),
        read_unsigned(after, 255) == Some(d),
        1 <= m <= 12,
    ensures
        ({
            let today = now.date;
            let here = CalendarDate { year: today.year, month: m as u8, day: d as u8 };
            let there = CalendarDate { year: (today.year + 1) as i32, ..here };
            let text = "Invalid date '"@ + decimal(m as nat) + "/"@ + decimal(d as nat);
            if here.valid() && (today.before(here) || there.valid()) {
                r matches Some(Ok(t)) && exists|date: CalendarDate|
                    {
                        &&& date.valid()
                        &&& date.month == m && date.day == d
                        &&& t == #[trigger] date.number() * 86_400 - now.offset_seconds
                        &&& today.number() < date.number()
                        &&& forall|other: CalendarDate|
                            #![trigger other.number()]
                            other.valid() && today.number() < other.number() < date.number()
                                ==> !(other.month == m && other.day == d)
                    }
            } else if !here.valid() {
                r matches Some(Err(e)) && e@ == text + "': "@ + "day was not in range"@
            } else {
                r matches Some(Err(e)) && e@ == text + "' for year "@ + signed_decimal(
                    today.year + 1,
                ) + ": "@ + if today.year == 9999 {
                    "year was not in range"@
                } else {
                    "day was not in range"@
                }
            }
        }),
{
    let setting = config.traffic_reset_day@;
    let today = now.date;
    lemma_halves_are(setting, '/', before, after);
    assert(month_and_day(setting) == Ok::<(int, int), Seq<char>>((m, d)));
    lemma_read_unsigned_bounds(after, 255);
    let here = CalendarDate { year: today.year, month: m as u8, day: d as u8 };
    let there = CalendarDate { year: (today.year + 1) as i32, ..here };
    if here.valid() {
        lemma_days_in_order(today, here);
    }
    if here.valid() && (today.before(here) || there.valid()) {
        let date = if today.before(here) {
            here
        } else {
            there
        };
        yearly_reset_is_next(setting, today, date);
        assert forall|other: CalendarDate|
            #![trigger other.number()]
            other.valid() && today.number() < other.number() < date.number() implies !(other.month
            == m && other.day == d) by {
            yearly_reset_is_next(setting, today, other);
        }
        assert(date.valid());
        assert(r is Some && r->0 is Ok);
        assert(r->0->Ok_0 == date.number() * 86_400 - now.offset_seconds);
    }
}

/// A yearly setting is a month from 1 to 12 and a day, with one `/` between them. Any other is
/// refused.
pub proof fn yearly_setting_is_month_and_day(
    config: &NetworkConfig,
    now: Moment,
    r: Option<Result<i64, String>>,
    before: Seq<char>,
    after: Seq<char>,
)
    requires
        call_ensures(checked_next_reset_timestamp, (config, now), r),
        config.network_statistics_mode == NetworkStatisticsMode::Natural,
        config.traffic_period == TrafficPeriod::Year,
    ensures
        ({
            let setting = config.traffic_reset_day@;
            let split = setting == before + seq!['/'] + after && !before.contains('/');
            let (m, d) = (read_unsigned(before, 255), read_unsigned(after, 255));
            &&& !setting.contains('/') || (split && after.contains('/')) ==> (r matches Some(Err(e))
                && e@ == "Invalid date format for year reset '"@ + setting
                + "', expected 'MM/DD'"@)
            &&& split && !after.contains('/') && m is None ==> (r matches Some(Err(e)) && e@
                == "Invalid month in '"@ + setting + "'"@)
            &&& split && !after.contains('/') && m is Some && d is None ==> (r matches Some(Err(e))
                && e@ == "Invalid day in '"@ + setting + "'"@)
            &&& split && !after.contains('/') && m is Some && d is Some && !(1 <= m->0 <= 12) ==> (
            r matches Some(Err(e)) && e@ == "Invalid month value '"@ + decimal(m->0 as nat)
                + "', must be 1-12"@)
        }),
{
    let setting = config.traffic_reset_day@;
    halves_make_up_the_text(setting, '/');
    lemma_find(setting, '/');
    if setting == before + seq!['/'] + after && !before.contains('/') {
        lemma_halves_are(setting, '/', before, after);
    }
}

/// A lower-case text of three letters or one digit names a day of the week, and no other text does.
pub proof fn weekdays_have_two_names(lower: &[char], k: int, r: Option<u8>)
    requires
        call_ensures(weekday_number, (lower,), r),
        1 <= k <= 7,
    ensures
        ({
            let names = seq!["mon"@, "tue"@, "wed"@, "thu"@, "fri"@, "sat"@, "sun"@];
            let numbers = seq!["1"@, "2"@, "3"@, "4"@, "5"@, "6"@, "7"@];
            &&& lower@ == names[k - 1] || lower@ == numbers[k - 1] ==> (r matches Some(n) && n == k)
            &&& r == Some(k as u8) ==> lower@ == names[k - 1] || lower@ == numbers[k - 1]
            &&& r matches Some(n) ==> 1 <= n <= 7
        }),
{
    if lower@ == seq!["mon"@, "tue"@, "wed"@, "thu"@, "fri"@, "sat"@, "sun"@][k - 1] || lower@
        == seq!["1"@, "2"@, "3"@, "4"@, "5"@, "6"@, "7"@][k - 1] {
        lemma_weekday_named(lower@, k);
    }
}

/// April, June, September and November have 30 days, February has 28, or 29 in leap years, and the
/// other months have 31. Every fourth year is a leap year, but of the full centuries only every
/// fourth.
pub proof fn months_have_their_lengths(year: i32, month: u8, r: u8)
    requires
        1 <= month <= 12,
        call_ensures(days_in_month, (year, month), r),
    ensures
        month == 4 || month == 6 || month == 9 || month == 11 ==> r == 30,
        month == 1 || month == 3 || month == 5 || month == 7 || month == 8 || month == 10 || month
            == 12 ==> r == 31,
        month == 2 && year % 4 != 0 ==> r == 28,
        month == 2 && year % 4 == 0 && year % 100 != 0 ==> r == 29,
        month == 2 && year % 100 == 0 && year % 400 != 0 ==> r == 28,
        month == 2 && year % 400 == 0 ==> r == 29,
{
    lemma_leap_years(year as int);
    assert(r == month_length(year as int, month as int));
}

proof fn lemma_leap_years(year: int)
    ensures
        year % 4 != 0 ==> !is_leap(year),
        year % 4 == 0 && year % 100 != 0 ==> is_leap(year),
        year % 100 == 0 && year % 400 != 0 ==> !is_leap(year),
        year % 400 == 0 ==> is_leap(year),
{
    if year % 400 == 0 {
        assert(year == 4 * (100 * (year / 400)));
        assert(year % 4 == 0);
    }
}

} // verus!
