use network_statistics::calendar::{moment_in_utc, CalendarDate, Moment};
use network_statistics::config::{NetworkConfig, NetworkStatisticsMode, TrafficPeriod};
use network_statistics::reset::{
    calculate_next_reset_timestamp, calendar_suffices, checked_next_reset_timestamp,
    days_in_month, monthly_reset, parse_month_and_day, weekday_number, weekly_reset, yearly_reset,
};
use time::{Date, Month, OffsetDateTime, Weekday};

fn natural(period: TrafficPeriod, day: &str) -> NetworkConfig {
    NetworkConfig {
        disable_network_statistics: false,
        network_interval: 10,
        network_save_path: "/tmp/state".to_string(),
        traffic_period: period,
        traffic_reset_day: day.to_string(),
        network_statistics_mode: NetworkStatisticsMode::Natural,
        network_duration: 864_000,
        network_interval_number: 6,
    }
}

fn next(period: TrafficPeriod, day: &str, now: i64) -> Result<i64, String> {
    checked_next_reset_timestamp(&natural(period, day), moment_in_utc(now).unwrap()).unwrap()
}

fn week(day: &str, now: i64) -> Result<i64, String> {
    next(TrafficPeriod::Week, day, now)
}

fn month(day: &str, now: i64) -> Result<i64, String> {
    next(TrafficPeriod::Month, day, now)
}

fn year(day: &str, now: i64) -> Result<i64, String> {
    next(TrafficPeriod::Year, day, now)
}

/// 2024-05-15 08:00:00, a Wednesday.
const WEDNESDAY: i64 = 1_715_760_000;

fn date(year: i32, month: u8, day: u8) -> CalendarDate {
    CalendarDate { year, month, day }
}

fn theirs(d: CalendarDate) -> Date {
    Date::from_calendar_date(d.year, Month::try_from(d.month).unwrap(), d.day).unwrap()
}

fn ours(d: Date) -> CalendarDate {
    date(d.year(), u8::from(d.month()), d.day())
}

#[test]
fn fixed_cycle_lasts_for_its_duration() {
    let mut config = natural(TrafficPeriod::Week, "nonsense");
    config.network_statistics_mode = NetworkStatisticsMode::Fixed;
    let now = moment_in_utc(WEDNESDAY).unwrap();
    assert_eq!(calculate_next_reset_timestamp(&config, now), Ok(WEDNESDAY + 864_000));
    config.network_duration = 0;
    assert_eq!(calculate_next_reset_timestamp(&config, now), Ok(WEDNESDAY));
    config.network_duration = u32::MAX;
    assert_eq!(calculate_next_reset_timestamp(&config, now), Ok(WEDNESDAY + 4_294_967_295));
}

#[test]
fn weekly_cycle_ends_on_the_named_day() {
    assert_eq!(week("mon", WEDNESDAY), Ok(1_716_163_200));
    assert_eq!(week("Wed", WEDNESDAY), Ok(1_716_336_000));
    assert_eq!(week("3", WEDNESDAY), Ok(1_716_336_000));
    assert_eq!(week("THU", WEDNESDAY), Ok(1_715_817_600));
    assert_eq!(week("4", WEDNESDAY), Ok(1_715_817_600));
    for wrong in ["sunday", "0", "8", "", " mon", "m\u{f6}n"] {
        assert_eq!(
            week(wrong, WEDNESDAY),
            Err(format!("Invalid weekday '{}', must be 1-7 or mon-sun", wrong))
        );
    }
}

#[test]
fn weekday_is_found_after_lower_casing() {
    let names = ["mon", "tue", "wed", "thu", "fri", "sat", "sun"];
    for (i, name) in names.iter().enumerate() {
        let chars: Vec<char> = name.chars().collect();
        assert_eq!(weekday_number(&chars), Some(i as u8 + 1));
        let digit: Vec<char> = (i + 1).to_string().chars().collect();
        assert_eq!(weekday_number(&digit), Some(i as u8 + 1));
        assert_eq!(week(&name.to_uppercase(), WEDNESDAY), week(name, WEDNESDAY));
    }
    assert_eq!(weekday_number(&['M', 'o', 'n']), None);
}

#[test]
fn weekly_reset_is_the_next_occurrence() {
    let days = [
        Weekday::Monday,
        Weekday::Tuesday,
        Weekday::Wednesday,
        Weekday::Thursday,
        Weekday::Friday,
        Weekday::Saturday,
        Weekday::Sunday,
    ];
    let mut d = Date::from_calendar_date(2023, Month::December, 20).unwrap();
    for _ in 0..450 {
        for (i, weekday) in days.iter().enumerate() {
            let text = (i + 1).to_string();
            let reset = weekly_reset(&text, &text, ours(d)).unwrap();
            assert_eq!(theirs(reset), d.next_occurrence(*weekday));
        }
        d = d.next_day().unwrap();
    }
}

#[test]
fn monthly_cycle_ends_on_the_set_day_or_the_last() {
    assert_eq!(month("31", WEDNESDAY), Ok(1_717_113_600));
    assert_eq!(month("16", WEDNESDAY), Ok(1_715_817_600));
    assert_eq!(month("15", WEDNESDAY), Ok(1_718_409_600));
    assert_eq!(month("+16", WEDNESDAY), Ok(1_715_817_600));
    // 2024-02-10, and 2024-01-31: a leap year.
    assert_eq!(month("31", 1_707_568_215), Ok(1_709_164_800));
    assert_eq!(month("31", 1_706_677_200), Ok(1_709_164_800));
    // The last day of a short month has come.
    assert_eq!(month("30", 1_677_578_400), Ok(1_680_134_400));
    // The year ends.
    assert_eq!(month("31", 1_735_689_599), Ok(1_738_281_600));
}

#[test]
fn monthly_setting_is_checked() {
    for wrong in ["0", "32", "255"] {
        assert_eq!(
            month(wrong, WEDNESDAY),
            Err(format!("Invalid day of month '{}', must be 1-31", wrong))
        );
    }
    assert_eq!(
        month("+032", WEDNESDAY),
        Err("Invalid day of month '32', must be 1-31".to_string())
    );
    for wrong in ["", "256", "abc", "-1", " 5"] {
        assert_eq!(
            month(wrong, WEDNESDAY),
            Err(format!("Invalid day of month '{}', must be a number 1-31", wrong))
        );
    }
}

#[test]
fn monthly_reset_is_the_next_such_day() {
    let mut d = Date::from_calendar_date(2023, Month::November, 25).unwrap();
    for _ in 0..500 {
        for wanted in 1u8..=31 {
            let mut expected = d.next_day().unwrap();
            loop {
                let length = expected.month().length(expected.year());
                if expected.day() == wanted.min(length) {
                    break;
                }
                expected = expected.next_day().unwrap();
            }
            let reset = monthly_reset(&wanted.to_string(), ours(d)).unwrap();
            assert_eq!(theirs(reset), expected);
        }
        d = d.next_day().unwrap();
    }
}

#[test]
fn yearly_cycle_ends_on_the_set_day() {
    assert_eq!(year("07/04", WEDNESDAY), Ok(1_720_051_200));
    assert_eq!(year("7/4", WEDNESDAY), Ok(1_720_051_200));
    assert_eq!(year("05/16", WEDNESDAY), Ok(1_715_817_600));
    assert_eq!(year("05/15", WEDNESDAY), Ok(1_747_267_200));
    assert_eq!(year("03/01", WEDNESDAY), Ok(1_740_787_200));
    // 2024-02-10.
    assert_eq!(year("02/29", 1_707_568_215), Ok(1_709_164_800));
}

#[test]
fn yearly_setting_is_checked() {
    for wrong in ["", "0101", "1/2/3", "//", "1-2"] {
        assert_eq!(
            year(wrong, WEDNESDAY),
            Err(format!("Invalid date format for year reset '{}', expected 'MM/DD'", wrong))
        );
    }
    for wrong in ["x/1", "/1", "256/1", "x/y", " 1/1"] {
        assert_eq!(year(wrong, WEDNESDAY), Err(format!("Invalid month in '{}'", wrong)));
    }
    for wrong in ["1/x", "13/", "1/1 "] {
        assert_eq!(year(wrong, WEDNESDAY), Err(format!("Invalid day in '{}'", wrong)));
    }
    assert_eq!(
        year("13/01", WEDNESDAY),
        Err("Invalid month value '13', must be 1-12".to_string())
    );
    assert_eq!(year("0/1", WEDNESDAY), Err("Invalid month value '0', must be 1-12".to_string()));
    assert_eq!(
        year("04/31", WEDNESDAY),
        Err("Invalid date '4/31': day was not in range".to_string())
    );
    assert_eq!(year("4/0", WEDNESDAY), Err("Invalid date '4/0': day was not in range".to_string()));
    assert_eq!(
        year("02/29", 1_675_990_923),
        Err("Invalid date '2/29': day was not in range".to_string())
    );
    assert_eq!(
        year("02/29", WEDNESDAY),
        Err("Invalid date '2/29' for year 2025: day was not in range".to_string())
    );
    assert_eq!(
        yearly_reset("1/1", date(9999, 12, 31)),
        Err("Invalid date '1/1' for year 10000: year was not in range".to_string())
    );
    assert_eq!(parse_month_and_day("02/30"), Ok((2, 30)));
}

#[test]
fn reset_is_at_midnight_of_the_clock() {
    let now = Moment {
        date: date(2024, 5, 15),
        hour: 23,
        minute: 30,
        second: 0,
        offset_seconds: 28_800,
    };
    let config = natural(TrafficPeriod::Month, "16");
    assert_eq!(calculate_next_reset_timestamp(&config, now), Ok(1_715_788_800));
    let mut config = natural(TrafficPeriod::Month, "16");
    config.network_statistics_mode = NetworkStatisticsMode::Fixed;
    config.network_duration = 1;
    assert_eq!(calculate_next_reset_timestamp(&config, now), Ok(1_715_787_001));
}

#[test]
fn reset_lies_ahead() {
    let mut now = WEDNESDAY;
    for _ in 0..400 {
        for (period, day) in [
            (TrafficPeriod::Week, "sun"),
            (TrafficPeriod::Month, "31"),
            (TrafficPeriod::Year, "12/31"),
        ] {
            let t = next(period, day, now).unwrap();
            assert!(t > now);
            assert_eq!(t % 86_400, 0);
        }
        now += 86_399;
    }
}

#[test]
fn reset_stays_until_due() {
    for (period, day) in [
        (TrafficPeriod::Week, "sun"),
        (TrafficPeriod::Month, "31"),
        (TrafficPeriod::Year, "3/1"),
    ] {
        let t = next(period, day, WEDNESDAY).unwrap();
        let mut later = WEDNESDAY;
        while later < t {
            assert_eq!(next(period, day, later), Ok(t));
            later += 40_000;
        }
        assert_eq!(next(period, day, t - 1), Ok(t));
        assert!(next(period, day, t).unwrap() > t);
    }
}

#[test]
fn months_have_their_lengths() {
    for year in [-9999, -400, -4, -1, 0, 1, 1900, 2000, 2023, 2024, 9999] {
        for month in 1u8..=12 {
            if year == 9999 && month == 12 {
                continue;
            }
            let m = Month::try_from(month).unwrap();
            assert_eq!(days_in_month(year, month), m.length(year));
        }
    }
    assert_eq!(days_in_month(2024, 2), 29);
    assert_eq!(days_in_month(1900, 2), 28);
}

#[test]
fn moments_follow_from_timestamps() {
    for t in [0, -1, 1, 86_399, 86_400, -86_401, WEDNESDAY, -377_705_116_800, 253_402_300_799] {
        let m = moment_in_utc(t).unwrap();
        let o = OffsetDateTime::from_unix_timestamp(t).unwrap();
        assert_eq!(theirs(m.date), o.date());
        assert_eq!((m.hour, m.minute, m.second), o.to_hms());
        assert_eq!(m.offset_seconds, 0);
    }
    assert_eq!(moment_in_utc(-377_705_116_801), None);
    assert_eq!(moment_in_utc(253_402_300_800), None);
    assert_eq!(
        moment_in_utc(WEDNESDAY),
        Some(Moment {
            date: date(2024, 5, 15),
            hour: 8,
            minute: 0,
            second: 0,
            offset_seconds: 0,
        })
    );
}

#[test]
fn dates_are_in_order() {
    assert!(date(2023, 12, 31).is_before(date(2024, 1, 1)));
    assert!(date(2024, 1, 31).is_before(date(2024, 2, 1)));
    assert!(date(2024, 2, 1).is_before(date(2024, 2, 2)));
    assert!(!date(2024, 2, 2).is_before(date(2024, 2, 2)));
    assert!(!date(2024, 2, 2).is_before(date(2024, 1, 31)));
}

#[test]
fn calendar_comes_to_an_end() {
    let suffices = |period, day: &str, d| calendar_suffices(&natural(period, day), d);
    // 9999-12-31 is a Friday.
    assert!(suffices(TrafficPeriod::Week, "fri", date(9999, 12, 24)));
    assert!(!suffices(TrafficPeriod::Week, "fri", date(9999, 12, 31)));
    assert!(suffices(TrafficPeriod::Week, "fri", date(9999, 12, 30)));
    assert!(!suffices(TrafficPeriod::Week, "sat", date(9999, 12, 30)));
    assert!(suffices(TrafficPeriod::Week, "nonsense", date(9999, 12, 31)));
    assert!(suffices(TrafficPeriod::Month, "10", date(9999, 11, 9)));
    assert!(!suffices(TrafficPeriod::Month, "10", date(9999, 11, 10)));
    assert!(!suffices(TrafficPeriod::Month, "31", date(9999, 11, 30)));
    assert!(!suffices(TrafficPeriod::Month, "10", date(9999, 12, 1)));
    assert!(suffices(TrafficPeriod::Month, "0", date(9999, 12, 1)));
    assert!(suffices(TrafficPeriod::Year, "1/1", date(9999, 12, 31)));
    let now = moment_in_utc(253_402_257_600).unwrap();
    assert!(checked_next_reset_timestamp(&natural(TrafficPeriod::Week, "1"), now).is_none());
    assert!(checked_next_reset_timestamp(&natural(TrafficPeriod::Year, "1/1"), now)
        .unwrap()
        .is_err());
}
