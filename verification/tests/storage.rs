use network_statistics::config::{NetworkConfig, NetworkStatisticsMode, TrafficPeriod};
use network_statistics::network_info::{parse_old_format_for_migration, Field, NetworkInfo};

fn example() -> NetworkInfo {
    NetworkInfo {
        config: NetworkConfig {
            disable_network_statistics: false,
            network_interval: 10,
            network_save_path: "/var/lib/state = 1.conf".to_string(),
            traffic_period: TrafficPeriod::Week,
            traffic_reset_day: "mon".to_string(),
            network_statistics_mode: NetworkStatisticsMode::Natural,
            network_duration: 3600,
            network_interval_number: 6,
        },
        boot_id: "4f6c-11".to_string(),
        cycle_total_tx: 18_446_744_073_709_551_615,
        cycle_total_rx: 0,
        next_reset_timestamp: 1_716_163_200,
        offset_tx: -42,
        offset_rx: i64::MIN,
    }
}

const EXAMPLE: &str = "disable_network_statistics=false\n\
network_interval=10\n\
network_save_path=/var/lib/state = 1.conf\n\
traffic_period=Week\n\
traffic_reset_day=mon\n\
network_statistics_mode=Natural\n\
network_duration=3600\n\
network_interval_number=6\n\
boot_id=4f6c-11\n\
cycle_total_tx=18446744073709551615\n\
cycle_total_rx=0\n\
next_reset_timestamp=1716163200\n\
offset_tx=-42\n\
offset_rx=-9223372036854775808\n";

const SHORT: &str = "disable_network_statistics=true\n\
network_interval=1\n\
network_save_path=p\n\
boot_id=\n\
cycle_total_tx=2\n\
cycle_total_rx=3\n\
next_reset_timestamp=-4\n";

#[test]
fn state_is_written_line_by_line() {
    assert_eq!(example().encode(), EXAMPLE);
}

#[test]
fn state_is_read_back() {
    assert_eq!(NetworkInfo::decode(EXAMPLE), Ok(example()));
    for period in [TrafficPeriod::Week, TrafficPeriod::Month, TrafficPeriod::Year] {
        for mode in [NetworkStatisticsMode::Natural, NetworkStatisticsMode::Fixed] {
            let mut info = example();
            info.config.traffic_period = period;
            info.config.network_statistics_mode = mode;
            info.config.disable_network_statistics = true;
            info.boot_id = String::new();
            info.config.traffic_reset_day = "a\rb \u{fc}".to_string();
            assert_eq!(NetworkInfo::decode(&info.encode()), Ok(info));
        }
    }
}

#[test]
fn state_with_unfit_text_is_not_read_back() {
    for text in [" x", "x ", "\tx", "x\r"] {
        let mut info = example();
        info.boot_id = text.to_string();
        let read = NetworkInfo::decode(&info.encode()).unwrap();
        assert_eq!(read.boot_id, "x");
        assert_ne!(read, info);
    }
    let mut info = example();
    info.boot_id = "a\nb=c".to_string();
    assert_ne!(NetworkInfo::decode(&info.encode()), Ok(info));
}

#[test]
fn reading_and_writing_again_settles() {
    let first = NetworkInfo::decode(SHORT).unwrap();
    let again = NetworkInfo::decode(&first.encode()).unwrap();
    assert_eq!(again, first);
}

#[test]
fn optional_fields_have_defaults() {
    let info = NetworkInfo::decode(SHORT).unwrap();
    assert!(info.config.disable_network_statistics);
    assert_eq!(info.config.network_interval, 1);
    assert_eq!(info.config.network_save_path, "p");
    assert_eq!(info.config.traffic_period, TrafficPeriod::Month);
    assert_eq!(info.config.traffic_reset_day, "1");
    assert_eq!(info.config.network_statistics_mode, NetworkStatisticsMode::Fixed);
    assert_eq!(info.config.network_duration, 864_000);
    assert_eq!(info.config.network_interval_number, 6);
    assert_eq!(info.boot_id, "");
    assert_eq!((info.cycle_total_tx, info.cycle_total_rx), (2, 3));
    assert_eq!(info.next_reset_timestamp, -4);
    assert_eq!((info.offset_tx, info.offset_rx), (i64::MIN, i64::MIN));
}

#[test]
fn comments_blanks_and_unknown_keys_are_passed_over() {
    let text = format!("# comment without equals\n\n   \nunknown = 5\n{}  # x=y\r\nFOO=\n", SHORT);
    assert_eq!(NetworkInfo::decode(&text), NetworkInfo::decode(SHORT));
}

#[test]
fn white_space_and_line_endings_do_not_matter() {
    let text = SHORT.replace("=", " \t= ").replace("\n", " \r\n  ");
    assert_eq!(NetworkInfo::decode(&text), NetworkInfo::decode(SHORT));
}

#[test]
fn order_of_lines_does_not_matter() {
    let mut reversed: Vec<&str> = EXAMPLE.lines().collect();
    reversed.reverse();
    assert_eq!(NetworkInfo::decode(&reversed.join("\n")), Ok(example()));
    let mut rotated: Vec<&str> = EXAMPLE.lines().collect();
    for _ in 0..rotated.len() {
        rotated.rotate_left(1);
        assert_eq!(NetworkInfo::decode(&rotated.join("\n")), Ok(example()));
    }
    let missing = Err("Missing field: network_interval".to_string());
    assert_eq!(NetworkInfo::decode("boot_id=1\ndisable_network_statistics=true"), missing);
    assert_eq!(NetworkInfo::decode("disable_network_statistics=true\nboot_id=1"), missing);
    let faulty = ["cycle_total_tx=x\nnoise", "noise\ncycle_total_tx=x"];
    assert!(faulty.iter().all(|text| NetworkInfo::decode(text).is_err()));
}

#[test]
fn different_states_are_written_differently() {
    let mut other = example();
    other.offset_rx = 1;
    assert_ne!(other.encode(), example().encode());
    let mut padded = example();
    padded.boot_id = " 4f6c-11\r".to_string();
    assert_ne!(padded.encode(), example().encode());
    assert_eq!(NetworkInfo::decode(&padded.encode()), Ok(example()));
}

#[test]
fn line_feeds_can_make_states_look_alike() {
    let mut one = example();
    one.config.network_save_path = "a\ntraffic_period=Week\ntraffic_reset_day=b".to_string();
    one.config.traffic_reset_day = "c".to_string();
    let mut other = example();
    other.config.network_save_path = "a".to_string();
    other.config.traffic_reset_day = "b\ntraffic_period=Week\ntraffic_reset_day=c".to_string();
    assert_ne!(one, other);
    assert_eq!(one.encode(), other.encode());
    other.config.traffic_reset_day = "c".to_string();
    assert_ne!(one.encode(), other.encode());
}

#[test]
fn last_value_counts() {
    let info = NetworkInfo::decode(&format!("{}cycle_total_tx=9\n", SHORT)).unwrap();
    assert_eq!(info.cycle_total_tx, 9);
    let text = format!("{}traffic_period=Week\ntraffic_period=Weeks\n", SHORT);
    assert_eq!(NetworkInfo::decode(&text).unwrap().config.traffic_period, TrafficPeriod::Month);
    let text = format!("{}network_statistics_mode=Natural\n", SHORT);
    let mode = NetworkInfo::decode(&text).unwrap().config.network_statistics_mode;
    assert_eq!(mode, NetworkStatisticsMode::Natural);
}

#[test]
fn line_without_equals_is_an_error() {
    let text = format!("{}  oops \nboot_id", SHORT);
    assert_eq!(
        NetworkInfo::decode(&text),
        Err("Format error: expected key=value, got 'oops'".to_string())
    );
}

#[test]
fn value_of_the_wrong_type_is_an_error() {
    for (key, name) in [
        ("disable_network_statistics", "bool"),
        ("network_interval", "u32"),
        ("network_duration", "u32"),
        ("network_interval_number", "u32"),
        ("cycle_total_tx", "u64"),
        ("cycle_total_rx", "u64"),
        ("next_reset_timestamp", "i64"),
        ("offset_tx", "i64"),
        ("offset_rx", "i64"),
    ] {
        let text = format!("{}{}=wrong\n{}", SHORT, key, SHORT);
        assert_eq!(
            NetworkInfo::decode(&text),
            Err(format!("Invalid {} for key '{}'", name, key))
        );
    }
    assert_eq!(
        NetworkInfo::decode("network_interval=4294967296"),
        Err("Invalid u32 for key 'network_interval'".to_string())
    );
}

#[test]
fn missing_field_is_an_error() {
    let required = [
        "disable_network_statistics",
        "network_interval",
        "network_save_path",
        "boot_id",
        "cycle_total_tx",
        "cycle_total_rx",
        "next_reset_timestamp",
    ];
    for key in required {
        let text: String = SHORT
            .lines()
            .filter(|l| !l.starts_with(&format!("{}=", key)))
            .map(|l| format!("{}\n", l))
            .collect();
        assert_eq!(NetworkInfo::decode(&text), Err(format!("Missing field: {}", key)));
    }
    assert_eq!(
        NetworkInfo::decode(""),
        Err("Missing field: disable_network_statistics".to_string())
    );
}

#[test]
fn fields_are_found_by_their_names() {
    for field in [Field::BootId, Field::OffsetTx, Field::OffsetRx, Field::NetworkIntervalNumber] {
        let name: Vec<char> = field.name().chars().collect();
        assert_eq!(Field::with_name(&name), Some(field));
    }
    assert_eq!(Field::with_name(&['x']), None);
}

#[test]
fn totals_of_the_old_format() {
    assert_eq!(parse_old_format_for_migration("source_tx=5\nsource_rx=6\nlatest_tx=1\n"), Some((5, 6)));
    assert_eq!(parse_old_format_for_migration(" source_rx = 6 \r\nnoise\n source_tx=+7"), Some((7, 6)));
    assert_eq!(parse_old_format_for_migration("source_tx=5\n"), None);
    assert_eq!(parse_old_format_for_migration("source_tx=5\nsource_rx=x\n"), None);
    assert_eq!(parse_old_format_for_migration("source_tx=5\nsource_rx=6\nsource_tx=-1"), None);
    assert_eq!(parse_old_format_for_migration("source_tx=5\nsource_rx=6\nsource_tx=1"), Some((1, 6)));
    assert_eq!(parse_old_format_for_migration("#source_tx=5\nsource_rx=6"), None);
    assert_eq!(parse_old_format_for_migration(""), None);
}

#[test]
fn copies_are_equal() {
    let info = example();
    assert_eq!(info.clone(), info);
    let mut other = info.clone();
    other.config.network_save_path = "x".to_string();
    assert_ne!(other, info);
}
