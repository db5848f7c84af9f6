use network_statistics::config::{NetworkConfig, NetworkStatisticsMode, TrafficPeriod};
use network_statistics::network_info::NetworkInfo;
use network_statistics::realtime::cycle_total;
use network_statistics::session::{
    boot_id_from, initialize_network_state_and_offset, prepare_session, OFFSET_INITIAL,
    OFFSET_REBOOTED, OFFSET_UNKNOWN,
};

const NOW: i64 = 1_715_760_000;

fn config() -> NetworkConfig {
    NetworkConfig {
        disable_network_statistics: false,
        network_interval: 10,
        network_save_path: "/tmp/state".to_string(),
        traffic_period: TrafficPeriod::Month,
        traffic_reset_day: "1".to_string(),
        network_statistics_mode: NetworkStatisticsMode::Fixed,
        network_duration: 1000,
        network_interval_number: 6,
    }
}

fn state() -> NetworkInfo {
    NetworkInfo {
        config: config(),
        boot_id: "one".to_string(),
        cycle_total_tx: 700,
        cycle_total_rx: 900,
        next_reset_timestamp: NOW + 1,
        offset_tx: 100,
        offset_rx: -5,
    }
}

fn begin(raw: &str, boot: &str, tx: u64, rx: u64) -> NetworkInfo {
    initialize_network_state_and_offset(&config(), raw, NOW, boot.to_string(), true, tx, rx)
        .unwrap()
        .unwrap()
}

#[test]
fn new_statistics_begin_with_the_counters() {
    let info = begin("", "one", 50, 60);
    assert_eq!(info.config, config());
    assert_eq!(info.boot_id, "one");
    assert_eq!((info.cycle_total_tx, info.cycle_total_rx), (0, 0));
    assert_eq!((info.offset_tx, info.offset_rx), (0, 0));
    assert_eq!(info.next_reset_timestamp, NOW + 1000);
    assert_eq!(cycle_total(50, info.offset_tx), 50);
}

#[test]
fn old_format_is_migrated() {
    let info = begin("source_tx=700\nsource_rx=900\n", "one", 50, 1000);
    assert_eq!((info.cycle_total_tx, info.cycle_total_rx), (700, 900));
    assert_eq!((info.offset_tx, info.offset_rx), (650, -100));
    assert_eq!(cycle_total(50, info.offset_tx), 700);
    assert_eq!(cycle_total(1000, info.offset_rx), 900);
    let info = begin("nonsense", "one", 50, 1000);
    assert_eq!((info.cycle_total_tx, info.offset_tx), (0, 0));
}

#[test]
fn corrupt_file_is_a_new_one() {
    assert_eq!(begin("nonsense", "one", 50, 60), begin("", "one", 50, 60));
    assert_eq!(begin("source_tx=1\n", "one", 50, 60), begin("", "one", 50, 60));
    assert_eq!(begin("source_tx=0\nsource_rx=0\n", "one", 50, 60), begin("", "one", 50, 60));
}

#[test]
fn restart_resumes_the_state() {
    assert_eq!(begin(&state().encode(), "one", 5000, 6000), state());
}

#[test]
fn second_start_resumes_the_first() {
    for raw in ["", "nonsense", "source_tx=700\nsource_rx=900\n", &state().encode()] {
        let first = begin(raw, "two", 30, 40);
        assert_eq!(begin(&first.encode(), "two", 5000, 6000), first);
    }
}

#[test]
fn offset_is_settled_after_the_start() {
    let prepare = |raw: &str, boot: &str| {
        prepare_session(&config(), raw, NOW, boot.to_string(), true).unwrap().unwrap()
    };
    let mut over = state();
    over.next_reset_timestamp = NOW;
    for (raw, boot, mark) in [
        (String::new(), "one", OFFSET_INITIAL),
        (state().encode(), "two", OFFSET_REBOOTED),
        (over.encode(), "one", OFFSET_UNKNOWN),
        (state().encode(), "one", 100),
    ] {
        let mut info = prepare(&raw, boot);
        assert_eq!(info.offset_tx, mark);
        assert!(info.can_settle_offset(30, 40));
        info.settle_offset(30, 40);
        assert_eq!(info, begin(&raw, boot, 30, 40));
    }
}

#[test]
fn session_is_not_prepared_outside_the_calendar() {
    let boot = || "one".to_string();
    assert!(prepare_session(&config(), "", i64::MAX, boot(), true).is_none());
    let mut weekly = config();
    weekly.network_statistics_mode = NetworkStatisticsMode::Natural;
    weekly.traffic_period = TrafficPeriod::Week;
    assert!(matches!(prepare_session(&weekly, "", NOW, boot(), true), Some(Ok(_))));
    weekly.traffic_reset_day = "someday".to_string();
    assert_eq!(
        prepare_session(&weekly, "", NOW, boot(), true),
        Some(Err("Invalid weekday 'someday', must be 1-7 or mon-sun".to_string()))
    );
}

#[test]
fn cycle_without_duration_is_over_at_once() {
    let mut endless = config();
    endless.network_duration = 0;
    let start = |raw: &str, tx: u64, rx: u64| {
        initialize_network_state_and_offset(&endless, raw, NOW, "one".to_string(), true, tx, rx)
            .unwrap()
            .unwrap()
    };
    let info = start(&state().encode(), 50, 60);
    assert_eq!((info.cycle_total_tx, info.cycle_total_rx), (0, 0));
    assert_eq!((info.offset_tx, info.offset_rx), (-50, -60));
    assert_eq!(info.next_reset_timestamp, NOW);
    let info = start("", 0, 0);
    assert_eq!((info.offset_tx, info.offset_rx), (0, 0));
    assert_eq!(start("source_tx=0\nsource_rx=0\n", 7, 8), start("", 7, 8));
}

#[test]
fn reboot_puts_the_counters_on_top() {
    let info = begin(&state().encode(), "two", 30, 40);
    assert_eq!(info.boot_id, "two");
    assert_eq!((info.offset_tx, info.offset_rx), (700, 900));
    assert_eq!(info.next_reset_timestamp, NOW + 1);
    assert_eq!(cycle_total(30, info.offset_tx), 730);
    assert_eq!(cycle_total(40, info.offset_rx), 940);
}

#[test]
fn reboot_is_not_told_without_a_boot_id() {
    let info = begin(&state().encode(), "", 30, 40);
    assert_eq!(info.boot_id, "");
    assert_eq!((info.offset_tx, info.offset_rx), (100, -5));
    let info = initialize_network_state_and_offset(
        &config(),
        &state().encode(),
        NOW,
        "two".to_string(),
        false,
        30,
        40,
    )
    .unwrap()
    .unwrap();
    assert_eq!(info.boot_id, "two");
    assert_eq!((info.offset_tx, info.offset_rx), (100, -5));
}

#[test]
fn new_cycle_begins_at_zero() {
    let mut old = state();
    old.next_reset_timestamp = NOW;
    let info = begin(&old.encode(), "one", 5000, 6000);
    assert_eq!((info.cycle_total_tx, info.cycle_total_rx), (0, 0));
    assert_eq!((info.offset_tx, info.offset_rx), (-5000, -6000));
    assert_eq!(info.next_reset_timestamp, NOW + 1000);
    assert_eq!(cycle_total(5000, info.offset_tx), 0);
    assert_eq!(cycle_total(5001, info.offset_tx), 1);
}

#[test]
fn new_cycle_after_a_reboot_begins_with_the_counters() {
    let mut old = state();
    old.next_reset_timestamp = NOW - 1;
    let info = begin(&old.encode(), "two", 30, 40);
    assert_eq!((info.cycle_total_tx, info.offset_tx), (0, 0));
    assert_eq!(cycle_total(30, info.offset_tx), 30);
}

#[test]
fn missing_offset_is_computed() {
    let mut old = state();
    old.offset_tx = i64::MIN;
    old.offset_rx = i64::MIN;
    let info = begin(&old.encode(), "one", 200, 1000);
    assert_eq!((info.offset_tx, info.offset_rx), (500, -100));
    assert_eq!(cycle_total(200, info.offset_tx), 700);
}

#[test]
fn changed_settings_end_the_cycle_anew() {
    let mut old = state();
    old.config.network_interval = 11;
    old.next_reset_timestamp = NOW - 5;
    let info = begin(&old.encode(), "one", 5000, 6000);
    assert_eq!(info.config, config());
    assert_eq!(info.next_reset_timestamp, NOW + 1000);
    assert_eq!((info.cycle_total_tx, info.cycle_total_rx), (700, 900));
    assert_eq!((info.offset_tx, info.offset_rx), (100, -5));
}

#[test]
fn failing_reset_is_reported_if_one_is_needed() {
    let mut config = config();
    config.network_statistics_mode = NetworkStatisticsMode::Natural;
    config.traffic_reset_day = "0".to_string();
    let begin = |raw: &str| {
        initialize_network_state_and_offset(&config, raw, NOW, "one".to_string(), true, 1, 2)
            .unwrap()
    };
    let message = "Invalid day of month '0', must be 1-31".to_string();
    assert_eq!(begin(""), Err(message.clone()));
    assert_eq!(begin(&state().encode()), Err(message.clone()));
    let mut same = state();
    same.config = config.clone();
    assert_eq!(begin(&same.encode()), Ok(same.clone()));
    same.next_reset_timestamp = NOW;
    assert_eq!(begin(&same.encode()), Err(message));
}

#[test]
fn overflow_is_noticed() {
    let mut old = state();
    old.offset_tx = i64::MIN;
    old.cycle_total_tx = 1 << 63;
    let begin = |tx| {
        initialize_network_state_and_offset(
            &config(),
            &old.encode(),
            NOW,
            "one".to_string(),
            true,
            tx,
            0,
        )
    };
    assert!(begin(1).is_none());
    assert_eq!(begin(0).unwrap().unwrap().offset_tx, i64::MIN);
    let far = initialize_network_state_and_offset(
        &config(),
        "",
        i64::MAX,
        "one".to_string(),
        true,
        0,
        0,
    );
    assert!(far.is_none());
}

#[test]
fn cycle_of_a_session_ends_later() {
    for ends in [NOW - 100_000, NOW - 1, NOW, NOW + 1, NOW + 100_000] {
        let mut old = state();
        old.next_reset_timestamp = ends;
        let info = begin(&old.encode(), "one", 1, 2);
        assert!(info.next_reset_timestamp > NOW);
        assert_eq!(info.next_reset_timestamp, if ends > NOW { ends } else { NOW + 1000 });
    }
}

#[test]
fn boot_id_is_trimmed() {
    assert_eq!(boot_id_from(Some("  4f6c-11\n")), "4f6c-11");
    assert_eq!(boot_id_from(None), "");
}
