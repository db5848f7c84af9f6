use network_statistics::config::{NetworkConfig, NetworkStatisticsMode, TrafficPeriod};
use network_statistics::network_info::NetworkInfo;
use network_statistics::saver::{NetworkSaver, Phase, SaverAction, SaverEvent};

fn config(interval_number: u32) -> NetworkConfig {
    NetworkConfig {
        disable_network_statistics: false,
        network_interval: 10,
        network_save_path: "/tmp/state".to_string(),
        traffic_period: TrafficPeriod::Month,
        traffic_reset_day: "1".to_string(),
        network_statistics_mode: NetworkStatisticsMode::Fixed,
        network_duration: 1000,
        network_interval_number: interval_number,
    }
}

fn state() -> NetworkInfo {
    NetworkInfo {
        config: config(3),
        boot_id: "one".to_string(),
        cycle_total_tx: 0,
        cycle_total_rx: 0,
        next_reset_timestamp: 5000,
        offset_tx: 100,
        offset_rx: -50,
    }
}

fn running(interval_number: u32) -> NetworkSaver {
    NetworkSaver::new(config(interval_number)).step(SaverEvent::Initialized(state()))
}

/// Wakes up, measures and saves if that is due; tells whether it was.
fn round(saver: NetworkSaver, tx: u64, rx: u64) -> (NetworkSaver, bool) {
    assert!(matches!(saver.action(), SaverAction::Sleep { seconds: 10 }));
    let saver = saver.step(SaverEvent::Woken { now: 4999 });
    assert!(matches!(saver.action(), SaverAction::Measure));
    let saver = saver.step(SaverEvent::Measured { tx, rx });
    match saver.action() {
        SaverAction::Save { content } => {
            let mut expected = state();
            expected.cycle_total_tx = tx + 100;
            expected.cycle_total_rx = rx.saturating_sub(50);
            assert_eq!(content, expected.encode());
            (saver.step(SaverEvent::SaveFinished), true)
        }
        _ => (saver, false),
    }
}

#[test]
fn switched_off_it_ends_at_once() {
    let mut config = config(3);
    config.disable_network_statistics = true;
    assert!(matches!(NetworkSaver::new(config).action(), SaverAction::Stop));
}

#[test]
fn failed_initialization_ends_it() {
    let saver = NetworkSaver::new(config(3));
    assert!(matches!(saver.action(), SaverAction::Initialize));
    let saver = saver.step(SaverEvent::InitializationFailed);
    assert!(matches!(saver.action(), SaverAction::Stop));
}

#[test]
fn state_is_saved_at_regular_intervals() {
    for (interval_number, expected) in [(0, 1), (1, 1), (2, 2), (3, 3), (7, 7)] {
        let mut saver = running(interval_number);
        for i in 1u64..=30 {
            let (next, saved) = round(saver, i * 10, i * 20);
            assert_eq!(saved, i % expected == 0);
            saver = next;
        }
    }
}

#[test]
fn end_of_a_cycle_begins_a_session() {
    let saver = running(3).step(SaverEvent::Woken { now: 5000 });
    assert!(matches!(saver.action(), SaverAction::Initialize));
}

#[test]
fn totals_follow_the_counters() {
    let saver = running(3).step(SaverEvent::Woken { now: 0 });
    let saver = saver.step(SaverEvent::Measured { tx: 7, rx: 20 });
    match saver.phase {
        Phase::Sleeping(cycle) => {
            assert_eq!(cycle.info.cycle_total_tx, 107);
            assert_eq!(cycle.info.cycle_total_rx, 0);
            assert_eq!(cycle.info.next_reset_timestamp, 5000);
            assert_eq!(cycle.memory_update_count, 1);
        }
        _ => panic!(),
    }
}

#[test]
fn events_are_expected_in_their_phases() {
    let saver = running(3);
    assert!(saver.is_expected(&SaverEvent::Woken { now: 0 }));
    assert!(!saver.is_expected(&SaverEvent::SaveFinished));
    assert!(!saver.is_expected(&SaverEvent::Initialized(state())));
    let saver = saver.step(SaverEvent::Woken { now: 0 });
    assert!(saver.is_expected(&SaverEvent::Measured { tx: 1, rx: 1 }));
    assert!(!saver.is_expected(&SaverEvent::Measured { tx: i64::MAX as u64, rx: 1 }));
    assert!(!saver.is_expected(&SaverEvent::Measured { tx: 1, rx: 1 << 63 }));
}
