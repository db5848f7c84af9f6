use network_statistics::realtime::{
    checked_realtime_network, count_sockets, cycle_total, cycle_total_fits, realtime_connections, realtime_network,
    to_signed, update_traffic_offset, Connections, Network, SocketProtocol, TrafficOffset,
};
use network_statistics::traffic::{
    checked_filter_interfaces, checked_filter_network, filter_network, should_filter,
    NetworkInterface,
};
use sysinfo::Networks;

fn interface(name: &str, mac: [u8; 6], n: u64) -> NetworkInterface {
    NetworkInterface {
        name: name.to_string(),
        mac_address: mac,
        total_transmitted: n,
        total_received: 2 * n,
        transmitted: 3 * n,
        received: 4 * n,
    }
}

const MAC: [u8; 6] = [0, 0, 0, 0, 0, 1];

#[test]
fn only_real_interfaces_count() {
    let list = vec![
        interface("eth0", MAC, 1),
        interface("lo", MAC, 10),
        interface("docker0", MAC, 100),
        interface("wlan0", [2, 0, 0, 0, 0, 0], 1000),
        interface("eth1", [0; 6], 10_000),
        interface("myvethx", MAC, 100_000),
    ];
    assert_eq!(checked_filter_interfaces(&list), Some((3003, 4004, 1001, 2002)));
    assert_eq!(checked_filter_interfaces(&[]), Some((0, 0, 0, 0)));
}

#[test]
fn order_does_not_matter() {
    let forward = vec![interface("a", MAC, 1), interface("lo", MAC, 7), interface("c", MAC, 5)];
    let backward = vec![interface("c", MAC, 5), interface("lo", MAC, 7), interface("a", MAC, 1)];
    assert_eq!(checked_filter_interfaces(&forward), checked_filter_interfaces(&backward));
    assert_eq!(checked_filter_interfaces(&forward), Some((18, 24, 6, 12)));
}

#[test]
fn sums_that_do_not_fit() {
    let half = u64::MAX / 4;
    let list = vec![interface("a", MAC, half), interface("b", MAC, half)];
    assert_eq!(checked_filter_interfaces(&list), None);
    let hidden = vec![interface("a", MAC, half), interface("lo", MAC, half)];
    assert_eq!(
        checked_filter_interfaces(&hidden),
        Some((3 * half, 4 * half, half, 2 * half))
    );
}

#[test]
fn names_of_virtual_interfaces() {
    for name in [
        "br-1", "cni0", "docker0", "podman1", "flannel.1", "lo", "veth12", "virbr0", "vmbr0", "tap0",
        "tun3", "fwln1", "fwpr2", "xbrx", "global",
    ] {
        assert!(should_filter(name), "{}", name);
    }
    for name in ["eth0", "wlan0", "enp3s0", "", "b-r", "Lo"] {
        assert!(!should_filter(name), "{}", name);
    }
}

#[test]
fn interfaces_of_this_machine() {
    let networks = Networks::new_with_refreshed_list();
    let mut expected = (0u64, 0u64, 0u64, 0u64);
    for (name, data) in &networks {
        if should_filter(name) || data.mac_address().0 == [0; 6] {
            continue;
        }
        expected.0 += data.transmitted();
        expected.1 += data.received();
        expected.2 += data.total_transmitted();
        expected.3 += data.total_received();
    }
    assert_eq!(checked_filter_network(&networks), Some(expected));
    assert_eq!(filter_network(&networks), expected);
    assert_eq!(filter_network(&Networks::new()), (0, 0, 0, 0));
}

#[test]
fn totals_are_never_negative() {
    assert_eq!(cycle_total(100, 50), 150);
    assert_eq!(cycle_total(100, -100), 0);
    assert_eq!(cycle_total(100, -101), 0);
    assert_eq!(cycle_total(u64::MAX, 5), 4);
    assert_eq!(cycle_total(1 << 63, 0), 0);
    assert!(cycle_total(100, 7) <= cycle_total(101, 7));
    assert!(cycle_total_fits(100, i64::MIN));
    assert!(!cycle_total_fits(100, i64::MAX));
    assert!(!cycle_total_fits(1 << 63, -1));
    for n in [0, 1, 5, i64::MAX as u64, 1 << 63, u64::MAX - 1, u64::MAX] {
        assert_eq!(to_signed(n), n as i64);
    }
}

#[test]
fn report_goes_by_the_offset() {
    let mut offset = TrafficOffset { tx: 0, rx: 0 };
    update_traffic_offset(&mut offset, 10, -20);
    assert_eq!(offset, TrafficOffset { tx: 10, rx: -20 });
    let rate = |bytes: u64, ms: u64| (bytes as f64 / (ms as f64 / 1000.0)) as u64;
    assert_eq!(
        realtime_network((300, 601, 1000, 5), 2000, offset, rate),
        Network { up: 150, down: 300, total_up: 1010, total_down: 0 }
    );
    assert_eq!(
        realtime_network((300, 601, 1000, 5), 0, offset, rate),
        Network { up: 0, down: 0, total_up: 1010, total_down: 0 }
    );
}

#[test]
fn offset_moves_totals_and_interval_moves_rates() {
    let sums = (300, 601, 1000, 5000);
    let rate = |bytes: u64, ms: u64| (bytes as f64 / (ms as f64 / 1000.0)) as u64;
    let one = TrafficOffset { tx: 10, rx: -20 };
    let other = TrafficOffset { tx: -7, rx: 40 };
    let base = realtime_network(sums, 1000, one, rate);
    assert_eq!(base, Network { up: 300, down: 601, total_up: 1010, total_down: 4980 });
    let slower = realtime_network(sums, 4000, one, rate);
    assert_eq!(slower, Network { up: 75, down: 150, total_up: 1010, total_down: 4980 });
    let moved = realtime_network(sums, 1000, other, rate);
    assert_eq!(moved, Network { up: 300, down: 601, total_up: 993, total_down: 5040 });
}

#[test]
fn report_on_this_machine() {
    let networks = Networks::new_with_refreshed_list();
    let sums = filter_network(&networks);
    let rate = |bytes: u64, ms: u64| bytes / ms;
    let offset = TrafficOffset { tx: 10, rx: 20 };
    let report = checked_realtime_network(&networks, 2, offset, rate);
    let expected = Network {
        up: sums.0 / 2,
        down: sums.1 / 2,
        total_up: sums.2 + 10,
        total_down: sums.3 + 20,
    };
    assert_eq!(report, Some(expected));
    let still = checked_realtime_network(&networks, 0, offset, rate);
    assert_eq!(still, Some(Network { up: 0, down: 0, ..expected }));
    let moved = TrafficOffset { tx: 0, rx: 7 };
    assert_eq!(
        checked_realtime_network(&networks, 2, moved, rate),
        Some(Network { total_up: sums.2, total_down: sums.3 + 7, ..expected })
    );
}

#[test]
fn report_without_interfaces() {
    let nothing = Networks::new();
    let rate = |bytes: u64, ms: u64| bytes + ms;
    let offset = TrafficOffset { tx: i64::MAX, rx: -1 };
    assert_eq!(
        checked_realtime_network(&nothing, 5, offset, rate),
        Some(Network { up: 5, down: 5, total_up: i64::MAX as u64, total_down: 0 })
    );
}

#[test]
fn excluded_interface_changes_nothing() {
    let plain = vec![interface("a", MAC, 1), interface("c", MAC, 5)];
    let with = vec![interface("a", MAC, 1), interface("tun0", MAC, 9), interface("c", MAC, 5)];
    assert_eq!(checked_filter_interfaces(&with), checked_filter_interfaces(&plain));
}

#[test]
fn connections_are_added_up() {
    assert_eq!(
        realtime_connections(Some(3), Some(4), None, Some(5)),
        Connections { tcp: 7, udp: 5 }
    );
    assert_eq!(realtime_connections(None, None, None, None), Connections { tcp: 0, udp: 0 });
}

#[test]
fn sockets_are_counted_by_protocol() {
    let tcp = Some(SocketProtocol::Tcp);
    let udp = Some(SocketProtocol::Udp);
    assert_eq!(
        count_sockets(Some(vec![tcp, udp, None, tcp, tcp])),
        Connections { tcp: 3, udp: 1 }
    );
    assert_eq!(count_sockets(None), Connections { tcp: 0, udp: 0 });
}
