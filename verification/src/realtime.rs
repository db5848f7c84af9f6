//! The figures that are reported while the program runs.
use vstd::prelude::*;
use sysinfo::Networks;
use crate::traffic::{checked_filter_network, interfaces_of, unordered_traffic, Traffic};

verus! {

/// What has to be added to the byte counters to get the totals of the current cycle.
#[derive(Clone, Copy, Debug, PartialEq, Eq, Structural)]
pub struct TrafficOffset {
    pub tx: i64,
    pub rx: i64,
}

/// Network throughput in bytes per second, and the totals of the current cycle.
#[derive(Clone, Copy, Debug, PartialEq, Eq, Structural)]
pub struct Network {
    pub up: u64,
    pub down: u64,
    pub total_up: u64,
    pub total_down: u64,
}

/// The number of open connections.
#[derive(Clone, Copy, Debug, PartialEq, Eq, Structural)]
pub struct Connections {
    pub tcp: u64,
    pub udp: u64,
}

/// The protocol of a socket.
#[derive(Clone, Copy, Debug, PartialEq, Eq, Structural)]
pub enum SocketProtocol {
    Tcp,
    Udp,
}

/// The bits of `n` as a signed number.
pub open spec fn signed(n: u64) -> int {
    if n < 0x8000_0000_0000_0000 {
        n as int
    } else {
        n - 0x1_0000_0000_0000_0000
    }
}

/// Whether a number fits in a signed number of 64 bits.
pub open spec fn fits_i64(n: int) -> bool {
    i64::MIN <= n <= i64::MAX
}

/// The total of a cycle: the counter and the offset together, and never less than nothing.
pub open spec fn total_with_offset(counter: u64, offset: i64) -> int {
    if signed(counter) + offset < 0 {
        0
    } else {
        signed(counter) + offset
    }
}

/// The bits of `n` as a signed number.
pub fn to_signed(n: u64) -> (r: i64)
    ensures
        r == signed(n),
{
    if n < 0x8000_0000_0000_0000 {
        n as i64
    } else {
        -((u64::MAX - n) as i64) - 1
    }
}

/// Whether the total of a cycle can be computed without overflow.
pub fn cycle_total_fits(counter: u64, offset: i64) -> (r: bool)
    ensures
        r == fits_i64(signed(counter) + offset),
{
    to_signed(counter).checked_add(offset).is_some()
}

/// The total of a cycle: the counter and the offset together, and never less than nothing.
pub fn cycle_total(counter: u64, offset: i64) -> (r: u64)
    requires
        fits_i64(signed(counter) + offset),
    ensures
        r == total_with_offset(counter, offset),
{
    let sum: i64 = to_signed(counter) + offset;
    if sum < 0 {
        0
    } else {
        sum as u64
    }
}

/// Sets the offset that later reports go by.
pub fn update_traffic_offset(offset: &mut TrafficOffset, offset_tx: i64, offset_rx: i64)
    ensures
        final(offset).tx == offset_tx,
        final(offset).rx == offset_rx,
{
    offset.tx = offset_tx;
    offset.rx = offset_rx;
}

/// What is reported of sums `(up, down, total_up, total_down)` of byte counters that were taken
/// `interval_ms` after the last ones. `rate` gives bytes per second from bytes and milliseconds;
/// without an interval the rates are zero.
pub fn realtime_network<F: Fn(u64, u64) -> u64>(
    sums: (u64, u64, u64, u64),
    interval_ms: u64,
    offset: TrafficOffset,
    rate: F,
) -> (r: Network)
    requires
        fits_i64(signed(sums.2) + offset.tx),
        fits_i64(signed(sums.3) + offset.rx),
        interval_ms > 0 ==> call_requires(rate, (sums.0, interval_ms)),
        interval_ms > 0 ==> call_requires(rate, (sums.1, interval_ms)),
    ensures
        interval_ms > 0 ==> call_ensures(rate, (sums.0, interval_ms), r.up),
        interval_ms > 0 ==> call_ensures(rate, (sums.1, interval_ms), r.down),
        interval_ms == 0 ==> r.up == 0 && r.down == 0,
        r.total_up == total_with_offset(sums.2, offset.tx),
        r.total_down == total_with_offset(sums.3, offset.rx),
{
    let (up, down, total_up, total_down) = sums;
    let cycle_total_up = cycle_total(total_up, offset.tx);
    let cycle_total_down = cycle_total(total_down, offset.rx);
    Network {
        up: if interval_ms > 0 {
            rate(up, interval_ms)
        } else {
            0
        },
        down: if interval_ms > 0 {
            rate(down, interval_ms)
        } else {
            0
        },
        total_up: cycle_total_up,
        total_down: cycle_total_down,
    }
}

/// Whether a report on sums can be made: the sums and both totals fit.
pub open spec fn report_fits(traffic: Traffic, offset: TrafficOffset) -> bool {
    &&& traffic.fits()
    &&& fits_i64(signed(traffic.total_up as u64) + offset.tx)
    &&& fits_i64(signed(traffic.total_down as u64) + offset.rx)
}

/// What is reported of the interfaces that count, or nothing if a sum or a total does not fit.
pub fn checked_realtime_network<F: Fn(u64, u64) -> u64>(
    network: &Networks,
    interval_ms: u64,
    offset: TrafficOffset,
    rate: F,
) -> (r: Option<Network>)
    requires
        interval_ms > 0 ==> forall|bytes: u64| call_requires(rate, (bytes, interval_ms)),
    ensures
        ({
            let traffic = unordered_traffic(interfaces_of(*network));
            match r {
                Some(report) => {
                    &&& report_fits(traffic, offset)
                    &&& interval_ms > 0 ==> call_ensures(
                        rate,
                        (traffic.up as u64, interval_ms),
                        report.up,
                    )
                    &&& interval_ms > 0 ==> call_ensures(
                        rate,
                        (traffic.down as u64, interval_ms),
                        report.down,
                    )
                    &&& interval_ms == 0 ==> report.up == 0 && report.down == 0
                    &&& report.total_up == total_with_offset(traffic.total_up as u64, offset.tx)
                    &&& report.total_down == total_with_offset(
                        traffic.total_down as u64,
                        offset.rx,
                    )
                },
                None => !report_fits(traffic, offset),
            }
        }),
{
    let sums = match checked_filter_network(network) {
        Some(sums) => sums,
        None => return None,
    };
    if cycle_total_fits(sums.2, offset.tx) && cycle_total_fits(sums.3, offset.rx) {
        Some(realtime_network(sums, interval_ms, offset, rate))
    } else {
        None
    }
}

/// A count, or zero if it could not be taken.
pub open spec fn count_or_zero(count: Option<u64>) -> int {
    match count {
        Some(n) => n as int,
        None => 0,
    }
}

fn or_zero(count: Option<u64>) -> (r: u64)
    ensures
        r == count_or_zero(count),
{
    match count {
        Some(n) => n,
        None => 0,
    }
}

/// The number of open connections, from the counts for each protocol over IPv4 and IPv6.
pub fn realtime_connections(
    tcp4: Option<u64>,
    tcp6: Option<u64>,
    udp4: Option<u64>,
    udp6: Option<u64>,
) -> (r: Connections)
    requires
        count_or_zero(tcp4) + count_or_zero(tcp6) <= u64::MAX,
        count_or_zero(udp4) + count_or_zero(udp6) <= u64::MAX,
    ensures
        r.tcp == count_or_zero(tcp4) + count_or_zero(tcp6),
        r.udp == count_or_zero(udp4) + count_or_zero(udp6),
{
    Connections { tcp: or_zero(tcp4) + or_zero(tcp6), udp: or_zero(udp4) + or_zero(udp6) }
}

/// The number of sockets of a protocol. Sockets that could not be read do not count.
pub open spec fn sockets_of(
    sockets: Seq<Option<SocketProtocol>>,
    protocol: SocketProtocol,
) -> int {
    sockets.filter(|s: Option<SocketProtocol>| s == Some(protocol)).len() as int
}

/// The number of open connections, from a list of sockets. Without a list there are none.
pub fn count_sockets(sockets: Option<Vec<Option<SocketProtocol>>>) -> (r: Connections)
    ensures
        match sockets {
            Some(list) => r.tcp == sockets_of(list@, SocketProtocol::Tcp) && r.udp == sockets_of(
                list@,
                SocketProtocol::Udp,
            ),
            None => r == (Connections { tcp: 0, udp: 0 }),
        },
{
    let list = match sockets {
        Some(list) => list,
        None => return Connections { tcp: 0, udp: 0 },
    };
    let mut tcp: u64 = 0;
    let mut udp: u64 = 0;
    let mut i: usize = 0;
    while i < list.len()
        invariant
            i <= list.len(),
            tcp <= i,
            udp <= i,
            tcp == sockets_of(list@.take(i as int), SocketProtocol::Tcp),
            udp == sockets_of(list@.take(i as int), SocketProtocol::Udp),
        decreases list.len() - i,
    {
        proof {
            reveal(Seq::filter);
            assert(list@.take(i + 1).drop_last() =~= list@.take(i as int));
        }
        match list[i] {
            Some(SocketProtocol::Tcp) => {
                tcp += 1;
            },
            Some(SocketProtocol::Udp) => {
                udp += 1;
            },
            None => {},
        }
        i += 1;
    }
    assert(list@.take(i as int) =~= list@);
    Connections { tcp, udp }
}

/// A total never shrinks while the counter, read as a signed number, grows.
pub proof fn total_grows_with_counter(earlier: u64, later: u64, offset: i64)
    requires
        signed(earlier) <= signed(later),
    ensures
        total_with_offset(earlier, offset) <= total_with_offset(later, offset),
{
}

/// Whether `rate` gives one result for each pair of arguments.
pub open spec fn single_valued<F: Fn(u64, u64) -> u64>(rate: F) -> bool {
    forall|bytes: u64, ms: u64, x: u64, y: u64|
        #![trigger call_ensures(rate, (bytes, ms), x), call_ensures(rate, (bytes, ms), y)]
        call_ensures(rate, (bytes, ms), x) && call_ensures(rate, (bytes, ms), y) ==> x == y
}

/// Whether `rate` gives no more for a longer interval.
pub open spec fn falls_with_interval<F: Fn(u64, u64) -> u64>(rate: F) -> bool {
    forall|bytes: u64, shorter: u64, longer: u64, x: u64, y: u64|
        #![trigger call_ensures(rate, (bytes, shorter), x), call_ensures(rate, (bytes, longer), y)]
        0 < shorter <= longer && call_ensures(rate, (bytes, shorter), x) && call_ensures(
            rate,
            (bytes, longer),
            y,
        ) ==> x >= y
}

/// Of two reports on the same sums, equal offsets make the totals equal whatever the intervals
/// are, and equal intervals make the rates equal whatever the offsets are, if `rate` gives one
/// result for each pair of arguments. If `rate` gives no more for a longer interval, neither does
/// the report.
pub proof fn offset_moves_totals_and_interval_moves_rates<F: Fn(u64, u64) -> u64>(
    sums: (u64, u64, u64, u64),
    interval_a: u64,
    interval_b: u64,
    offset_a: TrafficOffset,
    offset_b: TrafficOffset,
    rate: F,
    a: Network,
    b: Network,
)
    requires
        call_ensures(realtime_network::<F>, (sums, interval_a, offset_a, rate), a),
        call_ensures(realtime_network::<F>, (sums, interval_b, offset_b, rate), b),
    ensures
        offset_a == offset_b ==> a.total_up == b.total_up && a.total_down == b.total_down,
        interval_a == interval_b && single_valued(rate) ==> a.up == b.up && a.down == b.down,
        0 < interval_a <= interval_b && falls_with_interval(rate) ==> a.up >= b.up && a.down
            >= b.down,
{
}

/// Of two reports on the same network, equal offsets make the totals equal whatever the intervals
/// are, and equal intervals make the rates equal whatever the offsets are, if `rate` gives one
/// result for each pair of arguments. If `rate` gives no more for a longer interval, neither does
/// the report.
pub proof fn reports_on_one_network<F: Fn(u64, u64) -> u64>(
    network: &Networks,
    interval_a: u64,
    interval_b: u64,
    offset_a: TrafficOffset,
    offset_b: TrafficOffset,
    rate: F,
    a: Network,
    b: Network,
)
    requires
        call_ensures(
            checked_realtime_network::<F>,
            (network, interval_a, offset_a, rate),
            Some(a),
        ),
        call_ensures(
            checked_realtime_network::<F>,
            (network, interval_b, offset_b, rate),
            Some(b),
        ),
    ensures
        offset_a == offset_b ==> a.total_up == b.total_up && a.total_down == b.total_down,
        interval_a == interval_b && single_valued(rate) ==> a.up == b.up && a.down == b.down,
        0 < interval_a <= interval_b && falls_with_interval(rate) ==> a.up >= b.up && a.down
            >= b.down,
{
}

/// Read as a signed number, a counter below 2^63 is itself, and any other is less by 2^64.
pub proof fn counter_wraps_at_the_sign(counter: u64, r: i64)
    requires
        call_ensures(to_signed, (counter,), r),
    ensures
        counter < 0x8000_0000_0000_0000 ==> r == counter && signed(counter) == counter,
        counter >= 0x8000_0000_0000_0000 ==> r == counter - 0x1_0000_0000_0000_0000 && signed(
            counter,
        ) == counter - 0x1_0000_0000_0000_0000,
{
}

/// A total is the counter, read as a signed number, and the offset together. It is zero if that is
/// negative, and there is none if that does not fit in 64 bits.
pub proof fn total_is_counter_and_offset(
    counter: u64,
    offset: i64,
    as_signed: i64,
    fits: bool,
    total: u64,
)
    requires
        call_ensures(to_signed, (counter,), as_signed),
        call_ensures(cycle_total_fits, (counter, offset), fits),
        fits ==> call_ensures(cycle_total, (counter, offset), total),
    ensures
        fits <==> -0x8000_0000_0000_0000 <= as_signed + offset < 0x8000_0000_0000_0000,
        fits && as_signed + offset >= 0 ==> total == as_signed + offset,
        fits && as_signed + offset < 0 ==> total == 0,
{
}

/// A report holds the rates of what was sent and received since the last one, and the totals of
/// what was sent and received in all.
pub proof fn report_holds_rates_and_totals<F: Fn(u64, u64) -> u64>(
    sums: (u64, u64, u64, u64),
    interval_ms: u64,
    offset: TrafficOffset,
    rate: F,
    report: Network,
    total_tx: u64,
    total_rx: u64,
)
    requires
        call_ensures(realtime_network::<F>, (sums, interval_ms, offset, rate), report),
        call_ensures(cycle_total, (sums.2, offset.tx), total_tx),
        call_ensures(cycle_total, (sums.3, offset.rx), total_rx),
    ensures
        report.total_up == total_tx,
        report.total_down == total_rx,
        interval_ms == 0 ==> report.up == 0 && report.down == 0,
        interval_ms > 0 ==> call_ensures(rate, (sums.0, interval_ms), report.up) && call_ensures(
            rate,
            (sums.1, interval_ms),
            report.down,
        ),
{
}

/// The report on a network is the report on its sums. There is none exactly if there are no sums
/// or a total does not fit.
pub proof fn report_on_network_is_report_on_sums<F: Fn(u64, u64) -> u64>(
    network: &Networks,
    interval_ms: u64,
    offset: TrafficOffset,
    rate: F,
    sums: Option<(u64, u64, u64, u64)>,
    report: Option<Network>,
    fits_tx: bool,
    fits_rx: bool,
    total_tx: u64,
    total_rx: u64,
)
    requires
        call_ensures(checked_filter_network, (network,), sums),
        call_ensures(checked_realtime_network::<F>, (network, interval_ms, offset, rate), report),
        sums matches Some(s) ==> {
            &&& call_ensures(cycle_total_fits, (s.2, offset.tx), fits_tx)
            &&& call_ensures(cycle_total_fits, (s.3, offset.rx), fits_rx)
            &&& fits_tx ==> call_ensures(cycle_total, (s.2, offset.tx), total_tx)
            &&& fits_rx ==> call_ensures(cycle_total, (s.3, offset.rx), total_rx)
        },
    ensures
        match (sums, report) {
            (Some(s), Some(r)) => {
                &&& fits_tx && fits_rx
                &&& r.total_up == total_tx
                &&& r.total_down == total_rx
                &&& interval_ms == 0 ==> r.up == 0 && r.down == 0
                &&& interval_ms > 0 ==> call_ensures(rate, (s.0, interval_ms), r.up)
                    && call_ensures(rate, (s.1, interval_ms), r.down)
            },
            (Some(_), None) => !(fits_tx && fits_rx),
            (None, _) => report is None,
        },
{
}

/// Each of the four counts is added to the connections of its protocol. One that could not be
/// taken adds nothing.
pub proof fn connections_are_added_by_protocol(
    tcp4: Option<u64>,
    tcp6: Option<u64>,
    udp4: Option<u64>,
    udp6: Option<u64>,
    r: Connections,
)
    requires
        call_ensures(realtime_connections, (tcp4, tcp6, udp4, udp6), r),
    ensures
        match (tcp4, tcp6) {
            (Some(a), Some(b)) => r.tcp == a + b,
            (Some(n), None) | (None, Some(n)) => r.tcp == n,
            (None, None) => r.tcp == 0,
        },
        match (udp4, udp6) {
            (Some(a), Some(b)) => r.udp == a + b,
            (Some(n), None) | (None, Some(n)) => r.udp == n,
            (None, None) => r.udp == 0,
        },
{
}

/// One more socket adds one to the connections of its protocol, and nothing if it could not be
/// read. Without sockets there are no connections.
pub proof fn one_more_socket_adds_one(
    list: Vec<Option<SocketProtocol>>,
    longer: Vec<Option<SocketProtocol>>,
    socket: Option<SocketProtocol>,
    before: Connections,
    after: Connections,
    without_list: Connections,
)
    requires
        call_ensures(count_sockets, (Some(list),), before),
        call_ensures(count_sockets, (Some(longer),), after),
        call_ensures(count_sockets, (None,), without_list),
        longer@ == list@.push(socket),
    ensures
        without_list.tcp == 0 && without_list.udp == 0,
        list@.len() == 0 ==> before.tcp == 0 && before.udp == 0,
        socket == Some(SocketProtocol::Tcp) ==> after.tcp == before.tcp + 1 && after.udp
            == before.udp,
        socket == Some(SocketProtocol::Udp) ==> after.tcp == before.tcp && after.udp == before.udp
            + 1,
        socket is None ==> after.tcp == before.tcp && after.udp == before.udp,
{
    reveal(Seq::filter);
    assert(longer@.drop_last() =~= list@);
    assert(longer@.last() == socket);
}

} // verus!
