//! Byte counters of network interfaces and what is made of them.
use vstd::prelude::*;
use vstd::multiset::Multiset;
use sysinfo::Networks;
use crate::text::{contains, contains_text, occurs_at, to_chars};

verus! {

/// The network interfaces that `sysinfo` knows of.
#[verifier::external_type_specification]
#[verifier::external_body]
pub struct ExNetworks(sysinfo::Networks);

/// One network interface as `sysinfo` keeps it. A `Networks` gives access to a map of these.
#[verifier::external_type_specification]
#[verifier::external_body]
pub struct ExNetworkData(sysinfo::NetworkData);

/// A network interface and its byte counters.
#[derive(Debug)]
pub struct NetworkInterface {
    pub name: String,
    pub mac_address: [u8; 6],
    /// Bytes sent in all.
    pub total_transmitted: u64,
    /// Bytes received in all.
    pub total_received: u64,
    /// Bytes sent between the last two refreshes.
    pub transmitted: u64,
    /// Bytes received between the last two refreshes.
    pub received: u64,
}

/// A network interface with its name and its address as sequences.
#[verifier::ext_equal]
pub struct InterfaceView {
    pub name: Seq<char>,
    pub mac_address: Seq<u8>,
    pub total_transmitted: u64,
    pub total_received: u64,
    pub transmitted: u64,
    pub received: u64,
}

impl View for NetworkInterface {
    type V = InterfaceView;

    open spec fn view(&self) -> InterfaceView {
        InterfaceView {
            name: self.name@,
            mac_address: self.mac_address@,
            total_transmitted: self.total_transmitted,
            total_received: self.total_received,
            transmitted: self.transmitted,
            received: self.received,
        }
    }
}

/// The interfaces that a `Networks` holds, in no order.
pub uninterp spec fn interfaces_of(networks: Networks) -> Multiset<InterfaceView>;

/// Iterating over a `sysinfo::Networks` hands out each interface that it holds once, with its
/// name, its hardware address and its counters. The order is left open.
#[verifier::external_body]
pub(crate) fn interfaces(networks: &Networks) -> (r: Vec<NetworkInterface>)
    ensures
        views(r@).to_multiset() == interfaces_of(*networks),
{
    networks.iter().map(
        |(name, data)|
            NetworkInterface {
                name: name.clone(),
                mac_address: data.mac_address().0,
                total_transmitted: data.total_transmitted(),
                total_received: data.total_received(),
                transmitted: data.transmitted(),
                received: data.received(),
            },
    ).collect()
}

/// The views of interfaces.
pub open spec fn views(s: Seq<NetworkInterface>) -> Seq<InterfaceView> {
    s.map_values(|i: NetworkInterface| i@)
}

/// Whether the name of an interface is that of a bridge, a tunnel, a container network or a
/// loopback.
pub open spec fn is_virtual(name: Seq<char>) -> bool {
    ||| contains_text(name, "br"@)
    ||| contains_text(name, "cni"@)
    ||| contains_text(name, "docker"@)
    ||| contains_text(name, "podman"@)
    ||| contains_text(name, "flannel"@)
    ||| contains_text(name, "lo"@)
    ||| contains_text(name, "veth"@)
    ||| contains_text(name, "virbr"@)
    ||| contains_text(name, "vmbr"@)
    ||| contains_text(name, "tap"@)
    ||| contains_text(name, "tun"@)
    ||| contains_text(name, "fwln"@)
    ||| contains_text(name, "fwpr"@)
}

/// Whether the traffic of an interface counts: it is not virtual and has a hardware address.
pub open spec fn counts(interface: InterfaceView) -> bool {
    !is_virtual(interface.name) && interface.mac_address != seq![0u8, 0u8, 0u8, 0u8, 0u8, 0u8]
}

/// Sums of byte counters.
pub struct Traffic {
    pub up: nat,
    pub down: nat,
    pub total_up: nat,
    pub total_down: nat,
}

impl Traffic {
    /// The sums with the counters of one interface more.
    pub open spec fn plus(self, interface: InterfaceView) -> Traffic {
        if counts(interface) {
            Traffic {
                up: self.up + interface.transmitted as nat,
                down: self.down + interface.received as nat,
                total_up: self.total_up + interface.total_transmitted as nat,
                total_down: self.total_down + interface.total_received as nat,
            }
        } else {
            self
        }
    }

    /// Whether every sum fits in 64 bits.
    pub open spec fn fits(self) -> bool {
        &&& self.up <= u64::MAX
        &&& self.down <= u64::MAX
        &&& self.total_up <= u64::MAX
        &&& self.total_down <= u64::MAX
    }

    /// Whether these are the sums in `r`.
    pub open spec fn is(self, r: (u64, u64, u64, u64)) -> bool {
        &&& self.up == r.0
        &&& self.down == r.1
        &&& self.total_up == r.2
        &&& self.total_down == r.3
    }
}

/// The sums over all interfaces that count.
pub open spec fn traffic_of(s: Seq<InterfaceView>) -> Traffic
    decreases s.len(),
{
    if s.len() == 0 {
        Traffic { up: 0, down: 0, total_up: 0, total_down: 0 }
    } else {
        traffic_of(s.drop_last()).plus(s.last())
    }
}

/// The sums over interfaces that are in no order.
pub open spec fn unordered_traffic(m: Multiset<InterfaceView>) -> Traffic {
    traffic_of(choose|s: Seq<InterfaceView>| #[trigger] s.to_multiset() == m)
}

/// The order in which interfaces are looked at does not matter to the sums.
pub proof fn traffic_in_any_order(s: Seq<InterfaceView>, t: Seq<InterfaceView>)
    requires
        s.to_multiset() == t.to_multiset(),
    ensures
        traffic_of(s) == traffic_of(t),
        unordered_traffic(s.to_multiset()) == traffic_of(s),
{
    lemma_same_traffic(s, t);
    let u = choose|u: Seq<InterfaceView>| #[trigger] u.to_multiset() == s.to_multiset();
    lemma_same_traffic(s, u);
}

proof fn lemma_same_traffic(s: Seq<InterfaceView>, t: Seq<InterfaceView>)
    requires
        s.to_multiset() == t.to_multiset(),
    ensures
        traffic_of(s) == traffic_of(t),
    decreases s.len(),
{
    s.to_multiset_ensures();
    t.to_multiset_ensures();
    assert(s.len() == t.len());
    if s.len() > 0 {
        let last = s.last();
        assert(s.contains(last));
        assert(t.to_multiset().count(last) > 0);
        assert(t.contains(last));
        let j = choose|j: int| 0 <= j < t.len() && t[j] == last;
        assert(s.drop_last() =~= s.remove(s.len() - 1));
        assert(s.remove(s.len() - 1).to_multiset() == s.to_multiset().remove(last));
        assert(t.remove(j).to_multiset() == t.to_multiset().remove(last));
        lemma_same_traffic(s.drop_last(), t.remove(j));
        lemma_remove_one(t, j);
    }
}

proof fn lemma_remove_one(t: Seq<InterfaceView>, j: int)
    requires
        0 <= j < t.len(),
    ensures
        traffic_of(t) == traffic_of(t.remove(j)).plus(t[j]),
    decreases t.len(),
{
    if j == t.len() - 1 {
        assert(t.remove(j) =~= t.drop_last());
    } else {
        lemma_remove_one(t.drop_last(), j);
        assert(t.remove(j).drop_last() =~= t.drop_last().remove(j));
        assert(t.remove(j).last() == t.last());
    }
}

/// Whether the name of an interface is that of a virtual one.
pub fn should_filter(name: &str) -> (r: bool)
    ensures
        r == is_virtual(name@),
{
    let chars = to_chars(name);
    let name = chars.as_slice();
    contains(name, "br") || contains(name, "cni") || contains(name, "docker") || contains(
        name,
        "podman",
    ) || contains(name, "flannel") || contains(name, "lo") || contains(name, "veth") || contains(
        name,
        "virbr",
    ) || contains(name, "vmbr") || contains(name, "tap") || contains(name, "tun") || contains(
        name,
        "fwln",
    ) || contains(name, "fwpr")
}

/// Whether a hardware address is all zero.
fn is_zero(mac: &[u8; 6]) -> (r: bool)
    ensures
        r == (mac@ == seq![0u8, 0u8, 0u8, 0u8, 0u8, 0u8]),
{
    let r = mac[0] == 0 && mac[1] == 0 && mac[2] == 0 && mac[3] == 0 && mac[4] == 0 && mac[5] == 0;
    proof {
        let zeros = seq![0u8, 0u8, 0u8, 0u8, 0u8, 0u8];
        if r {
            assert(mac@ =~= zeros);
        } else {
            assert(zeros[0] == 0 && zeros[1] == 0 && zeros[2] == 0 && zeros[3] == 0 && zeros[4] == 0
                && zeros[5] == 0);
        }
    }
    r
}

/// More interfaces make no sum smaller.
proof fn lemma_traffic_grows(s: Seq<InterfaceView>, i: int)
    requires
        0 <= i <= s.len(),
    ensures
        traffic_of(s).fits() ==> traffic_of(s.take(i)).fits(),
    decreases s.len(),
{
    if i == s.len() {
        assert(s.take(i) =~= s);
    } else {
        lemma_traffic_grows(s.drop_last(), i);
        assert(s.drop_last().take(i) =~= s.take(i));
    }
}

/// The sums over the interfaces that count: bytes sent and received since the last refresh, then
/// bytes sent and received in all. There are none if a sum does not fit in 64 bits.
pub fn checked_filter_interfaces(list: &[NetworkInterface]) -> (r: Option<(u64, u64, u64, u64)>)
    ensures
        match r {
            Some(sums) => traffic_of(views(list@)).is(sums),
            None => !traffic_of(views(list@)).fits(),
        },
{
    let mut total_up: u64 = 0;
    let mut total_down: u64 = 0;
    let mut up: u64 = 0;
    let mut down: u64 = 0;
    let ghost all = views(list@);
    let mut i: usize = 0;
    while i < list.len()
        invariant
            i <= list.len(),
            all == views(list@),
            traffic_of(all.take(i as int)).is((up, down, total_up, total_down)),
        decreases list.len() - i,
    {
        let data = &list[i];
        proof {
            assert(all[i as int] == data@);
            assert(all.take(i + 1).drop_last() =~= all.take(i as int));
            assert(all.take(i + 1).last() == data@);
            lemma_traffic_grows(all, i + 1);
        }
        if !should_filter(data.name.as_str()) && !is_zero(&data.mac_address) {
            total_up = match total_up.checked_add(data.total_transmitted) {
                Some(n) => n,
                None => return None,
            };
            total_down = match total_down.checked_add(data.total_received) {
                Some(n) => n,
                None => return None,
            };
            up = match up.checked_add(data.transmitted) {
                Some(n) => n,
                None => return None,
            };
            down = match down.checked_add(data.received) {
                Some(n) => n,
                None => return None,
            };
        }
        i += 1;
    }
    assert(all.take(i as int) =~= all);
    Some((up, down, total_up, total_down))
}

/// The sums over the interfaces that count, or nothing if a sum does not fit in 64 bits.
pub fn checked_filter_network(network: &Networks) -> (r: Option<(u64, u64, u64, u64)>)
    ensures
        match r {
            Some(sums) => unordered_traffic(interfaces_of(*network)).is(sums),
            None => !unordered_traffic(interfaces_of(*network)).fits(),
        },
{
    let list = interfaces(network);
    proof {
        traffic_in_any_order(views(list@), views(list@));
    }
    checked_filter_interfaces(list.as_slice())
}

/// The sums over the interfaces that count: bytes sent and received since the last refresh, then
/// bytes sent and received in all.
pub fn filter_network(network: &Networks) -> (r: (u64, u64, u64, u64))
    requires
        unordered_traffic(interfaces_of(*network)).fits(),
    ensures
        unordered_traffic(interfaces_of(*network)).is(r),
{
    checked_filter_network(network).unwrap()
}

/// An interface that does not count changes no sum, wherever it stands.
pub proof fn excluded_interface_changes_nothing(
    s: Seq<InterfaceView>,
    i: int,
    interface: InterfaceView,
)
    requires
        0 <= i <= s.len(),
        !counts(interface),
    ensures
        traffic_of(s.insert(i, interface)) == traffic_of(s),
{
    lemma_remove_one(s.insert(i, interface), i);
    assert(s.insert(i, interface).remove(i) =~= s);
}

/// An interface is left out by its name exactly if one of thirteen keywords stands somewhere in it.
pub proof fn keywords_mark_virtual_interfaces(name: &str, r: bool)
    requires
        call_ensures(should_filter, (name,), r),
    ensures
        ({
            let keywords = seq![
                "br"@,
                "cni"@,
                "docker"@,
                "podman"@,
                "flannel"@,
                "lo"@,
                "veth"@,
                "virbr"@,
                "vmbr"@,
                "tap"@,
                "tun"@,
                "fwln"@,
                "fwpr"@,
            ];
            r <==> exists|k: int, i: int|
                {
                    &&& 0 <= k < 13
                    &&& 0 <= i <= name@.len() - keywords[k].len()
                    &&& #[trigger] name@.subrange(i, i + keywords[k].len()) == keywords[k]
                }
        }),
{
    let keywords = seq![
        "br"@,
        "cni"@,
        "docker"@,
        "podman"@,
        "flannel"@,
        "lo"@,
        "veth"@,
        "virbr"@,
        "vmbr"@,
        "tap"@,
        "tun"@,
        "fwln"@,
        "fwpr"@,
    ];
    let s = name@;
    if r {
        if contains_text(s, "br"@) {
            lemma_keyword_occurs(s, keywords, 0);
        }
        if contains_text(s, "cni"@) {
            lemma_keyword_occurs(s, keywords, 1);
        }
        if contains_text(s, "docker"@) {
            lemma_keyword_occurs(s, keywords, 2);
        }
        if contains_text(s, "podman"@) {
            lemma_keyword_occurs(s, keywords, 3);
        }
        if contains_text(s, "flannel"@) {
            lemma_keyword_occurs(s, keywords, 4);
        }
        if contains_text(s, "lo"@) {
            lemma_keyword_occurs(s, keywords, 5);
        }
        if contains_text(s, "veth"@) {
            lemma_keyword_occurs(s, keywords, 6);
        }
        if contains_text(s, "virbr"@) {
            lemma_keyword_occurs(s, keywords, 7);
        }
        if contains_text(s, "vmbr"@) {
            lemma_keyword_occurs(s, keywords, 8);
        }
        if contains_text(s, "tap"@) {
            lemma_keyword_occurs(s, keywords, 9);
        }
        if contains_text(s, "tun"@) {
            lemma_keyword_occurs(s, keywords, 10);
        }
        if contains_text(s, "fwln"@) {
            lemma_keyword_occurs(s, keywords, 11);
        }
        if contains_text(s, "fwpr"@) {
            lemma_keyword_occurs(s, keywords, 12);
        }
    }
    if exists|k: int, i: int|
        0 <= k < 13 && 0 <= i <= s.len() - keywords[k].len() && #[trigger] s.subrange(
            i,
            i + keywords[k].len(),
        ) == keywords[k] {
        let (k, i) = choose|k: int, i: int|
            0 <= k < 13 && 0 <= i <= s.len() - keywords[k].len() && #[trigger] s.subrange(
                i,
                i + keywords[k].len(),
            ) == keywords[k];
        assert(occurs_at(s, keywords[k], i));
        assert(contains_text(s, keywords[k]));
    }
}

proof fn lemma_keyword_occurs(s: Seq<char>, keywords: Seq<Seq<char>>, k: int)
    requires
        0 <= k < 13,
        contains_text(s, keywords[k]),
    ensures
        exists|k: int, i: int|
            0 <= k < 13 && 0 <= i <= s.len() - keywords[k].len() && #[trigger] s.subrange(
                i,
                i + keywords[k].len(),
            ) == keywords[k],
{
    let i = choose|i: int| occurs_at(s, keywords[k], i);
    assert(s.subrange(i, i + keywords[k].len()) == keywords[k]);
}

/// One more interface adds its four counters to the four sums if its name does not mark it as
/// virtual and some byte of its address is not zero; else it changes nothing. Once a sum is too
/// large for 64 bits there are no sums. Without interfaces the sums are zero.
pub proof fn one_more_interface_adds_its_counters(
    list: &[NetworkInterface],
    longer: &[NetworkInterface],
    interface: NetworkInterface,
    name: &str,
    is_left_out: bool,
    before: Option<(u64, u64, u64, u64)>,
    after: Option<(u64, u64, u64, u64)>,
)
    requires
        call_ensures(checked_filter_interfaces, (list,), before),
        call_ensures(checked_filter_interfaces, (longer,), after),
        longer@ == list@.push(interface),
        name@ == interface.name@,
        call_ensures(should_filter, (name,), is_left_out),
    ensures
        list@.len() == 0 ==> before == Some((0u64, 0u64, 0u64, 0u64)),
        is_left_out ==> after == before,
        (forall|k: int| 0 <= k < 6 ==> #[trigger] interface.mac_address@[k] == 0) ==> after
            == before,
        !is_left_out && (exists|k: int| 0 <= k < 6 && #[trigger] interface.mac_address@[k] != 0)
            ==> match (before, after) {
            (Some(b), Some(a)) => {
                &&& a.0 == b.0 + interface.transmitted
                &&& a.1 == b.1 + interface.received
                &&& a.2 == b.2 + interface.total_transmitted
                &&& a.3 == b.3 + interface.total_received
            },
            (Some(b), None) => {
                ||| b.0 + interface.transmitted > u64::MAX
                ||| b.1 + interface.received > u64::MAX
                ||| b.2 + interface.total_transmitted > u64::MAX
                ||| b.3 + interface.total_received > u64::MAX
            },
            (None, Some(_)) => false,
            (None, None) => true,
        },
{
    let (all, more) = (views(list@), views(longer@));
    assert(more =~= all.push(interface@));
    assert(more.drop_last() =~= all);
    assert(more.last() == interface@);
    let zeros = seq![0u8, 0u8, 0u8, 0u8, 0u8, 0u8];
    let mac = interface.mac_address@;
    if forall|k: int| 0 <= k < 6 ==> #[trigger] mac[k] == 0 {
        assert(mac =~= zeros);
    }
    if exists|k: int| 0 <= k < 6 && #[trigger] mac[k] != 0 {
        let k = choose|k: int| 0 <= k < 6 && #[trigger] mac[k] != 0;
        assert(zeros[k] == 0);
    }
    lemma_traffic_grows(more, all.len() as int);
    assert(more.take(all.len() as int) =~= all);
}

/// What a `Networks` adds up to is what its interfaces add up to, listed in any order.
pub proof fn network_adds_up_like_its_interfaces(
    network: &Networks,
    list: &[NetworkInterface],
    of_network: Option<(u64, u64, u64, u64)>,
    of_list: Option<(u64, u64, u64, u64)>,
    unchecked: (u64, u64, u64, u64),
)
    requires
        views(list@).to_multiset() == interfaces_of(*network),
        call_ensures(checked_filter_network, (network,), of_network),
        call_ensures(checked_filter_interfaces, (list,), of_list),
    ensures
        of_network == of_list,
        call_ensures(filter_network, (network,), unchecked) ==> of_list == Some(unchecked),
{
    traffic_in_any_order(views(list@), views(list@));
}

/// The view of an interface shows each of its fields.
pub proof fn interface_view_shows_all(interface: NetworkInterface, s: Seq<NetworkInterface>, i: int)
    ensures
        interface@.name == interface.name@,
        interface@.mac_address == interface.mac_address@,
        interface@.total_transmitted == interface.total_transmitted,
        interface@.total_received == interface.total_received,
        interface@.transmitted == interface.transmitted,
        interface@.received == interface.received,
        views(s).len() == s.len(),
        0 <= i < s.len() ==> views(s)[i] == s[i]@,
{
}

} // verus!
