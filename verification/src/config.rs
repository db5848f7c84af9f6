//! What the user configures about network statistics.
use vstd::prelude::*;
use vstd::std_specs::cmp::PartialEqSpec;

verus! {

/// How often the traffic totals start again from zero.
#[derive(Clone, Copy, Debug, PartialEq, Eq, Structural)]
pub enum TrafficPeriod {
    Week,
    Month,
    Year,
}

/// Whether a cycle follows the calendar or lasts for a fixed number of seconds.
#[derive(Clone, Copy, Debug, PartialEq, Eq, Structural)]
pub enum NetworkStatisticsMode {
    Natural,
    Fixed,
}

/// The settings of the network statistics.
#[derive(Debug)]
pub struct NetworkConfig {
    /// Switches the statistics off.
    pub disable_network_statistics: bool,
    /// Seconds between two measurements.
    pub network_interval: u32,
    /// Where the state is kept.
    pub network_save_path: String,
    /// The calendar period of a cycle in natural mode.
    pub traffic_period: TrafficPeriod,
    /// The day on which a natural cycle ends: a weekday, a day of the month, or `MM/DD`.
    pub traffic_reset_day: String,
    pub network_statistics_mode: NetworkStatisticsMode,
    /// Seconds that a cycle lasts in fixed mode.
    pub network_duration: u32,
    /// The number of measurements after which the state is saved.
    pub network_interval_number: u32,
}

/// The settings with their texts as character sequences.
#[verifier::ext_equal]
pub struct NetworkConfigView {
    pub disable_network_statistics: bool,
    pub network_interval: u32,
    pub network_save_path: Seq<char>,
    pub traffic_period: TrafficPeriod,
    pub traffic_reset_day: Seq<char>,
    pub network_statistics_mode: NetworkStatisticsMode,
    pub network_duration: u32,
    pub network_interval_number: u32,
}

impl View for NetworkConfig {
    type V = NetworkConfigView;

    open spec fn view(&self) -> NetworkConfigView {
        NetworkConfigView {
            disable_network_statistics: self.disable_network_statistics,
            network_interval: self.network_interval,
            network_save_path: self.network_save_path@,
            traffic_period: self.traffic_period,
            traffic_reset_day: self.traffic_reset_day@,
            network_statistics_mode: self.network_statistics_mode,
            network_duration: self.network_duration,
            network_interval_number: self.network_interval_number,
        }
    }
}

impl Clone for NetworkConfig {
    fn clone(&self) -> (copy: Self)
        ensures
            copy@ == self@,
    {
        NetworkConfig {
            disable_network_statistics: self.disable_network_statistics,
            network_interval: self.network_interval,
            network_save_path: self.network_save_path.clone(),
            traffic_period: self.traffic_period,
            traffic_reset_day: self.traffic_reset_day.clone(),
            network_statistics_mode: self.network_statistics_mode,
            network_duration: self.network_duration,
            network_interval_number: self.network_interval_number,
        }
    }
}

impl PartialEq for NetworkConfig {
    fn eq(&self, other: &Self) -> (r: bool) {
        self.disable_network_statistics == other.disable_network_statistics
            && self.network_interval == other.network_interval && self.network_save_path
            == other.network_save_path && self.traffic_period == other.traffic_period
            && self.traffic_reset_day == other.traffic_reset_day && self.network_statistics_mode
            == other.network_statistics_mode && self.network_duration == other.network_duration
            && self.network_interval_number == other.network_interval_number
    }
}

impl vstd::std_specs::cmp::PartialEqSpecImpl for NetworkConfig {
    open spec fn obeys_eq_spec() -> bool {
        true
    }

    open spec fn eq_spec(&self, other: &Self) -> bool {
        self@ == other@
    }
}

/// How a period is spelt.
pub open spec fn period_text(period: TrafficPeriod) -> Seq<char> {
    match period {
        TrafficPeriod::Week => "Week"@,
        TrafficPeriod::Month => "Month"@,
        TrafficPeriod::Year => "Year"@,
    }
}

/// The period that `s` spells.
pub open spec fn read_period(s: Seq<char>) -> Option<TrafficPeriod> {
    if s == "Week"@ {
        Some(TrafficPeriod::Week)
    } else if s == "Month"@ {
        Some(TrafficPeriod::Month)
    } else if s == "Year"@ {
        Some(TrafficPeriod::Year)
    } else {
        None
    }
}

/// How a mode is spelt.
pub open spec fn mode_text(mode: NetworkStatisticsMode) -> Seq<char> {
    match mode {
        NetworkStatisticsMode::Natural => "Natural"@,
        NetworkStatisticsMode::Fixed => "Fixed"@,
    }
}

/// The mode that `s` spells.
pub open spec fn read_mode(s: Seq<char>) -> Option<NetworkStatisticsMode> {
    if s == "Natural"@ {
        Some(NetworkStatisticsMode::Natural)
    } else if s == "Fixed"@ {
        Some(NetworkStatisticsMode::Fixed)
    } else {
        None
    }
}

/// The view of settings shows each of their fields.
pub proof fn config_view_shows_all(config: NetworkConfig)
    ensures
        config@.disable_network_statistics == config.disable_network_statistics,
        config@.network_interval == config.network_interval,
        config@.network_save_path == config.network_save_path@,
        config@.traffic_period == config.traffic_period,
        config@.traffic_reset_day == config.traffic_reset_day@,
        config@.network_statistics_mode == config.network_statistics_mode,
        config@.network_duration == config.network_duration,
        config@.network_interval_number == config.network_interval_number,
{
}

/// Two settings are equal exactly if all their fields are, and a copy is equal.
pub proof fn equal_configs_are_equal_in_all_fields(
    a: NetworkConfig,
    b: NetworkConfig,
    copy: NetworkConfig,
)
    requires
        call_ensures(NetworkConfig::clone, (&a,), copy),
    ensures
        a.eq_spec(&b) <==> a.disable_network_statistics == b.disable_network_statistics
            && a.network_interval == b.network_interval && a.network_save_path@
            == b.network_save_path@ && a.traffic_period == b.traffic_period && a.traffic_reset_day@
            == b.traffic_reset_day@ && a.network_statistics_mode == b.network_statistics_mode
            && a.network_duration == b.network_duration && a.network_interval_number
            == b.network_interval_number,
        copy.eq_spec(&a),
{
}

} // verus!
