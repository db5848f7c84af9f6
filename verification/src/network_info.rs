//! The state of the statistics as it is kept on disk, in lines of the form `key=value`.
use vstd::prelude::*;
use vstd::std_specs::cmp::PartialEqSpec;
use crate::config::{
    mode_text, period_text, read_mode, read_period, NetworkConfig, NetworkConfigView,
    NetworkStatisticsMode, TrafficPeriod,
};
use crate::number::{
    bool_text, bool_to_text, decimal, i64_to_text, parse_bool, parse_i64, parse_u32, parse_u64,
    read_bool, read_signed, read_unsigned, signed_decimal, u64_to_text,
};
use crate::text::{
    halves, is_text, lines, lines_of, split_once, to_chars, to_text, trim, trimmed,
};

verus! {

/// Represents the state of network statistics saved to disk.
#[derive(Debug)]
pub struct NetworkInfo {
    pub config: NetworkConfig,
    pub boot_id: String,
    /// The total transmitted bytes accumulated in the current cycle.
    pub cycle_total_tx: u64,
    /// The total received bytes accumulated in the current cycle.
    pub cycle_total_rx: u64,
    /// Unix timestamp for the next scheduled reset.
    pub next_reset_timestamp: i64,
    pub offset_tx: i64,
    pub offset_rx: i64,
}

/// The state with its texts as character sequences.
#[verifier::ext_equal]
pub struct NetworkInfoView {
    pub config: NetworkConfigView,
    pub boot_id: Seq<char>,
    pub cycle_total_tx: u64,
    pub cycle_total_rx: u64,
    pub next_reset_timestamp: i64,
    pub offset_tx: i64,
    pub offset_rx: i64,
}

impl View for NetworkInfo {
    type V = NetworkInfoView;

    open spec fn view(&self) -> NetworkInfoView {
        NetworkInfoView {
            config: self.config@,
            boot_id: self.boot_id@,
            cycle_total_tx: self.cycle_total_tx,
            cycle_total_rx: self.cycle_total_rx,
            next_reset_timestamp: self.next_reset_timestamp,
            offset_tx: self.offset_tx,
            offset_rx: self.offset_rx,
        }
    }
}

impl Clone for NetworkInfo {
    fn clone(&self) -> (copy: Self)
        ensures
            copy@ == self@,
    {
        NetworkInfo {
            config: self.config.clone(),
            boot_id: self.boot_id.clone(),
            cycle_total_tx: self.cycle_total_tx,
            cycle_total_rx: self.cycle_total_rx,
            next_reset_timestamp: self.next_reset_timestamp,
            offset_tx: self.offset_tx,
            offset_rx: self.offset_rx,
        }
    }
}

impl PartialEq for NetworkInfo {
    fn eq(&self, other: &Self) -> (r: bool) {
        self.config == other.config && self.boot_id == other.boot_id && self.cycle_total_tx
            == other.cycle_total_tx && self.cycle_total_rx == other.cycle_total_rx
            && self.next_reset_timestamp == other.next_reset_timestamp && self.offset_tx
            == other.offset_tx && self.offset_rx == other.offset_rx
    }
}

impl vstd::std_specs::cmp::PartialEqSpecImpl for NetworkInfo {
    open spec fn obeys_eq_spec() -> bool {
        true
    }

    open spec fn eq_spec(&self, other: &Self) -> bool {
        self@ == other@
    }
}

/// The entries of a state file.
#[derive(Clone, Copy, Debug, PartialEq, Eq, Structural)]
pub enum Field {
    DisableNetworkStatistics,
    NetworkInterval,
    NetworkSavePath,
    TrafficPeriod,
    TrafficResetDay,
    NetworkStatisticsMode,
    NetworkDuration,
    NetworkIntervalNumber,
    BootId,
    CycleTotalTx,
    CycleTotalRx,
    NextResetTimestamp,
    OffsetTx,
    OffsetRx,
}

/// The key under which a field is kept.
pub open spec fn field_name(field: Field) -> Seq<char> {
    match field {
        Field::DisableNetworkStatistics => "disable_network_statistics"@,
        Field::NetworkInterval => "network_interval"@,
        Field::NetworkSavePath => "network_save_path"@,
        Field::TrafficPeriod => "traffic_period"@,
        Field::TrafficResetDay => "traffic_reset_day"@,
        Field::NetworkStatisticsMode => "network_statistics_mode"@,
        Field::NetworkDuration => "network_duration"@,
        Field::NetworkIntervalNumber => "network_interval_number"@,
        Field::BootId => "boot_id"@,
        Field::CycleTotalTx => "cycle_total_tx"@,
        Field::CycleTotalRx => "cycle_total_rx"@,
        Field::NextResetTimestamp => "next_reset_timestamp"@,
        Field::OffsetTx => "offset_tx"@,
        Field::OffsetRx => "offset_rx"@,
    }
}

/// What stands in one line.
pub enum Line {
    /// Nothing, or a comment.
    Blank,
    /// Text without `=`.
    Malformed,
    /// A key and its value, both trimmed.
    Entry(Seq<char>, Seq<char>),
}

/// Reads one line: a comment starts with `#`, and the first `=` separates the key from the value.
pub open spec fn read_line(line: Seq<char>) -> Line {
    let content = trimmed(line);
    if content.len() == 0 || content.first() == '#' {
        Line::Blank
    } else {
        match halves(content, '=') {
            Some((key, value)) => Line::Entry(trimmed(key), trimmed(value)),
            None => Line::Malformed,
        }
    }
}

/// The name of the type that a field's value has to have, unless `value` has it.
pub open spec fn type_violated(field: Field, value: Seq<char>) -> Option<Seq<char>> {
    match field {
        Field::DisableNetworkStatistics => if read_bool(value) is None {
            Some("bool"@)
        } else {
            None
        },
        Field::NetworkInterval
        | Field::NetworkDuration
        | Field::NetworkIntervalNumber => if read_unsigned(value, u32::MAX as int) is None {
            Some("u32"@)
        } else {
            None
        },
        Field::CycleTotalTx | Field::CycleTotalRx => if read_unsigned(
            value,
            u64::MAX as int,
        ) is None {
            Some("u64"@)
        } else {
            None
        },
        Field::NextResetTimestamp | Field::OffsetTx | Field::OffsetRx => if read_signed(
            value,
            i64::MIN as int,
            i64::MAX as int,
        ) is None {
            Some("i64"@)
        } else {
            None
        },
        Field::NetworkSavePath
        | Field::TrafficPeriod
        | Field::TrafficResetDay
        | Field::NetworkStatisticsMode
        | Field::BootId => None,
    }
}

/// The field that is kept under `key`.
pub open spec fn field_of(key: Seq<char>) -> Option<Field> {
    if exists|field: Field| #[trigger] field_name(field) == key {
        Some(choose|field: Field| #[trigger] field_name(field) == key)
    } else {
        None
    }
}

/// What is wrong with a line, if anything is. A key that names no field is no error.
pub open spec fn line_error(line: Seq<char>) -> Option<Seq<char>> {
    match read_line(line) {
        Line::Blank => None,
        Line::Malformed => Some(
            "Format error: expected key=value, got '"@ + trimmed(line) + "'"@,
        ),
        Line::Entry(key, value) => match field_of(key) {
            Some(field) => match type_violated(field, value) {
                Some(name) => Some("Invalid "@ + name + " for key '"@ + key + "'"@),
                None => None,
            },
            None => None,
        },
    }
}

/// What is wrong with the first faulty line, if there is one.
pub open spec fn first_error(ls: Seq<Seq<char>>) -> Option<Seq<char>>
    decreases ls.len(),
{
    if ls.len() == 0 {
        None
    } else {
        match first_error(ls.drop_last()) {
            Some(e) => Some(e),
            None => line_error(ls.last()),
        }
    }
}

/// The value of a field: the last one given counts.
pub open spec fn last_value(ls: Seq<Seq<char>>, field: Field) -> Option<Seq<char>>
    decreases ls.len(),
{
    if ls.len() == 0 {
        None
    } else {
        match read_line(ls.last()) {
            Line::Entry(key, value) if key == field_name(field) => Some(value),
            _ => last_value(ls.drop_last(), field),
        }
    }
}

/// The truth value of a field, if the field is there.
pub open spec fn flag(ls: Seq<Seq<char>>, field: Field) -> Option<bool> {
    match last_value(ls, field) {
        Some(value) => read_bool(value),
        None => None,
    }
}

/// The unsigned number in a field, if the field is there.
pub open spec fn unsigned(ls: Seq<Seq<char>>, field: Field, max: int) -> Option<int> {
    match last_value(ls, field) {
        Some(value) => read_unsigned(value, max),
        None => None,
    }
}

/// The signed number in a field, if the field is there.
pub open spec fn signed(ls: Seq<Seq<char>>, field: Field) -> Option<int> {
    match last_value(ls, field) {
        Some(value) => read_signed(value, i64::MIN as int, i64::MAX as int),
        None => None,
    }
}

/// The period, if the field is there and names one.
pub open spec fn period(ls: Seq<Seq<char>>) -> Option<TrafficPeriod> {
    match last_value(ls, Field::TrafficPeriod) {
        Some(value) => read_period(value),
        None => None,
    }
}

/// The mode, if the field is there and names one.
pub open spec fn mode(ls: Seq<Seq<char>>) -> Option<NetworkStatisticsMode> {
    match last_value(ls, Field::NetworkStatisticsMode) {
        Some(value) => read_mode(value),
        None => None,
    }
}

/// The first field that has to be there and is not.
pub open spec fn missing_field(ls: Seq<Seq<char>>) -> Option<Field> {
    if last_value(ls, Field::DisableNetworkStatistics) is None {
        Some(Field::DisableNetworkStatistics)
    } else if last_value(ls, Field::NetworkInterval) is None {
        Some(Field::NetworkInterval)
    } else if last_value(ls, Field::NetworkSavePath) is None {
        Some(Field::NetworkSavePath)
    } else if last_value(ls, Field::BootId) is None {
        Some(Field::BootId)
    } else if last_value(ls, Field::CycleTotalTx) is None {
        Some(Field::CycleTotalTx)
    } else if last_value(ls, Field::CycleTotalRx) is None {
        Some(Field::CycleTotalRx)
    } else if last_value(ls, Field::NextResetTimestamp) is None {
        Some(Field::NextResetTimestamp)
    } else {
        None
    }
}

/// The value of `o`, or `default` if there is none.
pub open spec fn value_or<T>(o: Option<T>, default: T) -> T {
    match o {
        Some(value) => value,
        None => default,
    }
}

/// The state that faultless lines describe. What may be left out has a default.
pub open spec fn assembled(ls: Seq<Seq<char>>) -> NetworkInfoView {
    NetworkInfoView {
        config: NetworkConfigView {
            disable_network_statistics: flag(ls, Field::DisableNetworkStatistics)->0,
            network_interval: unsigned(ls, Field::NetworkInterval, u32::MAX as int)->0 as u32,
            network_save_path: last_value(ls, Field::NetworkSavePath)->0,
            traffic_period: value_or(period(ls), TrafficPeriod::Month),
            traffic_reset_day: value_or(last_value(ls, Field::TrafficResetDay), "1"@),
            network_statistics_mode: value_or(mode(ls), NetworkStatisticsMode::Fixed),
            network_duration: value_or(
                unsigned(ls, Field::NetworkDuration, u32::MAX as int),
                864_000,
            ) as u32,
            network_interval_number: value_or(
                unsigned(ls, Field::NetworkIntervalNumber, u32::MAX as int),
                6,
            ) as u32,
        },
        boot_id: last_value(ls, Field::BootId)->0,
        cycle_total_tx: unsigned(ls, Field::CycleTotalTx, u64::MAX as int)->0 as u64,
        cycle_total_rx: unsigned(ls, Field::CycleTotalRx, u64::MAX as int)->0 as u64,
        next_reset_timestamp: signed(ls, Field::NextResetTimestamp)->0 as i64,
        offset_tx: value_or(signed(ls, Field::OffsetTx), i64::MIN as int) as i64,
        offset_rx: value_or(signed(ls, Field::OffsetRx), i64::MIN as int) as i64,
    }
}

/// The state that lines describe, or what is wrong with them: a faulty line comes before a field
/// that is missing.
pub open spec fn decoded_lines(ls: Seq<Seq<char>>) -> Result<NetworkInfoView, Seq<char>> {
    match first_error(ls) {
        Some(e) => Err(e),
        None => match missing_field(ls) {
            Some(field) => Err("Missing field: "@ + field_name(field)),
            None => Ok(assembled(ls)),
        },
    }
}

/// The state that `input` describes, or what is wrong with `input`.
pub open spec fn decoded(input: Seq<char>) -> Result<NetworkInfoView, Seq<char>> {
    decoded_lines(lines_of(input))
}

/// The entries that describe a state, in the order in which they are written.
pub open spec fn entries(info: NetworkInfoView) -> Seq<(Field, Seq<char>)> {
    seq![
        (
            Field::DisableNetworkStatistics,
            bool_text(info.config.disable_network_statistics),
        ),
        (Field::NetworkInterval, decimal(info.config.network_interval as nat)),
        (Field::NetworkSavePath, info.config.network_save_path),
        (Field::TrafficPeriod, period_text(info.config.traffic_period)),
        (Field::TrafficResetDay, info.config.traffic_reset_day),
        (Field::NetworkStatisticsMode, mode_text(info.config.network_statistics_mode)),
        (Field::NetworkDuration, decimal(info.config.network_duration as nat)),
        (Field::NetworkIntervalNumber, decimal(info.config.network_interval_number as nat)),
        (Field::BootId, info.boot_id),
        (Field::CycleTotalTx, decimal(info.cycle_total_tx as nat)),
        (Field::CycleTotalRx, decimal(info.cycle_total_rx as nat)),
        (Field::NextResetTimestamp, signed_decimal(info.next_reset_timestamp as int)),
        (Field::OffsetTx, signed_decimal(info.offset_tx as int)),
        (Field::OffsetRx, signed_decimal(info.offset_rx as int)),
    ]
}

/// An entry as a line, without the line ending.
pub open spec fn entry_line(entry: (Field, Seq<char>)) -> Seq<char> {
    field_name(entry.0) + seq!['='] + entry.1
}

/// Entries as text, one to a line.
pub open spec fn written(es: Seq<(Field, Seq<char>)>) -> Seq<char>
    decreases es.len(),
{
    if es.len() == 0 {
        Seq::empty()
    } else {
        written(es.drop_last()) + entry_line(es.last()).push('\n')
    }
}

/// A state as text.
pub open spec fn encoded(info: NetworkInfoView) -> Seq<char> {
    written(entries(info))
}

/// The last value under `key` that was given by lines of the form `key=value`, read as a number.
/// Lines of any other form are passed over.
pub open spec fn last_number(ls: Seq<Seq<char>>, key: Seq<char>) -> Option<int>
    decreases ls.len(),
{
    if ls.len() == 0 {
        None
    } else {
        match halves(ls.last(), '=') {
            Some((k, value)) if trimmed(k) == key => read_unsigned(
                trimmed(value),
                u64::MAX as int,
            ),
            _ => last_number(ls.drop_last(), key),
        }
    }
}

/// The totals in a state file of the old format, if both are there.
pub open spec fn old_totals(input: Seq<char>) -> Option<(int, int)> {
    let ls = lines_of(input);
    match (last_number(ls, "source_tx"@), last_number(ls, "source_rx"@)) {
        (Some(tx), Some(rx)) => Some((tx, rx)),
        _ => None,
    }
}

/// No two fields share a key.
pub proof fn lemma_field_names_differ(a: Field, b: Field)
    requires
        field_name(a) == field_name(b),
    ensures
        a == b,
{
    reveal_strlit("disable_network_statistics");
    reveal_strlit("network_interval");
    reveal_strlit("network_save_path");
    reveal_strlit("traffic_period");
    reveal_strlit("traffic_reset_day");
    reveal_strlit("network_statistics_mode");
    reveal_strlit("network_duration");
    reveal_strlit("network_interval_number");
    reveal_strlit("boot_id");
    reveal_strlit("cycle_total_tx");
    reveal_strlit("cycle_total_rx");
    reveal_strlit("next_reset_timestamp");
    reveal_strlit("offset_tx");
    reveal_strlit("offset_rx");
    assert("disable_network_statistics"@.len() == 26);
    assert("network_interval"@.len() == 16);
    assert("network_save_path"@.len() == 17);
    assert("traffic_period"@.len() == 14);
    assert("traffic_reset_day"@.len() == 17);
    assert("network_statistics_mode"@.len() == 23);
    assert("network_duration"@.len() == 16);
    assert("network_interval_number"@.len() == 23);
    assert("boot_id"@.len() == 7);
    assert("cycle_total_tx"@.len() == 14);
    assert("cycle_total_rx"@.len() == 14);
    assert("next_reset_timestamp"@.len() == 20);
    assert("offset_tx"@.len() == 9);
    assert("offset_rx"@.len() == 9);
    assert("network_interval"@[8] != "network_duration"@[8]);
    assert("network_save_path"@[0] != "traffic_reset_day"@[0]);
    assert("traffic_period"@[0] != "cycle_total_tx"@[0]);
    assert("traffic_period"@[0] != "cycle_total_rx"@[0]);
    assert("cycle_total_tx"@[12] != "cycle_total_rx"@[12]);
    assert("network_statistics_mode"@[8] != "network_interval_number"@[8]);
    assert("offset_tx"@[7] != "offset_rx"@[7]);
}

/// The key of a field leads back to the field.
pub proof fn lemma_field_of_name(field: Field)
    ensures
        field_of(field_name(field)) == Some(field),
{
    let found = choose|f: Field| #[trigger] field_name(f) == field_name(field);
    lemma_field_names_differ(found, field);
}

impl Field {
    /// The key under which the field is kept.
    pub fn name(self) -> (name: &'static str)
        ensures
            name@ == field_name(self),
    {
        match self {
            Field::DisableNetworkStatistics => "disable_network_statistics",
            Field::NetworkInterval => "network_interval",
            Field::NetworkSavePath => "network_save_path",
            Field::TrafficPeriod => "traffic_period",
            Field::TrafficResetDay => "traffic_reset_day",
            Field::NetworkStatisticsMode => "network_statistics_mode",
            Field::NetworkDuration => "network_duration",
            Field::NetworkIntervalNumber => "network_interval_number",
            Field::BootId => "boot_id",
            Field::CycleTotalTx => "cycle_total_tx",
            Field::CycleTotalRx => "cycle_total_rx",
            Field::NextResetTimestamp => "next_reset_timestamp",
            Field::OffsetTx => "offset_tx",
            Field::OffsetRx => "offset_rx",
        }
    }

    /// The field that is kept under `key`, if there is one.
    pub fn with_name(key: &[char]) -> (field: Option<Field>)
        ensures
            field == field_of(key@),
    {
        let field = if is_text(key, "disable_network_statistics") {
            Field::DisableNetworkStatistics
        } else if is_text(key, "network_interval") {
            Field::NetworkInterval
        } else if is_text(key, "network_save_path") {
            Field::NetworkSavePath
        } else if is_text(key, "traffic_period") {
            Field::TrafficPeriod
        } else if is_text(key, "traffic_reset_day") {
            Field::TrafficResetDay
        } else if is_text(key, "network_statistics_mode") {
            Field::NetworkStatisticsMode
        } else if is_text(key, "network_duration") {
            Field::NetworkDuration
        } else if is_text(key, "network_interval_number") {
            Field::NetworkIntervalNumber
        } else if is_text(key, "boot_id") {
            Field::BootId
        } else if is_text(key, "cycle_total_tx") {
            Field::CycleTotalTx
        } else if is_text(key, "cycle_total_rx") {
            Field::CycleTotalRx
        } else if is_text(key, "next_reset_timestamp") {
            Field::NextResetTimestamp
        } else if is_text(key, "offset_tx") {
            Field::OffsetTx
        } else if is_text(key, "offset_rx") {
            Field::OffsetRx
        } else {
            assert(forall|f: Field| #[trigger] field_name(f) != key@);
            return None;
        };
        proof {
            lemma_field_of_name(field);
        }
        Some(field)
    }
}

proof fn lemma_next_line(ls: Seq<Seq<char>>, line: Seq<char>)
    ensures
        first_error(ls.push(line)) == (match first_error(ls) {
            Some(e) => Some(e),
            None => line_error(line),
        }),
        forall|field: Field| #[trigger]
            last_value(ls.push(line), field) == (match read_line(line) {
                Line::Entry(key, value) if key == field_name(field) => Some(value),
                _ => last_value(ls, field),
            }),
{
    assert(ls.push(line).drop_last() =~= ls);
}

/// What has been read of a state file so far.
struct Draft {
    disable_network_statistics: Option<bool>,
    network_interval: Option<u32>,
    network_save_path: Option<String>,
    traffic_period: Option<TrafficPeriod>,
    traffic_reset_day: Option<String>,
    network_statistics_mode: Option<NetworkStatisticsMode>,
    network_duration: Option<u32>,
    network_interval_number: Option<u32>,
    boot_id: Option<String>,
    cycle_total_tx: Option<u64>,
    cycle_total_rx: Option<u64>,
    next_reset_timestamp: Option<i64>,
    offset_tx: i64,
    offset_rx: i64,
}

spec fn same_u32(o: Option<u32>, n: Option<int>) -> bool {
    match o {
        Some(v) => n == Some(v as int),
        None => n is None,
    }
}

spec fn same_u64(o: Option<u64>, n: Option<int>) -> bool {
    match o {
        Some(v) => n == Some(v as int),
        None => n is None,
    }
}

spec fn same_i64(o: Option<i64>, n: Option<int>) -> bool {
    match o {
        Some(v) => n == Some(v as int),
        None => n is None,
    }
}

spec fn same_text(o: Option<String>, s: Option<Seq<char>>) -> bool {
    match o {
        Some(v) => s == Some(v@),
        None => s is None,
    }
}

impl Draft {
    /// Whether the draft holds what the lines `ls` say, none of which is faulty.
    spec fn holds(self, ls: Seq<Seq<char>>) -> bool {
        &&& first_error(ls) is None
        &&& self.disable_network_statistics == flag(ls, Field::DisableNetworkStatistics)
        &&& self.disable_network_statistics is Some == last_value(
            ls,
            Field::DisableNetworkStatistics,
        ) is Some
        &&& same_u32(
            self.network_interval,
            unsigned(ls, Field::NetworkInterval, u32::MAX as int),
        )
        &&& self.network_interval is Some == last_value(ls, Field::NetworkInterval) is Some
        &&& same_text(self.network_save_path, last_value(ls, Field::NetworkSavePath))
        &&& self.traffic_period == period(ls)
        &&& same_text(self.traffic_reset_day, last_value(ls, Field::TrafficResetDay))
        &&& self.network_statistics_mode == mode(ls)
        &&& same_u32(
            self.network_duration,
            unsigned(ls, Field::NetworkDuration, u32::MAX as int),
        )
        &&& same_u32(
            self.network_interval_number,
            unsigned(ls, Field::NetworkIntervalNumber, u32::MAX as int),
        )
        &&& same_text(self.boot_id, last_value(ls, Field::BootId))
        &&& same_u64(
            self.cycle_total_tx,
            unsigned(ls, Field::CycleTotalTx, u64::MAX as int),
        )
        &&& self.cycle_total_tx is Some == last_value(ls, Field::CycleTotalTx) is Some
        &&& same_u64(
            self.cycle_total_rx,
            unsigned(ls, Field::CycleTotalRx, u64::MAX as int),
        )
        &&& self.cycle_total_rx is Some == last_value(ls, Field::CycleTotalRx) is Some
        &&& same_i64(self.next_reset_timestamp, signed(ls, Field::NextResetTimestamp))
        &&& self.next_reset_timestamp is Some == last_value(
            ls,
            Field::NextResetTimestamp,
        ) is Some
        &&& self.offset_tx == value_or(signed(ls, Field::OffsetTx), i64::MIN as int)
        &&& self.offset_rx == value_or(signed(ls, Field::OffsetRx), i64::MIN as int)
    }

    fn empty() -> (draft: Self)
        ensures
            draft.holds(Seq::empty()),
    {
        Draft {
            disable_network_statistics: None,
            network_interval: None,
            network_save_path: None,
            traffic_period: None,
            traffic_reset_day: None,
            network_statistics_mode: None,
            network_duration: None,
            network_interval_number: None,
            boot_id: None,
            cycle_total_tx: None,
            cycle_total_rx: None,
            next_reset_timestamp: None,
            offset_tx: i64::MIN,
            offset_rx: i64::MIN,
        }
    }

    /// Takes over the value of one field, or gives the name of the type that the value lacks.
    fn set(&mut self, field: Field, value: &[char]) -> (r: Result<(), &'static str>)
        ensures
            match r {
                Ok(_) => type_violated(field, value@) is None,
                Err(name) => type_violated(field, value@) == Some(name@),
            },
            r is Ok ==> forall|ls: Seq<Seq<char>>, line: Seq<char>|
                #![trigger old(self).holds(ls), ls.push(line)]
                old(self).holds(ls) && read_line(line) == Line::Entry(field_name(field), value@)
                    ==> final(self).holds(ls.push(line)),
    {
        match field {
            Field::DisableNetworkStatistics => match parse_bool(value) {
                Some(b) => {
                    self.disable_network_statistics = Some(b);
                },
                None => {
                    return Err("bool");
                },
            },
            Field::NetworkInterval => match parse_u32(value) {
                Some(n) => {
                    self.network_interval = Some(n);
                },
                None => {
                    return Err("u32");
                },
            },
            Field::NetworkDuration => match parse_u32(value) {
                Some(n) => {
                    self.network_duration = Some(n);
                },
                None => {
                    return Err("u32");
                },
            },
            Field::NetworkIntervalNumber => match parse_u32(value) {
                Some(n) => {
                    self.network_interval_number = Some(n);
                },
                None => {
                    return Err("u32");
                },
            },
            Field::CycleTotalTx => match parse_u64(value) {
                Some(n) => {
                    self.cycle_total_tx = Some(n);
                },
                None => {
                    return Err("u64");
                },
            },
            Field::CycleTotalRx => match parse_u64(value) {
                Some(n) => {
                    self.cycle_total_rx = Some(n);
                },
                None => {
                    return Err("u64");
                },
            },
            Field::NextResetTimestamp => match parse_i64(value) {
                Some(n) => {
                    self.next_reset_timestamp = Some(n);
                },
                None => {
                    return Err("i64");
                },
            },
            Field::OffsetTx => match parse_i64(value) {
                Some(n) => {
                    self.offset_tx = n;
                },
                None => {
                    return Err("i64");
                },
            },
            Field::OffsetRx => match parse_i64(value) {
                Some(n) => {
                    self.offset_rx = n;
                },
                None => {
                    return Err("i64");
                },
            },
            Field::NetworkSavePath => {
                self.network_save_path = Some(to_text(value));
            },
            Field::TrafficResetDay => {
                self.traffic_reset_day = Some(to_text(value));
            },
            Field::BootId => {
                self.boot_id = Some(to_text(value));
            },
            Field::TrafficPeriod => {
                self.traffic_period =
                if is_text(value, "Week") {
                    Some(TrafficPeriod::Week)
                } else if is_text(value, "Month") {
                    Some(TrafficPeriod::Month)
                } else if is_text(value, "Year") {
                    Some(TrafficPeriod::Year)
                } else {
                    None
                };
            },
            Field::NetworkStatisticsMode => {
                self.network_statistics_mode =
                if is_text(value, "Natural") {
                    Some(NetworkStatisticsMode::Natural)
                } else if is_text(value, "Fixed") {
                    Some(NetworkStatisticsMode::Fixed)
                } else {
                    None
                };
            },
        }
        proof {
            assert forall|ls: Seq<Seq<char>>, line: Seq<char>|
                #![trigger old(self).holds(ls), ls.push(line)]
                old(self).holds(ls) && read_line(line) == Line::Entry(
                    field_name(field),
                    value@,
                ) implies self.holds(ls.push(line)) by {
                lemma_next_line(ls, line);
                lemma_field_of_name(field);
                assert forall|other: Field| other != field implies #[trigger] last_value(
                    ls.push(line),
                    other,
                ) == last_value(ls, other) by {
                    if field_name(other) == field_name(field) {
                        lemma_field_names_differ(other, field);
                    }
                }
            }
        }
        Ok(())
    }

    /// Takes over what one line says, or gives what is wrong with the line.
    fn take_line(&mut self, line: &[char]) -> (r: Result<(), String>)
        ensures
            match r {
                Ok(_) => line_error(line@) is None,
                Err(e) => line_error(line@) == Some(e@),
            },
            r is Ok ==> forall|ls: Seq<Seq<char>>| #[trigger]
                old(self).holds(ls) ==> final(self).holds(ls.push(line@)),
    {
        let content = trim(line);
        if content.len() == 0 || content[0] == '#' {
            proof {
                assert forall|ls: Seq<Seq<char>>| #[trigger]
                    old(self).holds(ls) implies self.holds(ls.push(line@)) by {
                    lemma_next_line(ls, line@);
                }
            }
            return Ok(());
        }
        let (key, value) = match split_once(content, '=') {
            Some((key, value)) => (trim(key), trim(value)),
            None => {
                let mut message = "Format error: expected key=value, got '".to_string();
                message.append(to_text(content).as_str());
                message.append("'");
                return Err(message);
            },
        };
        match Field::with_name(key) {
            Some(field) => {
                assert(key@ == field_name(field));
                match self.set(field, value) {
                    Ok(_) => {
                        proof {
                            assert forall|ls: Seq<Seq<char>>| #[trigger]
                                old(self).holds(ls) implies self.holds(ls.push(line@)) by {
                                let _ = ls.push(line@);
                            }
                        }
                        Ok(())
                    },
                    Err(name) => {
                        let mut message = "Invalid ".to_string();
                        message.append(name);
                        message.append(" for key '");
                        message.append(to_text(key).as_str());
                        message.append("'");
                        Err(message)
                    },
                }
            },
            None => {
                proof {
                    assert forall|ls: Seq<Seq<char>>| #[trigger]
                        old(self).holds(ls) implies self.holds(ls.push(line@)) by {
                        lemma_next_line(ls, line@);
                        assert forall|field: Field| #[trigger] last_value(ls.push(line@), field)
                            == last_value(ls, field) by {
                            lemma_field_of_name(field);
                        }
                    }
                }
                Ok(())
            },
        }
    }

    /// The state that was read, or the name of the first field that is missing.
    fn finish(self, Ghost(ls): Ghost<Seq<Seq<char>>>) -> (r: Result<NetworkInfo, Field>)
        requires
            self.holds(ls),
        ensures
            match r {
                Ok(info) => missing_field(ls) is None && info@ == assembled(ls),
                Err(field) => missing_field(ls) == Some(field),
            },
    {
        let disable_network_statistics = match self.disable_network_statistics {
            Some(b) => b,
            None => return Err(Field::DisableNetworkStatistics),
        };
        let network_interval = match self.network_interval {
            Some(n) => n,
            None => return Err(Field::NetworkInterval),
        };
        let network_save_path = match self.network_save_path {
            Some(s) => s,
            None => return Err(Field::NetworkSavePath),
        };
        let traffic_reset_day = match self.traffic_reset_day {
            Some(s) => s,
            None => "1".to_string(),
        };
        let boot_id = match self.boot_id {
            Some(s) => s,
            None => return Err(Field::BootId),
        };
        let cycle_total_tx = match self.cycle_total_tx {
            Some(n) => n,
            None => return Err(Field::CycleTotalTx),
        };
        let cycle_total_rx = match self.cycle_total_rx {
            Some(n) => n,
            None => return Err(Field::CycleTotalRx),
        };
        let next_reset_timestamp = match self.next_reset_timestamp {
            Some(n) => n,
            None => return Err(Field::NextResetTimestamp),
        };
        let info = NetworkInfo {
            config: NetworkConfig {
                disable_network_statistics,
                network_interval,
                network_save_path,
                traffic_period: match self.traffic_period {
                    Some(period) => period,
                    None => TrafficPeriod::Month,
                },
                traffic_reset_day,
                network_statistics_mode: match self.network_statistics_mode {
                    Some(mode) => mode,
                    None => NetworkStatisticsMode::Fixed,
                },
                network_duration: match self.network_duration {
                    Some(n) => n,
                    None => 864_000,
                },
                network_interval_number: match self.network_interval_number {
                    Some(n) => n,
                    None => 6,
                },
            },
            boot_id,
            cycle_total_tx,
            cycle_total_rx,
            next_reset_timestamp,
            offset_tx: self.offset_tx,
            offset_rx: self.offset_rx,
        };
        assert(info@ =~= assembled(ls));
        Ok(info)
    }
}

/// Appends one entry and its line ending.
fn append_line(output: &mut String, field: Field, value: &str)
    ensures
        final(output)@ == old(output)@ + entry_line((field, value@)).push('\n'),
{
    output.append(field.name());
    output.push('=');
    output.append(value);
    output.push('\n');
    assert(output@ =~= old(output)@ + entry_line((field, value@)).push('\n'));
}

impl NetworkInfo {
    /// The entries that describe the state.
    fn rows(&self) -> (rows: Vec<(Field, String)>)
        ensures
            rows@.len() == entries(self@).len(),
            forall|i: int|
                0 <= i < rows@.len() ==> (#[trigger] rows@[i]).0 == entries(self@)[i].0
                    && rows@[i].1@ == entries(self@)[i].1,
    {
        let period = match self.config.traffic_period {
            TrafficPeriod::Week => "Week",
            TrafficPeriod::Month => "Month",
            TrafficPeriod::Year => "Year",
        };
        let mode = match self.config.network_statistics_mode {
            NetworkStatisticsMode::Natural => "Natural",
            NetworkStatisticsMode::Fixed => "Fixed",
        };
        vec![
            (
                Field::DisableNetworkStatistics,
                bool_to_text(self.config.disable_network_statistics).to_string(),
            ),
            (Field::NetworkInterval, u64_to_text(self.config.network_interval as u64)),
            (Field::NetworkSavePath, self.config.network_save_path.clone()),
            (Field::TrafficPeriod, period.to_string()),
            (Field::TrafficResetDay, self.config.traffic_reset_day.clone()),
            (Field::NetworkStatisticsMode, mode.to_string()),
            (Field::NetworkDuration, u64_to_text(self.config.network_duration as u64)),
            (
                Field::NetworkIntervalNumber,
                u64_to_text(self.config.network_interval_number as u64),
            ),
            (Field::BootId, self.boot_id.clone()),
            (Field::CycleTotalTx, u64_to_text(self.cycle_total_tx)),
            (Field::CycleTotalRx, u64_to_text(self.cycle_total_rx)),
            (Field::NextResetTimestamp, i64_to_text(self.next_reset_timestamp)),
            (Field::OffsetTx, i64_to_text(self.offset_tx)),
            (Field::OffsetRx, i64_to_text(self.offset_rx)),
        ]
    }

    /// The state as text.
    pub fn encode(&self) -> (output: String)
        ensures
            output@ == encoded(self@),
    {
        let rows = self.rows();
        let ghost es = entries(self@);
        let mut output = String::new();
        let mut i: usize = 0;
        while i < rows.len()
            invariant
                i <= rows.len(),
                rows@.len() == es.len(),
                forall|k: int|
                    0 <= k < rows@.len() ==> (#[trigger] rows@[k]).0 == es[k].0 && rows@[k].1@
                        == es[k].1,
                output@ == written(es.take(i as int)),
            decreases rows.len() - i,
        {
            append_line(&mut output, rows[i].0, rows[i].1.as_str());
            assert(es.take(i + 1).drop_last() =~= es.take(i as int));
            i += 1;
        }
        assert(es.take(i as int) =~= es);
        output
    }

    /// The state that `input` describes. Blank lines, comments and unknown keys are passed over.
    pub fn decode(input: &str) -> (r: Result<Self, String>)
        ensures
            match r {
                Ok(info) => decoded(input@) == Ok::<NetworkInfoView, Seq<char>>(info@),
                Err(e) => decoded(input@) == Err::<NetworkInfoView, Seq<char>>(e@),
            },
    {
        let chars = to_chars(input);
        let ls = lines(chars.as_slice());
        let ghost all = lines_of(input@);
        let mut draft = Draft::empty();
        let mut i: usize = 0;
        assert(all.take(0) =~= Seq::<Seq<char>>::empty());
        while i < ls.len()
            invariant
                i <= ls.len(),
                all == lines_of(input@),
                ls@.len() == all.len(),
                forall|k: int| 0 <= k < ls@.len() ==> (#[trigger] ls@[k])@ == all[k],
                draft.holds(all.take(i as int)),
            decreases ls.len() - i,
        {
            let ghost before = all.take(i as int);
            assert(all.take(i + 1) =~= before.push(all[i as int]));
            if let Err(e) = draft.take_line(ls[i]) {
                proof {
                    lemma_next_line(before, all[i as int]);
                    lemma_error_stays(all, i + 1);
                }
                return Err(e);
            }
            i += 1;
        }
        assert(all.take(i as int) =~= all);
        match draft.finish(Ghost(all)) {
            Ok(info) => Ok(info),
            Err(field) => {
                let mut message = "Missing field: ".to_string();
                message.append(field.name());
                Err(message)
            },
        }
    }
}

/// A fault in the first lines of a text is the first fault of the text.
proof fn lemma_error_stays(ls: Seq<Seq<char>>, i: int)
    requires
        0 <= i <= ls.len(),
        first_error(ls.take(i)) is Some,
    ensures
        first_error(ls) == first_error(ls.take(i)),
    decreases ls.len(),
{
    if i == ls.len() {
        assert(ls.take(i) =~= ls);
    } else {
        assert(ls.drop_last().take(i) =~= ls.take(i));
        lemma_error_stays(ls.drop_last(), i);
    }
}

/// Tries to parse the old `key=value` format to migrate traffic totals: what was sent, then what
/// was received.
pub fn parse_old_format_for_migration(input: &str) -> (r: Option<(u64, u64)>)
    ensures
        match r {
            Some((tx, rx)) => old_totals(input@) == Some((tx as int, rx as int)),
            None => old_totals(input@) is None,
        },
{
    let chars = to_chars(input);
    let ls = lines(chars.as_slice());
    let ghost all = lines_of(input@);
    let mut source_tx: Option<u64> = None;
    let mut source_rx: Option<u64> = None;
    let mut i: usize = 0;
    proof {
        reveal_strlit("source_tx");
        reveal_strlit("source_rx");
        assert("source_tx"@[7] != "source_rx"@[7]);
    }
    while i < ls.len()
        invariant
            i <= ls.len(),
            "source_tx"@ != "source_rx"@,
            all == lines_of(input@),
            ls@.len() == all.len(),
            forall|k: int| 0 <= k < ls@.len() ==> (#[trigger] ls@[k])@ == all[k],
            same_u64(source_tx, last_number(all.take(i as int), "source_tx"@)),
            same_u64(source_rx, last_number(all.take(i as int), "source_rx"@)),
        decreases ls.len() - i,
    {
        assert(all.take(i + 1).drop_last() =~= all.take(i as int));
        if let Some((key, value)) = split_once(ls[i], '=') {
            let key = trim(key);
            let value = trim(value);
            if is_text(key, "source_tx") {
                source_tx = parse_u64(value);
            } else if is_text(key, "source_rx") {
                source_rx = parse_u64(value);
            }
        }
        i += 1;
    }
    assert(all.take(i as int) =~= all);
    match (source_tx, source_rx) {
        (Some(tx), Some(rx)) => Some((tx, rx)),
        _ => None,
    }
}

/// The view of a state shows each of its fields.
pub proof fn state_view_shows_all(info: NetworkInfo)
    ensures
        info@.config == info.config@,
        info@.boot_id == info.boot_id@,
        info@.cycle_total_tx == info.cycle_total_tx,
        info@.cycle_total_rx == info.cycle_total_rx,
        info@.next_reset_timestamp == info.next_reset_timestamp,
        info@.offset_tx == info.offset_tx,
        info@.offset_rx == info.offset_rx,
{
}

/// Two states are equal exactly if all their fields are, and a copy is equal.
pub proof fn equal_states_are_equal_in_all_fields(a: NetworkInfo, b: NetworkInfo, copy: NetworkInfo)
    requires
        call_ensures(NetworkInfo::clone, (&a,), copy),
    ensures
        a.eq_spec(&b) <==> a.config.eq_spec(&b.config) && a.boot_id@ == b.boot_id@
            && a.cycle_total_tx == b.cycle_total_tx && a.cycle_total_rx == b.cycle_total_rx
            && a.next_reset_timestamp == b.next_reset_timestamp && a.offset_tx == b.offset_tx
            && a.offset_rx == b.offset_rx,
        copy.eq_spec(&a),
{
}

} // verus!
