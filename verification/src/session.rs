//! How a session of measurements begins: what is taken over from the file, and what has changed
//! since it was written.
use vstd::prelude::*;
use crate::calendar::{
    is_timestamp, moment_in_utc, unix_timestamp, utc_moment, Moment,
};
use crate::config::{NetworkConfig, NetworkConfigView};
use crate::network_info::{
    decoded, old_totals, parse_old_format_for_migration, NetworkInfo, NetworkInfoView,
};
use crate::realtime::{fits_i64, signed, to_signed};
use crate::reset::{
    calculate_next_reset_timestamp, calendar_suffices, next_reset, reset_in_calendar,
};
use crate::text::{to_chars, to_text, trim, trimmed};

verus! {

/// Marks an offset that has to be computed from the totals and the counters: a cycle has begun, or
/// the file held no offset.
pub const OFFSET_UNKNOWN: i64 = -0x8000_0000_0000_0000;

/// Marks an offset that the totals make up: the counters started again when the system did.
pub const OFFSET_REBOOTED: i64 = -0x7fff_ffff_ffff_ffff;

/// Marks an offset of statistics that have just been set up.
pub const OFFSET_INITIAL: i64 = -0x7fff_ffff_ffff_fffe;

/// What a state file gives.
#[derive(Debug)]
pub enum StoredState {
    /// A state.
    Loaded(NetworkInfo),
    /// Totals to begin with.
    Totals { tx: u64, rx: u64 },
}

/// What a state file gives, with its texts as character sequences.
pub enum StoredView {
    Loaded(NetworkInfoView),
    Totals { tx: u64, rx: u64 },
}

impl View for StoredState {
    type V = StoredView;

    open spec fn view(&self) -> StoredView {
        match *self {
            StoredState::Loaded(info) => StoredView::Loaded(info@),
            StoredState::Totals { tx, rx } => StoredView::Totals { tx, rx },
        }
    }
}

/// What the contents of a state file give: a state, or else the totals of the old format, or else
/// totals of zero.
pub open spec fn stored(raw_data: Seq<char>) -> StoredView {
    if raw_data.len() == 0 {
        StoredView::Totals { tx: 0, rx: 0 }
    } else {
        match decoded(raw_data) {
            Ok(info) => StoredView::Loaded(info),
            Err(_) => match old_totals(raw_data) {
                Some((tx, rx)) => StoredView::Totals { tx: tx as u64, rx: rx as u64 },
                None => StoredView::Totals { tx: 0, rx: 0 },
            },
        }
    }
}

/// Whether the next reset has to be calculated: the statistics are new, the settings have changed,
/// or the cycle is over.
pub open spec fn needs_reset(stored: StoredView, config: NetworkConfigView, now: Moment) -> bool {
    match stored {
        StoredView::Loaded(info) => info.config != config || now.timestamp()
            >= info.next_reset_timestamp,
        StoredView::Totals { .. } => true,
    }
}

/// The state to begin with.
pub open spec fn initial_state(
    stored: StoredView,
    config: NetworkConfigView,
    now: Moment,
    boot_id: Seq<char>,
) -> Result<NetworkInfoView, Seq<char>> {
    match stored {
        StoredView::Loaded(info) => Ok(info),
        StoredView::Totals { tx, rx } => match next_reset(config, now) {
            Ok(t) => Ok(
                NetworkInfoView {
                    config,
                    boot_id,
                    cycle_total_tx: tx,
                    cycle_total_rx: rx,
                    next_reset_timestamp: t as i64,
                    offset_tx: OFFSET_INITIAL,
                    offset_rx: OFFSET_INITIAL,
                },
            ),
            Err(e) => Err(e),
        },
    }
}

/// The state under the present settings. If they have changed, the cycle ends when they say.
pub open spec fn with_config(
    info: NetworkInfoView,
    config: NetworkConfigView,
    now: Moment,
) -> Result<NetworkInfoView, Seq<char>> {
    if info.config == config {
        Ok(info)
    } else {
        match next_reset(config, now) {
            Ok(t) => Ok(NetworkInfoView { config, next_reset_timestamp: t as i64, ..info }),
            Err(e) => Err(e),
        }
    }
}

/// The state in the present cycle. If the last one is over, the totals start again from zero.
pub open spec fn with_cycle(
    info: NetworkInfoView,
    config: NetworkConfigView,
    now: Moment,
) -> Result<NetworkInfoView, Seq<char>> {
    if now.timestamp() < info.next_reset_timestamp {
        Ok(info)
    } else {
        match next_reset(config, now) {
            Ok(t) => Ok(
                NetworkInfoView {
                    cycle_total_tx: 0,
                    cycle_total_rx: 0,
                    next_reset_timestamp: t as i64,
                    offset_tx: OFFSET_UNKNOWN,
                    offset_rx: OFFSET_UNKNOWN,
                    ..info
                },
            ),
            Err(e) => Err(e),
        }
    }
}

/// Whether the system was started again since the state was saved. This cannot be told without a
/// boot ID.
pub open spec fn rebooted(info: NetworkInfoView, boot_id: Seq<char>, detect_reboot: bool) -> bool {
    detect_reboot && boot_id.len() > 0 && info.boot_id != boot_id
}

/// The state since the system was started.
pub open spec fn with_boot(
    info: NetworkInfoView,
    boot_id: Seq<char>,
    detect_reboot: bool,
) -> NetworkInfoView {
    if rebooted(info, boot_id, detect_reboot) {
        NetworkInfoView {
            boot_id,
            offset_tx: OFFSET_REBOOTED,
            offset_rx: OFFSET_REBOOTED,
            ..info
        }
    } else {
        NetworkInfoView { boot_id, ..info }
    }
}

/// The state with which a session begins, but for the offset.
pub open spec fn started(
    stored: StoredView,
    config: NetworkConfigView,
    now: Moment,
    boot_id: Seq<char>,
    detect_reboot: bool,
) -> Result<NetworkInfoView, Seq<char>> {
    match initial_state(stored, config, now, boot_id) {
        Ok(first) => match with_config(first, config, now) {
            Ok(second) => match with_cycle(second, config, now) {
                Ok(third) => Ok(with_boot(third, boot_id, detect_reboot)),
                Err(e) => Err(e),
            },
            Err(e) => Err(e),
        },
        Err(e) => Err(e),
    }
}

/// Whether the offset is what the totals are above the counters.
pub open spec fn offset_from_counters(info: NetworkInfoView) -> bool {
    ||| info.offset_tx == OFFSET_UNKNOWN
    ||| info.offset_tx == OFFSET_INITIAL && !(info.cycle_total_tx == 0 && info.cycle_total_rx == 0)
}

/// Whether the offset can be computed without overflow.
pub open spec fn offset_fits(info: NetworkInfoView, tx: u64, rx: u64) -> bool {
    offset_from_counters(info) ==> fits_i64(signed(info.cycle_total_tx) - signed(tx)) && fits_i64(
        signed(info.cycle_total_rx) - signed(rx),
    )
}

/// The state with an offset that makes the present counters amount to the totals. After a reboot
/// the counters come on top of the totals. New statistics without totals begin with the counters,
/// and an offset that was saved stays.
pub open spec fn with_offset(info: NetworkInfoView, tx: u64, rx: u64) -> NetworkInfoView {
    if offset_from_counters(info) {
        NetworkInfoView {
            offset_tx: (signed(info.cycle_total_tx) - signed(tx)) as i64,
            offset_rx: (signed(info.cycle_total_rx) - signed(rx)) as i64,
            ..info
        }
    } else if info.offset_tx == OFFSET_REBOOTED {
        NetworkInfoView {
            offset_tx: signed(info.cycle_total_tx) as i64,
            offset_rx: signed(info.cycle_total_rx) as i64,
            ..info
        }
    } else if info.offset_tx == OFFSET_INITIAL {
        NetworkInfoView { offset_tx: 0, offset_rx: 0, ..info }
    } else {
        info
    }
}

/// Whether the calendar reaches far enough for a session to begin.
pub open spec fn start_fits(config: NetworkConfigView, raw_data: Seq<char>, now: int) -> bool {
    let moment = utc_moment(now);
    &&& is_timestamp(now)
    &&& needs_reset(stored(raw_data), config, moment) ==> reset_in_calendar(config, moment.date)
}

/// Whether a session can begin: the calendar reaches far enough, and the offset does not overflow.
pub open spec fn session_fits(
    config: NetworkConfigView,
    raw_data: Seq<char>,
    now: int,
    boot_id: Seq<char>,
    detect_reboot: bool,
    tx: u64,
    rx: u64,
) -> bool {
    &&& start_fits(config, raw_data, now)
    &&& match started(stored(raw_data), config, utc_moment(now), boot_id, detect_reboot) {
        Ok(info) => offset_fits(info, tx, rx),
        Err(_) => true,
    }
}

/// The state with which a session begins.
pub open spec fn session(
    config: NetworkConfigView,
    raw_data: Seq<char>,
    now: int,
    boot_id: Seq<char>,
    detect_reboot: bool,
    tx: u64,
    rx: u64,
) -> Result<NetworkInfoView, Seq<char>> {
    match started(stored(raw_data), config, utc_moment(now), boot_id, detect_reboot) {
        Ok(info) => Ok(with_offset(info, tx, rx)),
        Err(e) => Err(e),
    }
}

/// The boot ID in the contents of the kernel's file, or an empty one if there are none.
pub fn boot_id_from(contents: Option<&str>) -> (boot_id: String)
    ensures
        boot_id@ == match contents {
            Some(text) => trimmed(text@),
            None => Seq::empty(),
        },
{
    match contents {
        Some(text) => {
            let chars = to_chars(text);
            to_text(trim(chars.as_slice()))
        },
        None => String::new(),
    }
}

/// What the contents of a state file give.
pub fn read_stored_state(raw_data: &str) -> (r: StoredState)
    ensures
        r@ == stored(raw_data@),
{
    if raw_data.is_empty() {
        return StoredState::Totals { tx: 0, rx: 0 };
    }
    match NetworkInfo::decode(raw_data) {
        Ok(info) => StoredState::Loaded(info),
        Err(_) => match parse_old_format_for_migration(raw_data) {
            Some((tx, rx)) => StoredState::Totals { tx, rx },
            None => StoredState::Totals { tx: 0, rx: 0 },
        },
    }
}

/// Whether the next reset has to be calculated when a session begins.
pub fn reset_is_needed(stored: &StoredState, config: &NetworkConfig, now: Moment) -> (r: bool)
    requires
        now.valid(),
    ensures
        r == needs_reset(stored@, config@, now),
{
    match stored {
        StoredState::Loaded(info) => info.config != *config || unix_timestamp(now)
            >= info.next_reset_timestamp,
        StoredState::Totals { tx: _, rx: _ } => true,
    }
}

/// The state with which a session begins, but for the offset.
pub fn start_session(
    stored: StoredState,
    config: &NetworkConfig,
    now: Moment,
    new_boot_id: String,
    detect_reboot: bool,
) -> (r: Result<NetworkInfo, String>)
    requires
        now.valid(),
        needs_reset(stored@, config@, now) ==> reset_in_calendar(config@, now.date),
    ensures
        match r {
            Ok(info) => started(stored@, config@, now, new_boot_id@, detect_reboot) == Ok::<
                NetworkInfoView,
                Seq<char>,
            >(info@),
            Err(e) => started(stored@, config@, now, new_boot_id@, detect_reboot) == Err::<
                NetworkInfoView,
                Seq<char>,
            >(e@),
        },
{
    let mut info = match stored {
        StoredState::Loaded(info) => info,
        StoredState::Totals { tx, rx } => {
            let next_reset_timestamp = match calculate_next_reset_timestamp(config, now) {
                Ok(t) => t,
                Err(e) => return Err(e),
            };
            NetworkInfo {
                config: config.clone(),
                boot_id: new_boot_id.clone(),
                cycle_total_tx: tx,
                cycle_total_rx: rx,
                next_reset_timestamp,
                offset_tx: OFFSET_INITIAL,
                offset_rx: OFFSET_INITIAL,
            }
        },
    };
    assert(initial_state(stored@, config@, now, new_boot_id@) == Ok::<NetworkInfoView, Seq<char>>(
        info@,
    ));
    let ghost first = info@;
    if info.config != *config {
        info.next_reset_timestamp =
        match calculate_next_reset_timestamp(config, now) {
            Ok(t) => t,
            Err(e) => return Err(e),
        };
        info.config = config.clone();
    }
    assert(with_config(first, config@, now) == Ok::<NetworkInfoView, Seq<char>>(info@));
    let ghost second = info@;
    if unix_timestamp(now) >= info.next_reset_timestamp {
        info.cycle_total_tx = 0;
        info.cycle_total_rx = 0;
        info.next_reset_timestamp =
        match calculate_next_reset_timestamp(config, now) {
            Ok(t) => t,
            Err(e) => return Err(e),
        };
        info.offset_tx = OFFSET_UNKNOWN;
        info.offset_rx = OFFSET_UNKNOWN;
    }
    assert(with_cycle(second, config@, now) == Ok::<NetworkInfoView, Seq<char>>(info@));
    let is_reboot = detect_reboot && !new_boot_id.as_str().is_empty() && info.boot_id
        != new_boot_id;
    if is_reboot {
        info.offset_tx = OFFSET_REBOOTED;
        info.offset_rx = OFFSET_REBOOTED;
    }
    info.boot_id = new_boot_id;
    Ok(info)
}

impl NetworkInfo {
    /// Whether the offset is what the totals are above the counters.
    fn is_offset_from_counters(&self) -> (r: bool)
        ensures
            r == offset_from_counters(self@),
    {
        self.offset_tx == OFFSET_UNKNOWN || (self.offset_tx == OFFSET_INITIAL && !(
        self.cycle_total_tx == 0 && self.cycle_total_rx == 0))
    }

    /// Whether the offset can be computed from the present counters without overflow.
    pub fn can_settle_offset(&self, current_total_tx: u64, current_total_rx: u64) -> (r: bool)
        ensures
            r == offset_fits(self@, current_total_tx, current_total_rx),
    {
        !self.is_offset_from_counters() || (to_signed(self.cycle_total_tx).checked_sub(
            to_signed(current_total_tx),
        ).is_some() && to_signed(self.cycle_total_rx).checked_sub(
            to_signed(current_total_rx),
        ).is_some())
    }

    /// Sets the offset for this session from the present counters.
    pub fn settle_offset(&mut self, current_total_tx: u64, current_total_rx: u64)
        requires
            offset_fits(old(self)@, current_total_tx, current_total_rx),
        ensures
            final(self)@ == with_offset(old(self)@, current_total_tx, current_total_rx),
    {
        if self.is_offset_from_counters() {
            self.offset_tx = to_signed(self.cycle_total_tx) - to_signed(current_total_tx);
            self.offset_rx = to_signed(self.cycle_total_rx) - to_signed(current_total_rx);
        } else if self.offset_tx == OFFSET_REBOOTED {
            self.offset_tx = to_signed(self.cycle_total_tx);
            self.offset_rx = to_signed(self.cycle_total_rx);
        } else if self.offset_tx == OFFSET_INITIAL {
            self.offset_tx = 0;
            self.offset_rx = 0;
        }
    }
}

/// The state with which a session begins, but for the offset, from the contents of the state file.
/// `now` is a Unix timestamp. There is nothing if the calendar does not reach far enough.
pub fn prepare_session(
    network_config: &NetworkConfig,
    raw_data: &str,
    now: i64,
    new_boot_id: String,
    detect_reboot: bool,
) -> (r: Option<Result<NetworkInfo, String>>)
    ensures
        ({
            let fits = start_fits(network_config@, raw_data@, now as int);
            let result = started(
                stored(raw_data@),
                network_config@,
                utc_moment(now as int),
                new_boot_id@,
                detect_reboot,
            );
            match r {
                Some(Ok(info)) => fits && result == Ok::<NetworkInfoView, Seq<char>>(info@),
                Some(Err(e)) => fits && result == Err::<NetworkInfoView, Seq<char>>(e@),
                None => !fits,
            }
        }),
{
    let moment = match moment_in_utc(now) {
        Some(moment) => moment,
        None => return None,
    };
    let stored = read_stored_state(raw_data);
    if reset_is_needed(&stored, network_config, moment) && !calendar_suffices(
        network_config,
        moment.date,
    ) {
        return None;
    }
    Some(start_session(stored, network_config, moment, new_boot_id, detect_reboot))
}

/// Begins a session: reads the contents of the state file or migrates them from the old format,
/// takes changed settings, the end of a cycle and a reboot into account, and sets the offset.
/// `now` is a Unix timestamp. There is nothing if the calendar does not reach far enough or the
/// offset overflows.
pub fn initialize_network_state_and_offset(
    network_config: &NetworkConfig,
    raw_data: &str,
    now: i64,
    new_boot_id: String,
    detect_reboot: bool,
    current_total_tx: u64,
    current_total_rx: u64,
) -> (r: Option<Result<NetworkInfo, String>>)
    ensures
        ({
            let config = network_config@;
            let (raw, boot_id) = (raw_data@, new_boot_id@);
            let (tx, rx) = (current_total_tx, current_total_rx);
            let fits = session_fits(config, raw, now as int, boot_id, detect_reboot, tx, rx);
            let result = session(config, raw, now as int, boot_id, detect_reboot, tx, rx);
            match r {
                Some(Ok(info)) => fits && result == Ok::<NetworkInfoView, Seq<char>>(info@),
                Some(Err(e)) => fits && result == Err::<NetworkInfoView, Seq<char>>(e@),
                None => !fits,
            }
        }),
{
    match prepare_session(network_config, raw_data, now, new_boot_id, detect_reboot) {
        Some(Ok(mut info)) => {
            if !info.can_settle_offset(current_total_tx, current_total_rx) {
                return None;
            }
            info.settle_offset(current_total_tx, current_total_rx);
            Some(Ok(info))
        },
        Some(Err(e)) => Some(Err(e)),
        None => None,
    }
}

} // verus!
