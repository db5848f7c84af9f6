//! The course of the program that keeps the statistics: what it does next, and what follows from
//! the outcome.
use vstd::prelude::*;
use crate::config::{NetworkConfig, NetworkConfigView};
use crate::network_info::{encoded, NetworkInfo, NetworkInfoView};
use crate::realtime::{cycle_total, fits_i64, signed, total_with_offset};

verus! {

/// A cycle of the statistics: the state, and how often it has been updated since it was last
/// saved.
#[derive(Debug)]
pub struct Cycle {
    pub info: NetworkInfo,
    pub memory_update_count: u32,
}

/// Where the program stands.
#[derive(Debug)]
pub enum Phase {
    /// It has ended.
    Stopped,
    /// A session is about to begin.
    Initializing,
    /// It waits for the next measurement.
    Sleeping(Cycle),
    /// The byte counters are about to be read.
    Measuring(Cycle),
    /// The state is about to be saved.
    Saving(Cycle),
}

/// What the program does next.
#[derive(Debug)]
pub enum SaverAction {
    /// End.
    Stop,
    /// Begin a session: read the state file, set the offset and save the state.
    Initialize,
    /// Wait.
    Sleep { seconds: u64 },
    /// Read the byte counters.
    Measure,
    /// Replace the contents of the state file.
    Save { content: String },
}

/// What came of it.
#[derive(Debug)]
pub enum SaverEvent {
    /// The session has begun with this state.
    Initialized(NetworkInfo),
    /// The session could not begin.
    InitializationFailed,
    /// The wait is over, at this Unix timestamp.
    Woken { now: i64 },
    /// The counters of bytes sent and received.
    Measured { tx: u64, rx: u64 },
    /// The state was saved, or could not be saved.
    SaveFinished,
}

/// The program that keeps the statistics.
#[derive(Debug)]
pub struct NetworkSaver {
    pub config: NetworkConfig,
    pub phase: Phase,
}

/// A cycle with its texts as character sequences.
#[verifier::ext_equal]
pub struct CycleView {
    pub info: NetworkInfoView,
    pub memory_update_count: u32,
}

impl View for Cycle {
    type V = CycleView;

    open spec fn view(&self) -> CycleView {
        CycleView { info: self.info@, memory_update_count: self.memory_update_count }
    }
}

/// Where the program stands, with texts as character sequences.
pub enum PhaseView {
    Stopped,
    Initializing,
    Sleeping(CycleView),
    Measuring(CycleView),
    Saving(CycleView),
}

impl View for Phase {
    type V = PhaseView;

    open spec fn view(&self) -> PhaseView {
        match *self {
            Phase::Stopped => PhaseView::Stopped,
            Phase::Initializing => PhaseView::Initializing,
            Phase::Sleeping(cycle) => PhaseView::Sleeping(cycle@),
            Phase::Measuring(cycle) => PhaseView::Measuring(cycle@),
            Phase::Saving(cycle) => PhaseView::Saving(cycle@),
        }
    }
}

/// The number of measurements after which the state is saved. There is at least one.
pub open spec fn updates_per_save(config: NetworkConfigView) -> int {
    if config.network_interval_number == 0 {
        1
    } else {
        config.network_interval_number as int
    }
}

/// Whether the updates that were not saved are fewer than those after which they are saved.
pub open spec fn phase_valid(config: NetworkConfigView, phase: PhaseView) -> bool {
    match phase {
        PhaseView::Stopped | PhaseView::Initializing => true,
        PhaseView::Sleeping(cycle) | PhaseView::Measuring(cycle) => cycle.memory_update_count
            < updates_per_save(config),
        PhaseView::Saving(cycle) => cycle.memory_update_count == 0,
    }
}

/// Where the program begins.
pub open spec fn first_phase(config: NetworkConfigView) -> PhaseView {
    if config.disable_network_statistics {
        PhaseView::Stopped
    } else {
        PhaseView::Initializing
    }
}

/// The state after the counters were read.
pub open spec fn with_totals(info: NetworkInfoView, tx: u64, rx: u64) -> NetworkInfoView {
    NetworkInfoView {
        cycle_total_tx: total_with_offset(tx, info.offset_tx) as u64,
        cycle_total_rx: total_with_offset(rx, info.offset_rx) as u64,
        ..info
    }
}

/// Whether the totals can be computed from the counters without overflow.
pub open spec fn totals_fit(info: NetworkInfoView, tx: u64, rx: u64) -> bool {
    fits_i64(signed(tx) + info.offset_tx) && fits_i64(signed(rx) + info.offset_rx)
}

/// Whether an event can come about in a phase.
pub open spec fn expects(phase: PhaseView, event: SaverEvent) -> bool {
    match (phase, event) {
        (PhaseView::Initializing, SaverEvent::Initialized(_)) => true,
        (PhaseView::Initializing, SaverEvent::InitializationFailed) => true,
        (PhaseView::Sleeping(_), SaverEvent::Woken { .. }) => true,
        (PhaseView::Measuring(cycle), SaverEvent::Measured { tx, rx }) => totals_fit(
            cycle.info,
            tx,
            rx,
        ),
        (PhaseView::Saving(_), SaverEvent::SaveFinished) => true,
        _ => false,
    }
}

/// Where the program goes from a phase.
pub open spec fn next_phase(
    config: NetworkConfigView,
    phase: PhaseView,
    event: SaverEvent,
) -> PhaseView {
    match (phase, event) {
        (PhaseView::Initializing, SaverEvent::Initialized(info)) => PhaseView::Sleeping(
            CycleView { info: info@, memory_update_count: 0 },
        ),
        (PhaseView::Initializing, SaverEvent::InitializationFailed) => PhaseView::Stopped,
        (PhaseView::Sleeping(cycle), SaverEvent::Woken { now }) => if now
            >= cycle.info.next_reset_timestamp {
            PhaseView::Initializing
        } else {
            PhaseView::Measuring(cycle)
        },
        (PhaseView::Measuring(cycle), SaverEvent::Measured { tx, rx }) => {
            let info = with_totals(cycle.info, tx, rx);
            if cycle.memory_update_count + 1 >= config.network_interval_number {
                PhaseView::Saving(CycleView { info, memory_update_count: 0 })
            } else {
                PhaseView::Sleeping(
                    CycleView {
                        info,
                        memory_update_count: (cycle.memory_update_count + 1) as u32,
                    },
                )
            }
        },
        (PhaseView::Saving(cycle), SaverEvent::SaveFinished) => PhaseView::Sleeping(cycle),
        _ => phase,
    }
}

impl NetworkSaver {
    /// Whether the updates that were not saved are fewer than those after which they are saved.
    pub open spec fn valid(self) -> bool {
        phase_valid(self.config@, self.phase@)
    }

    /// The program at its beginning. It ends at once if the statistics are switched off.
    pub fn new(config: NetworkConfig) -> (saver: Self)
        ensures
            saver.valid(),
            saver.config@ == config@,
            saver.phase@ == first_phase(config@),
    {
        let phase = if config.disable_network_statistics {
            Phase::Stopped
        } else {
            Phase::Initializing
        };
        NetworkSaver { config, phase }
    }

    /// What the program does next.
    pub fn action(&self) -> (action: SaverAction)
        ensures
            match self.phase@ {
                PhaseView::Stopped => action == SaverAction::Stop,
                PhaseView::Initializing => action == SaverAction::Initialize,
                PhaseView::Sleeping(_) => action == (SaverAction::Sleep {
                    seconds: self.config@.network_interval as u64,
                }),
                PhaseView::Measuring(_) => action == SaverAction::Measure,
                PhaseView::Saving(cycle) => action matches SaverAction::Save { content }
                    && content@ == encoded(cycle.info),
            },
    {
        match &self.phase {
            Phase::Stopped => SaverAction::Stop,
            Phase::Initializing => SaverAction::Initialize,
            Phase::Sleeping(_) => SaverAction::Sleep {
                seconds: self.config.network_interval as u64,
            },
            Phase::Measuring(_) => SaverAction::Measure,
            Phase::Saving(cycle) => SaverAction::Save { content: cycle.info.encode() },
        }
    }

    /// Whether an event can come about now.
    pub fn is_expected(&self, event: &SaverEvent) -> (r: bool)
        ensures
            r == expects(self.phase@, *event),
    {
        match (&self.phase, event) {
            (Phase::Initializing, SaverEvent::Initialized(_)) => true,
            (Phase::Initializing, SaverEvent::InitializationFailed) => true,
            (Phase::Sleeping(_), SaverEvent::Woken { now: _ }) => true,
            (
                Phase::Measuring(cycle),
                SaverEvent::Measured { tx, rx },
            ) => crate::realtime::cycle_total_fits(*tx, cycle.info.offset_tx)
                && crate::realtime::cycle_total_fits(*rx, cycle.info.offset_rx),
            (Phase::Saving(_), SaverEvent::SaveFinished) => true,
            _ => false,
        }
    }

    /// The program after an event.
    pub fn step(self, event: SaverEvent) -> (next: Self)
        requires
            self.valid(),
            expects(self.phase@, event),
        ensures
            next.valid(),
            next.config@ == self.config@,
            next.phase@ == next_phase(self.config@, self.phase@, event),
    {
        let config = self.config;
        let phase = match (self.phase, event) {
            (Phase::Initializing, SaverEvent::Initialized(info)) => Phase::Sleeping(
                Cycle { info, memory_update_count: 0 },
            ),
            (Phase::Sleeping(cycle), SaverEvent::Woken { now }) => if now
                >= cycle.info.next_reset_timestamp {
                Phase::Initializing
            } else {
                Phase::Measuring(cycle)
            },
            (Phase::Measuring(mut cycle), SaverEvent::Measured { tx, rx }) => {
                cycle.info.cycle_total_tx = cycle_total(tx, cycle.info.offset_tx);
                cycle.info.cycle_total_rx = cycle_total(rx, cycle.info.offset_rx);
                cycle.memory_update_count += 1;
                if cycle.memory_update_count >= config.network_interval_number {
                    cycle.memory_update_count = 0;
                    Phase::Saving(cycle)
                } else {
                    Phase::Sleeping(cycle)
                }
            },
            (Phase::Saving(cycle), SaverEvent::SaveFinished) => Phase::Sleeping(cycle),
            _ => Phase::Stopped,
        };
        NetworkSaver { config, phase }
    }
}

/// The program ends at once if the statistics are switched off, and else begins a session. It goes
/// by the settings that it was given.
pub proof fn program_begins_unless_switched_off(config: NetworkConfig, saver: NetworkSaver)
    requires
        call_ensures(NetworkSaver::new, (config,), saver),
    ensures
        saver.config@ == config@,
        config.disable_network_statistics ==> saver.phase is Stopped,
        !config.disable_network_statistics ==> saver.phase is Initializing,
{
}

/// The program ends, begins a session, waits for the set number of seconds, measures or saves, as
/// its phase says. What it saves is the encoded state.
pub proof fn action_follows_the_phase(
    saver: NetworkSaver,
    action: SaverAction,
    info: NetworkInfo,
    text: String,
)
    requires
        call_ensures(NetworkSaver::action, (&saver,), action),
        call_ensures(NetworkInfo::encode, (&info,), text),
    ensures
        match saver.phase {
            Phase::Stopped => action is Stop,
            Phase::Initializing => action is Initialize,
            Phase::Sleeping(_) => action matches SaverAction::Sleep { seconds } && seconds
                == saver.config.network_interval,
            Phase::Measuring(_) => action is Measure,
            Phase::Saving(cycle) => action matches SaverAction::Save { content } && (cycle.info@
                == info@ ==> content@ == text@),
        },
{
}

/// A session begins or fails to begin, a wait ends, counters are read, or a save ends: each can
/// come about in the phase that waits for it, and in no other. Counters have to give totals that
/// fit in 64 bits.
pub proof fn each_phase_expects_its_outcome(
    saver: NetworkSaver,
    event: SaverEvent,
    r: bool,
    fits_tx: bool,
    fits_rx: bool,
)
    requires
        call_ensures(NetworkSaver::is_expected, (&saver, &event), r),
        saver.phase matches Phase::Measuring(cycle) ==> (event matches SaverEvent::Measured {
            tx,
            rx,
        } ==> call_ensures(
            crate::realtime::cycle_total_fits,
            (tx, cycle.info.offset_tx),
            fits_tx,
        ) && call_ensures(
            crate::realtime::cycle_total_fits,
            (rx, cycle.info.offset_rx),
            fits_rx,
        )),
    ensures
        saver.phase is Stopped ==> !r,
        saver.phase is Initializing ==> (r <==> event is Initialized
            || event is InitializationFailed),
        saver.phase is Sleeping ==> (r <==> event is Woken),
        saver.phase is Measuring ==> (r <==> event is Measured && fits_tx && fits_rx),
        saver.phase is Saving ==> (r <==> event is SaveFinished),
{
}

/// A session waits with exactly the state with which it began, and with no update that was not
/// saved. If it could not begin, the program ends.
pub proof fn session_begins_with_its_state(
    saver: NetworkSaver,
    info: NetworkInfo,
    begun: NetworkSaver,
    failed: NetworkSaver,
)
    requires
        saver.phase is Initializing,
        call_ensures(NetworkSaver::step, (saver, SaverEvent::Initialized(info)), begun),
        call_ensures(NetworkSaver::step, (saver, SaverEvent::InitializationFailed), failed),
    ensures
        begun.config@ == saver.config@,
        begun.phase matches Phase::Sleeping(cycle) && cycle.info@ == info@
            && cycle.memory_update_count == 0,
        failed.config@ == saver.config@,
        failed.phase is Stopped,
{
}

/// The program wakes up to a new session once the reset is due, and to a measurement before that.
/// Neither waking up nor the end of a save changes the cycle.
pub proof fn waking_leaves_the_cycle_alone(
    saver: NetworkSaver,
    cycle: Cycle,
    now: i64,
    next: NetworkSaver,
)
    ensures
        saver.phase == Phase::Sleeping(cycle) && call_ensures(
            NetworkSaver::step,
            (saver, SaverEvent::Woken { now }),
            next,
        ) ==> {
            &&& next.config@ == saver.config@
            &&& now >= cycle.info.next_reset_timestamp ==> next.phase is Initializing
            &&& now < cycle.info.next_reset_timestamp ==> (next.phase matches Phase::Measuring(same)
                && same@ == cycle@)
        },
        saver.phase == Phase::Saving(cycle) && call_ensures(
            NetworkSaver::step,
            (saver, SaverEvent::SaveFinished),
            next,
        ) ==> {
            &&& next.config@ == saver.config@
            &&& next.phase matches Phase::Sleeping(same) && same@ == cycle@
        },
{
}

/// A measurement replaces the totals by those that the counters and the offset give, and leaves the
/// rest of the state alone. It makes one more update that was not saved, and once there are as many
/// as the settings say, they are saved.
pub proof fn measurement_replaces_the_totals(
    saver: NetworkSaver,
    cycle: Cycle,
    tx: u64,
    rx: u64,
    next: NetworkSaver,
    total_tx: u64,
    total_rx: u64,
)
    requires
        saver.phase == Phase::Measuring(cycle),
        call_ensures(NetworkSaver::step, (saver, SaverEvent::Measured { tx, rx }), next),
        call_ensures(cycle_total, (tx, cycle.info.offset_tx), total_tx),
        call_ensures(cycle_total, (rx, cycle.info.offset_rx), total_rx),
        cycle.memory_update_count < u32::MAX,
    ensures
        next.config@ == saver.config@,
        ({
            let is_saved = cycle.memory_update_count + 1 >= saver.config.network_interval_number;
            &&& is_saved ==> next.phase is Saving
            &&& !is_saved ==> next.phase is Sleeping
            &&& match next.phase {
                Phase::Saving(after) | Phase::Sleeping(after) => {
                    &&& after.info.cycle_total_tx == total_tx
                    &&& after.info.cycle_total_rx == total_rx
                    &&& after.info.config@ == cycle.info.config@
                    &&& after.info.boot_id@ == cycle.info.boot_id@
                    &&& after.info.next_reset_timestamp == cycle.info.next_reset_timestamp
                    &&& after.info.offset_tx == cycle.info.offset_tx
                    &&& after.info.offset_rx == cycle.info.offset_rx
                    &&& after.memory_update_count == if is_saved {
                        0
                    } else {
                        cycle.memory_update_count + 1
                    }
                },
                _ => false,
            }
        }),
{
}

/// The view of a cycle shows its state and its count, and the view of a phase shows its cycle.
pub proof fn phase_view_shows_all(phase: Phase, cycle: Cycle)
    ensures
        cycle@.info == cycle.info@,
        cycle@.memory_update_count == cycle.memory_update_count,
        match phase {
            Phase::Stopped => phase@ is Stopped,
            Phase::Initializing => phase@ is Initializing,
            Phase::Sleeping(c) => phase@ == PhaseView::Sleeping(c@),
            Phase::Measuring(c) => phase@ == PhaseView::Measuring(c@),
            Phase::Saving(c) => phase@ == PhaseView::Saving(c@),
        },
{
}

} // verus!
