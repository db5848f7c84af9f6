//! What holds from one session to the next, and from one measurement to the next.
use vstd::prelude::*;
use crate::calendar::{day_number, lemma_calendar_ends, moment_in_utc, CalendarDate, Moment};
use crate::config::{NetworkConfig, NetworkConfigView, NetworkStatisticsMode, TrafficPeriod};
use crate::network_info::{
    decoded, encoded, entries, entry_line, last_number, old_totals, parse_old_format_for_migration,
    written, NetworkInfo, NetworkInfoView,
};
use crate::number::{lemma_read_unsigned_bounds, read_unsigned};
use crate::realtime::{cycle_total, fits_i64, signed};
use crate::reset::{
    calculate_next_reset_timestamp, calendar_suffices, month_and_day, next_month, next_reset,
    reset_day, reset_day_in, reset_in_calendar,
};
use crate::saver::{
    expects, next_phase, phase_valid, totals_fit, updates_per_save, with_totals, CycleView,
    NetworkSaver, Phase, PhaseView, SaverEvent,
};
use crate::schedule::{next_reset_is_later, reset_day_is_later};
use crate::session::{
    boot_id_from, initialize_network_state_and_offset, needs_reset, offset_fits,
    offset_from_counters, prepare_session, read_stored_state, rebooted, reset_is_needed,
    start_session, started, stored, with_config, with_offset, StoredState, StoredView,
    OFFSET_INITIAL, OFFSET_REBOOTED, OFFSET_UNKNOWN,
};
use crate::storage::{decode_undoes_encode, storable};
use crate::text::{halves, lines_of, trimmed};

verus! {

/// The next reset is a timestamp of 64 bits.
proof fn lemma_next_reset_fits(config: NetworkConfigView, now: Moment)
    requires
        now.valid(),
        reset_in_calendar(config, now.date),
    ensures
        match next_reset(config, now) {
            Ok(t) => fits_i64(t),
            Err(_) => true,
        },
{
    let today = now.date;
    lemma_calendar_ends(today);
    if config.network_statistics_mode == NetworkStatisticsMode::Natural {
        reset_day_is_later(config, today);
        if let Ok(day) = reset_day(config, today) {
            match config.traffic_period {
                TrafficPeriod::Week => {},
                TrafficPeriod::Month => {
                    let wanted = read_unsigned(config.traffic_reset_day, u8::MAX as int)->0;
                    let (year, month) = (today.year as int, today.month as int);
                    let (y, m) = if today.day < reset_day_in(wanted, year, month) {
                        (year, month)
                    } else {
                        next_month(year, month)
                    };
                    let d = reset_day_in(wanted, y, m);
                    let reset = CalendarDate { year: y as i32, month: m as u8, day: d as u8 };
                    lemma_calendar_ends(reset);
                },
                TrafficPeriod::Year => {
                    let (month, d) = month_and_day(config.traffic_reset_day)->Ok_0;
                    let y = if today.number() < day_number(today.year as int, month, d) {
                        today.year as int
                    } else {
                        today.year + 1
                    };
                    let reset = CalendarDate { year: y as i32, month: month as u8, day: d as u8 };
                    lemma_calendar_ends(reset);
                },
            }
        }
    }
}

/// A session goes by the present settings and the present boot ID.
pub proof fn session_is_up_to_date(
    stored: StoredView,
    config: NetworkConfigView,
    now: Moment,
    boot_id: Seq<char>,
    detect_reboot: bool,
)
    ensures
        match started(stored, config, now, boot_id, detect_reboot) {
            Ok(info) => info.config == config && info.boot_id == boot_id,
            Err(_) => true,
        },
{
}

/// Whether cycles are over as soon as they begin.
pub open spec fn without_duration(config: NetworkConfigView) -> bool {
    config.network_statistics_mode == NetworkStatisticsMode::Fixed && config.network_duration == 0
}

/// The cycle of a session ends strictly after now, unless it was just begun in fixed mode with a
/// duration of zero.
pub proof fn session_ends_later(
    stored: StoredView,
    config: NetworkConfigView,
    now: Moment,
    boot_id: Seq<char>,
    detect_reboot: bool,
)
    requires
        now.valid(),
        needs_reset(stored, config, now) ==> reset_in_calendar(config, now.date),
        !(needs_reset(stored, config, now) && without_duration(config)),
    ensures
        match started(stored, config, now, boot_id, detect_reboot) {
            Ok(info) => now.timestamp() < info.next_reset_timestamp,
            Err(_) => true,
        },
{
    if needs_reset(stored, config, now) {
        next_reset_is_later(config, now);
        lemma_next_reset_fits(config, now);
    }
}

/// A session fails to begin exactly if a reset has to be calculated and the settings do not allow
/// it. The message is that of the calculation.
pub proof fn session_fails_with_reset(
    stored: StoredView,
    config: NetworkConfigView,
    now: Moment,
    boot_id: Seq<char>,
    detect_reboot: bool,
)
    ensures
        match started(stored, config, now, boot_id, detect_reboot) {
            Ok(_) => needs_reset(stored, config, now) ==> next_reset(config, now) is Ok,
            Err(e) => needs_reset(stored, config, now) && next_reset(config, now) == Err::<
                int,
                Seq<char>,
            >(e),
        },
{
}

/// Where the offset is computed from the counters, a measurement of the same counters gives the
/// totals that were there before, as long as they are below 2^63.
pub proof fn settled_offset_keeps_totals(info: NetworkInfoView, tx: u64, rx: u64)
    requires
        offset_from_counters(info),
        offset_fits(info, tx, rx),
        info.cycle_total_tx < 0x8000_0000_0000_0000,
        info.cycle_total_rx < 0x8000_0000_0000_0000,
    ensures
        totals_fit(with_offset(info, tx, rx), tx, rx),
        with_totals(with_offset(info, tx, rx), tx, rx) == with_offset(info, tx, rx),
{
    assert(with_totals(with_offset(info, tx, rx), tx, rx) =~= with_offset(info, tx, rx));
}

/// New statistics without totals begin with what the counters show, as long as they are below
/// 2^63.
pub proof fn new_statistics_begin_with_counters(
    config: NetworkConfigView,
    now: Moment,
    boot_id: Seq<char>,
    detect_reboot: bool,
    tx: u64,
    rx: u64,
)
    requires
        now.valid(),
        reset_in_calendar(config, now.date),
        without_duration(config) ==> tx == 0 && rx == 0,
        tx < 0x8000_0000_0000_0000,
        rx < 0x8000_0000_0000_0000,
    ensures
        match started(stored(Seq::empty()), config, now, boot_id, detect_reboot) {
            Ok(info) => {
                let measured = with_totals(with_offset(info, tx, rx), tx, rx);
                &&& totals_fit(with_offset(info, tx, rx), tx, rx)
                &&& measured.cycle_total_tx == tx
                &&& measured.cycle_total_rx == rx
            },
            Err(_) => next_reset(config, now) is Err,
        },
{
    next_reset_is_later(config, now);
    lemma_next_reset_fits(config, now);
}

proof fn lemma_last_number_bounds(ls: Seq<Seq<char>>, key: Seq<char>)
    ensures
        match last_number(ls, key) {
            Some(n) => 0 <= n <= u64::MAX,
            None => true,
        },
    decreases ls.len(),
{
    if ls.len() > 0 {
        match halves(ls.last(), '=') {
            Some((k, value)) if trimmed(k) == key => {
                lemma_read_unsigned_bounds(trimmed(value), u64::MAX as int);
            },
            _ => {
                lemma_last_number_bounds(ls.drop_last(), key);
            },
        }
    }
}

/// The totals of a file in the old format are taken over, and a measurement of the present
/// counters gives them back, as long as they are below 2^63 and not both zero.
pub proof fn migration_keeps_totals(
    raw_data: Seq<char>,
    config: NetworkConfigView,
    now: Moment,
    boot_id: Seq<char>,
    detect_reboot: bool,
    tx: u64,
    rx: u64,
)
    requires
        now.valid(),
        reset_in_calendar(config, now.date),
        raw_data.len() > 0,
        decoded(raw_data) is Err,
        old_totals(raw_data) is Some,
        without_duration(config) ==> old_totals(raw_data) == Some((0int, 0int)),
    ensures
        match started(stored(raw_data), config, now, boot_id, detect_reboot) {
            Ok(info) => {
                let (old_tx, old_rx) = old_totals(raw_data)->0;
                let settled = with_offset(info, tx, rx);
                &&& info.cycle_total_tx == old_tx
                &&& info.cycle_total_rx == old_rx
                &&& old_tx < 0x8000_0000_0000_0000 && old_rx < 0x8000_0000_0000_0000 && !(old_tx
                    == 0 && old_rx == 0) && offset_fits(info, tx, rx) ==> with_totals(
                    settled,
                    tx,
                    rx,
                ) == settled
            },
            Err(_) => next_reset(config, now) is Err,
        },
{
    next_reset_is_later(config, now);
    lemma_next_reset_fits(config, now);
    lemma_last_number_bounds(lines_of(raw_data), "source_tx"@);
    lemma_last_number_bounds(lines_of(raw_data), "source_rx"@);
    if let Ok(info) = started(stored(raw_data), config, now, boot_id, detect_reboot) {
        if offset_from_counters(info) && offset_fits(info, tx, rx) && info.cycle_total_tx
            < 0x8000_0000_0000_0000 && info.cycle_total_rx < 0x8000_0000_0000_0000 {
            settled_offset_keeps_totals(info, tx, rx);
        }
    }
}

/// When a cycle is over, the totals are zero. Without a reboot they stay zero until the counters
/// move.
pub proof fn new_cycle_begins_at_zero(
    old_state: NetworkInfoView,
    config: NetworkConfigView,
    now: Moment,
    boot_id: Seq<char>,
    detect_reboot: bool,
    tx: u64,
    rx: u64,
)
    requires
        match with_config(old_state, config, now) {
            Ok(info) => now.timestamp() >= info.next_reset_timestamp,
            Err(_) => true,
        },
    ensures
        match started(StoredView::Loaded(old_state), config, now, boot_id, detect_reboot) {
            Ok(info) => {
                let measured = with_totals(with_offset(info, tx, rx), tx, rx);
                &&& info.cycle_total_tx == 0
                &&& info.cycle_total_rx == 0
                &&& offset_fits(info, tx, rx) && !rebooted(old_state, boot_id, detect_reboot)
                    ==> measured.cycle_total_tx == 0 && measured.cycle_total_rx == 0
            },
            Err(_) => true,
        },
{
}

/// What was encoded is no empty text.
proof fn lemma_encoded_is_not_empty(info: NetworkInfoView)
    ensures
        encoded(info).len() > 0,
{
    let es = entries(info);
    assert(es.len() == 14);
    assert(written(es) == written(es.drop_last()) + entry_line(es.last()).push('\n'));
}

/// A restart before the cycle is over, with the same settings and without a reboot, resumes the
/// state that was saved. Its offset stays, unless it is one of the marks.
pub proof fn restart_resumes_state(
    info: NetworkInfoView,
    now: Moment,
    detect_reboot: bool,
    tx: u64,
    rx: u64,
)
    requires
        storable(info),
        now.timestamp() < info.next_reset_timestamp,
    ensures
        started(stored(encoded(info)), info.config, now, info.boot_id, detect_reboot) == Ok::<
            NetworkInfoView,
            Seq<char>,
        >(info),
        info.offset_tx != OFFSET_UNKNOWN && info.offset_tx != OFFSET_REBOOTED && info.offset_tx
            != OFFSET_INITIAL ==> with_offset(info, tx, rx) == info,
{
    lemma_encoded_is_not_empty(info);
    decode_undoes_encode(info);
}

/// A second start, before the cycle is over and without a reboot, resumes the session that the
/// first one began and saved.
pub proof fn second_start_resumes_first(
    stored_before: StoredView,
    config: NetworkConfigView,
    now: Moment,
    later: Moment,
    boot_id: Seq<char>,
    detect_reboot: bool,
    tx: u64,
    rx: u64,
)
    ensures
        match started(stored_before, config, now, boot_id, detect_reboot) {
            Ok(first) => {
                let saved = with_offset(first, tx, rx);
                storable(saved) && later.timestamp() < saved.next_reset_timestamp ==> started(
                    stored(encoded(saved)),
                    config,
                    later,
                    boot_id,
                    detect_reboot,
                ) == Ok::<NetworkInfoView, Seq<char>>(saved)
            },
            Err(_) => true,
        },
{
    if let Ok(first) = started(stored_before, config, now, boot_id, detect_reboot) {
        let saved = with_offset(first, tx, rx);
        session_is_up_to_date(stored_before, config, now, boot_id, detect_reboot);
        if storable(saved) && later.timestamp() < saved.next_reset_timestamp {
            restart_resumes_state(saved, later, detect_reboot, tx, rx);
        }
    }
}

/// After a reboot within a cycle the counters come on top of the totals that were saved, as long
/// as they stay below 2^63 together.
pub proof fn reboot_adds_to_totals(
    info: NetworkInfoView,
    now: Moment,
    boot_id: Seq<char>,
    tx: u64,
    rx: u64,
)
    requires
        storable(info),
        now.timestamp() < info.next_reset_timestamp,
        boot_id.len() > 0,
        boot_id != info.boot_id,
        info.cycle_total_tx + tx < 0x8000_0000_0000_0000,
        info.cycle_total_rx + rx < 0x8000_0000_0000_0000,
    ensures
        match started(stored(encoded(info)), info.config, now, boot_id, true) {
            Ok(next) => {
                let settled = with_offset(next, tx, rx);
                &&& next.cycle_total_tx == info.cycle_total_tx
                &&& next.cycle_total_rx == info.cycle_total_rx
                &&& next.next_reset_timestamp == info.next_reset_timestamp
                &&& totals_fit(settled, tx, rx)
                &&& with_totals(settled, tx, rx).cycle_total_tx == info.cycle_total_tx + tx
                &&& with_totals(settled, tx, rx).cycle_total_rx == info.cycle_total_rx + rx
            },
            Err(_) => false,
        },
{
    lemma_encoded_is_not_empty(info);
    decode_undoes_encode(info);
}

/// The cycle after a measurement within it, and after the state was saved if that was due.
pub open spec fn measured(
    config: NetworkConfigView,
    cycle: CycleView,
    tx: u64,
    rx: u64,
) -> CycleView {
    CycleView {
        info: with_totals(cycle.info, tx, rx),
        memory_update_count: if save_is_due(config, cycle) {
            0
        } else {
            (cycle.memory_update_count + 1) as u32
        },
    }
}

/// Whether the state is saved after the next measurement.
pub open spec fn save_is_due(config: NetworkConfigView, cycle: CycleView) -> bool {
    cycle.memory_update_count + 1 >= updates_per_save(config)
}

/// From one wait to the next: the program wakes up, measures, saves if that is due, and waits
/// again, unless the cycle is over.
pub proof fn round_of_measurement(
    config: NetworkConfigView,
    cycle: CycleView,
    now: i64,
    tx: u64,
    rx: u64,
)
    requires
        phase_valid(config, PhaseView::Sleeping(cycle)),
        totals_fit(cycle.info, tx, rx),
    ensures
        ({
            let woken = next_phase(
                config,
                PhaseView::Sleeping(cycle),
                SaverEvent::Woken { now },
            );
            let after = next_phase(config, woken, SaverEvent::Measured { tx, rx });
            if now >= cycle.info.next_reset_timestamp {
                woken == PhaseView::Initializing
            } else if save_is_due(config, cycle) {
                &&& expects(woken, SaverEvent::Measured { tx, rx })
                &&& after == PhaseView::Saving(measured(config, cycle, tx, rx))
                &&& next_phase(config, after, SaverEvent::SaveFinished) == PhaseView::Sleeping(
                    measured(config, cycle, tx, rx),
                )
            } else {
                &&& expects(woken, SaverEvent::Measured { tx, rx })
                &&& after == PhaseView::Sleeping(measured(config, cycle, tx, rx))
            }
        }),
{
}

/// The cycle after a series of measurements.
pub open spec fn measured_all(
    config: NetworkConfigView,
    cycle: CycleView,
    samples: Seq<(u64, u64)>,
) -> CycleView
    decreases samples.len(),
{
    if samples.len() == 0 {
        cycle
    } else {
        measured(
            config,
            measured_all(config, cycle, samples.drop_last()),
            samples.last().0,
            samples.last().1,
        )
    }
}

/// Counted from the beginning of a session, the state is saved after every
/// `network_interval_number` measurements, or after each one if that number is zero. What was
/// measured last determines the totals, and nothing else of the state changes.
pub proof fn saved_at_regular_intervals(
    config: NetworkConfigView,
    info: NetworkInfoView,
    samples: Seq<(u64, u64)>,
)
    ensures
        ({
            let first = CycleView { info, memory_update_count: 0 };
            let cycle = measured_all(config, first, samples);
            let per_save = updates_per_save(config);
            &&& phase_valid(config, PhaseView::Sleeping(cycle))
            &&& cycle.memory_update_count == samples.len() as int % per_save
            &&& save_is_due(config, cycle) <==> (samples.len() as int + 1) % per_save == 0
            &&& samples.len() > 0 ==> cycle.info == with_totals(
                info,
                samples.last().0,
                samples.last().1,
            )
        }),
    decreases samples.len(),
{
    let first = CycleView { info, memory_update_count: 0 };
    let per_save = updates_per_save(config);
    let n = samples.len() as int;
    if samples.len() > 0 {
        saved_at_regular_intervals(config, info, samples.drop_last());
        lemma_next_remainder(n - 1, per_save);
    } else {
        assert(0int % per_save == 0) by (nonlinear_arith)
            requires
                per_save > 0,
        ;
    }
    lemma_next_remainder(n, per_save);
}

proof fn lemma_next_remainder(n: int, d: int)
    requires
        n >= 0,
        d > 0,
    ensures
        0 <= n % d < d,
        (n + 1) % d == if n % d + 1 == d {
            0
        } else {
            n % d + 1
        },
{
    vstd::arithmetic::div_mod::lemma_fundamental_div_mod(n, d);
    vstd::arithmetic::div_mod::lemma_mod_bound(n, d);
    let q = n / d;
    let r = n % d;
    if r + 1 == d {
        assert(n + 1 == (q + 1) * d + 0) by (nonlinear_arith)
            requires
                n == d * q + r,
                r + 1 == d,
        ;
        vstd::arithmetic::div_mod::lemma_fundamental_div_mod_converse(n + 1, d, q + 1, 0);
    } else {
        assert(n + 1 == q * d + (r + 1)) by (nonlinear_arith)
            requires
                n == d * q + r,
        ;
        vstd::arithmetic::div_mod::lemma_fundamental_div_mod_converse(n + 1, d, q, r + 1);
    }
}

/// A file that can be read in neither format, or gives totals of zero in the old one, is treated
/// as a new one.
pub proof fn corrupt_file_is_a_new_one(raw_data: Seq<char>)
    requires
        decoded(raw_data) is Err,
        old_totals(raw_data) is None || old_totals(raw_data) == Some((0int, 0int)),
    ensures
        stored(raw_data) == stored(Seq::empty()),
{
}

/// Whether the program goes through these phases with these outcomes, each of which it expects.
pub open spec fn runs(savers: Seq<NetworkSaver>, events: Seq<SaverEvent>) -> bool {
    &&& savers.len() == events.len() + 1
    &&& forall|i: int| 0 <= i < events.len() ==> #[trigger] goes_on(savers, events, i)
}

/// Whether the program expects the outcome at one place and goes on from there.
pub open spec fn goes_on(savers: Seq<NetworkSaver>, events: Seq<SaverEvent>, i: int) -> bool {
    &&& call_ensures(NetworkSaver::is_expected, (&savers[i], &events[i]), true)
    &&& call_ensures(NetworkSaver::step, (savers[i], events[i]), savers[i + 1])
}

/// How often the counters were read.
pub open spec fn measurements(events: Seq<SaverEvent>) -> nat
    decreases events.len(),
{
    if events.len() == 0 {
        0
    } else {
        measurements(events.drop_last()) + if events.last() is Measured {
            1nat
        } else {
            0
        }
    }
}

/// From the beginning of a session until its reset is due, the program keeps the state with which
/// the session began, and only its totals change: they are those of the last measurement, with
/// the offset of the session. The state is saved after each measurement whose number is a multiple
/// of the set one, and after no other.
pub proof fn session_follows_its_measurements(
    savers: Seq<NetworkSaver>,
    events: Seq<SaverEvent>,
    info: NetworkInfo,
)
    requires
        runs(savers, events),
        events.len() > 0,
        savers[0].phase is Initializing,
        events[0] == SaverEvent::Initialized(info),
        forall|i: int|
            0 < i < events.len() ==> (#[trigger] events[i] matches SaverEvent::Woken { now } ==> now
                < info.next_reset_timestamp),
    ensures
        savers.last().config@ == savers[0].config@,
        ({
            let set = savers[0].config.network_interval_number;
            let per_save: int = if set == 0 {
                1
            } else {
                set as int
            };
            let saves = events.last() is Measured && measurements(events) as int % per_save == 0;
            match savers.last().phase {
                Phase::Sleeping(cycle) | Phase::Measuring(cycle) | Phase::Saving(cycle) => {
                    &&& savers.last().phase is Saving <==> saves
                    &&& cycle.memory_update_count == measurements(events) as int % per_save
                    &&& cycle.info.config@ == info.config@
                    &&& cycle.info.boot_id@ == info.boot_id@
                    &&& cycle.info.next_reset_timestamp == info.next_reset_timestamp
                    &&& cycle.info.offset_tx == info.offset_tx
                    &&& cycle.info.offset_rx == info.offset_rx
                    &&& measurements(events) == 0 ==> cycle.info.cycle_total_tx
                        == info.cycle_total_tx && cycle.info.cycle_total_rx == info.cycle_total_rx
                    &&& forall|m: int, tx: u64, rx: u64, total_tx: u64, total_rx: u64|
                        #![trigger
                            call_ensures(cycle_total, (tx, info.offset_tx), total_tx),
                            call_ensures(cycle_total, (rx, info.offset_rx), total_rx),
                            events[m]
                        ]
                        0 <= m < events.len() && events[m] == (SaverEvent::Measured { tx, rx }) && (
                        forall|k: int| m < k < events.len() ==> !(#[trigger] events[k] is Measured))
                            && call_ensures(cycle_total, (tx, info.offset_tx), total_tx)
                            && call_ensures(cycle_total, (rx, info.offset_rx), total_rx)
                            ==> cycle.info.cycle_total_tx == total_tx && cycle.info.cycle_total_rx
                            == total_rx
                },
                _ => false,
            }
        }),
    decreases events.len(),
{
    let set = savers[0].config.network_interval_number;
    let per_save: int = if set == 0 {
        1
    } else {
        set as int
    };
    let n = events.len() - 1;
    assert(goes_on(savers, events, n));
    assert(savers[n + 1] == savers.last());
    assert(events[n] == events.last());
    assert(0int % per_save == 0) by (nonlinear_arith)
        requires
            per_save > 0,
    ;
    if n == 0 {
        assert(events.drop_last() =~= Seq::empty());
        assert(measurements(events.drop_last()) == 0);
    } else {
        let (earlier, before) = (savers.drop_last(), events.drop_last());
        assert forall|i: int| 0 <= i < before.len() implies #[trigger] goes_on(
            earlier,
            before,
            i,
        ) by {
            assert(goes_on(savers, events, i));
            assert(earlier[i] == savers[i] && earlier[i + 1] == savers[i + 1]);
            assert(before[i] == events[i]);
        }
        assert forall|i: int| 0 < i < before.len() implies (#[trigger] before[i] matches
            SaverEvent::Woken { now } ==> now < info.next_reset_timestamp) by {
            assert(before[i] == events[i]);
        }
        assert(earlier[0] == savers[0] && before[0] == events[0]);
        session_follows_its_measurements(earlier, before, info);
        assert(earlier.last() == savers[n]);
        lemma_next_remainder(measurements(before) as int, per_save);
        let cycle = match savers.last().phase {
            Phase::Sleeping(c) | Phase::Measuring(c) | Phase::Saving(c) => c,
            _ => arbitrary(),
        };
        assert forall|m: int, tx: u64, rx: u64, total_tx: u64, total_rx: u64|
            #![trigger
                call_ensures(cycle_total, (tx, info.offset_tx), total_tx),
                call_ensures(cycle_total, (rx, info.offset_rx), total_rx),
                events[m]
            ]
            0 <= m < events.len() && events[m] == (SaverEvent::Measured { tx, rx }) && (forall|
                k: int,
            |
                m < k < events.len() ==> !(#[trigger] events[k] is Measured)) && call_ensures(
                cycle_total,
                (tx, info.offset_tx),
                total_tx,
            ) && call_ensures(
                cycle_total,
                (rx, info.offset_rx),
                total_rx,
            ) implies cycle.info.cycle_total_tx == total_tx && cycle.info.cycle_total_rx
            == total_rx by {
            if m < n {
                assert(before[m] == events[m]);
                assert(!(events[n] is Measured));
                assert forall|k: int| m < k < before.len() implies !(#[trigger] before[
                    k
                ] is Measured) by {
                    assert(before[k] == events[k]);
                }
            }
        }
    }
}

/// A reset has to be calculated if there is no state, if the settings are not those of the state,
/// or if its cycle is over.
pub proof fn reset_is_needed_for_a_new_cycle(
    stored: StoredState,
    config: &NetworkConfig,
    now: Moment,
    r: bool,
)
    requires
        call_ensures(reset_is_needed, (&stored, config, now), r),
    ensures
        match stored {
            StoredState::Totals { .. } => r,
            StoredState::Loaded(old) => r <==> old.config@ != config@ || old.next_reset_timestamp
                <= now.timestamp(),
        },
{
}

/// With other settings than the state was saved with, the cycle ends when the present settings
/// say, whatever was saved. The totals stay if that lies ahead, and so does the offset unless the
/// system was started again. The session fails if the settings are refused.
pub proof fn changed_settings_move_the_reset(
    old: NetworkInfo,
    config: &NetworkConfig,
    now: Moment,
    boot_id: String,
    detect_reboot: bool,
    next: Result<i64, String>,
    r: Result<NetworkInfo, String>,
)
    requires
        now.valid(),
        old.config@ != config@,
        call_ensures(
            start_session,
            (StoredState::Loaded(old), config, now, boot_id, detect_reboot),
            r,
        ),
        call_ensures(calculate_next_reset_timestamp, (config, now), next),
    ensures
        match (next, r) {
            (Ok(t), Ok(info)) => {
                let is_reboot = detect_reboot && boot_id@.len() > 0 && old.boot_id@ != boot_id@;
                &&& info.config@ == config@
                &&& info.boot_id@ == boot_id@
                &&& info.next_reset_timestamp == t
                &&& now.timestamp() < t ==> info.cycle_total_tx == old.cycle_total_tx
                    && info.cycle_total_rx == old.cycle_total_rx
                &&& now.timestamp() >= t ==> info.cycle_total_tx == 0 && info.cycle_total_rx == 0
                &&& is_reboot ==> info.offset_tx == i64::MIN + 1 && info.offset_rx == i64::MIN + 1
                &&& !is_reboot && now.timestamp() < t ==> info.offset_tx == old.offset_tx
                    && info.offset_rx == old.offset_rx
                &&& !is_reboot && now.timestamp() >= t ==> info.offset_tx == i64::MIN
                    && info.offset_rx == i64::MIN
            },
            (Err(e), Err(f)) => e@ == f@,
            _ => false,
        },
{
}

/// With the settings of the state and before its cycle is over, a session always begins, and takes
/// over the totals and the end of the cycle. The offset stays unless the system was started again.
pub proof fn running_cycle_goes_on(
    old: NetworkInfo,
    config: &NetworkConfig,
    now: Moment,
    boot_id: String,
    detect_reboot: bool,
    r: Result<NetworkInfo, String>,
)
    requires
        now.valid(),
        old.config@ == config@,
        now.timestamp() < old.next_reset_timestamp,
        call_ensures(
            start_session,
            (StoredState::Loaded(old), config, now, boot_id, detect_reboot),
            r,
        ),
    ensures
        r matches Ok(info) && {
            let is_reboot = detect_reboot && boot_id@.len() > 0 && old.boot_id@ != boot_id@;
            &&& info.config@ == config@
            &&& info.boot_id@ == boot_id@
            &&& info.next_reset_timestamp == old.next_reset_timestamp
            &&& info.cycle_total_tx == old.cycle_total_tx
            &&& info.cycle_total_rx == old.cycle_total_rx
            &&& is_reboot ==> info.offset_tx == i64::MIN + 1 && info.offset_rx == i64::MIN + 1
            &&& !is_reboot ==> info.offset_tx == old.offset_tx && info.offset_rx == old.offset_rx
        },
{
}

/// Once the cycle of a state is over, its totals are dropped and the next reset is set. The offset
/// has to be found anew. The session fails if the settings are refused.
pub proof fn cycle_that_is_over_starts_anew(
    old: NetworkInfo,
    config: &NetworkConfig,
    now: Moment,
    boot_id: String,
    detect_reboot: bool,
    next: Result<i64, String>,
    r: Result<NetworkInfo, String>,
)
    requires
        now.valid(),
        old.config@ == config@,
        now.timestamp() >= old.next_reset_timestamp,
        call_ensures(
            start_session,
            (StoredState::Loaded(old), config, now, boot_id, detect_reboot),
            r,
        ),
        call_ensures(calculate_next_reset_timestamp, (config, now), next),
    ensures
        match (next, r) {
            (Ok(t), Ok(info)) => {
                let is_reboot = detect_reboot && boot_id@.len() > 0 && old.boot_id@ != boot_id@;
                &&& info.config@ == config@
                &&& info.boot_id@ == boot_id@
                &&& info.next_reset_timestamp == t
                &&& info.cycle_total_tx == 0
                &&& info.cycle_total_rx == 0
                &&& is_reboot ==> info.offset_tx == i64::MIN + 1 && info.offset_rx == i64::MIN + 1
                &&& !is_reboot ==> info.offset_tx == i64::MIN && info.offset_rx == i64::MIN
            },
            (Err(e), Err(f)) => e@ == f@,
            _ => false,
        },
{
}

/// Without a state a session begins with the totals that it is given and the next reset, and is no
/// reboot. If that reset is due at once, it begins with totals of zero. The session fails if the
/// settings are refused.
pub proof fn new_statistics_begin_with_totals(
    tx: u64,
    rx: u64,
    config: &NetworkConfig,
    now: Moment,
    boot_id: String,
    detect_reboot: bool,
    next: Result<i64, String>,
    r: Result<NetworkInfo, String>,
)
    requires
        now.valid(),
        call_ensures(
            start_session,
            (StoredState::Totals { tx, rx }, config, now, boot_id, detect_reboot),
            r,
        ),
        call_ensures(calculate_next_reset_timestamp, (config, now), next),
    ensures
        match (next, r) {
            (Ok(t), Ok(info)) => {
                &&& info.config@ == config@
                &&& info.boot_id@ == boot_id@
                &&& info.next_reset_timestamp == t
                &&& now.timestamp() < t ==> {
                    &&& info.cycle_total_tx == tx
                    &&& info.cycle_total_rx == rx
                    &&& info.offset_tx == i64::MIN + 2
                    &&& info.offset_rx == i64::MIN + 2
                }
                &&& now.timestamp() >= t ==> {
                    &&& info.cycle_total_tx == 0
                    &&& info.cycle_total_rx == 0
                    &&& info.offset_tx == i64::MIN
                    &&& info.offset_rx == i64::MIN
                }
            },
            (Err(e), Err(f)) => e@ == f@,
            _ => false,
        },
{
}

/// An empty file gives totals of zero. Any other gives the state that it describes or, if it
/// describes none, its totals in the old format or, without those, totals of zero.
pub proof fn file_gives_state_or_totals(
    raw_data: &str,
    stored: StoredState,
    state: Result<NetworkInfo, String>,
    totals: Option<(u64, u64)>,
)
    requires
        call_ensures(read_stored_state, (raw_data,), stored),
        call_ensures(NetworkInfo::decode, (raw_data,), state),
        call_ensures(parse_old_format_for_migration, (raw_data,), totals),
    ensures
        raw_data@.len() > 0 && state is Ok ==> (stored matches StoredState::Loaded(info) && info@
            == state->Ok_0@),
        raw_data@.len() == 0 || state is Err && totals is None ==> (stored matches
            StoredState::Totals { tx, rx } && tx == 0 && rx == 0),
        raw_data@.len() > 0 && state is Err && totals is Some ==> (stored matches
            StoredState::Totals { tx, rx } && totals == Some((tx, rx))),
{
}

/// A timestamp is the moment in UTC that has it, if its day lies in the years -9999 to 9999.
pub proof fn timestamp_is_a_moment_in_utc(now: i64, r: Option<Moment>)
    requires
        call_ensures(moment_in_utc, (now,), r),
    ensures
        r is Some <==> -377_705_116_800 <= now < 253_402_300_800,
        r matches Some(moment) ==> moment.valid() && moment.offset_seconds == 0
            && moment.timestamp() == now,
{
    lemma_calendar_ends(CalendarDate { year: 1970, month: 1, day: 1 });
}

/// A session is prepared from what the file gives and from the moment in UTC. It is not if there is
/// no such moment, or if a reset is needed and the calendar does not suffice.
pub proof fn session_is_prepared_from_the_file(
    config: &NetworkConfig,
    raw_data: &str,
    now: i64,
    boot_id: String,
    detect_reboot: bool,
    stored: StoredState,
    moment: Option<Moment>,
    needed: bool,
    suffices: bool,
    begun: Result<NetworkInfo, String>,
    r: Option<Result<NetworkInfo, String>>,
)
    requires
        call_ensures(prepare_session, (config, raw_data, now, boot_id, detect_reboot), r),
        call_ensures(read_stored_state, (raw_data,), stored),
        call_ensures(moment_in_utc, (now,), moment),
        moment matches Some(m) ==> {
            &&& call_ensures(reset_is_needed, (&stored, config, m), needed)
            &&& call_ensures(calendar_suffices, (config, m.date), suffices)
            &&& !needed || suffices ==> call_ensures(
                start_session,
                (stored, config, m, boot_id, detect_reboot),
                begun,
            )
        },
    ensures
        r is None <==> moment is None || needed && !suffices,
        r matches Some(result) ==> match (result, begun) {
            (Ok(a), Ok(b)) => a@ == b@,
            (Err(e), Err(f)) => e@ == f@,
            _ => false,
        },
{
}

/// A session settles the offset of what was prepared, and nothing else. An offset of -2^63, or one
/// of -2^63 + 2 where there are totals, becomes what makes the counters amount to the totals; one
/// of -2^63 + 1 becomes the totals; one of -2^63 + 2 without totals becomes zero; any other stays.
/// There is no session if the offset does not fit in 64 bits.
pub proof fn session_settles_the_offset(
    config: &NetworkConfig,
    raw_data: &str,
    now: i64,
    boot_id: String,
    detect_reboot: bool,
    tx: u64,
    rx: u64,
    prepared: Option<Result<NetworkInfo, String>>,
    can_settle: bool,
    r: Option<Result<NetworkInfo, String>>,
)
    requires
        call_ensures(prepare_session, (config, raw_data, now, boot_id, detect_reboot), prepared),
        call_ensures(
            initialize_network_state_and_offset,
            (config, raw_data, now, boot_id, detect_reboot, tx, rx),
            r,
        ),
        prepared matches Some(Ok(a)) ==> call_ensures(
            NetworkInfo::can_settle_offset,
            (&a, tx, rx),
            can_settle,
        ),
    ensures
        match prepared {
            None => r is None,
            Some(Err(e)) => r matches Some(Err(f)) && e@ == f@,
            Some(Ok(a)) => {
                let without_totals = a.cycle_total_tx == 0 && a.cycle_total_rx == 0;
                let from_counters = a.offset_tx == i64::MIN || a.offset_tx == i64::MIN + 2
                    && !without_totals;
                let up = signed(a.cycle_total_tx) - signed(tx);
                let down = signed(a.cycle_total_rx) - signed(rx);
                let fits = i64::MIN <= up <= i64::MAX && i64::MIN <= down <= i64::MAX;
                &&& can_settle <==> !from_counters || fits
                &&& from_counters && !fits ==> r is None
                &&& !(from_counters && !fits) ==> (r matches Some(Ok(b)) && {
                    &&& b.config@ == a.config@
                    &&& b.boot_id@ == a.boot_id@
                    &&& b.cycle_total_tx == a.cycle_total_tx
                    &&& b.cycle_total_rx == a.cycle_total_rx
                    &&& b.next_reset_timestamp == a.next_reset_timestamp
                    &&& from_counters ==> b.offset_tx == up && b.offset_rx == down
                    &&& a.offset_tx == i64::MIN + 1 ==> b.offset_tx == signed(a.cycle_total_tx)
                        && b.offset_rx == signed(a.cycle_total_rx)
                    &&& a.offset_tx == i64::MIN + 2 && without_totals ==> b.offset_tx == 0
                        && b.offset_rx == 0
                    &&& a.offset_tx > i64::MIN + 2 ==> b.offset_tx == a.offset_tx && b.offset_rx
                        == a.offset_rx
                })
            },
        },
{
}

/// The boot ID is what the kernel's file holds, without the white space around it, and empty if
/// there is no such file.
pub proof fn boot_id_is_the_trimmed_file(text: &str, of_text: String, of_nothing: String)
    requires
        call_ensures(boot_id_from, (Some(text),), of_text),
        call_ensures(boot_id_from, (None,), of_nothing),
    ensures
        of_nothing@.len() == 0,
        of_text@ == trimmed(text@),
{
}

/// The view of what a file gives shows the state, or the totals.
pub proof fn stored_view_shows_all(stored: StoredState)
    ensures
        match stored {
            StoredState::Loaded(info) => stored@ == StoredView::Loaded(info@),
            StoredState::Totals { tx, rx } => stored@ == (StoredView::Totals { tx, rx }),
        },
{
}

} // verus!
