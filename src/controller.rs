use vstd::prelude::*;
use vstd::string::StringExecFns;

use crate::heating_configuration::{
    covers, expected_at, keys_unique, lemma_expected_at, HeatingConfiguration, Room,
    TemperatureSchedule,
};
use crate::error::NeuroheatError;
use crate::relay::RelayController;
use crate::clock::{local_hour, utc_now};
use crate::store::{latest_state_of, values_since, ReadingView, StateView, Store};

verus! {

/// The time, in seconds, over which temperature readings are averaged for a
/// valve decision.
pub const TEMPERATURE_LOOKBACK_SECONDS: i64 = 600;

/// The fewest readings within the lookback window that a valve decision needs.
pub const MIN_TEMPERATURE_READINGS: usize = 3;

/// The open valve area, in square decimetres, at or above which the stove is
/// switched on. A smaller area would make the stove cycle on and off.
pub const STOVE_ACTIVATION_AREA: u64 = 1600;

/// How long, in seconds, a valve must have been recorded open before its room
/// counts towards the stove's activation, so that the valve has had time to open.
pub const STOVE_ACTIVATION_DELAY_SECONDS: i64 = 120;

/// The key under which the stove's states are recorded.
pub const STOVE_KEY: &'static str = "stove";

/// The key under which the heating pipe's readings are recorded.
pub const PIPE_KEY: &'static str = "pipe";

/// The sum of `values`.
pub open spec fn sum_of(values: Seq<i32>) -> int
    decreases values.len(),
{
    if values.len() == 0 {
        0
    } else {
        sum_of(values.drop_last()) + values.last()
    }
}

/// Whether the mean of the non-empty `values` is strictly below `expected`:
/// their sum is below `expected` times their count.
pub open spec fn mean_below(values: Seq<i32>, expected: i32) -> bool {
    sum_of(values) < expected * values.len()
}

/// The state a room's valve should have, given the readings of the lookback
/// window and the room's current target: `None` where there are too few
/// readings or no target; otherwise on exactly when the mean is below the target.
pub open spec fn valve_decision(values: Seq<i32>, expected: Option<i32>) -> Option<bool> {
    if values.len() < MIN_TEMPERATURE_READINGS {
        None
    } else {
        match expected {
            None => None,
            Some(e) => Some(mean_below(values, e)),
        }
    }
}

/// The readings that a valve decision at time `now` averages for `key`.
pub open spec fn window_values(readings: Seq<ReadingView>, key: Seq<char>, now: i64) -> Seq<i32> {
    values_since(readings, key, (now - TEMPERATURE_LOOKBACK_SECONDS) as i64)
}

/// The command to send to a relay that should be `desired` and is `current`:
/// nothing when they agree, else the desired state.
pub open spec fn switch_command_of(desired: bool, current: bool) -> Option<bool> {
    if desired == current {
        None
    } else {
        Some(desired)
    }
}

/// The command to send to a relay that should be `desired` and is `current`.
pub fn switch_command(desired: bool, current: bool) -> (r: Option<bool>)
    ensures
        r == switch_command_of(desired, current),
{
    if desired == current {
        None
    } else {
        Some(desired)
    }
}

/// Whether the mean of `temperatures` is strictly below `expected`.
pub fn is_below_expected(temperatures: &Vec<i32>, expected: i32) -> (r: bool)
    ensures
        r == mean_below(temperatures@, expected),
{
    let mut sum: i128 = 0;
    let mut i: usize = 0;
    while i < temperatures.len()
        invariant
            i <= temperatures@.len(),
            sum == sum_of(temperatures@.take(i as int)),
            -(i as int) * 2147483648 <= sum <= (i as int) * 2147483648,
        decreases temperatures.len() - i,
    {
        assert(temperatures@.take(i + 1).drop_last() =~= temperatures@.take(i as int));
        sum = sum + temperatures[i] as i128;
        i = i + 1;
    }
    assert(temperatures@.take(i as int) =~= temperatures@);
    let n = temperatures.len() as i128;
    let e = expected as i128;
    assert(-2147483648 * 18446744073709551616 <= e * n <= 2147483648 * 18446744073709551616)
        by (nonlinear_arith)
        requires
            -2147483648 <= e <= 2147483648,
            0 <= n <= 18446744073709551616,
    ;
    sum < e * n
}

/// The state a room's valve should have, given the readings of the lookback
/// window and the room's current target temperature.
pub fn desired_valve_state(temperatures: &Vec<i32>, expected: Option<i32>) -> (r: Option<bool>)
    ensures
        r == valve_decision(temperatures@, expected),
{
    if temperatures.len() < MIN_TEMPERATURE_READINGS {
        return None;
    }
    match expected {
        None => None,
        Some(e) => Some(is_below_expected(temperatures, e)),
    }
}

/// What became of one room in a valve cycle.
#[derive(Debug, Clone, Copy, PartialEq, Eq)]
pub enum ValveOutcome {
    /// Too few readings in the lookback window.
    NotEnoughReadings,
    /// No period of the schedule covers the current hour.
    NoSchedule,
    /// The room has no valve relay.
    NoValve,
    /// The valve's state could not be read.
    ReadFailed,
    /// The valve already has the desired state.
    Unchanged(bool),
    /// The valve should be switched to this state, but the switch failed.
    WriteFailed(bool),
    /// The valve was switched to this state and the change was recorded.
    Switched(bool),
}

/// Whether `outcome` agrees with the readings and target of the room.
pub open spec fn outcome_fits(outcome: ValveOutcome, values: Seq<i32>, expected: Option<i32>) -> bool {
    match outcome {
        ValveOutcome::NotEnoughReadings => values.len() < MIN_TEMPERATURE_READINGS,
        ValveOutcome::NoSchedule => values.len() >= MIN_TEMPERATURE_READINGS && expected is None,
        ValveOutcome::NoValve => valve_decision(values, expected) is Some,
        ValveOutcome::ReadFailed => valve_decision(values, expected) is Some,
        ValveOutcome::Unchanged(s) => valve_decision(values, expected) == Some(s),
        ValveOutcome::WriteFailed(s) => valve_decision(values, expected) == Some(s),
        ValveOutcome::Switched(s) => valve_decision(values, expected) == Some(s),
    }
}

/// The state records that a valve cycle appends: one for each room switched,
/// in the order of the rooms.
pub open spec fn switched_records(rooms: Seq<Room>, outcomes: Seq<ValveOutcome>, now: i64) -> Seq<
    StateView,
>
    decreases outcomes.len(),
{
    if outcomes.len() == 0 {
        Seq::empty()
    } else {
        let prev = switched_records(rooms, outcomes.drop_last(), now);
        match outcomes.last() {
            ValveOutcome::Switched(s) => prev.push(
                StateView { key: rooms[outcomes.len() - 1].key@, state: s, timestamp: now },
            ),
            _ => prev,
        }
    }
}

/// Runs the valve decision for one room at time `now` and local hour `hour`:
/// averages the readings of the lookback window, compares the mean with the
/// target of the schedule, and switches the valve only where its state differs,
/// recording the new state once the switch has succeeded.
pub fn update_valve<R: RelayController>(
    room: &Room,
    valve: Option<&R>,
    store: &mut Store,
    now: i64,
    hour: u8,
) -> (r: ValveOutcome)
    requires
        now >= i64::MIN + TEMPERATURE_LOOKBACK_SECONDS,
    ensures
        outcome_fits(
            r,
            window_values(old(store)@.readings, room.key@, now),
            expected_at(room.temperature_schedule@, hour as int),
        ),
        r is NoValve <==> valve is None && valve_decision(
            window_values(old(store)@.readings, room.key@, now),
            expected_at(room.temperature_schedule@, hour as int),
        ) is Some,
        final(store)@.readings == old(store)@.readings,
        r matches ValveOutcome::Switched(s) ==> final(store)@.states == old(store)@.states.push(
            StateView { key: room.key@, state: s, timestamp: now },
        ),
        !(r is Switched) ==> final(store)@.states == old(store)@.states,
{
    let temperatures = store.get_temperatures_since(room.key.as_str(), now - TEMPERATURE_LOOKBACK_SECONDS);
    if temperatures.len() < MIN_TEMPERATURE_READINGS {
        return ValveOutcome::NotEnoughReadings;
    }
    let expected = room.expected_temperature_at(hour);
    let desired = match desired_valve_state(&temperatures, expected) {
        None => {
            return ValveOutcome::NoSchedule;
        },
        Some(d) => d,
    };
    let valve = match valve {
        None => {
            return ValveOutcome::NoValve;
        },
        Some(v) => v,
    };
    let current = match valve.read_state() {
        Ok(s) => s,
        Err(_) => {
            return ValveOutcome::ReadFailed;
        },
    };
    match switch_command(desired, current) {
        None => ValveOutcome::Unchanged(desired),
        Some(s) => {
            match valve.set_state(s) {
                Ok(()) => {
                    store.store_state_at(room.key.as_str(), s, now);
                    ValveOutcome::Switched(s)
                },
                Err(_) => ValveOutcome::WriteFailed(s),
            }
        },
    }
}

/// Whether `outcomes` is a valve cycle over `rooms` at time `now` and local
/// hour `hour`, on the log of readings `readings`, where the first `n_valves`
/// rooms have a valve relay: one outcome per room, each in agreement with the
/// room's readings and target.
pub open spec fn valve_cycle(
    rooms: Seq<Room>,
    n_valves: int,
    readings: Seq<ReadingView>,
    outcomes: Seq<ValveOutcome>,
    now: i64,
    hour: int,
) -> bool {
    &&& outcomes.len() == rooms.len()
    &&& forall|i: int|
        0 <= i < rooms.len() ==> outcome_fits(
            #[trigger] outcomes[i],
            window_values(readings, rooms[i].key@, now),
            expected_at(rooms[i].temperature_schedule@, hour),
        )
    &&& forall|i: int|
        0 <= i < rooms.len() ==> ((#[trigger] outcomes[i] is NoValve) <==> i >= n_valves
            && valve_decision(
            window_values(readings, rooms[i].key@, now),
            expected_at(rooms[i].temperature_schedule@, hour),
        ) is Some)
}

/// Runs the valve decision for every room of `config` at time `now` and local
/// hour `hour`; `valves[i]` is the valve relay of the i-th room. A room's
/// failure never stops the others. Returns what became of each room.
pub fn update_valves_at<R: RelayController>(
    config: &HeatingConfiguration,
    valves: &Vec<R>,
    store: &mut Store,
    now: i64,
    hour: u8,
) -> (r: Vec<ValveOutcome>)
    requires
        now >= i64::MIN + TEMPERATURE_LOOKBACK_SECONDS,
    ensures
        valve_cycle(
            config.rooms@,
            valves@.len() as int,
            old(store)@.readings,
            r@,
            now,
            hour as int,
        ),
        final(store)@.readings == old(store)@.readings,
        final(store)@.states == old(store)@.states + switched_records(config.rooms@, r@, now),
{
    let rooms = &config.rooms;
    let mut out: Vec<ValveOutcome> = Vec::new();
    let mut i: usize = 0;
    assert(old(store)@.states + switched_records(rooms@, out@, now) =~= old(store)@.states);
    while i < rooms.len()
        invariant
            rooms@ == config.rooms@,
            i <= rooms@.len(),
            out@.len() == i,
            now >= i64::MIN + TEMPERATURE_LOOKBACK_SECONDS,
            store@.readings == old(store)@.readings,
            store@.states == old(store)@.states + switched_records(rooms@, out@, now),
            forall|j: int|
                0 <= j < i ==> outcome_fits(
                    #[trigger] out@[j],
                    window_values(old(store)@.readings, rooms@[j].key@, now),
                    expected_at(rooms@[j].temperature_schedule@, hour as int),
                ),
            forall|j: int|
                0 <= j < i ==> ((#[trigger] out@[j] is NoValve) <==> j >= valves@.len()
                    && valve_decision(
                    window_values(old(store)@.readings, rooms@[j].key@, now),
                    expected_at(rooms@[j].temperature_schedule@, hour as int),
                ) is Some),
        decreases rooms.len() - i,
    {
        let valve = if i < valves.len() {
            Some(&valves[i])
        } else {
            None
        };
        let o = update_valve(&rooms[i], valve, store, now, hour);
        let ghost prev = out@;
        out.push(o);
        assert(out@.drop_last() =~= prev);
        assert(out@.last() == o);
        match o {
            ValveOutcome::Switched(s) => {
                assert(store@.states =~= old(store)@.states + switched_records(rooms@, out@, now));
            },
            _ => {
                assert(switched_records(rooms@, out@, now) == switched_records(rooms@, prev, now));
            },
        }
        i = i + 1;
    }
    out
}

/// Runs the valve decision for every room at the current time and local hour.
pub fn update_valves<R: RelayController>(
    config: &HeatingConfiguration,
    valves: &Vec<R>,
    store: &mut Store,
) -> (r: Vec<ValveOutcome>)
    ensures
        exists|now: i64, hour: int|
            0 <= hour < 24 && #[trigger] valve_cycle(
                config.rooms@,
                valves@.len() as int,
                old(store)@.readings,
                r@,
                now,
                hour,
            ) && final(store)@.states == old(store)@.states + switched_records(
                config.rooms@,
                r@,
                now,
            ),
        final(store)@.readings == old(store)@.readings,
{
    let now = utc_now();
    let hour = local_hour();
    let r = update_valves_at(config, valves, store, now, hour);
    assert(valve_cycle(config.rooms@, valves@.len() as int, old(store)@.readings, r@, now, hour as int));
    r
}

/// A valve cycle records a state only for rooms that had at least the minimum
/// number of readings in their lookback window: a room with fewer is left as
/// it is.
pub proof fn lemma_sparse_rooms_not_switched(
    rooms: Seq<Room>,
    n_valves: int,
    readings: Seq<ReadingView>,
    outcomes: Seq<ValveOutcome>,
    now: i64,
    hour: int,
)
    requires
        valve_cycle(rooms, n_valves, readings, outcomes, now, hour),
    ensures
        forall|i: int|
            0 <= i < rooms.len() && window_values(readings, rooms[i].key@, now).len()
                < MIN_TEMPERATURE_READINGS ==> #[trigger] outcomes[i]
                == ValveOutcome::NotEnoughReadings,
        forall|j: int|
            0 <= j < switched_records(rooms, outcomes, now).len() ==> window_values(
                readings,
                (#[trigger] switched_records(rooms, outcomes, now)[j]).key,
                now,
            ).len() >= MIN_TEMPERATURE_READINGS,
{
    assert forall|i: int|
        0 <= i < rooms.len() && window_values(readings, rooms[i].key@, now).len()
            < MIN_TEMPERATURE_READINGS implies #[trigger] outcomes[i]
        == ValveOutcome::NotEnoughReadings by {
        assert(outcome_fits(
            outcomes[i],
            window_values(readings, rooms[i].key@, now),
            expected_at(rooms[i].temperature_schedule@, hour),
        ));
    }
    lemma_switched_records_dense(rooms, readings, outcomes, outcomes.len() as int, now, hour);
    assert(outcomes.take(outcomes.len() as int) =~= outcomes);
}

proof fn lemma_switched_records_dense(
    rooms: Seq<Room>,
    readings: Seq<ReadingView>,
    outcomes: Seq<ValveOutcome>,
    n: int,
    now: i64,
    hour: int,
)
    requires
        0 <= n <= outcomes.len() <= rooms.len(),
        forall|i: int|
            0 <= i < rooms.len() ==> outcome_fits(
                #[trigger] outcomes[i],
                window_values(readings, rooms[i].key@, now),
                expected_at(rooms[i].temperature_schedule@, hour),
            ),
    ensures
        forall|j: int|
            0 <= j < switched_records(rooms, outcomes.take(n), now).len() ==> window_values(
                readings,
                (#[trigger] switched_records(rooms, outcomes.take(n), now)[j]).key,
                now,
            ).len() >= MIN_TEMPERATURE_READINGS,
    decreases n,
{
    if n == outcomes.len() {
        assert(outcomes.take(n) =~= outcomes);
    }
    if n > 0 {
        lemma_switched_records_dense(rooms, readings, outcomes, n - 1, now, hour);
        let pre = outcomes.take(n);
        assert(pre.drop_last() =~= outcomes.take(n - 1));
        assert(pre.last() == outcomes[n - 1]);
        assert(outcome_fits(
            outcomes[n - 1],
            window_values(readings, rooms[n - 1].key@, now),
            expected_at(rooms[n - 1].temperature_schedule@, hour),
        ));
        let prev = switched_records(rooms, outcomes.take(n - 1), now);
        let cur = switched_records(rooms, pre, now);
        assert forall|j: int| 0 <= j < cur.len() implies window_values(
            readings,
            (#[trigger] cur[j]).key,
            now,
        ).len() >= MIN_TEMPERATURE_READINGS by {
            if j < prev.len() {
                assert(cur[j] == prev[j]);
            } else {
                assert(cur[j].key == rooms[n - 1].key@);
            }
        }
    }
}

/// Whether a room whose latest recorded valve state is `latest` counts towards
/// the stove at time `now`: its valve was recorded on, and at least the
/// activation delay ago.
pub open spec fn counts_toward_stove(latest: Option<(bool, i64)>, now: i64) -> bool {
    match latest {
        Some((on, t)) => on && now - t >= STOVE_ACTIVATION_DELAY_SECONDS,
        None => false,
    }
}

/// The total area of the rooms among `rooms` that count towards the stove at
/// time `now`, by the state log `states`.
pub open spec fn open_area(rooms: Seq<Room>, states: Seq<StateView>, now: i64) -> int
    decreases rooms.len(),
{
    if rooms.len() == 0 {
        0
    } else {
        open_area(rooms.drop_last(), states, now) + if counts_toward_stove(
            latest_state_of(states, rooms.last().key@),
            now,
        ) {
            rooms.last().area as int
        } else {
            0
        }
    }
}

/// Whether the stove should be on at time `now`: the open area reaches the
/// activation area.
pub open spec fn stove_wanted(rooms: Seq<Room>, states: Seq<StateView>, now: i64) -> bool {
    open_area(rooms, states, now) >= STOVE_ACTIVATION_AREA
}

/// The total area of the rooms of `config` whose valves were recorded on at
/// least the activation delay before `now`, capped at `u64::MAX`.
pub fn total_open_area(config: &HeatingConfiguration, store: &Store, now: i64) -> (r: u64)
    requires
        now >= i64::MIN + STOVE_ACTIVATION_DELAY_SECONDS,
    ensures
        r == (if open_area(config.rooms@, store@.states, now) > u64::MAX {
            u64::MAX as int
        } else {
            open_area(config.rooms@, store@.states, now)
        }),
{
    let rooms = &config.rooms;
    let mut total: u64 = 0;
    let mut i: usize = 0;
    while i < rooms.len()
        invariant
            rooms@ == config.rooms@,
            i <= rooms@.len(),
            now >= i64::MIN + STOVE_ACTIVATION_DELAY_SECONDS,
            total == (if open_area(rooms@.take(i as int), store@.states, now) > u64::MAX {
                u64::MAX as int
            } else {
                open_area(rooms@.take(i as int), store@.states, now)
            }),
        decreases rooms.len() - i,
    {
        let room = &rooms[i];
        assert(rooms@.take(i + 1).drop_last() =~= rooms@.take(i as int));
        assert(rooms@.take(i + 1).last() == *room);
        let counts = match store.latest_state(room.key.as_str()) {
            Some((on, t)) => on && t <= now - STOVE_ACTIVATION_DELAY_SECONDS,
            None => false,
        };
        if counts {
            total = total.saturating_add(room.area as u64);
        }
        i = i + 1;
    }
    assert(rooms@.take(i as int) =~= rooms@);
    total
}

/// Whether the stove should be on at time `now`: the area of the rooms whose
/// valves were recorded on at least the activation delay ago reaches the
/// activation area.
pub fn desired_stove_state(config: &HeatingConfiguration, store: &Store, now: i64) -> (r: bool)
    requires
        now >= i64::MIN + STOVE_ACTIVATION_DELAY_SECONDS,
    ensures
        r == stove_wanted(config.rooms@, store@.states, now),
{
    total_open_area(config, store, now) >= STOVE_ACTIVATION_AREA
}

/// Runs the stove decision at time `now`: sums the area of the rooms whose
/// valves were recorded on at least the activation delay ago, reads the
/// stove's state, and switches it only where it differs from the desired one,
/// recording the new state. A missing stove relay is a configuration error;
/// a failure to read or switch the stove is returned as it came.
pub fn update_stove_state_at<R: RelayController>(
    config: &HeatingConfiguration,
    stove: Option<&R>,
    store: &mut Store,
    now: i64,
) -> (r: Result<(), NeuroheatError>)
    requires
        now >= i64::MIN + STOVE_ACTIVATION_DELAY_SECONDS,
    ensures
        stove is None ==> r matches Err(NeuroheatError::ConfigurationError(_)),
        final(store)@.readings == old(store)@.readings,
        final(store)@.states == old(store)@.states || (r is Ok && final(store)@.states
            == old(store)@.states.push(
            StateView {
                key: STOVE_KEY@,
                state: stove_wanted(config.rooms@, old(store)@.states, now),
                timestamp: now,
            },
        )),
        r is Err ==> final(store)@.states == old(store)@.states,
{
    let desired = desired_stove_state(config, store, now);
    let stove = match stove {
        None => {
            return Err(
                NeuroheatError::ConfigurationError(
                    String::from_str("No stove controller found"),
                ),
            );
        },
        Some(s) => s,
    };
    let current = stove.read_state()?;
    match switch_command(desired, current) {
        None => Ok(()),
        Some(s) => {
            stove.set_state(s)?;
            store.store_state_at(STOVE_KEY, s, now);
            Ok(())
        },
    }
}

/// Runs the stove decision at the current time.
pub fn update_stove_state<R: RelayController>(
    config: &HeatingConfiguration,
    stove: Option<&R>,
    store: &mut Store,
) -> (r: Result<(), NeuroheatError>)
    ensures
        stove is None ==> r matches Err(NeuroheatError::ConfigurationError(_)),
        final(store)@.readings == old(store)@.readings,
        final(store)@.states == old(store)@.states || exists|now: i64|
            r is Ok && final(store)@.states == #[trigger] old(store)@.states.push(
                StateView {
                    key: STOVE_KEY@,
                    state: stove_wanted(config.rooms@, old(store)@.states, now),
                    timestamp: now,
                },
            ),
        r is Err ==> final(store)@.states == old(store)@.states,
{
    let now = utc_now();
    update_stove_state_at(config, stove, store, now)
}

/// Whether `key` is the key of a room among `rooms` whose outcome in
/// `outcomes` is a switch.
pub open spec fn switched_key(rooms: Seq<Room>, outcomes: Seq<ValveOutcome>, key: Seq<char>) -> bool {
    exists|k: int| 0 <= k < outcomes.len() && (#[trigger] outcomes[k]) is Switched && rooms[k].key@ == key
}

/// Each record of a valve cycle comes from a room that was switched.
proof fn lemma_switched_records_source(rooms: Seq<Room>, outcomes: Seq<ValveOutcome>, now: i64)
    requires
        outcomes.len() <= rooms.len(),
    ensures
        forall|j: int|
            0 <= j < switched_records(rooms, outcomes, now).len() ==> switched_key(
                rooms,
                outcomes,
                (#[trigger] switched_records(rooms, outcomes, now)[j]).key,
            ),
    decreases outcomes.len(),
{
    if outcomes.len() > 0 {
        let pre = outcomes.drop_last();
        lemma_switched_records_source(rooms, pre, now);
        let prev = switched_records(rooms, pre, now);
        let cur = switched_records(rooms, outcomes, now);
        let n = outcomes.len() - 1;
        assert forall|j: int| 0 <= j < cur.len() implies switched_key(
            rooms,
            outcomes,
            (#[trigger] cur[j]).key,
        ) by {
            if outcomes[n] is Switched {
                assert(cur == prev.push(
                    StateView { key: rooms[n].key@, state: outcomes[n]->Switched_0, timestamp: now },
                ));
            } else {
                assert(cur == prev);
            }
            if j < prev.len() {
                assert(cur[j] == prev[j]);
                assert(switched_key(rooms, pre, prev[j].key));
                let k = choose|k: int|
                    0 <= k < pre.len() && (#[trigger] pre[k]) is Switched && rooms[k].key@
                        == prev[j].key;
                assert(outcomes[k] == pre[k]);
            } else {
                assert(outcomes[n] is Switched);
            }
        }
    }
}

/// Where room keys are unique, a valve cycle records a state under a room's key
/// only where that room was switched: a room skipped, found in the desired
/// state, or whose relay failed gets no record.
pub proof fn lemma_only_switched_rooms_recorded(
    rooms: Seq<Room>,
    outcomes: Seq<ValveOutcome>,
    now: i64,
    i: int,
)
    requires
        keys_unique(rooms),
        outcomes.len() <= rooms.len(),
        0 <= i < outcomes.len(),
        !(outcomes[i] is Switched),
    ensures
        forall|j: int|
            0 <= j < switched_records(rooms, outcomes, now).len() ==> (#[trigger] switched_records(
                rooms,
                outcomes,
                now,
            )[j]).key != rooms[i].key@,
{
    lemma_switched_records_source(rooms, outcomes, now);
    let sr = switched_records(rooms, outcomes, now);
    assert forall|j: int| 0 <= j < sr.len() implies (#[trigger] sr[j]).key != rooms[i].key@ by {
        assert(switched_key(rooms, outcomes, sr[j].key));
        let k = choose|k: int|
            0 <= k < outcomes.len() && (#[trigger] outcomes[k]) is Switched && rooms[k].key@
                == sr[j].key;
        assert(k != i);
        if k < i {
            assert(rooms[k].key@ != rooms[i].key@);
        } else {
            assert(rooms[i].key@ != rooms[k].key@);
        }
    }
}

/// Idempotence: in a valve cycle over rooms with unique keys, a room whose
/// valve was found already in the desired state gets no record, and that state
/// is the one the decision asked for; and the stove is sent a command exactly
/// when its state differs from the desired one, never one that agrees.
pub proof fn lemma_agreeing_relay_left_alone(
    rooms: Seq<Room>,
    n_valves: int,
    readings: Seq<ReadingView>,
    outcomes: Seq<ValveOutcome>,
    now: i64,
    hour: int,
    i: int,
    states: Seq<StateView>,
    current: bool,
)
    requires
        valve_cycle(rooms, n_valves, readings, outcomes, now, hour),
        keys_unique(rooms),
        0 <= i < rooms.len(),
        outcomes[i] is Unchanged,
    ensures
        valve_decision(
            window_values(readings, rooms[i].key@, now),
            expected_at(rooms[i].temperature_schedule@, hour),
        ) == Some(outcomes[i]->Unchanged_0),
        forall|j: int|
            0 <= j < switched_records(rooms, outcomes, now).len() ==> (#[trigger] switched_records(
                rooms,
                outcomes,
                now,
            )[j]).key != rooms[i].key@,
        switch_command_of(stove_wanted(rooms, states, now), current) is None <==> current
            == stove_wanted(rooms, states, now),
        switch_command_of(stove_wanted(rooms, states, now), current) is Some ==> switch_command_of(
            stove_wanted(rooms, states, now),
            current,
        ) == Some(!current),
{
    assert(outcome_fits(
        outcomes[i],
        window_values(readings, rooms[i].key@, now),
        expected_at(rooms[i].temperature_schedule@, hour),
    ));
    lemma_only_switched_rooms_recorded(rooms, outcomes, now, i);
}

/// Schedule periods are half-open: a period never covers its end hour; and a
/// room with enough readings whose schedule has no period covering the hour
/// is skipped, with no target put in place of the missing one.
pub proof fn lemma_uncovered_hour_skips(
    w: TemperatureSchedule,
    schedule: Seq<TemperatureSchedule>,
    values: Seq<i32>,
    hour: int,
    outcome: ValveOutcome,
)
    requires
        forall|i: int| 0 <= i < schedule.len() ==> !covers(#[trigger] schedule[i], hour),
        values.len() >= MIN_TEMPERATURE_READINGS,
        outcome_fits(outcome, values, expected_at(schedule, hour)),
    ensures
        !covers(w, w.end_hour as int),
        expected_at(schedule, hour) is None,
        valve_decision(values, expected_at(schedule, hour)) is None,
        outcome == ValveOutcome::NoSchedule,
{
    lemma_expected_at(schedule, hour);
}

/// In a valve cycle over rooms with unique keys, a room with enough readings
/// whose schedule has no period covering the hour is skipped and gets no record.
pub proof fn lemma_uncovered_room_not_recorded(
    rooms: Seq<Room>,
    n_valves: int,
    readings: Seq<ReadingView>,
    outcomes: Seq<ValveOutcome>,
    now: i64,
    hour: int,
    i: int,
)
    requires
        valve_cycle(rooms, n_valves, readings, outcomes, now, hour),
        keys_unique(rooms),
        0 <= i < rooms.len(),
        window_values(readings, rooms[i].key@, now).len() >= MIN_TEMPERATURE_READINGS,
        forall|w: int|
            0 <= w < rooms[i].temperature_schedule@.len() ==> !covers(
                #[trigger] rooms[i].temperature_schedule@[w],
                hour,
            ),
    ensures
        outcomes[i] == ValveOutcome::NoSchedule,
        forall|j: int|
            0 <= j < switched_records(rooms, outcomes, now).len() ==> (#[trigger] switched_records(
                rooms,
                outcomes,
                now,
            )[j]).key != rooms[i].key@,
{
    let w = rooms[i].temperature_schedule@[0];
    if rooms[i].temperature_schedule@.len() > 0 {
        lemma_uncovered_hour_skips(
            w,
            rooms[i].temperature_schedule@,
            window_values(readings, rooms[i].key@, now),
            hour,
            outcomes[i],
        );
    } else {
        lemma_expected_at(rooms[i].temperature_schedule@, hour);
    }
    assert(outcome_fits(
        outcomes[i],
        window_values(readings, rooms[i].key@, now),
        expected_at(rooms[i].temperature_schedule@, hour),
    ));
    lemma_only_switched_rooms_recorded(rooms, outcomes, now, i);
}

} // verus!
