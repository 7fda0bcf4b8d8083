use vstd::prelude::*;

use crate::clock::{local_hour, utc_now};
use crate::controller::{PIPE_KEY, STOVE_KEY};
use crate::heating_configuration::{expected_at, HeatingConfiguration, Room};
use crate::relay::RelayController;
use crate::store::{ReadingView, StateView, Store};
use crate::temperature_sensor::TemperatureSensor;

verus! {

/// What a temperature sampling read: the pipe's temperature, where it has a
/// sensor and the read succeeded, and each room's likewise, in room order.
#[derive(Debug)]
pub struct TemperatureSample {
    pub pipe: Option<i32>,
    pub rooms: Vec<Option<i32>>,
}

/// What a relay sampling read: the stove's state, where it has a relay and the
/// read succeeded, and each room's valve likewise, in room order.
#[derive(Debug)]
pub struct RelaySample {
    pub stove: Option<bool>,
    pub valves: Vec<Option<bool>>,
}

/// The reading recorded for the pipe's value `pipe` at time `now`, if it was read.
pub open spec fn pipe_readings(pipe: Option<i32>, now: i64) -> Seq<ReadingView> {
    match pipe {
        Some(v) => seq![ReadingView { key: PIPE_KEY@, value: v, expected: None, timestamp: now }],
        None => Seq::empty(),
    }
}

/// The readings recorded for the rooms' values `values` at time `now` and local
/// hour `hour`: one for each room that was read, in room order, with the
/// room's target at that hour.
pub open spec fn room_readings(rooms: Seq<Room>, values: Seq<Option<i32>>, now: i64, hour: int) -> Seq<
    ReadingView,
>
    decreases values.len(),
{
    if values.len() == 0 {
        Seq::empty()
    } else {
        let prev = room_readings(rooms, values.drop_last(), now, hour);
        let n = values.len() - 1;
        match values.last() {
            Some(v) => prev.push(
                ReadingView {
                    key: rooms[n].key@,
                    value: v,
                    expected: expected_at(rooms[n].temperature_schedule@, hour),
                    timestamp: now,
                },
            ),
            None => prev,
        }
    }
}

/// The state recorded for the stove's state `stove` at time `now`, if it was read.
pub open spec fn stove_states(stove: Option<bool>, now: i64) -> Seq<StateView> {
    match stove {
        Some(s) => seq![StateView { key: STOVE_KEY@, state: s, timestamp: now }],
        None => Seq::empty(),
    }
}

/// The states recorded for the valves' states `states` at time `now`: one for
/// each valve that was read, in room order.
pub open spec fn valve_states(rooms: Seq<Room>, states: Seq<Option<bool>>, now: i64) -> Seq<
    StateView,
>
    decreases states.len(),
{
    if states.len() == 0 {
        Seq::empty()
    } else {
        let prev = valve_states(rooms, states.drop_last(), now);
        match states.last() {
            Some(s) => prev.push(
                StateView { key: rooms[states.len() - 1].key@, state: s, timestamp: now },
            ),
            None => prev,
        }
    }
}

/// Whether `sample` is a temperature sampling of `rooms` in which only the
/// pipe (where `has_pipe`) and the first `n_sensors` rooms have a sensor.
pub open spec fn temperature_sample_fits(
    sample: TemperatureSample,
    rooms: Seq<Room>,
    has_pipe: bool,
    n_sensors: int,
) -> bool {
    &&& sample.rooms@.len() == rooms.len()
    &&& !has_pipe ==> sample.pipe is None
    &&& forall|i: int| n_sensors <= i < rooms.len() ==> (#[trigger] sample.rooms@[i]) is None
}

/// Whether `sample` is a relay sampling of `rooms` in which only the stove
/// (where `has_stove`) and the first `n_valves` rooms have a relay.
pub open spec fn relay_sample_fits(
    sample: RelaySample,
    rooms: Seq<Room>,
    has_stove: bool,
    n_valves: int,
) -> bool {
    &&& sample.valves@.len() == rooms.len()
    &&& !has_stove ==> sample.stove is None
    &&& forall|i: int| n_valves <= i < rooms.len() ==> (#[trigger] sample.valves@[i]) is None
}

/// Reads the pipe's sensor, then each room's sensor (`sensors[i]` is that of
/// the i-th room), and appends each value read, stamped `now`, with the room's
/// target at `hour`: the pipe's first, then the rooms' in order. A failed read
/// skips that sensor only. Returns what was read.
pub fn read_temperatures_at<S: TemperatureSensor>(
    config: &HeatingConfiguration,
    pipe_sensor: Option<&S>,
    sensors: &Vec<S>,
    store: &mut Store,
    now: i64,
    hour: u8,
) -> (r: TemperatureSample)
    ensures
        temperature_sample_fits(r, config.rooms@, pipe_sensor is Some, sensors@.len() as int),
        final(store)@.states == old(store)@.states,
        final(store)@.readings == old(store)@.readings + pipe_readings(r.pipe, now) + room_readings(
            config.rooms@,
            r.rooms@,
            now,
            hour as int,
        ),
{
    let mut pipe: Option<i32> = None;
    if let Some(sensor) = pipe_sensor {
        if let Ok(t) = sensor.read() {
            store.store_temperature_at(PIPE_KEY, t, None, now);
            pipe = Some(t);
        }
    }
    let ghost base = old(store)@.readings + pipe_readings(pipe, now);
    assert(store@.readings =~= base + room_readings(config.rooms@, Seq::empty(), now, hour as int));
    let rooms = &config.rooms;
    let mut values: Vec<Option<i32>> = Vec::new();
    let mut i: usize = 0;
    while i < rooms.len()
        invariant
            rooms@ == config.rooms@,
            i <= rooms@.len(),
            values@.len() == i,
            pipe_sensor is None ==> pipe is None,
            base == old(store)@.readings + pipe_readings(pipe, now),
            store@.states == old(store)@.states,
            store@.readings == base + room_readings(rooms@, values@, now, hour as int),
            forall|j: int| sensors@.len() <= j < i ==> (#[trigger] values@[j]) is None,
        decreases rooms.len() - i,
    {
        let mut v: Option<i32> = None;
        if i < sensors.len() {
            if let Ok(t) = sensors[i].read() {
                let expected = rooms[i].expected_temperature_at(hour);
                store.store_temperature_at(rooms[i].key.as_str(), t, expected, now);
                v = Some(t);
            }
        }
        let ghost prev = values@;
        values.push(v);
        assert(values@.drop_last() =~= prev);
        assert(store@.readings =~= base + room_readings(rooms@, values@, now, hour as int));
        i = i + 1;
    }
    TemperatureSample { pipe, rooms: values }
}

/// Reads every sensor at the current time and local hour.
pub fn read_temperatures<S: TemperatureSensor>(
    config: &HeatingConfiguration,
    pipe_sensor: Option<&S>,
    sensors: &Vec<S>,
    store: &mut Store,
) -> (r: TemperatureSample)
    ensures
        temperature_sample_fits(r, config.rooms@, pipe_sensor is Some, sensors@.len() as int),
        final(store)@.states == old(store)@.states,
        exists|now: i64, hour: int|
            0 <= hour < 24 && final(store)@.readings == old(store)@.readings + pipe_readings(
                r.pipe,
                now,
            ) + #[trigger] room_readings(config.rooms@, r.rooms@, now, hour),
{
    let now = utc_now();
    let hour = local_hour();
    let r = read_temperatures_at(config, pipe_sensor, sensors, store, now, hour);
    assert(store@.readings == old(store)@.readings + pipe_readings(r.pipe, now) + room_readings(
        config.rooms@,
        r.rooms@,
        now,
        hour as int,
    ));
    r
}

/// Reads the stove's relay, then each room's valve relay (`valves[i]` is that
/// of the i-th room), and appends each state read, stamped `now`: the stove's
/// first, then the valves' in room order. A failed read skips that relay only.
/// Returns what was read.
pub fn read_relay_states_at<R: RelayController>(
    config: &HeatingConfiguration,
    stove: Option<&R>,
    valves: &Vec<R>,
    store: &mut Store,
    now: i64,
) -> (r: RelaySample)
    ensures
        relay_sample_fits(r, config.rooms@, stove is Some, valves@.len() as int),
        final(store)@.readings == old(store)@.readings,
        final(store)@.states == old(store)@.states + stove_states(r.stove, now) + valve_states(
            config.rooms@,
            r.valves@,
            now,
        ),
{
    let mut stove_state: Option<bool> = None;
    if let Some(relay) = stove {
        if let Ok(s) = relay.read_state() {
            store.store_state_at(STOVE_KEY, s, now);
            stove_state = Some(s);
        }
    }
    let ghost base = old(store)@.states + stove_states(stove_state, now);
    assert(store@.states =~= base + valve_states(config.rooms@, Seq::empty(), now));
    let rooms = &config.rooms;
    let mut states: Vec<Option<bool>> = Vec::new();
    let mut i: usize = 0;
    while i < rooms.len()
        invariant
            rooms@ == config.rooms@,
            i <= rooms@.len(),
            states@.len() == i,
            stove is None ==> stove_state is None,
            base == old(store)@.states + stove_states(stove_state, now),
            store@.readings == old(store)@.readings,
            store@.states == base + valve_states(rooms@, states@, now),
            forall|j: int| valves@.len() <= j < i ==> (#[trigger] states@[j]) is None,
        decreases rooms.len() - i,
    {
        let mut v: Option<bool> = None;
        if i < valves.len() {
            if let Ok(s) = valves[i].read_state() {
                store.store_state_at(rooms[i].key.as_str(), s, now);
                v = Some(s);
            }
        }
        let ghost prev = states@;
        states.push(v);
        assert(states@.drop_last() =~= prev);
        assert(store@.states =~= base + valve_states(rooms@, states@, now));
        i = i + 1;
    }
    RelaySample { stove: stove_state, valves: states }
}

/// Reads every relay at the current time.
pub fn read_relay_states<R: RelayController>(
    config: &HeatingConfiguration,
    stove: Option<&R>,
    valves: &Vec<R>,
    store: &mut Store,
) -> (r: RelaySample)
    ensures
        relay_sample_fits(r, config.rooms@, stove is Some, valves@.len() as int),
        final(store)@.readings == old(store)@.readings,
        exists|now: i64|
            final(store)@.states == old(store)@.states + stove_states(r.stove, now)
                + #[trigger] valve_states(config.rooms@, r.valves@, now),
{
    let now = utc_now();
    let r = read_relay_states_at(config, stove, valves, store, now);
    assert(store@.states == old(store)@.states + stove_states(r.stove, now) + valve_states(
        config.rooms@,
        r.valves@,
        now,
    ));
    r
}

} // verus!
