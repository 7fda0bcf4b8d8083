use std::cell::Cell;

use neuroheat::controller::{
    desired_stove_state, desired_valve_state, is_below_expected, switch_command, total_open_area, update_stove_state,
    update_stove_state_at, update_valve, update_valves_at, ValveOutcome,
};
use neuroheat::error::NeuroheatError;
use neuroheat::heating_configuration::{HeatingConfiguration, Room, TemperatureSchedule};
use neuroheat::relay::RelayController;
use neuroheat::store::Store;

struct MockRelay {
    state: Cell<bool>,
    reads: Cell<u32>,
    writes: Cell<u32>,
    fail_read: bool,
    fail_write: bool,
}

impl MockRelay {
    fn new(state: bool) -> MockRelay {
        MockRelay {
            state: Cell::new(state),
            reads: Cell::new(0),
            writes: Cell::new(0),
            fail_read: false,
            fail_write: false,
        }
    }
}

impl RelayController for MockRelay {
    fn read_state(&self) -> Result<bool, NeuroheatError> {
        self.reads.set(self.reads.get() + 1);
        if self.fail_read {
            Err(NeuroheatError::RelayError("unreadable".to_string()))
        } else {
            Ok(self.state.get())
        }
    }

    fn set_state(&self, state: bool) -> Result<(), NeuroheatError> {
        self.writes.set(self.writes.get() + 1);
        if self.fail_write {
            Err(NeuroheatError::RelayError("stuck".to_string()))
        } else {
            self.state.set(state);
            Ok(())
        }
    }

    fn setup(&self) -> Result<(), NeuroheatError> {
        Ok(())
    }
}

fn room(key: &str, area: u32, schedule: Vec<TemperatureSchedule>) -> Room {
    Room {
        key: key.to_string(),
        name: key.to_uppercase(),
        sensor_id: format!("28-{}", key),
        valve_pin: 17,
        area,
        temperature_schedule: schedule,
    }
}

fn all_day(temperature: i32) -> Vec<TemperatureSchedule> {
    vec![TemperatureSchedule { start_hour: 0, end_hour: 24, temperature }]
}

fn config(rooms: Vec<Room>) -> HeatingConfiguration {
    HeatingConfiguration { rooms, stove_pin: 4, pipe_sensor_id: "28-pipe".to_string() }
}

const NOW: i64 = 1_700_000_000;

#[test]
fn cold_room_opens_valve() {
    assert_eq!(desired_valve_state(&vec![18000, 18500, 19000], Some(20000)), Some(true));
}

#[test]
fn warm_room_closes_valve() {
    assert_eq!(desired_valve_state(&vec![21000, 21000, 21000], Some(20000)), Some(false));
}

#[test]
fn mean_equal_to_target_closes_valve() {
    assert_eq!(desired_valve_state(&vec![19000, 20000, 21000], Some(20000)), Some(false));
    assert!(!is_below_expected(&vec![20000, 20000, 20000], 20000));
    assert!(is_below_expected(&vec![19999, 20000, 20000], 20000));
}

#[test]
fn too_few_readings_give_no_decision() {
    assert_eq!(desired_valve_state(&vec![10000, 10000], Some(20000)), None);
    assert_eq!(desired_valve_state(&vec![], Some(20000)), None);
}

#[test]
fn no_target_gives_no_decision() {
    assert_eq!(desired_valve_state(&vec![10000, 10000, 10000], None), None);
}

#[test]
fn extreme_readings_do_not_overflow() {
    let v = vec![i32::MAX, i32::MAX, i32::MAX, i32::MAX];
    assert!(!is_below_expected(&v, i32::MAX));
    let w = vec![i32::MIN, i32::MIN, i32::MIN];
    assert!(is_below_expected(&w, i32::MIN + 1));
}

#[test]
fn switch_command_only_on_difference() {
    assert_eq!(switch_command(true, true), None);
    assert_eq!(switch_command(false, false), None);
    assert_eq!(switch_command(true, false), Some(true));
    assert_eq!(switch_command(false, true), Some(false));
}

fn store_with_readings(key: &str, values: &[(i32, i64)]) -> Store {
    let mut store = Store::new();
    for &(v, t) in values {
        store.store_temperature_at(key, v, None, t);
    }
    store
}

#[test]
fn sparse_room_gets_no_relay_call_and_no_record() {
    let r = room("kitchen", 1000, all_day(20000));
    // two readings in the window, one older than ten minutes
    let mut store =
        store_with_readings("kitchen", &[(15000, NOW - 700), (15000, NOW - 300), (15000, NOW)]);
    let valve = MockRelay::new(false);
    let out = update_valve(&r, Some(&valve), &mut store, NOW, 12);
    assert_eq!(out, ValveOutcome::NotEnoughReadings);
    assert_eq!(valve.reads.get(), 0);
    assert_eq!(valve.writes.get(), 0);
    assert_eq!(store.state_records().len(), 0);
}

#[test]
fn valve_already_in_desired_state_is_left_alone() {
    let r = room("kitchen", 1000, all_day(20000));
    let mut store =
        store_with_readings("kitchen", &[(18000, NOW - 300), (18500, NOW - 200), (19000, NOW)]);
    let valve = MockRelay::new(true);
    let out = update_valve(&r, Some(&valve), &mut store, NOW, 12);
    assert_eq!(out, ValveOutcome::Unchanged(true));
    assert_eq!(valve.writes.get(), 0);
    assert_eq!(store.state_records().len(), 0);
}

#[test]
fn valve_switched_and_recorded() {
    let r = room("kitchen", 1000, all_day(20000));
    let mut store =
        store_with_readings("kitchen", &[(18000, NOW - 300), (18500, NOW - 200), (19000, NOW)]);
    let valve = MockRelay::new(false);
    let out = update_valve(&r, Some(&valve), &mut store, NOW, 12);
    assert_eq!(out, ValveOutcome::Switched(true));
    assert_eq!(valve.writes.get(), 1);
    assert!(valve.state.get());
    assert_eq!(store.latest_state("kitchen"), Some((true, NOW)));
}

#[test]
fn failed_switch_is_not_recorded() {
    let r = room("kitchen", 1000, all_day(20000));
    let mut store =
        store_with_readings("kitchen", &[(22000, NOW - 300), (22000, NOW - 200), (22000, NOW)]);
    let mut valve = MockRelay::new(true);
    valve.fail_write = true;
    let out = update_valve(&r, Some(&valve), &mut store, NOW, 12);
    assert_eq!(out, ValveOutcome::WriteFailed(false));
    assert_eq!(store.state_records().len(), 0);
}

#[test]
fn unreadable_valve_is_skipped() {
    let r = room("kitchen", 1000, all_day(20000));
    let mut store =
        store_with_readings("kitchen", &[(18000, NOW - 300), (18000, NOW - 200), (18000, NOW)]);
    let mut valve = MockRelay::new(false);
    valve.fail_read = true;
    let out = update_valve(&r, Some(&valve), &mut store, NOW, 12);
    assert_eq!(out, ValveOutcome::ReadFailed);
    assert_eq!(valve.writes.get(), 0);
    assert_eq!(store.state_records().len(), 0);
}

#[test]
fn uncovered_hour_skips_room() {
    let schedule = vec![
        TemperatureSchedule { start_hour: 6, end_hour: 9, temperature: 21000 },
        TemperatureSchedule { start_hour: 17, end_hour: 22, temperature: 21500 },
    ];
    let r = room("bath", 600, schedule);
    let mut store =
        store_with_readings("bath", &[(15000, NOW - 300), (15000, NOW - 200), (15000, NOW)]);
    let valve = MockRelay::new(false);
    // 9 is the end of the first period and not part of it
    let out = update_valve(&r, Some(&valve), &mut store, NOW, 9);
    assert_eq!(out, ValveOutcome::NoSchedule);
    assert_eq!(valve.reads.get(), 0);
    assert_eq!(valve.writes.get(), 0);
    assert_eq!(store.state_records().len(), 0);
}

#[test]
fn schedule_lookup_is_half_open_and_first_match_wins() {
    let schedule = vec![
        TemperatureSchedule { start_hour: 6, end_hour: 9, temperature: 21000 },
        TemperatureSchedule { start_hour: 8, end_hour: 12, temperature: 19000 },
    ];
    let r = room("bath", 600, schedule);
    assert_eq!(r.expected_temperature_at(5), None);
    assert_eq!(r.expected_temperature_at(6), Some(21000));
    assert_eq!(r.expected_temperature_at(8), Some(21000));
    assert_eq!(r.expected_temperature_at(9), Some(19000));
    assert_eq!(r.expected_temperature_at(12), None);
    let e = r.get_expected_temperature();
    assert!(e.is_none() || e == Some(21000) || e == Some(19000));
}

#[test]
fn one_room_failure_does_not_stop_others() {
    let c = config(vec![
        room("a", 1000, all_day(20000)),
        room("b", 800, all_day(20000)),
        room("c", 500, all_day(20000)),
    ]);
    let mut store = Store::new();
    for t in [NOW - 300, NOW - 200, NOW] {
        store.store_temperature_at("a", 18000, None, t);
        store.store_temperature_at("b", 18000, None, t);
    }
    let mut broken = MockRelay::new(false);
    broken.fail_read = true;
    let valves = vec![broken, MockRelay::new(false)];
    let out = update_valves_at(&c, &valves, &mut store, NOW, 12);
    assert_eq!(
        out,
        vec![ValveOutcome::ReadFailed, ValveOutcome::Switched(true), ValveOutcome::NotEnoughReadings]
    );
    assert_eq!(store.latest_state("b"), Some((true, NOW)));
    assert_eq!(store.latest_state("a"), None);
    assert_eq!(store.state_records().len(), 1);
}

#[test]
fn room_without_valve_reported() {
    let c = config(vec![room("a", 1000, all_day(20000))]);
    let mut store =
        store_with_readings("a", &[(18000, NOW - 300), (18000, NOW - 200), (18000, NOW)]);
    let valves: Vec<MockRelay> = vec![];
    let out = update_valves_at(&c, &valves, &mut store, NOW, 12);
    assert_eq!(out, vec![ValveOutcome::NoValve]);
}

#[test]
fn stove_waits_for_activation_delay() {
    let c = config(vec![room("a", 1000, all_day(20000)), room("b", 800, all_day(20000))]);
    let mut store = Store::new();
    store.store_state_at("a", true, NOW - 180);
    store.store_state_at("b", true, NOW - 60);
    let stove = MockRelay::new(false);

    assert_eq!(total_open_area(&c, &store, NOW), 1000);
    assert!(!desired_stove_state(&c, &store, NOW));
    assert!(desired_stove_state(&c, &store, NOW + 60));
    assert_eq!(update_stove_state_at(&c, Some(&stove), &mut store, NOW), Ok(()));
    assert_eq!(stove.writes.get(), 0);
    assert_eq!(store.latest_state("stove"), None);

    let later = NOW + 60;
    assert_eq!(total_open_area(&c, &store, later), 1800);
    assert_eq!(update_stove_state_at(&c, Some(&stove), &mut store, later), Ok(()));
    assert_eq!(stove.writes.get(), 1);
    assert!(stove.state.get());
    assert_eq!(store.latest_state("stove"), Some((true, later)));
}

#[test]
fn closed_or_unknown_valves_do_not_count() {
    let c = config(vec![
        room("a", 2000, all_day(20000)),
        room("b", 800, all_day(20000)),
        room("c", 900, all_day(20000)),
    ]);
    let mut store = Store::new();
    store.store_state_at("a", true, NOW - 1000);
    store.store_state_at("a", false, NOW - 500);
    store.store_state_at("b", true, NOW - 120);
    assert_eq!(total_open_area(&c, &store, NOW), 800);
}

#[test]
fn stove_in_desired_state_is_left_alone() {
    let c = config(vec![room("a", 2000, all_day(20000))]);
    let mut store = Store::new();
    store.store_state_at("a", true, NOW - 600);
    let stove = MockRelay::new(true);
    assert_eq!(update_stove_state_at(&c, Some(&stove), &mut store, NOW), Ok(()));
    assert_eq!(stove.writes.get(), 0);
    assert_eq!(store.state_records().len(), 1);
}

#[test]
fn stove_switched_off_when_area_drops() {
    let c = config(vec![room("a", 2000, all_day(20000))]);
    let mut store = Store::new();
    store.store_state_at("a", false, NOW - 600);
    let stove = MockRelay::new(true);
    assert_eq!(update_stove_state_at(&c, Some(&stove), &mut store, NOW), Ok(()));
    assert_eq!(stove.writes.get(), 1);
    assert_eq!(store.latest_state("stove"), Some((false, NOW)));
}

#[test]
fn missing_stove_is_configuration_error() {
    let c = config(vec![]);
    let mut store = Store::new();
    let r = update_stove_state::<MockRelay>(&c, None, &mut store);
    assert!(matches!(r, Err(NeuroheatError::ConfigurationError(_))));
    let r = update_stove_state_at::<MockRelay>(&c, None, &mut store, NOW);
    assert_eq!(
        r,
        Err(NeuroheatError::ConfigurationError("No stove controller found".to_string()))
    );
}

#[test]
fn stove_failures_are_returned() {
    let c = config(vec![room("a", 2000, all_day(20000))]);
    let mut store = Store::new();
    store.store_state_at("a", true, NOW - 600);
    let mut stove = MockRelay::new(false);
    stove.fail_read = true;
    let r = update_stove_state_at(&c, Some(&stove), &mut store, NOW);
    assert_eq!(r, Err(NeuroheatError::RelayError("unreadable".to_string())));
    let mut stove = MockRelay::new(false);
    stove.fail_write = true;
    let r = update_stove_state_at(&c, Some(&stove), &mut store, NOW);
    assert_eq!(r, Err(NeuroheatError::RelayError("stuck".to_string())));
    assert_eq!(store.state_records().len(), 1);
}
