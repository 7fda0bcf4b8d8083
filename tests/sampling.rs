use std::cell::Cell;

use neuroheat::error::NeuroheatError;
use neuroheat::heating_configuration::{HeatingConfiguration, Room, TemperatureSchedule};
use neuroheat::relay::{setup_all_relays, RelayController};
use neuroheat::sampling::{
    read_relay_states, read_relay_states_at, read_temperatures, read_temperatures_at,
};
use neuroheat::store::Store;
use neuroheat::temperature_sensor::TemperatureSensor;

struct FixedSensor(Option<i32>);

impl TemperatureSensor for FixedSensor {
    fn read(&self) -> Result<i32, NeuroheatError> {
        self.0.ok_or(NeuroheatError::SensorError("no device".to_string()))
    }
}

struct FixedRelay {
    state: Option<bool>,
    setups: Cell<u32>,
}

impl RelayController for FixedRelay {
    fn read_state(&self) -> Result<bool, NeuroheatError> {
        self.state.ok_or(NeuroheatError::RelayError("no pin".to_string()))
    }

    fn set_state(&self, _state: bool) -> Result<(), NeuroheatError> {
        Ok(())
    }

    fn setup(&self) -> Result<(), NeuroheatError> {
        self.setups.set(self.setups.get() + 1);
        if self.state.is_some() {
            Ok(())
        } else {
            Err(NeuroheatError::RelayError("no pin".to_string()))
        }
    }
}

fn relay(state: Option<bool>) -> FixedRelay {
    FixedRelay { state, setups: Cell::new(0) }
}

fn room(key: &str, schedule: Vec<TemperatureSchedule>) -> Room {
    Room {
        key: key.to_string(),
        name: key.to_string(),
        sensor_id: format!("28-{}", key),
        valve_pin: 22,
        area: 1200,
        temperature_schedule: schedule,
    }
}

fn config() -> HeatingConfiguration {
    HeatingConfiguration {
        rooms: vec![
            room("living", vec![TemperatureSchedule { start_hour: 6, end_hour: 23, temperature: 21000 }]),
            room("bed", vec![]),
            room("office", vec![]),
        ],
        stove_pin: 4,
        pipe_sensor_id: "28-pipe".to_string(),
    }
}

#[test]
fn temperatures_sampled_with_targets() {
    let c = config();
    let mut store = Store::new();
    let pipe = FixedSensor(Some(45000));
    let sensors = vec![FixedSensor(Some(20500)), FixedSensor(None), FixedSensor(Some(19000))];
    let sample = read_temperatures_at(&c, Some(&pipe), &sensors, &mut store, 1000, 7);
    assert_eq!(sample.pipe, Some(45000));
    assert_eq!(sample.rooms, vec![Some(20500), None, Some(19000)]);
    let recs = store.reading_records();
    assert_eq!(recs.len(), 3);
    assert_eq!((recs[0].key.as_str(), recs[0].value, recs[0].expected), ("pipe", 45000, None));
    assert_eq!((recs[1].key.as_str(), recs[1].value, recs[1].expected), ("living", 20500, Some(21000)));
    assert_eq!((recs[2].key.as_str(), recs[2].value, recs[2].expected), ("office", 19000, None));
    assert!(recs.iter().all(|r| r.timestamp == 1000));
}

#[test]
fn temperatures_sampled_now() {
    let c = config();
    let mut store = Store::new();
    let sensors = vec![FixedSensor(Some(20500))];
    let sample = read_temperatures::<FixedSensor>(&c, None, &sensors, &mut store);
    assert_eq!(sample.pipe, None);
    assert_eq!(sample.rooms, vec![Some(20500), None, None]);
    assert_eq!(store.reading_records().len(), 1);
    assert!(store.reading_records()[0].timestamp > 0);
}

#[test]
fn relay_states_sampled() {
    let c = config();
    let mut store = Store::new();
    let stove = relay(Some(true));
    let valves = vec![relay(Some(false)), relay(None)];
    let sample = read_relay_states_at(&c, Some(&stove), &valves, &mut store, 500);
    assert_eq!(sample.stove, Some(true));
    assert_eq!(sample.valves, vec![Some(false), None, None]);
    assert_eq!(store.state_records()[0].key, "stove");
    assert_eq!(store.state_records()[1].key, "living");
    assert_eq!(store.latest_state("stove"), Some((true, 500)));
    assert_eq!(store.latest_state("living"), Some((false, 500)));
    assert_eq!(store.latest_state("bed"), None);
    assert_eq!(store.state_records().len(), 2);
}

#[test]
fn relays_set_up_until_first_failure() {
    let stove = relay(Some(false));
    let valves = vec![relay(Some(false)), relay(None), relay(Some(true))];
    assert!(setup_all_relays(Some(&stove), &valves).is_err());
    assert_eq!(stove.setups.get(), 1);
    assert_eq!(valves[0].setups.get(), 1);
    assert_eq!(valves[1].setups.get(), 1);
    assert_eq!(valves[2].setups.get(), 0);
    let valves = vec![relay(Some(false))];
    assert_eq!(setup_all_relays::<FixedRelay>(None, &valves), Ok(()));
}

#[test]
fn relay_states_sampled_now() {
    let c = config();
    let mut store = Store::new();
    let valves = vec![relay(Some(true)), relay(Some(false)), relay(None)];
    let sample = read_relay_states::<FixedRelay>(&c, None, &valves, &mut store);
    assert_eq!(sample.stove, None);
    assert_eq!(sample.valves, vec![Some(true), Some(false), None]);
    let keys: Vec<&str> = store.state_records().iter().map(|s| s.key.as_str()).collect();
    assert_eq!(keys, vec!["living", "bed"]);
}
