use neuroheat::heating_configuration::{HeatingConfiguration, Room, TemperatureSchedule};
use neuroheat::scheduler::JobSlot;

#[test]
fn labels_list_rooms_then_pipe_and_stove() {
    let c = HeatingConfiguration {
        rooms: vec![Room {
            key: "kitchen".to_string(),
            name: "Kitchen".to_string(),
            sensor_id: "28-1".to_string(),
            valve_pin: 5,
            area: 1250,
            temperature_schedule: vec![TemperatureSchedule {
                start_hour: 0,
                end_hour: 24,
                temperature: 20000,
            }],
        }],
        stove_pin: 4,
        pipe_sensor_id: "28-2".to_string(),
    };
    assert_eq!(
        c.entity_labels(),
        vec![
            ("kitchen".to_string(), "Kitchen".to_string()),
            ("pipe".to_string(), "Heating Pipe".to_string()),
            ("stove".to_string(), "Stove".to_string()),
        ]
    );
}

#[test]
fn job_slot_is_single_flight() {
    let mut slot = JobSlot::new();
    assert!(!slot.is_running());
    assert!(slot.try_start());
    assert!(!slot.try_start());
    assert!(!slot.try_start());
    assert!(slot.is_running());
    slot.finish();
    assert!(!slot.is_running());
    assert!(slot.try_start());
}
