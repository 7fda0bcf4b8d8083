use vstd::prelude::*;

use crate::clock::local_hour;
use vstd::string::StringExecFns;

verus! {

/// A period of the day with its target temperature. The period is the
/// half-open range of hours `start_hour <= hour < end_hour`.
#[derive(Debug, Clone, Copy, PartialEq, Eq)]
pub struct TemperatureSchedule {
    /// The first hour of the period (0-23).
    pub start_hour: u8,
    /// The hour at which the period ends (0-23); it is not part of the period.
    pub end_hour: u8,
    /// The target temperature during the period, in thousandths of a degree Celsius.
    pub temperature: i32,
}

/// A room of the house.
#[derive(Debug, Clone)]
pub struct Room {
    /// A unique key identifying the room.
    pub key: String,
    /// The label of the room.
    pub name: String,
    /// The identifier of the room's temperature sensor.
    pub sensor_id: String,
    /// The GPIO pin controlling the valve of the room's floor heating.
    pub valve_pin: u8,
    /// The floor area of the room, in square decimetres.
    pub area: u32,
    /// The room's schedule; where periods overlap, the first one listed wins.
    pub temperature_schedule: Vec<TemperatureSchedule>,
}

/// The heating configuration of the whole house.
#[derive(Debug, Clone)]
pub struct HeatingConfiguration {
    /// The rooms of the house.
    pub rooms: Vec<Room>,
    /// The GPIO pin controlling the stove.
    pub stove_pin: u8,
    /// The identifier of the heating pipe's temperature sensor.
    pub pipe_sensor_id: String,
}

/// Whether no two of `rooms` share a key, as each key names one device.
pub open spec fn keys_unique(rooms: Seq<Room>) -> bool {
    forall|i: int, j: int|
        0 <= i < j < rooms.len() ==> (#[trigger] rooms[i]).key@ != (#[trigger] rooms[j]).key@
}

/// Whether `hour` falls in the half-open period of `w`.
pub open spec fn covers(w: TemperatureSchedule, hour: int) -> bool {
    w.start_hour <= hour && hour < w.end_hour
}

/// The target temperature of the first period of `schedule` that covers `hour`,
/// or `None` where no period does.
pub open spec fn expected_at(schedule: Seq<TemperatureSchedule>, hour: int) -> Option<i32>
    decreases schedule.len(),
{
    if schedule.len() == 0 {
        None
    } else if covers(schedule[0], hour) {
        Some(schedule[0].temperature)
    } else {
        expected_at(schedule.drop_first(), hour)
    }
}

/// `expected_at` finds nothing exactly when no period covers the hour, and
/// otherwise the target of a covering period with no covering period before it.
pub proof fn lemma_expected_at(schedule: Seq<TemperatureSchedule>, hour: int)
    ensures
        expected_at(schedule, hour) is None <==> forall|i: int|
            0 <= i < schedule.len() ==> !covers(#[trigger] schedule[i], hour),
        expected_at(schedule, hour) is Some ==> exists|i: int|
            0 <= i < schedule.len() && covers(#[trigger] schedule[i], hour)
                && expected_at(schedule, hour) == Some(schedule[i].temperature)
                && forall|j: int| 0 <= j < i ==> !covers(#[trigger] schedule[j], hour),
    decreases schedule.len(),
{
    if schedule.len() > 0 {
        let rest = schedule.drop_first();
        lemma_expected_at(rest, hour);
        assert forall|i: int| 0 < i < schedule.len() implies schedule[i] == rest[i - 1] by {}
        if !covers(schedule[0], hour) && expected_at(rest, hour) is Some {
            let k = choose|k: int|
                0 <= k < rest.len() && covers(#[trigger] rest[k], hour)
                    && expected_at(rest, hour) == Some(rest[k].temperature)
                    && forall|j: int| 0 <= j < k ==> !covers(#[trigger] rest[j], hour);
            assert(covers(schedule[k + 1], hour));
            assert forall|j: int| 0 <= j < k + 1 implies !covers(#[trigger] schedule[j], hour) by {
                if j > 0 {
                    assert(schedule[j] == rest[j - 1]);
                }
            }
        }
        if expected_at(rest, hour) is None && !covers(schedule[0], hour) {
            assert forall|i: int| 0 <= i < schedule.len() implies !covers(
                #[trigger] schedule[i],
                hour,
            ) by {
                if i > 0 {
                    assert(schedule[i] == rest[i - 1]);
                }
            }
        }
    }
}

impl Room {
    /// The target temperature of the room at `hour`: that of the first period
    /// of its schedule that covers the hour, or `None` if no period does.
    pub fn expected_temperature_at(&self, hour: u8) -> (r: Option<i32>)
        ensures
            r == expected_at(self.temperature_schedule@, hour as int),
    {
        let schedule = &self.temperature_schedule;
        let mut i: usize = 0;
        assert(schedule@.subrange(0, schedule@.len() as int) =~= schedule@);
        while i < schedule.len()
            invariant
                schedule@ == self.temperature_schedule@,
                i <= schedule@.len(),
                expected_at(schedule@, hour as int) == expected_at(
                    schedule@.subrange(i as int, schedule@.len() as int),
                    hour as int,
                ),
            decreases schedule.len() - i,
        {
            let w = schedule[i];
            let ghost rest = schedule@.subrange(i as int, schedule@.len() as int);
            assert(rest[0] == w);
            assert(rest.drop_first() =~= schedule@.subrange(i + 1, schedule@.len() as int));
            assert(rest.len() > 0);
            if w.start_hour <= hour && hour < w.end_hour {
                assert(expected_at(rest, hour as int) == Some(w.temperature));
                return Some(w.temperature);
            }
            i = i + 1;
        }
        None
    }

    /// The target temperature of the room at the current local hour.
    pub fn get_expected_temperature(&self) -> (r: Option<i32>)
        ensures
            exists|hour: int|
                0 <= hour < 24 && r == #[trigger] expected_at(self.temperature_schedule@, hour),
    {
        let hour = local_hour();
        self.expected_temperature_at(hour)
    }
}

/// The label of the heating pipe.
pub const PIPE_LABEL: &'static str = "Heating Pipe";

/// The label of the stove.
pub const STOVE_LABEL: &'static str = "Stove";

/// The entities of a configuration with `rooms` and their labels: each room
/// under its key and name, then the heating pipe and the stove.
pub open spec fn labels_of(rooms: Seq<Room>) -> Seq<(Seq<char>, Seq<char>)> {
    rooms.map_values(|r: Room| (r.key@, r.name@)) + seq![
        ("pipe"@, "Heating Pipe"@),
        ("stove"@, "Stove"@),
    ]
}

impl HeatingConfiguration {
    /// The key and label of every entity of the configuration: the rooms in
    /// order, then the heating pipe and the stove.
    pub fn entity_labels(&self) -> (r: Vec<(String, String)>)
        ensures
            r@.len() == labels_of(self.rooms@).len(),
            forall|i: int|
                0 <= i < r@.len() ==> ((#[trigger] r@[i]).0@, r@[i].1@) == labels_of(
                    self.rooms@,
                )[i],
    {
        let mut out: Vec<(String, String)> = Vec::new();
        let mut i: usize = 0;
        while i < self.rooms.len()
            invariant
                i <= self.rooms@.len(),
                out@.len() == i,
                forall|j: int|
                    0 <= j < i ==> ((#[trigger] out@[j]).0@, out@[j].1@) == (
                        self.rooms@[j].key@,
                        self.rooms@[j].name@,
                    ),
            decreases self.rooms.len() - i,
        {
            out.push((self.rooms[i].key.clone(), self.rooms[i].name.clone()));
            i = i + 1;
        }
        out.push((String::from_str("pipe"), String::from_str(PIPE_LABEL)));
        out.push((String::from_str("stove"), String::from_str(STOVE_LABEL)));
        let ghost n = self.rooms@.len();
        assert forall|i: int|
            0 <= i < out@.len() implies ((#[trigger] out@[i]).0@, out@[i].1@) == labels_of(
            self.rooms@,
        )[i] by {
            if i < n {
                assert(labels_of(self.rooms@)[i] == self.rooms@.map_values(
                    |r: Room| (r.key@, r.name@),
                )[i]);
            }
        }
        out
    }
}

} // verus!
