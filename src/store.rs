use vstd::prelude::*;
use vstd::pervasive::VecAdditionalExecFns;
use vstd::string::StringExecFns;

use crate::clock::utc_now;

verus! {

/// A temperature reading as it was appended to the store.
#[derive(Debug)]
pub struct TemperatureReading {
    /// The entity the reading belongs to.
    pub key: String,
    /// The measured temperature, in thousandths of a degree Celsius.
    pub value: i32,
    /// The target temperature at the time of the reading, if the entity had one.
    pub expected: Option<i32>,
    /// When the reading was appended, in seconds since the Unix epoch.
    pub timestamp: i64,
}

/// The content of a `TemperatureReading`.
pub struct ReadingView {
    pub key: Seq<char>,
    pub value: i32,
    pub expected: Option<i32>,
    pub timestamp: i64,
}

impl View for TemperatureReading {
    type V = ReadingView;

    open spec fn view(&self) -> ReadingView {
        ReadingView {
            key: self.key@,
            value: self.value,
            expected: self.expected,
            timestamp: self.timestamp,
        }
    }
}

/// An on/off state transition as it was appended to the store.
#[derive(Debug)]
pub struct StateRecord {
    /// The entity whose state this is.
    pub key: String,
    /// Whether the entity was on.
    pub state: bool,
    /// When the record was appended, in seconds since the Unix epoch.
    pub timestamp: i64,
}

/// The content of a `StateRecord`.
pub struct StateView {
    pub key: Seq<char>,
    pub state: bool,
    pub timestamp: i64,
}

impl View for StateRecord {
    type V = StateView;

    open spec fn view(&self) -> StateView {
        StateView { key: self.key@, state: self.state, timestamp: self.timestamp }
    }
}

/// The current values of one entity, as the read-only view presents them.
#[derive(Debug)]
pub struct EntityState {
    /// The entity's key.
    pub key: String,
    /// The entity's label.
    pub label: String,
    /// The entity's most recent reading, if it has any.
    pub reading: Option<TemperatureReading>,
    /// The entity's current state and when it was recorded, if it has any.
    pub state: Option<(bool, i64)>,
}

/// The two logs of a store, oldest record first.
pub struct StoreView {
    pub readings: Seq<ReadingView>,
    pub states: Seq<StateView>,
}

/// The append-only log of temperature readings and state transitions. Records
/// are never changed or removed; current values are derived from the log.
pub struct Store {
    readings: Vec<TemperatureReading>,
    states: Vec<StateRecord>,
}

impl View for Store {
    type V = StoreView;

    closed spec fn view(&self) -> StoreView {
        StoreView {
            readings: self.readings@.map_values(|r: TemperatureReading| r@),
            states: self.states@.map_values(|r: StateRecord| r@),
        }
    }
}

/// The state and time of the record of `key` with the greatest timestamp in
/// `log`; among records with equal timestamps, the one appended last.
pub open spec fn latest_state_of(log: Seq<StateView>, key: Seq<char>) -> Option<(bool, i64)>
    decreases log.len(),
{
    if log.len() == 0 {
        None
    } else {
        let prev = latest_state_of(log.drop_last(), key);
        let r = log.last();
        if r.key == key && (prev matches Some((_, t)) ==> t <= r.timestamp) {
            Some((r.state, r.timestamp))
        } else {
            prev
        }
    }
}

/// Whether `current` holds the current state of every key of `log` that has
/// one: one record per key, each the key's latest state.
pub open spec fn is_latest_per_key(current: Seq<StateView>, log: Seq<StateView>) -> bool {
    &&& forall|i: int, j: int|
        0 <= i < j < current.len() ==> (#[trigger] current[i]).key != (#[trigger] current[j]).key
    &&& forall|i: int|
        0 <= i < current.len() ==> latest_state_of(log, (#[trigger] current[i]).key) == Some(
            (current[i].state, current[i].timestamp),
        )
    &&& forall|k: Seq<char>|
        #[trigger] latest_state_of(log, k) is Some ==> exists|i: int|
            0 <= i < current.len() && (#[trigger] current[i]).key == k
}

/// The reading of `key` with the greatest timestamp in `log`; among readings
/// with equal timestamps, the one appended last.
pub open spec fn latest_reading_of(log: Seq<ReadingView>, key: Seq<char>) -> Option<ReadingView>
    decreases log.len(),
{
    if log.len() == 0 {
        None
    } else {
        let prev = latest_reading_of(log.drop_last(), key);
        let r = log.last();
        if r.key == key && (prev is None || prev->0.timestamp <= r.timestamp) {
            Some(r)
        } else {
            prev
        }
    }
}

/// Whether `current` holds the latest reading of every key of `log` that has
/// one: one reading per key, each the key's latest.
pub open spec fn is_latest_reading_per_key(current: Seq<ReadingView>, log: Seq<ReadingView>) -> bool {
    &&& forall|i: int, j: int|
        0 <= i < j < current.len() ==> (#[trigger] current[i]).key != (#[trigger] current[j]).key
    &&& forall|i: int|
        0 <= i < current.len() ==> latest_reading_of(log, (#[trigger] current[i]).key) == Some(
            current[i],
        )
    &&& forall|k: Seq<char>|
        #[trigger] latest_reading_of(log, k) is Some ==> exists|i: int|
            0 <= i < current.len() && (#[trigger] current[i]).key == k
}

/// Whether the readings `s` are ordered newest first.
pub open spec fn newest_first(s: Seq<ReadingView>) -> bool {
    forall|i: int, j: int| 0 <= i < j < s.len() ==> s[i].timestamp >= s[j].timestamp
}

/// `r` placed into `s`, which is ordered newest first, before the first reading
/// stamped no later than `r`.
pub open spec fn insert_newest_first(s: Seq<ReadingView>, r: ReadingView) -> Seq<ReadingView>
    decreases s.len(),
{
    if s.len() == 0 {
        seq![r]
    } else if s[0].timestamp <= r.timestamp {
        seq![r] + s
    } else {
        seq![s[0]] + insert_newest_first(s.drop_first(), r)
    }
}

/// The readings of `key` in `log` stamped at `since` or later, newest first;
/// among readings with equal timestamps, the one appended later comes first.
pub open spec fn readings_since_of(log: Seq<ReadingView>, key: Seq<char>, since: i64) -> Seq<
    ReadingView,
>
    decreases log.len(),
{
    if log.len() == 0 {
        Seq::empty()
    } else {
        let rest = readings_since_of(log.drop_last(), key, since);
        let r = log.last();
        if r.key == key && r.timestamp >= since {
            insert_newest_first(rest, r)
        } else {
            rest
        }
    }
}

/// The values of the readings of `key` stamped at `since` or later, newest first.
pub open spec fn values_since(log: Seq<ReadingView>, key: Seq<char>, since: i64) -> Seq<i32> {
    readings_since_of(log, key, since).map_values(|r: ReadingView| r.value)
}

proof fn lemma_insert_newest_first_at(s: Seq<ReadingView>, r: ReadingView, p: int)
    requires
        0 <= p <= s.len(),
        forall|j: int| 0 <= j < p ==> (#[trigger] s[j]).timestamp > r.timestamp,
        p < s.len() ==> s[p].timestamp <= r.timestamp,
    ensures
        insert_newest_first(s, r) == s.insert(p, r),
    decreases p,
{
    if p == 0 {
        if s.len() == 0 {
            assert(s.insert(0, r) =~= seq![r]);
        } else {
            assert(s.insert(0, r) =~= seq![r] + s);
        }
    } else {
        let rest = s.drop_first();
        assert forall|j: int| 0 <= j < p - 1 implies (#[trigger] rest[j]).timestamp > r.timestamp by {
            assert(rest[j] == s[j + 1]);
        }
        lemma_insert_newest_first_at(rest, r, p - 1);
        assert(s.insert(p, r) =~= seq![s[0]] + rest.insert(p - 1, r));
    }
}

proof fn lemma_insert_newest_first_sorted(s: Seq<ReadingView>, r: ReadingView)
    requires
        newest_first(s),
    ensures
        newest_first(insert_newest_first(s, r)),
        insert_newest_first(s, r).len() == s.len() + 1,
        insert_newest_first(s, r)[0].timestamp == (if s.len() == 0 || s[0].timestamp
            <= r.timestamp {
            r.timestamp
        } else {
            s[0].timestamp
        }),
    decreases s.len(),
{
    if s.len() > 0 && s[0].timestamp > r.timestamp {
        let rest = s.drop_first();
        lemma_insert_newest_first_sorted(rest, r);
        let t = insert_newest_first(rest, r);
        let u = insert_newest_first(s, r);
        assert(u =~= seq![s[0]] + t);
        assert forall|i: int, j: int| 0 <= i < j < u.len() implies u[i].timestamp
            >= u[j].timestamp by {
            if i == 0 {
                assert(u[j] == t[j - 1]);
                assert(t[0].timestamp <= s[0].timestamp) by {
                    if rest.len() > 0 {
                        assert(rest[0] == s[1]);
                    }
                }
            } else {
                assert(u[i] == t[i - 1] && u[j] == t[j - 1]);
            }
        }
    }
}

/// The readings `get_temperatures_since` lists come newest first.
pub proof fn lemma_readings_since_newest_first(log: Seq<ReadingView>, key: Seq<char>, since: i64)
    ensures
        newest_first(readings_since_of(log, key, since)),
    decreases log.len(),
{
    if log.len() > 0 {
        lemma_readings_since_newest_first(log.drop_last(), key, since);
        lemma_insert_newest_first_sorted(readings_since_of(log.drop_last(), key, since), log.last());
    }
}

/// A latest state found in a log is the state and time of one of its records of that key.
pub proof fn lemma_latest_state_recorded(log: Seq<StateView>, key: Seq<char>)
    ensures
        latest_state_of(log, key) matches Some((s, t)) ==> exists|i: int|
            0 <= i < log.len() && (#[trigger] log[i]).key == key && log[i].state == s
                && log[i].timestamp == t,
    decreases log.len(),
{
    if log.len() > 0 {
        let pre = log.drop_last();
        lemma_latest_state_recorded(pre, key);
        if latest_state_of(log, key) == latest_state_of(pre, key) && latest_state_of(pre, key) is Some {
            let (s, t) = latest_state_of(pre, key)->0;
            let i = choose|i: int|
                0 <= i < pre.len() && (#[trigger] pre[i]).key == key && pre[i].state == s
                    && pre[i].timestamp == t;
            assert(log[i] == pre[i]);
        }
    }
}

/// Round trip of the state log: once a state of `key` is appended with the
/// time `now`, the latest state of `key` is stamped no earlier than `now`; and
/// where no record of the log was stamped later than `now` (the clock did not
/// run backwards), it is exactly the appended state and time.
pub proof fn lemma_append_state_then_latest(
    log: Seq<StateView>,
    key: Seq<char>,
    state: bool,
    now: i64,
)
    ensures
        latest_state_of(log.push(StateView { key, state, timestamp: now }), key) matches Some(
            (_, t),
        ) && t >= now,
        (forall|i: int| 0 <= i < log.len() ==> #[trigger] log[i].timestamp <= now)
            ==> latest_state_of(log.push(StateView { key, state, timestamp: now }), key) == Some(
            (state, now),
        ),
{
    let after = log.push(StateView { key, state, timestamp: now });
    assert(after.drop_last() =~= log);
    lemma_latest_state_recorded(log, key);
}

impl Store {
    /// An empty store.
    pub fn new() -> (r: Store)
        ensures
            r@.readings.len() == 0,
            r@.states.len() == 0,
    {
        let r = Store { readings: Vec::new(), states: Vec::new() };
        assert(r@.readings =~= Seq::<ReadingView>::empty());
        assert(r@.states =~= Seq::<StateView>::empty());
        r
    }

    /// The readings appended so far, oldest first.
    pub fn reading_records(&self) -> (r: &Vec<TemperatureReading>)
        ensures
            r@.len() == self@.readings.len(),
            forall|i: int| 0 <= i < r@.len() ==> #[trigger] r@[i]@ == self@.readings[i],
    {
        &self.readings
    }

    /// The state transitions appended so far, oldest first.
    pub fn state_records(&self) -> (r: &Vec<StateRecord>)
        ensures
            r@.len() == self@.states.len(),
            forall|i: int| 0 <= i < r@.len() ==> #[trigger] r@[i]@ == self@.states[i],
    {
        &self.states
    }

    /// Appends a reading of `key` stamped with `timestamp`.
    pub fn store_temperature_at(
        &mut self,
        key: &str,
        value: i32,
        expected: Option<i32>,
        timestamp: i64,
    )
        ensures
            final(self)@.readings == old(self)@.readings.push(
                ReadingView { key: key@, value, expected, timestamp },
            ),
            final(self)@.states == old(self)@.states,
    {
        self.readings.push(
            TemperatureReading { key: String::from_str(key), value, expected, timestamp },
        );
        assert(self@.readings =~= old(self)@.readings.push(
            ReadingView { key: key@, value, expected, timestamp },
        ));
    }

    /// Appends a reading of `key` stamped with the store's clock, and returns
    /// the timestamp given to it.
    pub fn store_temperature(&mut self, key: &str, value: i32, expected: Option<i32>) -> (t: i64)
        ensures
            final(self)@.readings == old(self)@.readings.push(
                ReadingView { key: key@, value, expected, timestamp: t },
            ),
            final(self)@.states == old(self)@.states,
    {
        let t = utc_now();
        self.store_temperature_at(key, value, expected, t);
        t
    }

    /// Appends a state transition of `key` stamped with `timestamp`.
    pub fn store_state_at(&mut self, key: &str, state: bool, timestamp: i64)
        ensures
            final(self)@.states == old(self)@.states.push(
                StateView { key: key@, state, timestamp },
            ),
            final(self)@.readings == old(self)@.readings,
    {
        self.states.push(StateRecord { key: String::from_str(key), state, timestamp });
        assert(self@.states =~= old(self)@.states.push(StateView { key: key@, state, timestamp }));
    }

    /// Appends a state transition of `key` stamped with the store's clock, and
    /// returns the timestamp given to it.
    pub fn store_state(&mut self, key: &str, state: bool) -> (t: i64)
        ensures
            final(self)@.states == old(self)@.states.push(
                StateView { key: key@, state, timestamp: t },
            ),
            final(self)@.readings == old(self)@.readings,
    {
        let t = utc_now();
        self.store_state_at(key, state, t);
        t
    }

    /// The current state of `key` and the time it was recorded.
    pub fn latest_state(&self, key: &str) -> (r: Option<(bool, i64)>)
        ensures
            r == latest_state_of(self@.states, key@),
    {
        let k = String::from_str(key);
        let mut best: Option<(bool, i64)> = None;
        let mut i: usize = 0;
        while i < self.states.len()
            invariant
                k@ == key@,
                i <= self.states@.len(),
                best == latest_state_of(self@.states.take(i as int), key@),
            decreases self.states.len() - i,
        {
            let r = &self.states[i];
            assert(self@.states.take(i + 1).drop_last() =~= self@.states.take(i as int));
            assert(self@.states.take(i + 1).last() == r@);
            if r.key == k {
                match best {
                    None => {
                        best = Some((r.state, r.timestamp));
                    },
                    Some((_, t)) => {
                        if t <= r.timestamp {
                            best = Some((r.state, r.timestamp));
                        }
                    },
                }
            }
            i = i + 1;
        }
        assert(self@.states.take(i as int) =~= self@.states);
        best
    }

    /// The current state of every key that has one, one record per key.
    pub fn get_valve_states_and_timestamps(&self) -> (r: Vec<StateRecord>)
        ensures
            is_latest_per_key(r@.map_values(|x: StateRecord| x@), self@.states),
    {
        let mut out: Vec<StateRecord> = Vec::new();
        let mut n: usize = 0;
        assert(forall|k: Seq<char>| #[trigger] latest_state_of(self@.states.take(0), k) is None);
        while n < self.states.len()
            invariant
                n <= self.states@.len(),
                is_latest_per_key(out@.map_values(|x: StateRecord| x@), self@.states.take(n as int)),
            decreases self.states.len() - n,
        {
            let rec = &self.states[n];
            let ghost log = self@.states;
            let ghost pre = log.take(n as int);
            let ghost post = log.take(n + 1);
            let ghost cur = out@.map_values(|x: StateRecord| x@);
            assert(post.drop_last() =~= pre);
            assert(post.last() == rec@);
            let mut p: usize = 0;
            while p < out.len() && !(out[p].key == rec.key)
                invariant
                    p <= out@.len(),
                    cur == out@.map_values(|x: StateRecord| x@),
                    forall|j: int| 0 <= j < p ==> (#[trigger] cur[j]).key != rec.key@,
                decreases out.len() - p,
            {
                p = p + 1;
            }
            if p < out.len() {
                assert(cur[p as int].key == rec.key@);
                if out[p].timestamp <= rec.timestamp {
                    let r = StateRecord { key: rec.key.clone(), state: rec.state, timestamp: rec.timestamp };
                    out.set(p, r);
                    assert(out@.map_values(|x: StateRecord| x@) =~= cur.update(p as int, rec@));
                }
                let ghost next = out@.map_values(|x: StateRecord| x@);
                assert(next.len() == cur.len());
                assert forall|i: int| 0 <= i < next.len() implies (#[trigger] next[i]).key == cur[i].key by {
                    if i != p {
                        assert(next[i] == cur[i]);
                    }
                }
                assert forall|k: Seq<char>| #[trigger] latest_state_of(post, k) is Some implies exists|i: int|
                    0 <= i < next.len() && (#[trigger] next[i]).key == k by {
                    if k != rec.key@ {
                        assert(latest_state_of(post, k) == latest_state_of(pre, k));
                        let i = choose|i: int| 0 <= i < cur.len() && (#[trigger] cur[i]).key == k;
                        assert(next[i].key == cur[i].key);
                    } else {
                        assert(next[p as int].key == k);
                    }
                }
                assert forall|i: int| 0 <= i < next.len() implies latest_state_of(post, (#[trigger] next[i]).key) == Some(
                    (next[i].state, next[i].timestamp),
                ) by {
                    if i != p {
                        assert(next[i] == cur[i]);
                    }
                }
            } else {
                assert(latest_state_of(pre, rec.key@) is None) by {
                    if latest_state_of(pre, rec.key@) is Some {
                        let i = choose|i: int| 0 <= i < cur.len() && (#[trigger] cur[i]).key == rec.key@;
                        assert(cur[i].key != rec.key@);
                    }
                }
                let r = StateRecord { key: rec.key.clone(), state: rec.state, timestamp: rec.timestamp };
                out.push(r);
                let ghost next = out@.map_values(|x: StateRecord| x@);
                assert(next =~= cur.push(rec@));
                assert forall|k: Seq<char>| #[trigger] latest_state_of(post, k) is Some implies exists|i: int|
                    0 <= i < next.len() && (#[trigger] next[i]).key == k by {
                    if k != rec.key@ {
                        assert(latest_state_of(post, k) == latest_state_of(pre, k));
                        let i = choose|i: int| 0 <= i < cur.len() && (#[trigger] cur[i]).key == k;
                        assert(next[i] == cur[i]);
                    } else {
                        assert(next[cur.len() as int].key == k);
                    }
                }
                assert forall|i: int, j: int| 0 <= i < j < next.len() implies (#[trigger] next[i]).key
                    != (#[trigger] next[j]).key by {
                    if j < cur.len() {
                        assert(next[i] == cur[i] && next[j] == cur[j]);
                    } else {
                        assert(next[i] == cur[i]);
                    }
                }
                assert forall|i: int| 0 <= i < next.len() implies latest_state_of(post, (#[trigger] next[i]).key) == Some(
                    (next[i].state, next[i].timestamp),
                ) by {
                    if i < cur.len() {
                        assert(next[i] == cur[i]);
                    }
                }
            }
            n = n + 1;
        }
        assert(self@.states.take(n as int) =~= self@.states);
        out
    }

    /// The latest reading of every key that has one, one reading per key.
    pub fn all_latest_readings(&self) -> (r: Vec<TemperatureReading>)
        ensures
            is_latest_reading_per_key(r@.map_values(|x: TemperatureReading| x@), self@.readings),
    {
        let mut out: Vec<TemperatureReading> = Vec::new();
        let mut n: usize = 0;
        assert(forall|k: Seq<char>| #[trigger] latest_reading_of(self@.readings.take(0), k) is None);
        while n < self.readings.len()
            invariant
                n <= self.readings@.len(),
                is_latest_reading_per_key(
                    out@.map_values(|x: TemperatureReading| x@),
                    self@.readings.take(n as int),
                ),
            decreases self.readings.len() - n,
        {
            let rec = &self.readings[n];
            let ghost log = self@.readings;
            let ghost pre = log.take(n as int);
            let ghost post = log.take(n + 1);
            let ghost cur = out@.map_values(|x: TemperatureReading| x@);
            assert(post.drop_last() =~= pre);
            assert(post.last() == rec@);
            let mut p: usize = 0;
            while p < out.len() && !(out[p].key == rec.key)
                invariant
                    p <= out@.len(),
                    cur == out@.map_values(|x: TemperatureReading| x@),
                    forall|j: int| 0 <= j < p ==> (#[trigger] cur[j]).key != rec.key@,
                decreases out.len() - p,
            {
                p = p + 1;
            }
            let copy = TemperatureReading {
                key: rec.key.clone(),
                value: rec.value,
                expected: rec.expected,
                timestamp: rec.timestamp,
            };
            if p < out.len() {
                assert(cur[p as int].key == rec.key@);
                if out[p].timestamp <= rec.timestamp {
                    out.set(p, copy);
                    assert(out@.map_values(|x: TemperatureReading| x@) =~= cur.update(p as int, rec@));
                }
                let ghost next = out@.map_values(|x: TemperatureReading| x@);
                assert(next.len() == cur.len());
                assert forall|i: int| 0 <= i < next.len() implies (#[trigger] next[i]).key
                    == cur[i].key by {
                    if i != p {
                        assert(next[i] == cur[i]);
                    }
                }
                assert forall|k: Seq<char>| #[trigger] latest_reading_of(post, k) is Some implies exists|i: int|
                    0 <= i < next.len() && (#[trigger] next[i]).key == k by {
                    if k != rec.key@ {
                        assert(latest_reading_of(post, k) == latest_reading_of(pre, k));
                        let i = choose|i: int| 0 <= i < cur.len() && (#[trigger] cur[i]).key == k;
                        assert(next[i].key == cur[i].key);
                    } else {
                        assert(next[p as int].key == k);
                    }
                }
                assert forall|i: int| 0 <= i < next.len() implies latest_reading_of(
                    post,
                    (#[trigger] next[i]).key,
                ) == Some(next[i]) by {
                    if i != p {
                        assert(next[i] == cur[i]);
                    }
                }
            } else {
                assert(latest_reading_of(pre, rec.key@) is None) by {
                    if latest_reading_of(pre, rec.key@) is Some {
                        let i = choose|i: int| 0 <= i < cur.len() && (#[trigger] cur[i]).key == rec.key@;
                        assert(cur[i].key != rec.key@);
                    }
                }
                out.push(copy);
                let ghost next = out@.map_values(|x: TemperatureReading| x@);
                assert(next =~= cur.push(rec@));
                assert forall|k: Seq<char>| #[trigger] latest_reading_of(post, k) is Some implies exists|i: int|
                    0 <= i < next.len() && (#[trigger] next[i]).key == k by {
                    if k != rec.key@ {
                        assert(latest_reading_of(post, k) == latest_reading_of(pre, k));
                        let i = choose|i: int| 0 <= i < cur.len() && (#[trigger] cur[i]).key == k;
                        assert(next[i] == cur[i]);
                    } else {
                        assert(next[cur.len() as int].key == k);
                    }
                }
                assert forall|i: int, j: int| 0 <= i < j < next.len() implies (#[trigger] next[i]).key
                    != (#[trigger] next[j]).key by {
                    if j < cur.len() {
                        assert(next[i] == cur[i] && next[j] == cur[j]);
                    } else {
                        assert(next[i] == cur[i]);
                    }
                }
                assert forall|i: int| 0 <= i < next.len() implies latest_reading_of(
                    post,
                    (#[trigger] next[i]).key,
                ) == Some(next[i]) by {
                    if i < cur.len() {
                        assert(next[i] == cur[i]);
                    }
                }
            }
            n = n + 1;
        }
        assert(self@.readings.take(n as int) =~= self@.readings);
        out
    }

    /// The most recent reading of `key`.
    pub fn get_latest_temperature(&self, key: &str) -> (r: Option<TemperatureReading>)
        ensures
            r matches Some(x) ==> latest_reading_of(self@.readings, key@) == Some(x@),
            r is None <==> latest_reading_of(self@.readings, key@) is None,
    {
        let k = String::from_str(key);
        let mut best: Option<usize> = None;
        let mut i: usize = 0;
        while i < self.readings.len()
            invariant
                k@ == key@,
                i <= self.readings@.len(),
                best matches Some(j) ==> j < i && latest_reading_of(
                    self@.readings.take(i as int),
                    key@,
                ) == Some(self@.readings[j as int]),
                best is None ==> latest_reading_of(self@.readings.take(i as int), key@) is None,
            decreases self.readings.len() - i,
        {
            let r = &self.readings[i];
            assert(self@.readings.take(i + 1).drop_last() =~= self@.readings.take(i as int));
            assert(self@.readings.take(i + 1).last() == r@);
            if r.key == k {
                match best {
                    None => {
                        best = Some(i);
                    },
                    Some(j) => {
                        if self.readings[j].timestamp <= r.timestamp {
                            best = Some(i);
                        }
                    },
                }
            }
            i = i + 1;
        }
        assert(self@.readings.take(i as int) =~= self@.readings);
        match best {
            None => None,
            Some(j) => {
                let r = &self.readings[j];
                Some(
                    TemperatureReading {
                        key: r.key.clone(),
                        value: r.value,
                        expected: r.expected,
                        timestamp: r.timestamp,
                    },
                )
            },
        }
    }

    /// The current values of each entity of `labels`, given as key and label,
    /// in the same order.
    pub fn get_current_state(&self, labels: &Vec<(String, String)>) -> (r: Vec<EntityState>)
        ensures
            r@.len() == labels@.len(),
            forall|i: int|
                0 <= i < r@.len() ==> {
                    let e = #[trigger] r@[i];
                    &&& e.key@ == labels@[i].0@
                    &&& e.label@ == labels@[i].1@
                    &&& e.state == latest_state_of(self@.states, labels@[i].0@)
                    &&& e.reading matches Some(x) ==> latest_reading_of(
                        self@.readings,
                        labels@[i].0@,
                    ) == Some(x@)
                    &&& e.reading is None <==> latest_reading_of(
                        self@.readings,
                        labels@[i].0@,
                    ) is None
                },
    {
        let mut out: Vec<EntityState> = Vec::new();
        let mut i: usize = 0;
        while i < labels.len()
            invariant
                i <= labels@.len(),
                out@.len() == i,
                forall|j: int|
                    0 <= j < i ==> {
                        let e = #[trigger] out@[j];
                        &&& e.key@ == labels@[j].0@
                        &&& e.label@ == labels@[j].1@
                        &&& e.state == latest_state_of(self@.states, labels@[j].0@)
                        &&& e.reading matches Some(x) ==> latest_reading_of(
                            self@.readings,
                            labels@[j].0@,
                        ) == Some(x@)
                        &&& e.reading is None <==> latest_reading_of(
                            self@.readings,
                            labels@[j].0@,
                        ) is None
                    },
            decreases labels.len() - i,
        {
            let key = labels[i].0.as_str();
            let e = EntityState {
                key: labels[i].0.clone(),
                label: labels[i].1.clone(),
                reading: self.get_latest_temperature(key),
                state: self.latest_state(key),
            };
            out.push(e);
            i = i + 1;
        }
        out
    }

    /// The values of the readings of `key` stamped at `since` or later, newest
    /// first; among readings with equal timestamps, the one appended later first.
    pub fn get_temperatures_since(&self, key: &str, since: i64) -> (r: Vec<i32>)
        ensures
            r@ == values_since(self@.readings, key@, since),
    {
        let k = String::from_str(key);
        let mut sel: Vec<(i32, i64)> = Vec::new();
        let mut i: usize = 0;
        while i < self.readings.len()
            invariant
                k@ == key@,
                i <= self.readings@.len(),
                sel@.len() == readings_since_of(self@.readings.take(i as int), key@, since).len(),
                forall|j: int|
                    0 <= j < sel@.len() ==> (#[trigger] sel@[j]).0 == readings_since_of(
                        self@.readings.take(i as int),
                        key@,
                        since,
                    )[j].value && sel@[j].1 == readings_since_of(
                        self@.readings.take(i as int),
                        key@,
                        since,
                    )[j].timestamp,
            decreases self.readings.len() - i,
        {
            let r = &self.readings[i];
            let ghost pre = readings_since_of(self@.readings.take(i as int), key@, since);
            assert(self@.readings.take(i + 1).drop_last() =~= self@.readings.take(i as int));
            assert(self@.readings.take(i + 1).last() == r@);
            if r.key == k && r.timestamp >= since {
                let mut p: usize = 0;
                while p < sel.len() && sel[p].1 > r.timestamp
                    invariant
                        p <= sel@.len(),
                        forall|j: int| 0 <= j < p ==> (#[trigger] sel@[j]).1 > r.timestamp,
                    decreases sel.len() - p,
                {
                    p = p + 1;
                }
                proof {
                    assert forall|j: int| 0 <= j < p implies (#[trigger] pre[j]).timestamp
                        > r.timestamp by {
                        assert(sel@[j].1 > r.timestamp);
                    }
                    lemma_insert_newest_first_at(pre, r@, p as int);
                }
                let ghost before = sel@;
                sel.insert(p, (r.value, r.timestamp));
                assert forall|j: int| 0 <= j < sel@.len() implies (#[trigger] sel@[j]).0
                    == pre.insert(p as int, r@)[j].value && sel@[j].1 == pre.insert(
                    p as int,
                    r@,
                )[j].timestamp by {
                    if j < p {
                        assert(sel@[j] == before[j]);
                    } else if j > p {
                        assert(sel@[j] == before[j - 1]);
                    }
                }
            }
            i = i + 1;
        }
        assert(self@.readings.take(i as int) =~= self@.readings);
        let ghost all = readings_since_of(self@.readings, key@, since);
        let mut out: Vec<i32> = Vec::new();
        let mut j: usize = 0;
        while j < sel.len()
            invariant
                j <= sel@.len(),
                sel@.len() == all.len(),
                forall|m: int| 0 <= m < sel@.len() ==> (#[trigger] sel@[m]).0 == all[m].value,
                out@.len() == j,
                forall|m: int| 0 <= m < j ==> out@[m] == (#[trigger] sel@[m]).0,
            decreases sel.len() - j,
        {
            out.push(sel[j].0);
            j = j + 1;
        }
        let ghost vals = all.map_values(|r: ReadingView| r.value);
        assert forall|m: int| 0 <= m < out@.len() implies out@[m] == vals[m] by {
            assert(out@[m] == sel@[m].0);
        }
        assert(out@ =~= vals);
        out
    }
}

} // verus!
