use vstd::prelude::*;
use vstd::string::StringExecFns;

use crate::error::NeuroheatError;

verus! {

/// The directory under which the 1-Wire bus lists its devices.
pub const W1_PATH_PREFIX: &'static str = "/sys/devices/w1_bus_master1/";

/// The highest temperature a sensor may report, in thousandths of a degree
/// Celsius; higher values come from a faulty or disconnected probe.
pub const MAX_MILLIDEGREES: i64 = 50000;

/// A temperature sensor.
pub trait TemperatureSensor {
    /// The temperature measured, in thousandths of a degree Celsius.
    fn read(&self) -> Result<i32, NeuroheatError>;
}

/// A DS18B20 temperature sensor on the 1-Wire bus.
#[derive(Debug)]
pub struct DS18B20 {
    /// The sensor's 1-Wire identifier.
    pub id: String,
    /// The file through which the sensor reports.
    pub file_path: String,
}

impl DS18B20 {
    /// The sensor with identifier `id`.
    pub fn new(id: String) -> (r: Self)
        ensures
            r.id@ == id@,
            r.file_path@ == "/sys/devices/w1_bus_master1/"@ + "/"@ + id@ + "/w1_slave"@,
    {
        let file_path = String::from_str(W1_PATH_PREFIX).concat("/").concat(id.as_str()).concat(
            "/w1_slave",
        );
        DS18B20 { id, file_path }
    }
}

/// The index of the first newline of `b` at or after `start`, or the length of
/// `b` where there is none.
pub open spec fn line_end(b: Seq<u8>, start: int) -> int
    decreases b.len() - start,
{
    if start < 0 || start >= b.len() {
        b.len() as int
    } else if b[start] == 10 {
        start
    } else {
        line_end(b, start + 1)
    }
}

/// The line of `b` that starts at `start`, without its line ending: the
/// newline, and a carriage return before it.
pub open spec fn line_at(b: Seq<u8>, start: int) -> Seq<u8> {
    let e = line_end(b, start);
    if e < b.len() && e > start && b[e - 1] == 13 {
        b.subrange(start, e - 1)
    } else {
        b.subrange(start, e)
    }
}

/// Whether `line` ends with the sensor's mark of a valid checksum, `YES`.
pub open spec fn crc_valid(line: Seq<u8>) -> bool {
    line.len() >= 3 && line.subrange(line.len() - 3, line.len() as int) == seq![89u8, 69u8, 83u8]
}

/// The first index at or after `i` where `line` holds the marker `t=`.
pub open spec fn find_marker(line: Seq<u8>, i: int) -> Option<int>
    decreases line.len() - i,
{
    if i < 0 || i + 1 >= line.len() {
        None
    } else if line[i] == 116 && line[i + 1] == 61 {
        Some(i)
    } else {
        find_marker(line, i + 1)
    }
}

pub open spec fn is_digit(c: u8) -> bool {
    48 <= c <= 57
}

pub open spec fn all_digits(s: Seq<u8>) -> bool {
    forall|i: int| 0 <= i < s.len() ==> is_digit(#[trigger] s[i])
}

/// The number written in decimal by the digits `s`.
pub open spec fn digits_value(s: Seq<u8>) -> int
    decreases s.len(),
{
    if s.len() == 0 {
        0
    } else {
        digits_value(s.drop_last()) * 10 + (s.last() - 48)
    }
}

/// The integer written by `s`: an optional sign `+` or `-`, then one or more
/// decimal digits, and nothing else.
pub open spec fn parse_int(s: Seq<u8>) -> Option<int> {
    if s.len() > 0 && (s[0] == 45 || s[0] == 43) {
        let d = s.drop_first();
        if d.len() > 0 && all_digits(d) {
            Some(
                if s[0] == 45 {
                    -digits_value(d)
                } else {
                    digits_value(d)
                },
            )
        } else {
            None
        }
    } else if s.len() > 0 && all_digits(s) {
        Some(digits_value(s))
    } else {
        None
    }
}

/// The temperature, in thousandths of a degree, in a sensor's two-line report
/// `b`: the first line must end with the checksum mark; the second holds the
/// value after its first `t=`, which must be an integer from 0 to 50000.
pub open spec fn report_temperature(b: Seq<u8>) -> Option<i32> {
    let e1 = line_end(b, 0);
    if b.len() == 0 || !crc_valid(line_at(b, 0)) || e1 + 1 >= b.len() {
        None
    } else {
        let l2 = line_at(b, e1 + 1);
        match find_marker(l2, 0) {
            None => None,
            Some(p) => match parse_int(l2.subrange(p + 2, l2.len() as int)) {
                Some(m) => if 0 <= m <= MAX_MILLIDEGREES {
                    Some(m as i32)
                } else {
                    None
                },
                None => None,
            },
        }
    }
}

proof fn lemma_digits_value_nonneg(s: Seq<u8>)
    requires
        all_digits(s),
    ensures
        digits_value(s) >= 0,
    decreases s.len(),
{
    if s.len() > 0 {
        lemma_digits_value_nonneg(s.drop_last());
        assert(is_digit(s[s.len() - 1]));
    }
}

proof fn lemma_digits_value_grows(s: Seq<u8>, i: int)
    requires
        0 <= i <= s.len(),
        all_digits(s),
    ensures
        digits_value(s.take(i)) <= digits_value(s),
    decreases s.len() - i,
{
    if i < s.len() {
        lemma_digits_value_grows(s, i + 1);
        assert(s.take(i + 1).drop_last() =~= s.take(i));
        assert(is_digit(s[i]));
        lemma_digits_value_nonneg(s.take(i));
    } else {
        assert(s.take(i) =~= s);
    }
}

fn sensor_error(message: &str) -> (r: NeuroheatError)
    ensures
        r matches NeuroheatError::SensorError(m) && m@ == message@,
{
    NeuroheatError::SensorError(String::from_str(message))
}

/// The index of the first newline in `b` at or after `start`, or its length.
fn find_line_end(b: &[u8], start: usize) -> (r: usize)
    requires
        start <= b@.len(),
    ensures
        r == line_end(b@, start as int),
        start <= r <= b@.len(),
{
    let mut i = start;
    while i < b.len()
        invariant
            start <= i <= b@.len(),
            line_end(b@, start as int) == line_end(b@, i as int),
        decreases b.len() - i,
    {
        if b[i] == 10 {
            return i;
        }
        i = i + 1;
    }
    i
}

/// The end of the content of the line of `b` from `start` to `end`, before a
/// carriage return that precedes the newline at `end`.
fn content_end(b: &[u8], start: usize, end: usize) -> (r: usize)
    requires
        start <= end <= b@.len(),
        end == line_end(b@, start as int),
    ensures
        start <= r <= end,
        line_at(b@, start as int) == b@.subrange(start as int, r as int),
{
    if end < b.len() && end > start && b[end - 1] == 13 {
        end - 1
    } else {
        end
    }
}

/// The temperature in the value field `b[start..end]` of a report.
fn parse_value(b: &[u8], start: usize, end: usize) -> (r: Option<i32>)
    requires
        start <= end <= b@.len(),
    ensures
        r == (match parse_int(b@.subrange(start as int, end as int)) {
            Some(m) => if 0 <= m <= MAX_MILLIDEGREES {
                Some(m as i32)
            } else {
                None
            },
            None => None,
        }),
{
    let ghost s = b@.subrange(start as int, end as int);
    if start == end {
        return None;
    }
    let negative = b[start] == 45;
    let signed = negative || b[start] == 43;
    let first = if signed {
        start + 1
    } else {
        start
    };
    let ghost d = b@.subrange(first as int, end as int);
    assert(s[0] == b@[start as int]);
    assert(signed ==> d =~= s.drop_first());
    assert(!signed ==> d =~= s);
    if first == end {
        return None;
    }
    let mut value: u64 = 0;
    let mut i = first;
    while i < end
        invariant
            first <= i <= end <= b@.len(),
            d == b@.subrange(first as int, end as int),
            s == b@.subrange(start as int, end as int),
            s.len() > 0,
            signed ==> d == s.drop_first(),
            !signed ==> d == s,
            negative <==> s[0] == 45,
            signed <==> (s[0] == 45 || s[0] == 43),
            forall|k: int| 0 <= k < i - first ==> is_digit(#[trigger] d[k]),
            value == digits_value(d.take(i - first)),
            value <= MAX_MILLIDEGREES,
        decreases end - i,
    {
        let c = b[i];
        assert(c == d[i - first]);
        if c < 48 || c > 57 {
            assert(!is_digit(d[i - first]));
            assert(!all_digits(d));
            return None;
        }
        assert(d.take(i - first + 1).drop_last() =~= d.take(i - first));
        value = value * 10 + (c - 48) as u64;
        if value > 50000 {
            proof {
                let j = i - first + 1;
                if all_digits(d) {
                    lemma_digits_value_grows(d, j);
                    assert(digits_value(d) > MAX_MILLIDEGREES);
                }
            }
            return None;
        }
        i = i + 1;
    }
    assert(d.take(i - first) =~= d);
    assert(all_digits(d));
    if negative && value != 0 {
        None
    } else {
        Some(value as i32)
    }
}

/// The first index in `b[start..end]` where the marker `t=` begins.
fn find_marker_in(b: &[u8], start: usize, end: usize) -> (r: Option<usize>)
    requires
        start <= end <= b@.len(),
    ensures
        r matches Some(i) ==> start <= i && i + 2 <= end && find_marker(
            b@.subrange(start as int, end as int),
            0,
        ) == Some(i - start),
        r is None ==> find_marker(b@.subrange(start as int, end as int), 0) is None,
{
    let ghost l = b@.subrange(start as int, end as int);
    let mut i = start;
    while end - i > 1
        invariant
            start <= i <= end <= b@.len(),
            l == b@.subrange(start as int, end as int),
            find_marker(l, 0) == find_marker(l, i - start),
        decreases end - i,
    {
        assert(l[i - start] == b@[i as int] && l[i - start + 1] == b@[i + 1]);
        if b[i] == 116 && b[i + 1] == 61 {
            return Some(i);
        }
        i = i + 1;
    }
    None
}

/// The temperature, in thousandths of a degree Celsius, in the report `b`
/// of a DS18B20 sensor.
pub fn parse_report(b: &[u8]) -> (r: Result<i32, NeuroheatError>)
    ensures
        r matches Ok(m) ==> report_temperature(b@) == Some(m),
        r is Err ==> report_temperature(b@) is None,
        r matches Err(e) ==> e is SensorError,
{
    if b.len() == 0 {
        return Err(sensor_error("No first line"));
    }
    let e1 = find_line_end(b, 0);
    let c1 = content_end(b, 0, e1);
    let ghost l1 = line_at(b@, 0);
    if c1 < 3 || b[c1 - 3] != 89 || b[c1 - 2] != 69 || b[c1 - 1] != 83 {
        assert(!crc_valid(l1)) by {
            if l1.len() >= 3 {
                assert(l1.subrange(l1.len() - 3, l1.len() as int)[0] == b[c1 - 3]);
                assert(l1.subrange(l1.len() - 3, l1.len() as int)[1] == b[c1 - 2]);
                assert(l1.subrange(l1.len() - 3, l1.len() as int)[2] == b[c1 - 1]);
            }
        }
        return Err(sensor_error("CRC check failed"));
    }
    assert(l1.subrange(l1.len() - 3, l1.len() as int) =~= seq![89u8, 69u8, 83u8]);
    if b.len() - e1 <= 1 {
        return Err(sensor_error("No second line"));
    }
    let s2 = e1 + 1;
    let e2 = find_line_end(b, s2);
    let c2 = content_end(b, s2, e2);
    let ghost l2 = line_at(b@, s2 as int);
    let i = match find_marker_in(b, s2, c2) {
        None => {
            return Err(sensor_error("Temperature data not found"));
        },
        Some(i) => i,
    };
    let p = i - s2;
    assert(find_marker(l2, 0) == Some(p as int));
    assert(l2.subrange(p + 2, l2.len() as int) =~= b@.subrange(i + 2, c2 as int));
    match parse_value(b, i + 2, c2) {
        Some(m) => Ok(m),
        None => Err(sensor_error("Temperature out of range or unreadable")),
    }
}

} // verus!
