use vstd::prelude::*;

verus! {

/// Relies on chrono's `From<SystemTime> for DateTime<Utc>` and
/// `DateTime::timestamp`: the current time in whole seconds since the Unix
/// epoch, negative for a clock set before 1970. A `DateTime<Utc>` lies between
/// 262145 BCE and 262143 CE, so its timestamp is within 10^13 seconds of the
/// epoch; the conversion panics only for a clock beyond that range.
#[verifier::external_body]
pub(crate) fn utc_now() -> (r: i64)
    ensures
        -10_000_000_000_000 < r < 10_000_000_000_000,
{
    chrono::DateTime::<chrono::Utc>::from(std::time::SystemTime::now()).timestamp()
}

/// Relies on chrono's `From<SystemTime> for DateTime<Local>` and
/// `Timelike::hour`: the hour of the local time of day, documented to lie in 0
/// to 23. The conversion panics where the system's time-zone data cannot give
/// an offset for the current time, or for a clock beyond year 262143.
#[verifier::external_body]
pub(crate) fn local_hour() -> (r: u8)
    ensures
        r < 24,
{
    chrono::Timelike::hour(&chrono::DateTime::<chrono::Local>::from(std::time::SystemTime::now()))
        as u8
}

} // verus!
