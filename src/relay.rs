use vstd::prelude::*;
use vstd::string::StringExecFns;

use crate::error::NeuroheatError;

verus! {

/// An on/off relay: a room's valve or the stove.
pub trait RelayController {
    /// Whether the relay is on.
    fn read_state(&self) -> Result<bool, NeuroheatError>;

    /// Switches the relay on or off.
    fn set_state(&self, state: bool) -> Result<(), NeuroheatError>;

    /// Prepares the relay for use; calling it again does no harm.
    fn setup(&self) -> Result<(), NeuroheatError>;
}

/// A relay driven through a GPIO pin.
#[derive(Debug, Clone, Copy, PartialEq, Eq)]
pub struct GPIOController {
    /// The GPIO pin of the relay.
    pub pin: u8,
}

impl GPIOController {
    /// The relay on GPIO pin `pin`.
    pub fn new(pin: u8) -> (r: Self)
        ensures
            r.pin == pin,
    {
        GPIOController { pin }
    }
}

/// Whether `c` has the Unicode White_Space property.
pub open spec fn is_white_space(c: char) -> bool {
    let u = c as u32;
    (9 <= u <= 13) || u == 32 || u == 0x85 || u == 0xa0 || u == 0x1680 || (0x2000 <= u <= 0x200a)
        || u == 0x2028 || u == 0x2029 || u == 0x202f || u == 0x205f || u == 0x3000
}

/// `s` without its leading white space.
pub open spec fn trim_start_of(s: Seq<char>) -> Seq<char>
    decreases s.len(),
{
    if s.len() > 0 && is_white_space(s[0]) {
        trim_start_of(s.drop_first())
    } else {
        s
    }
}

/// `s` without its trailing white space.
pub open spec fn trim_end_of(s: Seq<char>) -> Seq<char>
    decreases s.len(),
{
    if s.len() > 0 && is_white_space(s.last()) {
        trim_end_of(s.drop_last())
    } else {
        s
    }
}

/// `s` without its leading and trailing white space.
pub open spec fn trimmed(s: Seq<char>) -> Seq<char> {
    trim_end_of(trim_start_of(s))
}

/// Relies on str::trim: the text without the leading and trailing characters
/// that have the Unicode White_Space property.
#[verifier::external_body]
fn trim_text(s: &str) -> (r: &str)
    ensures
        r@ == trimmed(s@),
{
    s.trim()
}

/// The state written as `t` in a relay's value file: `0` is off, `1` is on.
pub open spec fn relay_value_of(t: Seq<char>) -> Option<bool> {
    if t == "0"@ {
        Some(false)
    } else if t == "1"@ {
        Some(true)
    } else {
        None
    }
}

/// The state written as the trimmed text `t` in a relay's value file.
pub fn relay_state_from_trimmed(t: &str) -> (r: Result<bool, NeuroheatError>)
    ensures
        r matches Ok(b) ==> relay_value_of(t@) == Some(b),
        r is Err ==> relay_value_of(t@) is None,
        r matches Err(e) ==> e is RelayError,
{
    let t = String::from_str(t);
    if t == String::from_str("0") {
        Ok(false)
    } else if t == String::from_str("1") {
        Ok(true)
    } else {
        Err(NeuroheatError::RelayError(String::from_str("Invalid state value")))
    }
}

/// The state written in a relay's value file, whose content is `text`.
pub fn parse_relay_state(text: &str) -> (r: Result<bool, NeuroheatError>)
    ensures
        r matches Ok(b) ==> relay_value_of(trimmed(text@)) == Some(b),
        r is Err ==> relay_value_of(trimmed(text@)) is None,
        r matches Err(e) ==> e is RelayError,
{
    relay_state_from_trimmed(trim_text(text))
}

/// Whether a pin whose direction file holds `current` is already set as an
/// output.
pub fn is_output_direction(current: &str) -> (r: bool)
    ensures
        r == (trimmed(current@) == "out"@),
{
    String::from_str(trim_text(current)) == String::from_str("out")
}

/// Prepares the stove's relay, then each valve's, stopping at the first failure.
pub fn setup_all_relays<R: RelayController>(stove: Option<&R>, valves: &Vec<R>) -> (r: Result<
    (),
    NeuroheatError,
>) {
    if let Some(s) = stove {
        s.setup()?;
    }
    let mut i: usize = 0;
    while i < valves.len()
        invariant
            i <= valves@.len(),
        decreases valves.len() - i,
    {
        valves[i].setup()?;
        i = i + 1;
    }
    Ok(())
}

} // verus!
