use vstd::prelude::*;
use vstd::string::StringExecFns;

verus! {

/// Failures reported by the controller's components.
#[derive(Debug, Clone, PartialEq, Eq)]
pub enum NeuroheatError {
    ConfigurationError(String),
    ControllerError(String),
    DatabaseError(String),
    RelayError(String),
    SensorError(String),
}

/// The heading under which an error of each kind is reported.
pub open spec fn heading_of(e: NeuroheatError) -> Seq<char> {
    match e {
        NeuroheatError::ConfigurationError(_) => "Configuration error: "@,
        NeuroheatError::ControllerError(_) => "Database error: "@,
        NeuroheatError::DatabaseError(_) => "Database error: "@,
        NeuroheatError::RelayError(_) => "Relay error: "@,
        NeuroheatError::SensorError(_) => "Sensor error: "@,
    }
}

/// The message carried by an error.
pub open spec fn message_of(e: NeuroheatError) -> Seq<char> {
    match e {
        NeuroheatError::ConfigurationError(m) => m@,
        NeuroheatError::ControllerError(m) => m@,
        NeuroheatError::DatabaseError(m) => m@,
        NeuroheatError::RelayError(m) => m@,
        NeuroheatError::SensorError(m) => m@,
    }
}

impl NeuroheatError {
    /// The text under which the error is reported: its heading, then its message.
    pub fn describe(&self) -> (r: String)
        ensures
            r@ == heading_of(*self) + message_of(*self),
    {
        let (heading, message) = match self {
            NeuroheatError::ConfigurationError(m) => ("Configuration error: ", m),
            NeuroheatError::ControllerError(m) => ("Database error: ", m),
            NeuroheatError::DatabaseError(m) => ("Database error: ", m),
            NeuroheatError::RelayError(m) => ("Relay error: ", m),
            NeuroheatError::SensorError(m) => ("Sensor error: ", m),
        };
        String::from_str(heading).concat(message.as_str())
    }
}

} // verus!
