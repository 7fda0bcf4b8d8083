use vstd::prelude::*;
use vstd::string::StringExecFns;

verus! {

/// The program's settings.
#[derive(Debug, Clone)]
pub struct Args {
    /// The name of the log level: debug, info, warn or error.
    pub log_level: String,
    /// The path of the database file.
    pub database_path: String,
    /// The port of the read-only HTTP interface.
    pub api_port: u16,
    /// The path of the heating configuration file.
    pub heating_config_path: String,
}

/// How much the program logs.
#[derive(Debug, Clone, Copy, PartialEq, Eq)]
pub enum LogLevel {
    Debug,
    Info,
    Warn,
    Error,
}

/// What `str::to_lowercase` makes of a text.
pub uninterp spec fn lowercase_of(s: Seq<char>) -> Seq<char>;

/// Relies on str::to_lowercase: the text in lower case, which depends on the
/// text alone.
#[verifier::external_body]
fn lowercase(s: &str) -> (r: String)
    ensures
        r@ == lowercase_of(s@),
{
    s.to_lowercase()
}

/// The level named `name`; any other name means `Info`.
pub open spec fn level_named(name: Seq<char>) -> LogLevel {
    if name == "debug"@ {
        LogLevel::Debug
    } else if name == "info"@ {
        LogLevel::Info
    } else if name == "warn"@ {
        LogLevel::Warn
    } else if name == "error"@ {
        LogLevel::Error
    } else {
        LogLevel::Info
    }
}

/// The level named by the lower-case `name`.
pub fn log_level_from_name(name: &str) -> (r: LogLevel)
    ensures
        r == level_named(name@),
{
    let n = String::from_str(name);
    if n == String::from_str("debug") {
        LogLevel::Debug
    } else if n == String::from_str("info") {
        LogLevel::Info
    } else if n == String::from_str("warn") {
        LogLevel::Warn
    } else if n == String::from_str("error") {
        LogLevel::Error
    } else {
        LogLevel::Info
    }
}

/// The level named by `args.log_level`, in any case.
pub fn parse_log_level(args: &Args) -> (r: LogLevel)
    ensures
        r == level_named(lowercase_of(args.log_level@)),
{
    let name = lowercase(args.log_level.as_str());
    log_level_from_name(name.as_str())
}

} // verus!
