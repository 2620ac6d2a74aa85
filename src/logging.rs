//! Log levels named on the command line.
use vstd::prelude::*;

verus! {

/// What `str::to_lowercase` makes of a string.
pub uninterp spec fn lower_of(s: Seq<char>) -> Seq<char>;

/// Relies on `str::to_lowercase`: the result depends on the characters alone.
#[verifier::external_body]
fn lowercase(s: &str) -> (r: String)
    ensures
        r@ == lower_of(s@),
{
    s.to_lowercase()
}

/// The level of the log messages to keep.
#[derive(Clone, Copy, PartialEq, Eq, Debug, Structural)]
pub enum LogLevel {
    Info,
    Error,
    Debug,
    Warn,
}

/// The level that a lower-case name denotes.
pub open spec fn level_named(s: Seq<char>) -> Option<LogLevel> {
    if s == "info"@ {
        Some(LogLevel::Info)
    } else if s == "error"@ {
        Some(LogLevel::Error)
    } else if s == "debug"@ {
        Some(LogLevel::Debug)
    } else if s == "warn"@ {
        Some(LogLevel::Warn)
    } else {
        None
    }
}

pub open spec fn unknown_level_message() -> Seq<char> {
    "failed to convert value into Level"@
}

/// The level named by `level`, which is already in lower case.
pub fn level_from_lowercase(level: &str) -> (r: Result<LogLevel, &'static str>)
    ensures
        match r {
            Ok(l) => level_named(level@) == Some(l),
            Err(e) => level_named(level@) is None && e@ == unknown_level_message(),
        },
{
    let s = String::from_str(level);
    if s == String::from_str("info") {
        Ok(LogLevel::Info)
    } else if s == String::from_str("error") {
        Ok(LogLevel::Error)
    } else if s == String::from_str("debug") {
        Ok(LogLevel::Debug)
    } else if s == String::from_str("warn") {
        Ok(LogLevel::Warn)
    } else {
        Err("failed to convert value into Level")
    }
}

/// The level named by `level`, in any case (`info`, `INFO`, `error`, `debug`, `warn`).
pub fn convert_to_level(level: &str) -> (r: Result<LogLevel, &'static str>)
    ensures
        match r {
            Ok(l) => level_named(lower_of(level@)) == Some(l),
            Err(e) => level_named(lower_of(level@)) is None && e@ == unknown_level_message(),
        },
{
    let lower = lowercase(level);
    level_from_lowercase(lower.as_str())
}

} // verus!
