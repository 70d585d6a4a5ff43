//! Severity levels for console reporting and their colour coding.
//!
//! The console sink itself — escape sequences around a formatted line, the
//! global logger registration — lives with the runtime; the level-to-colour
//! and level-to-tag rules are plain functions stated here.
use vstd::prelude::*;

verus! {

/// A report's severity, most severe first.
#[derive(Clone, Copy, PartialEq, Eq, Structural, Debug)]
pub enum LogLevel {
    /// A failure the run cannot ignore.
    Error,
    /// A suspicious condition.
    Warn,
    /// Ordinary progress reporting.
    Info,
    /// Detail for development.
    Debug,
    /// The finest detail.
    Trace,
}

/// The ANSI colour code a report of level `lv` is wrapped in.
pub fn level_to_color_code(lv: LogLevel) -> (r: u8)
    ensures
        lv is Error ==> r == 91,
        lv is Warn ==> r == 93,
        lv is Info ==> r == 94,
        lv is Debug ==> r == 95,
        lv is Trace ==> r == 96,
{
    match lv {
        LogLevel::Error => 91,
        LogLevel::Warn => 93,
        LogLevel::Info => 94,
        LogLevel::Debug => 95,
        LogLevel::Trace => 96,
    }
}

/// The one-letter tag a report of level `lv` carries.
pub fn level_to_str(lv: LogLevel) -> (r: &'static str)
    ensures
        lv is Error ==> r@ == "E"@,
        lv is Warn ==> r@ == "W"@,
        lv is Info ==> r@ == "I"@,
        lv is Debug ==> r@ == "D"@,
        lv is Trace ==> r@ == "T"@,
{
    match lv {
        LogLevel::Error => "E",
        LogLevel::Warn => "W",
        LogLevel::Info => "I",
        LogLevel::Debug => "D",
        LogLevel::Trace => "T",
    }
}

} // verus!
