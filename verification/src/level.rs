//! Severity levels of log records.
use vstd::prelude::*;
use crate::itoa2::{append_decimal_str, decimal_chars};

verus! {

/// Wire code of the trace level.
pub const TRACE: u8 = 10;
/// Wire code of the debug level.
pub const DEBUG: u8 = 20;
/// Wire code of the info level.
pub const INFO: u8 = 30;
/// Wire code of the warning level.
pub const WARN: u8 = 40;
/// Wire code of the error level.
pub const ERROR: u8 = 50;
/// Wire code of the panic level.
pub const PANIC: u8 = 60;

/// A record's severity; codes without a level are kept as `Invalid`.
#[derive(Debug, Clone, Copy, PartialEq, Eq, Structural)]
pub enum Level {
    Invalid(u8),
    Trace,
    Debug,
    Info,
    Warn,
    Error,
    Panic,
}

/// The level that the wire code `n` stands for.
pub open spec fn level_of(n: u8) -> Level {
    if n == 10 {
        Level::Trace
    } else if n == 20 {
        Level::Debug
    } else if n == 30 {
        Level::Info
    } else if n == 40 {
        Level::Warn
    } else if n == 50 {
        Level::Error
    } else if n == 60 {
        Level::Panic
    } else {
        Level::Invalid(n)
    }
}

/// The wire code of a level.
pub open spec fn level_code(l: Level) -> u8 {
    match l {
        Level::Invalid(n) => n,
        Level::Trace => 10,
        Level::Debug => 20,
        Level::Info => 30,
        Level::Warn => 40,
        Level::Error => 50,
        Level::Panic => 60,
    }
}

/// The text under which a level is shown.
pub open spec fn level_text(l: Level) -> Seq<char> {
    match l {
        Level::Invalid(n) => "invalid-level["@ + decimal_chars(n as nat) + "]"@,
        Level::Trace => "TRACE"@,
        Level::Debug => "DEBUG"@,
        Level::Info => " INFO"@,
        Level::Warn => " WARN"@,
        Level::Error => "ERROR"@,
        Level::Panic => "PANIC"@,
    }
}

impl Level {
    /// The level that the wire code `n` stands for.
    pub fn from_code(n: u8) -> (l: Level)
        ensures
            l == level_of(n),
    {
        if n == TRACE {
            Level::Trace
        } else if n == DEBUG {
            Level::Debug
        } else if n == INFO {
            Level::Info
        } else if n == WARN {
            Level::Warn
        } else if n == ERROR {
            Level::Error
        } else if n == PANIC {
            Level::Panic
        } else {
            Level::Invalid(n)
        }
    }

    /// The wire code of the level.
    pub fn code(&self) -> (n: u8)
        ensures
            n == level_code(*self),
    {
        match self {
            Level::Invalid(n) => *n,
            Level::Trace => TRACE,
            Level::Debug => DEBUG,
            Level::Info => INFO,
            Level::Warn => WARN,
            Level::Error => ERROR,
            Level::Panic => PANIC,
        }
    }

    /// The text under which the level is shown.
    pub fn to_text(&self) -> (s: String)
        ensures
            s@ == level_text(*self),
    {
        match self {
            Level::Invalid(n) => {
                let mut s = String::from_str("invalid-level[");
                append_decimal_str(&mut s, *n as u64);
                s.append("]");
                s
            },
            Level::Trace => String::from_str("TRACE"),
            Level::Debug => String::from_str("DEBUG"),
            Level::Info => String::from_str(" INFO"),
            Level::Warn => String::from_str(" WARN"),
            Level::Error => String::from_str("ERROR"),
            Level::Panic => String::from_str("PANIC"),
        }
    }
}

/// Reading a level back from its wire code gives the level, for every level whose
/// code is not taken by a named level.
pub proof fn law_level_code_roundtrip(l: Level)
    requires
        l matches Level::Invalid(n) ==> n != 10 && n != 20 && n != 30 && n != 40 && n != 50 && n != 60,
    ensures
        level_of(level_code(l)) == l,
{
}

} // verus!
