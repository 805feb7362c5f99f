//! Severity levels and the process-wide minimum-severity gate.
use std::sync::atomic::{AtomicU8, Ordering};
use vstd::prelude::*;

verus! {

/// Severity of a log call site, ordered `DEBUG < INFO < WARN < ERROR`.
#[derive(Clone, Copy, Debug, PartialEq, Eq, Structural)]
pub enum LogLevel {
    DEBUG,
    INFO,
    WARN,
    ERROR,
}

impl LogLevel {
    /// Position of the level in the total order.
    pub open spec fn rank(self) -> nat {
        match self {
            LogLevel::DEBUG => 0,
            LogLevel::INFO => 1,
            LogLevel::WARN => 2,
            LogLevel::ERROR => 3,
        }
    }

    /// The level's one-byte code, equal to its rank.
    pub fn code(self) -> (r: u8)
        ensures
            r as nat == self.rank(),
    {
        match self {
            LogLevel::DEBUG => 0,
            LogLevel::INFO => 1,
            LogLevel::WARN => 2,
            LogLevel::ERROR => 3,
        }
    }

    /// The level whose code is `c`, if any.
    pub fn from_code(c: u8) -> (r: Option<LogLevel>)
        ensures
            c <= 3 <==> r is Some,
            r matches Some(l) ==> l.rank() == c as nat,
    {
        match c {
            0 => Some(LogLevel::DEBUG),
            1 => Some(LogLevel::INFO),
            2 => Some(LogLevel::WARN),
            3 => Some(LogLevel::ERROR),
            _ => None,
        }
    }

    /// `self` is at least as severe as `other`.
    pub fn at_least(self, other: LogLevel) -> (r: bool)
        ensures
            r == (self.rank() >= other.rank()),
    {
        self.code() >= other.code()
    }
}

/// A record of a call site at `site` passes a threshold set to `gate`.
pub open spec fn admits_spec(site: LogLevel, gate: LogLevel) -> bool {
    site.rank() >= gate.rank()
}

/// Whether a record of a call site at `site` passes a threshold set to `gate`: it
/// is encoded exactly when its level is at least the threshold's.
pub fn admits(site: LogLevel, gate: LogLevel) -> (r: bool)
    ensures
        r == admits_spec(site, gate),
{
    site.at_least(gate)
}

/// The minimum severity that a record needs in order to be encoded.
///
/// It is read and written with relaxed atomics by any thread at any time, so
/// what a read returns depends on the other threads: no read is promised the
/// level of an earlier write.
pub struct LogLevelGate {
    code: AtomicU8,
}

impl LogLevelGate {
    /// A threshold that lets every level through (`DEBUG`).
    pub fn new() -> (r: LogLevelGate) {
        LogLevelGate { code: AtomicU8::new(LogLevel::DEBUG.code()) }
    }
}

/// Sets the minimum severity; records already encoded are not affected.
pub fn set_log_level(gate: &LogLevelGate, level: LogLevel) {
    gate.code.store(level.code(), Ordering::Relaxed);
}

/// The current minimum severity. The code is private and only `set_log_level`
/// writes it, so what is read back always names a level; the atomic does not
/// carry that fact into the proof, so a code past the last level would read
/// as the most severe one.
pub fn get_log_level(gate: &LogLevelGate) -> (r: LogLevel) {
    match LogLevel::from_code(gate.code.load(Ordering::Relaxed)) {
        Some(l) => l,
        None => LogLevel::ERROR,
    }
}

} // verus!
