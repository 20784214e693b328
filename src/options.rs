//! Run-time options of the processor.
use vstd::prelude::*;

verus! {

/// How much the processor logs.
#[derive(PartialEq, Eq, Structural, Clone, Copy, Debug)]
pub enum LogLevel {
    Info,
    Debug,
    Trace,
}

/// Broker connection and subscription settings.
pub struct Options {
    /// Verbosity level (-v = debug, -vv = trace)
    pub verbose: u8,
    /// Broker hostname or IP address
    pub broker: String,
    /// Broker port number
    pub port: u16,
    /// Authentication username
    pub username: String,
    /// Authentication password
    pub password: String,
    /// Topic to subscribe for events
    pub topic: String,
}

impl Options {
    /// The log level that the verbosity count selects: none is info, one is debug, more is trace.
    pub fn log_level(&self) -> (r: LogLevel)
        ensures
            self.verbose == 0 ==> r == LogLevel::Info,
            self.verbose == 1 ==> r == LogLevel::Debug,
            self.verbose >= 2 ==> r == LogLevel::Trace,
    {
        match self.verbose {
            0 => LogLevel::Info,
            1 => LogLevel::Debug,
            _ => LogLevel::Trace,
        }
    }
}

} // verus!
