//! Timeout management

use std::time::Duration;

use vstd::prelude::*;

verus! {

/// The duration of a whole number of seconds.
pub uninterp spec fn spec_duration_from_secs(secs: u64) -> Duration;

/// `Duration::from_secs` (std): the duration of `secs` whole seconds, named
/// by `spec_duration_from_secs`.
#[verifier::external_body]
pub(crate) fn duration_from_secs(secs: u64) -> (d: Duration)
    ensures
        d == spec_duration_from_secs(secs),
{
    Duration::from_secs(secs)
}

/// Timeout manager for session timeouts
#[derive(Debug)]
pub struct TimeoutManager {
    /// Timeout for individual commands
    pub command_timeout: Duration,
    /// Timeout for idle connections
    pub idle_timeout: Duration,
}

impl TimeoutManager {
    /// Create a new timeout manager
    pub fn new(command_timeout_secs: u64, idle_timeout_secs: u64) -> (r: Self)
        ensures
            r.command_timeout == spec_duration_from_secs(command_timeout_secs),
            r.idle_timeout == spec_duration_from_secs(idle_timeout_secs),
    {
        Self {
            command_timeout: duration_from_secs(command_timeout_secs),
            idle_timeout: duration_from_secs(idle_timeout_secs),
        }
    }
}

impl Clone for TimeoutManager {
    fn clone(&self) -> (r: Self)
        ensures
            r == *self,
    {
        Self { command_timeout: self.command_timeout, idle_timeout: self.idle_timeout }
    }
}

impl Default for TimeoutManager {
    /// 30 seconds per command, 300 seconds idle.
    fn default() -> (r: Self)
        ensures
            r.command_timeout == spec_duration_from_secs(30),
            r.idle_timeout == spec_duration_from_secs(300),
    {
        Self::new(30, 300)
    }
}

} // verus!
