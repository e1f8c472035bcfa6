use vstd::prelude::*;
use crate::logs::LogCache;
use crate::poller::PollView;
use crate::secret::SecretCache;
use crate::traffic::TrafficCache;

verus! {

/// Startup configuration of the caches.
pub struct CoreConfig {
    /// Most log entries retained.
    pub log_capacity: usize,
    /// Most samples retained per interface.
    pub traffic_window: usize,
    /// Default tick period of the pollers.
    pub poll_interval_ms: u64,
    /// Mismatches that start a lockout.
    pub lockout_threshold: u32,
    /// Length of a lockout, in the unit of the times given to `verify`.
    pub lockout_duration: u64,
}

impl CoreConfig {
    pub fn secret_cache(&self) -> (r: SecretCache)
        ensures
            r@.verifier is None,
            r@.failed_attempts == 0,
            r@.locked_until is None,
            r@.lockout_threshold == self.lockout_threshold,
            r@.lockout_duration == self.lockout_duration,
    {
        SecretCache::new(self.lockout_threshold, self.lockout_duration)
    }

    pub fn log_cache(&self) -> (r: LogCache)
        ensures
            r@.wf(),
            r@.entries.len() == 0,
            r@.capacity == self.log_capacity,
            r@.last_poll_error is None,
            r@.poll == (PollView { running: false, interval_ms: self.poll_interval_ms, generation: 0 }),
    {
        LogCache::new(self.log_capacity, self.poll_interval_ms)
    }

    pub fn traffic_cache(&self) -> (r: TrafficCache)
        ensures
            r@.wf(),
            r@.series.len() == 0,
            r@.window == self.traffic_window,
            r@.last_poll_error is None,
            r@.poll == (PollView { running: false, interval_ms: self.poll_interval_ms, generation: 0 }),
    {
        TrafficCache::new(self.traffic_window, self.poll_interval_ms)
    }
}

} // verus!
