use vstd::prelude::*;

verus! {

/// Why a fetch from the remote device failed. Such failures are recorded by
/// the cache that owns the poller and never stop the polling.
#[derive(Debug, Clone, Copy, PartialEq, Eq, Structural)]
pub enum FetchError {
    Network,
    Auth,
    Parse,
}

/// Mathematical state of a poll scheduler.
///
/// `generation` names the current run: every start opens a new run, and a
/// tick that was launched under an earlier run is never accepted again.
pub struct PollView {
    pub running: bool,
    pub interval_ms: u64,
    pub generation: u64,
}

impl PollView {
    /// The run number that follows this one (it wraps after `u64::MAX`).
    pub open spec fn next_generation(self) -> u64 {
        if self.generation == u64::MAX {
            0
        } else {
            (self.generation + 1) as u64
        }
    }

    /// Starting always opens a fresh run: a running task is replaced atomically.
    pub open spec fn started(self, interval_ms: u64) -> PollView {
        PollView { running: true, interval_ms, generation: self.next_generation() }
    }

    pub open spec fn stopped(self) -> PollView {
        PollView { running: false, ..self }
    }

    /// Whether the result of a tick launched under `ticket` may still be merged.
    pub open spec fn accepts(self, ticket: u64) -> bool {
        self.running && ticket == self.generation
    }
}

/// The decisions of a repeating background task: `Idle -> Running` on start,
/// `Running -> Running` on every tick and on a restart, `Running -> Idle` on stop.
///
/// The executor that runs the ticks asks `start` for a ticket, hands the
/// ticket back with every result, and the owning cache merges a result only
/// while `is_current` holds for its ticket. A stopped scheduler accepts no
/// ticket, so nothing is merged once `stop` has returned.
pub struct PollScheduler {
    running: bool,
    interval_ms: u64,
    generation: u64,
}

impl View for PollScheduler {
    type V = PollView;

    closed spec fn view(&self) -> PollView {
        PollView { running: self.running, interval_ms: self.interval_ms, generation: self.generation }
    }
}

impl PollScheduler {
    pub fn new(interval_ms: u64) -> (r: PollScheduler)
        ensures
            r@ == (PollView { running: false, interval_ms, generation: 0 }),
    {
        PollScheduler { running: false, interval_ms, generation: 0 }
    }

    /// Starts a run (or replaces the current one) and returns its ticket.
    pub fn start(&mut self, interval_ms: u64) -> (ticket: u64)
        ensures
            final(self)@ == old(self)@.started(interval_ms),
            ticket == final(self)@.generation,
            final(self)@.accepts(ticket),
            !final(self)@.accepts(old(self)@.generation),
    {
        let next: u64 = if self.generation == u64::MAX {
            0
        } else {
            self.generation + 1
        };
        self.running = true;
        self.interval_ms = interval_ms;
        self.generation = next;
        next
    }

    /// Stops the current run, if any; no ticket is accepted afterwards.
    pub fn stop(&mut self)
        ensures
            final(self)@ == old(self)@.stopped(),
            forall|t: u64| !final(self)@.accepts(t),
    {
        self.running = false;
    }

    pub fn is_current(&self, ticket: u64) -> (r: bool)
        ensures
            r == self@.accepts(ticket),
    {
        self.running && ticket == self.generation
    }

    pub fn is_running(&self) -> (r: bool)
        ensures
            r == self@.running,
    {
        self.running
    }

    pub fn interval_ms(&self) -> (r: u64)
        ensures
            r == self@.interval_ms,
    {
        self.interval_ms
    }

    pub fn generation(&self) -> (r: u64)
        ensures
            r == self@.generation,
    {
        self.generation
    }
}

} // verus!
