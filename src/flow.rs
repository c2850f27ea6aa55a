use vstd::prelude::*;

verus! {

/// Units of work that the ingestion of one file keeps in flight at most.
pub const DEFAULT_CONCURRENCY: usize = 25;

/// A fault in how the store connection is configured.
#[derive(Debug, Clone, Copy, PartialEq, Eq, Structural)]
pub enum ConfigError {
    /// No connection string was given.
    MissingDsn,
    /// The concurrency limit is zero.
    ZeroConcurrency,
    /// The pool's minimum size is above its maximum.
    MinAboveMax,
    /// The pool holds fewer connections than units that may be in flight.
    PoolTooSmall,
}

/// The first fault of a pool of `min_conns` to `max_conns` connections serving
/// `limit` concurrent units of work, if any.
pub open spec fn pool_fault(min_conns: u32, max_conns: u32, limit: usize) -> Option<ConfigError> {
    if limit == 0 {
        Some(ConfigError::ZeroConcurrency)
    } else if min_conns > max_conns {
        Some(ConfigError::MinAboveMax)
    } else if (max_conns as int) < (limit as int) {
        Some(ConfigError::PoolTooSmall)
    } else {
        None
    }
}

/// Checks that a pool can serve `limit` concurrent units without exhaustion.
pub fn check_pool_config(min_conns: u32, max_conns: u32, limit: usize) -> (r: Result<(), ConfigError>)
    ensures
        r is Ok <==> pool_fault(min_conns, max_conns, limit) is None,
        r matches Err(e) ==> pool_fault(min_conns, max_conns, limit) == Some(e),
{
    if limit == 0 {
        Err(ConfigError::ZeroConcurrency)
    } else if min_conns > max_conns {
        Err(ConfigError::MinAboveMax)
    } else if (max_conns as u64) < (limit as u64) {
        Err(ConfigError::PoolTooSmall)
    } else {
        Ok(())
    }
}

/// What the ingestion driver is to do next.
#[derive(Debug, Clone, Copy, PartialEq, Eq, Structural)]
pub enum FlowAction {
    /// Read the next source record and dispatch its merge.
    Dispatch,
    /// Wait for one in-flight merge to complete.
    AwaitCompletion,
    /// Nothing is in flight and nothing more is to start: report the outcome.
    Finish,
}

/// Decisions of the ingestion of one file: at most `limit` merges are in flight,
/// no record is read while that many are, and after the first failure nothing
/// new starts and the merges in flight are drained before the file is reported.
pub struct Flow {
    limit: usize,
    in_flight: usize,
    completed: u64,
    failed: bool,
    source_done: bool,
}

impl Flow {
    /// The most merges that may be in flight.
    pub closed spec fn limit_spec(&self) -> nat {
        self.limit as nat
    }

    /// Merges dispatched and not yet completed.
    pub closed spec fn in_flight_spec(&self) -> nat {
        self.in_flight as nat
    }

    /// Merges completed so far.
    pub closed spec fn completed_spec(&self) -> nat {
        self.completed as nat
    }

    /// Whether a record or a merge has failed.
    pub closed spec fn failed_spec(&self) -> bool {
        self.failed
    }

    /// Whether the source has no further record.
    pub closed spec fn source_done_spec(&self) -> bool {
        self.source_done
    }

    /// Never more in flight than the limit, and the limit is positive.
    pub closed spec fn wf(&self) -> bool {
        0 < self.limit && self.in_flight <= self.limit
    }

    /// The action due in the state `f`.
    pub open spec fn action_spec(f: &Flow) -> FlowAction {
        if !f.failed_spec() && !f.source_done_spec() && f.in_flight_spec() < f.limit_spec() {
            FlowAction::Dispatch
        } else if f.in_flight_spec() > 0 {
            FlowAction::AwaitCompletion
        } else {
            FlowAction::Finish
        }
    }

    /// A fresh file with nothing in flight.
    pub fn new(limit: usize) -> (r: Flow)
        requires
            limit > 0,
        ensures
            r.wf(),
            r.limit_spec() == limit,
            r.in_flight_spec() == 0,
            r.completed_spec() == 0,
            !r.failed_spec(),
            !r.source_done_spec(),
    {
        Flow { limit, in_flight: 0, completed: 0, failed: false, source_done: false }
    }

    /// The action due now.
    pub fn next_action(&self) -> (r: FlowAction)
        ensures
            r == Flow::action_spec(self),
    {
        if !self.failed && !self.source_done && self.in_flight < self.limit {
            FlowAction::Dispatch
        } else if self.in_flight > 0 {
            FlowAction::AwaitCompletion
        } else {
            FlowAction::Finish
        }
    }

    /// A record was read and its merge dispatched.
    pub fn on_dispatched(&mut self)
        requires
            old(self).wf(),
            Flow::action_spec(old(self)) == FlowAction::Dispatch,
        ensures
            final(self).wf(),
            final(self).in_flight_spec() == old(self).in_flight_spec() + 1,
            final(self).limit_spec() == old(self).limit_spec(),
            final(self).completed_spec() == old(self).completed_spec(),
            final(self).failed_spec() == old(self).failed_spec(),
            final(self).source_done_spec() == old(self).source_done_spec(),
    {
        self.in_flight = self.in_flight + 1;
    }

    /// The source had no further record.
    pub fn on_source_end(&mut self)
        requires
            old(self).wf(),
        ensures
            final(self).wf(),
            final(self).source_done_spec(),
            final(self).in_flight_spec() == old(self).in_flight_spec(),
            final(self).limit_spec() == old(self).limit_spec(),
            final(self).completed_spec() == old(self).completed_spec(),
            final(self).failed_spec() == old(self).failed_spec(),
    {
        self.source_done = true;
    }

    /// A record could not be read or turned into an event: the file fails.
    pub fn on_record_failed(&mut self)
        requires
            old(self).wf(),
        ensures
            final(self).wf(),
            final(self).failed_spec(),
            final(self).in_flight_spec() == old(self).in_flight_spec(),
            final(self).limit_spec() == old(self).limit_spec(),
            final(self).completed_spec() == old(self).completed_spec(),
            final(self).source_done_spec() == old(self).source_done_spec(),
    {
        self.failed = true;
    }

    /// One in-flight merge completed, successfully when `ok`.
    pub fn on_completed(&mut self, ok: bool)
        requires
            old(self).wf(),
            old(self).in_flight_spec() > 0,
            old(self).completed_spec() < u64::MAX,
        ensures
            final(self).wf(),
            final(self).in_flight_spec() == old(self).in_flight_spec() - 1,
            final(self).completed_spec() == old(self).completed_spec() + 1,
            final(self).failed_spec() == (old(self).failed_spec() || !ok),
            final(self).limit_spec() == old(self).limit_spec(),
            final(self).source_done_spec() == old(self).source_done_spec(),
    {
        self.in_flight = self.in_flight - 1;
        self.completed = self.completed + 1;
        if !ok {
            self.failed = true;
        }
    }

    /// Merges in flight now.
    pub fn in_flight(&self) -> (r: usize)
        ensures
            r == self.in_flight_spec(),
    {
        self.in_flight
    }

    /// Merges completed so far.
    pub fn completed(&self) -> (r: u64)
        ensures
            r == self.completed_spec(),
    {
        self.completed
    }

    /// Whether the file has failed.
    pub fn failed(&self) -> (r: bool)
        ensures
            r == self.failed_spec(),
    {
        self.failed
    }
}

/// Backpressure: in every well-formed state no more merges are in flight than
/// the limit, and a new record is read only while fewer are.
pub proof fn lemma_flow_bounded(f: &Flow)
    requires
        f.wf(),
    ensures
        f.in_flight_spec() <= f.limit_spec(),
        Flow::action_spec(f) == FlowAction::Dispatch ==> f.in_flight_spec() < f.limit_spec(),
{
}

/// Once the file has failed nothing new starts, and it finishes only when
/// every merge in flight has completed.
pub proof fn lemma_flow_drains_after_failure(f: &Flow)
    requires
        f.wf(),
        f.failed_spec(),
    ensures
        Flow::action_spec(f) != FlowAction::Dispatch,
        Flow::action_spec(f) == FlowAction::Finish <==> f.in_flight_spec() == 0,
{
}

} // verus!
