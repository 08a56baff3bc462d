//! Backpressure: how many requests may run and how many may wait.
//!
//! A request first takes a place in the queue, without waiting; where the
//! queue is full it is turned away. A request in the queue then waits for a
//! place to run. A place in the queue is held until the request is done, so
//! the queue bounds the requests in flight and the run limit bounds those that
//! touch the cache at once.

use vstd::prelude::*;
use crate::server::{too_many_requests, Reply, STATUS_TOO_MANY_REQUESTS};

verus! {

/// Places to run, per core.
pub const RUN_PERMITS_PER_CORE: usize = 100;

/// Places in the queue, per place to run.
pub const WAIT_PERMITS_PER_RUN: usize = 5;

/// The two limits and the places taken under each.
#[derive(Debug)]
pub struct RateLimitMiddleware {
    run_permit: usize,
    wait_permit: usize,
    admitted: usize,
    running: usize,
}

impl RateLimitMiddleware {
    /// How many requests may run at once.
    pub closed spec fn run_permit(&self) -> nat {
        self.run_permit as nat
    }

    /// How many requests may be in flight, running or waiting.
    pub closed spec fn wait_permit(&self) -> nat {
        self.wait_permit as nat
    }

    /// The requests in flight.
    pub closed spec fn admitted(&self) -> nat {
        self.admitted as nat
    }

    /// The requests that run.
    pub closed spec fn running(&self) -> nat {
        self.running as nat
    }

    /// No more requests run than may, every running request is in flight,
    /// and no more are in flight than may be.
    pub open spec fn wf(&self) -> bool {
        &&& self.running() <= self.run_permit()
        &&& self.running() <= self.admitted()
        &&& self.admitted() <= self.wait_permit()
    }

    /// The queue has a place for one more request.
    pub open spec fn has_place(&self) -> bool {
        self.admitted() < self.wait_permit()
    }

    /// Both limits are reached.
    pub open spec fn exhausted(&self) -> bool {
        self.running() == self.run_permit() && self.admitted() == self.wait_permit()
    }

    /// The limits for a machine with `cores` cores, with no request in
    /// flight.
    pub fn new(cores: usize) -> (r: RateLimitMiddleware)
        requires
            cores * RUN_PERMITS_PER_CORE * WAIT_PERMITS_PER_RUN <= usize::MAX,
        ensures
            r.wf(),
            r.run_permit() == cores * RUN_PERMITS_PER_CORE,
            r.wait_permit() == r.run_permit() * WAIT_PERMITS_PER_RUN,
            r.admitted() == 0,
            r.running() == 0,
    {
        let run_limit: usize = cores * RUN_PERMITS_PER_CORE;
        let wait_limit: usize = run_limit * WAIT_PERMITS_PER_RUN;
        RateLimitMiddleware { run_permit: run_limit, wait_permit: wait_limit, admitted: 0, running: 0 }
    }

    /// The limits for a machine with `cores` cores, or `None` where they do
    /// not fit the machine's word.
    pub fn for_cores(cores: usize) -> (r: Option<RateLimitMiddleware>)
        ensures
            r is Some <==> cores * RUN_PERMITS_PER_CORE * WAIT_PERMITS_PER_RUN <= usize::MAX,
            r matches Some(l) ==> {
                &&& l.wf()
                &&& l.run_permit() == cores * RUN_PERMITS_PER_CORE
                &&& l.wait_permit() == l.run_permit() * WAIT_PERMITS_PER_RUN
                &&& l.admitted() == 0
                &&& l.running() == 0
            },
    {
        if cores <= usize::MAX / 500 {
            assert(cores * RUN_PERMITS_PER_CORE * WAIT_PERMITS_PER_RUN == cores * 500) by (nonlinear_arith);
            Some(RateLimitMiddleware::new(cores))
        } else {
            assert(cores * RUN_PERMITS_PER_CORE * WAIT_PERMITS_PER_RUN == cores * 500) by (nonlinear_arith);
            None
        }
    }

    /// The number of requests that may run at once.
    pub fn run_limit(&self) -> (n: usize)
        ensures
            n == self.run_permit(),
    {
        self.run_permit
    }

    /// The number of requests that may be in flight.
    pub fn wait_limit(&self) -> (n: usize)
        ensures
            n == self.wait_permit(),
    {
        self.wait_permit
    }

    /// The number of requests in flight.
    pub fn in_flight(&self) -> (n: usize)
        ensures
            n == self.admitted(),
    {
        self.admitted
    }

    /// The number of requests that run.
    pub fn in_progress(&self) -> (n: usize)
        ensures
            n == self.running(),
    {
        self.running
    }

    /// A request arrives. Where the queue has a place the request takes it
    /// and nothing is returned; where the queue is full the request is
    /// turned away with the reply returned.
    pub fn try_admit(&mut self) -> (r: Option<Reply>)
        requires
            old(self).wf(),
        ensures
            final(self).wf(),
            final(self).run_permit() == old(self).run_permit(),
            final(self).wait_permit() == old(self).wait_permit(),
            final(self).running() == old(self).running(),
            r is None <==> old(self).has_place(),
            r matches Some(reply) ==> reply.status == STATUS_TOO_MANY_REQUESTS
                && final(self).admitted() == old(self).admitted(),
            r is None ==> final(self).admitted() == old(self).admitted() + 1,
    {
        if self.admitted < self.wait_permit {
            self.admitted = self.admitted + 1;
            None
        } else {
            Some(too_many_requests())
        }
    }

    /// A request in the queue asks for a place to run. Returns whether it
    /// got one; where it did not, it asks again after a request finished.
    pub fn try_run(&mut self) -> (granted: bool)
        requires
            old(self).wf(),
            old(self).running() < old(self).admitted(),
        ensures
            final(self).wf(),
            final(self).run_permit() == old(self).run_permit(),
            final(self).wait_permit() == old(self).wait_permit(),
            final(self).admitted() == old(self).admitted(),
            granted == (old(self).running() < old(self).run_permit()),
            final(self).running() == if granted {
                old(self).running() + 1
            } else {
                old(self).running()
            },
    {
        if self.running < self.run_permit {
            self.running = self.running + 1;
            true
        } else {
            false
        }
    }

    /// A request leaves the queue before it ran: it gives up its place in
    /// the queue.
    pub fn leave(&mut self)
        requires
            old(self).wf(),
            old(self).running() < old(self).admitted(),
        ensures
            final(self).wf(),
            final(self).run_permit() == old(self).run_permit(),
            final(self).wait_permit() == old(self).wait_permit(),
            final(self).running() == old(self).running(),
            final(self).admitted() == old(self).admitted() - 1,
    {
        self.admitted = self.admitted - 1;
    }

    /// A running request is done: it gives up its place to run and its place
    /// in the queue.
    pub fn finish(&mut self)
        requires
            old(self).wf(),
            old(self).running() > 0,
        ensures
            final(self).wf(),
            final(self).run_permit() == old(self).run_permit(),
            final(self).wait_permit() == old(self).wait_permit(),
            final(self).running() == old(self).running() - 1,
            final(self).admitted() == old(self).admitted() - 1,
    {
        self.running = self.running - 1;
        self.admitted = self.admitted - 1;
    }
}

/// The floor under the rate limit: in every state that the operations can
/// reach no more requests run than the run limit allows, and once both limits
/// are reached the queue has no place left, so that the next request is
/// turned away.
pub proof fn lemma_rate_limit_floor(l: RateLimitMiddleware)
    requires
        l.wf(),
    ensures
        l.running() <= l.run_permit(),
        l.exhausted() ==> !l.has_place(),
{
}

} // verus!
