//! The size and the life cycle of the worker pool.
//!
//! The threads themselves belong to the program around this library. What is
//! decided here is how many of them there are, and in which phases of its life a
//! pool takes work: it runs, then drains, then is joined, and never goes back.

use vstd::prelude::*;

verus! {

/// The number of workers where the parallelism of the host cannot be had.
pub const DEFAULT_PARALLELISM: usize = 4;

/// The stack of a worker, in bytes: more than hosts give by default, for
/// queries that recurse deeply.
pub const STACK_SIZE: usize = 2 * 1024 * 1024;

/// The phases of a pool.
#[derive(Clone, Copy, PartialEq, Eq, Structural, Debug)]
pub enum PoolState {
    /// The queue is open and the workers take jobs from it.
    Running,
    /// The queue is closed; the workers finish what is queued and leave.
    Draining,
    /// Every worker has left. Nothing runs any more.
    Joined,
}

/// What moves a pool from one phase to the next.
#[derive(Clone, Copy, PartialEq, Eq, Structural, Debug)]
pub enum PoolEvent {
    /// The sending side of the queue was closed.
    QueueClosed,
    /// The last worker was joined.
    WorkersJoined,
}

/// The place of a phase in the order of phases.
pub open spec fn phase_rank(state: PoolState) -> nat {
    match state {
        PoolState::Running => 0,
        PoolState::Draining => 1,
        PoolState::Joined => 2,
    }
}

/// The phase after `event`: closing the queue ends the running phase, joining
/// the workers ends the draining phase, and an event out of turn changes nothing.
pub open spec fn spec_after(state: PoolState, event: PoolEvent) -> PoolState {
    match (state, event) {
        (PoolState::Running, PoolEvent::QueueClosed) => PoolState::Draining,
        (PoolState::Draining, PoolEvent::WorkersJoined) => PoolState::Joined,
        _ => state,
    }
}

impl PoolState {
    /// The phase after `event`.
    pub fn after(self, event: PoolEvent) -> (next: PoolState)
        ensures
            next == spec_after(self, event),
    {
        match self {
            PoolState::Running => match event {
                PoolEvent::QueueClosed => PoolState::Draining,
                PoolEvent::WorkersJoined => PoolState::Running,
            },
            PoolState::Draining => match event {
                PoolEvent::QueueClosed => PoolState::Draining,
                PoolEvent::WorkersJoined => PoolState::Joined,
            },
            PoolState::Joined => PoolState::Joined,
        }
    }

    /// Whether a job may still be queued: only while the pool runs.
    pub fn accepts_jobs(self) -> (accepts: bool)
        ensures
            accepts == (self == PoolState::Running),
    {
        match self {
            PoolState::Running => true,
            PoolState::Draining => false,
            PoolState::Joined => false,
        }
    }
}

/// A pool never goes back: no event lowers the rank of its phase, and none
/// moves it by more than one phase.
pub proof fn lemma_phases_only_advance(state: PoolState, event: PoolEvent)
    ensures
        phase_rank(state) <= phase_rank(spec_after(state, event)) <= phase_rank(state) + 1,
{
}

/// Joined is terminal: whatever happens to a joined pool, it stays joined.
pub proof fn lemma_joined_is_terminal(events: Seq<PoolEvent>)
    ensures
        spec_after_all(PoolState::Joined, events) == PoolState::Joined,
    decreases events.len(),
{
    if events.len() > 0 {
        lemma_joined_is_terminal(events.drop_last());
    }
}

/// The phase after a run of events.
pub open spec fn spec_after_all(state: PoolState, events: Seq<PoolEvent>) -> PoolState
    decreases events.len(),
{
    if events.len() == 0 {
        state
    } else {
        spec_after(spec_after_all(state, events.drop_last()), events.last())
    }
}

/// The number of workers for a budget of `max_threads` on a host with the
/// given parallelism: the smaller of the two, with the default standing in for
/// a parallelism that is not known.
pub open spec fn spec_worker_count(max_threads: usize, hardware: Option<usize>) -> usize {
    let available = match hardware {
        Some(available) => available,
        None => DEFAULT_PARALLELISM,
    };
    if available < max_threads {
        available
    } else {
        max_threads
    }
}

/// A pool of workers that are joined before the pool is gone.
#[derive(Debug)]
pub struct Pool {
    parallelism: usize,
    state: PoolState,
}

impl Pool {
    #[verifier::type_invariant]
    spec fn has_workers(&self) -> bool {
        self.parallelism >= 1
    }

    /// The number of workers.
    pub closed spec fn workers(&self) -> usize {
        self.parallelism
    }

    /// The phase that the pool is in.
    pub closed spec fn phase(&self) -> PoolState {
        self.state
    }

    /// A running pool of as many workers as the budget and the host allow.
    /// `hardware` is the parallelism that the host reports, if it reports one.
    pub fn new(max_threads: usize, hardware: Option<usize>) -> (pool: Pool)
        requires
            max_threads >= 1,
            hardware matches Some(available) ==> available >= 1,
        ensures
            pool.workers() == spec_worker_count(max_threads, hardware),
            pool.workers() >= 1,
            pool.phase() == PoolState::Running,
    {
        let available = match hardware {
            Some(available) => available,
            None => DEFAULT_PARALLELISM,
        };
        let threads = if available < max_threads {
            available
        } else {
            max_threads
        };
        Pool { parallelism: threads, state: PoolState::Running }
    }

    /// The number of jobs that this pool can run at a time. Work is split
    /// into this many pieces, one for each worker.
    pub fn parallelism(&self) -> (workers: usize)
        ensures
            workers == self.workers(),
            workers >= 1,
    {
        proof {
            use_type_invariant(self);
        }
        self.parallelism
    }

    /// The phase that the pool is in.
    pub fn state(&self) -> (state: PoolState)
        ensures
            state == self.phase(),
    {
        self.state
    }

    /// Records an event in the life of the pool.
    pub fn record(&mut self, event: PoolEvent)
        ensures
            final(self).workers() == old(self).workers(),
            final(self).phase() == spec_after(old(self).phase(), event),
    {
        proof {
            use_type_invariant(&*self);
        }
        self.state = self.state.after(event);
    }

    /// Tears the pool down: the queue is closed, then the workers are joined.
    /// Whatever phase the pool was in, it is joined afterwards.
    pub fn teardown(&mut self)
        ensures
            final(self).workers() == old(self).workers(),
            final(self).phase() == PoolState::Joined,
    {
        self.record(PoolEvent::QueueClosed);
        self.record(PoolEvent::WorkersJoined);
    }
}

} // verus!
