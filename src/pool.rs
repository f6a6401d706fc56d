use vstd::prelude::*;

use crate::error::{ConfigError, PoolError};
use crate::worker::Computer;

verus! {

/// The lifecycle of a worker pool: how many workers it has, and whether it
/// still runs.
///
/// It decides what the pool must do; the threads and the job queue act on it.
/// Shutting down sends one terminate signal to each worker and waits for each
/// to exit, and only the first shutdown does so: any later one, including the
/// one made when the pool is dropped, has nothing left to do.
pub struct PoolLifecycle {
    workers: usize,
    running: bool,
}

/// The sum of a sequence of counts.
pub open spec fn total(counts: Seq<usize>) -> nat
    decreases counts.len(),
{
    if counts.len() == 0 {
        0
    } else {
        total(counts.drop_last()) + counts.last() as nat
    }
}

impl PoolLifecycle {
    pub closed spec fn workers_spec(&self) -> nat {
        self.workers as nat
    }

    pub closed spec fn running_spec(&self) -> bool {
        self.running
    }

    /// `self` is `prev` after a shutdown that sent `sent` terminate signals
    /// (and so waits for `sent` workers to exit).
    pub open spec fn is_shutdown_of(&self, prev: &PoolLifecycle, sent: usize) -> bool {
        &&& self.workers_spec() == prev.workers_spec()
        &&& !self.running_spec()
        &&& sent == if prev.running_spec() {
            prev.workers_spec()
        } else {
            0
        }
    }

    /// A running pool with one worker per compute profile; a pool without
    /// profiles is refused.
    pub fn new(profiles: &Vec<Computer>) -> (r: Result<PoolLifecycle, ConfigError>)
        ensures
            profiles@.len() == 0 <==> r is Err,
            r is Err ==> r->Err_0 == ConfigError::EmptyPoolConfiguration,
            r is Ok ==> r->Ok_0.workers_spec() == profiles@.len() && r->Ok_0.running_spec(),
    {
        if profiles.len() == 0 {
            Err(ConfigError::EmptyPoolConfiguration)
        } else {
            Ok(PoolLifecycle { workers: profiles.len(), running: true })
        }
    }

    /// The number of workers of the pool.
    pub fn worker_count(&self) -> (r: usize)
        ensures
            r == self.workers_spec(),
    {
        self.workers
    }

    /// Whether the pool still runs.
    pub fn is_running(&self) -> (r: bool)
        ensures
            r == self.running_spec(),
    {
        self.running
    }

    /// Whether a job may be queued: only while the pool runs.
    pub fn accept_job(&self) -> (r: Result<(), PoolError>)
        ensures
            r is Ok <==> self.running_spec(),
            r is Err ==> r->Err_0 == PoolError::ShutDown,
    {
        if self.running {
            Ok(())
        } else {
            Err(PoolError::ShutDown)
        }
    }

    /// Stops the pool. Returns how many terminate signals to send, and so how
    /// many workers to wait for: all of them the first time, none afterwards.
    pub fn shutdown(&mut self) -> (sent: usize)
        ensures
            final(self).is_shutdown_of(&*old(self), sent),
    {
        let sent = if self.running {
            self.workers
        } else {
            0
        };
        self.running = false;
        sent
    }
}

/// However many times a pool is shut down (explicitly, then again when it is
/// dropped), each worker is told to terminate, and waited for, exactly once
/// in total, all on the first shutdown: a later one sends nothing and waits
/// for nothing, so it cannot block.
///
/// `run[0]` is the running pool and `run[i + 1]` is `run[i]` after a
/// shutdown that sent `sent[i]` signals.
pub proof fn lemma_each_worker_released_once(run: Seq<PoolLifecycle>, sent: Seq<usize>)
    requires
        run.len() == sent.len() + 1,
        run[0].running_spec(),
        forall|i: int| 0 <= i < sent.len() ==> #[trigger] run[i + 1].is_shutdown_of(&run[i], sent[i]),
    ensures
        sent.len() > 0 ==> total(sent) == run[0].workers_spec(),
        forall|i: int| 1 <= i < sent.len() ==> sent[i] == 0,
    decreases sent.len(),
{
    if sent.len() > 0 {
        let m = sent.len() - 1;
        lemma_each_worker_released_once(run.drop_last(), sent.drop_last());
        assert(run[m + 1].is_shutdown_of(&run[m], sent[m]));
        if m > 0 {
            let p = m - 1;
            assert(run[p + 1].is_shutdown_of(&run[p], sent[p]));
            assert(run.drop_last()[m] == run[m]);
        } else {
            assert(total(sent.drop_last()) == 0);
        }
        assert forall|i: int| 1 <= i < sent.len() implies sent[i] == 0 by {
            if i < m {
                assert(sent.drop_last()[i] == sent[i]);
            }
        }
    }
}

} // verus!
