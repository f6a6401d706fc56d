use vstd::prelude::*;

verus! {

/// The synthetic performance profile of one worker.
///
/// It only shapes artificial delays and never changes a computed force.
#[derive(Debug, Clone, Copy, PartialEq, Eq, Structural)]
pub struct Computer {
    /// Mean of the normal distribution latencies are drawn from, in microseconds.
    pub mean: u64,
    /// Standard deviation of that distribution, in microseconds.
    pub std: u64,
    /// How much longer than the measured execution time the worker stays busy,
    /// in thousandths of that time (1000 doubles the time spent on a job).
    pub work_time_increase_factor: u64,
}

/// The extra delay, in nanoseconds, that models a slower processor after a job
/// that took `work_ns` nanoseconds.
pub open spec fn inflation_of(work_ns: nat, factor: nat) -> nat {
    (work_ns * factor / 1000) as nat
}

impl Computer {
    /// The extra delay in nanoseconds after a job that ran `work_ns`
    /// nanoseconds: `work_ns * work_time_increase_factor / 1000`, rounded down.
    pub fn inflated_delay(&self, work_ns: u64) -> (r: u128)
        ensures
            r == inflation_of(work_ns as nat, self.work_time_increase_factor as nat),
    {
        let w = work_ns as u128;
        let f = self.work_time_increase_factor as u128;
        assert(w * f <= 0xffff_ffff_ffff_fffe_0000_0000_0000_0001u128) by (nonlinear_arith)
            requires
                w <= 0xffff_ffff_ffff_ffffu128,
                f <= 0xffff_ffff_ffff_ffffu128,
        ;
        w * f / 1000
    }
}

/// Turns a latency draw, in whole microseconds, into a latency to wait: a
/// negative draw is no latency at all and must be drawn again.
pub fn latency_from_draw(draw: i64) -> (r: Option<u64>)
    ensures
        draw >= 0 <==> r is Some,
        r is Some ==> r->Some_0 == draw,
{
    if draw >= 0 {
        Some(draw as u64)
    } else {
        None
    }
}

/// What a worker reports about its life when it is told to terminate.
#[derive(Debug, Clone, Copy, PartialEq, Eq, Structural)]
pub struct WorkerReport {
    pub id: usize,
    /// Nanoseconds since the worker started.
    pub lifetime_ns: u64,
    /// Nanoseconds of the lifetime not spent executing jobs.
    pub idle_ns: u64,
    /// Nanoseconds spent executing jobs.
    pub busy_ns: u64,
    /// Microseconds of synthetic latency waited in total.
    pub latency_us: u64,
    /// The number of jobs executed.
    pub jobs: u64,
}

/// The running totals a worker keeps about the jobs it executed.
#[derive(Debug, Clone, Copy, PartialEq, Eq, Structural)]
pub struct WorkerStats {
    pub jobs: u64,
    pub busy_ns: u64,
    pub latency_us: u64,
}

impl WorkerStats {
    /// Totals for a worker that has executed nothing yet.
    pub fn new() -> (r: WorkerStats)
        ensures
            r == (WorkerStats { jobs: 0, busy_ns: 0, latency_us: 0 }),
    {
        WorkerStats { jobs: 0, busy_ns: 0, latency_us: 0 }
    }

    /// Adds one job that waited `latency_us` and executed for `work_ns`.
    ///
    /// Returns `false`, and changes nothing, when a total would no longer fit.
    pub fn record_job(&mut self, latency_us: u64, work_ns: u64) -> (r: bool)
        ensures
            r <==> old(self).jobs < u64::MAX && old(self).busy_ns + work_ns <= u64::MAX
                && old(self).latency_us + latency_us <= u64::MAX,
            r ==> *final(self) == (WorkerStats {
                jobs: (old(self).jobs + 1) as u64,
                busy_ns: (old(self).busy_ns + work_ns) as u64,
                latency_us: (old(self).latency_us + latency_us) as u64,
            }),
            !r ==> *final(self) == *old(self),
    {
        if self.jobs == u64::MAX || self.busy_ns > u64::MAX - work_ns || self.latency_us
            > u64::MAX - latency_us {
            return false;
        }
        self.jobs = self.jobs + 1;
        self.busy_ns = self.busy_ns + work_ns;
        self.latency_us = self.latency_us + latency_us;
        true
    }

    /// The report of worker `id` after `lifetime_ns` nanoseconds; the idle
    /// time is what the jobs left of the lifetime.
    ///
    /// `None` when the recorded busy time exceeds the lifetime, which no real
    /// clock produces.
    pub fn report(&self, id: usize, lifetime_ns: u64) -> (r: Option<WorkerReport>)
        ensures
            r is Some <==> self.busy_ns <= lifetime_ns,
            r is Some ==> r->Some_0 == (WorkerReport {
                id,
                lifetime_ns,
                idle_ns: (lifetime_ns - self.busy_ns) as u64,
                busy_ns: self.busy_ns,
                latency_us: self.latency_us,
                jobs: self.jobs,
            }),
    {
        if self.busy_ns > lifetime_ns {
            return None;
        }
        Some(
            WorkerReport {
                id,
                lifetime_ns,
                idle_ns: lifetime_ns - self.busy_ns,
                busy_ns: self.busy_ns,
                latency_us: self.latency_us,
                jobs: self.jobs,
            },
        )
    }
}

} // verus!
