use vstd::prelude::*;

use crate::error::ConfigError;

verus! {

/// The simulation clock, counted in whole seconds.
///
/// The clock never accumulates time by repeated addition: it stores the start
/// time, the step length and the number of steps taken, so the current time is
/// always exactly `start + steps * time_step`.
pub struct Clock {
    start: u64,
    time_step: u64,
    steps: u64,
}

impl Clock {
    pub closed spec fn start_spec(&self) -> nat {
        self.start as nat
    }

    pub closed spec fn time_step_spec(&self) -> nat {
        self.time_step as nat
    }

    pub closed spec fn steps_spec(&self) -> nat {
        self.steps as nat
    }

    /// The current simulation time.
    pub open spec fn time_spec(&self) -> nat {
        self.start_spec() + self.steps_spec() * self.time_step_spec()
    }

    /// `self` is `prev` advanced by exactly one step.
    pub open spec fn is_tick_of(&self, prev: &Clock) -> bool {
        &&& self.start_spec() == prev.start_spec()
        &&& self.time_step_spec() == prev.time_step_spec()
        &&& self.steps_spec() == prev.steps_spec() + 1
    }

    /// Starts a clock at `start` seconds with steps of `time_step` seconds.
    pub fn new(start: u64, time_step: u64) -> (r: Result<Clock, ConfigError>)
        ensures
            time_step == 0 <==> r is Err,
            r is Err ==> r->Err_0 == ConfigError::NonPositiveTimeStep,
            r is Ok ==> r->Ok_0.start_spec() == start && r->Ok_0.time_step_spec() == time_step
                && r->Ok_0.steps_spec() == 0,
    {
        if time_step == 0 {
            Err(ConfigError::NonPositiveTimeStep)
        } else {
            Ok(Clock { start, time_step, steps: 0 })
        }
    }

    /// The current simulation time in seconds.
    pub fn time(&self) -> (r: u128)
        ensures
            r == self.time_spec(),
    {
        let s = self.steps as u128;
        let d = self.time_step as u128;
        assert(s * d <= 0xffff_ffff_ffff_fffe_0000_0000_0000_0001u128) by (nonlinear_arith)
            requires
                s <= 0xffff_ffff_ffff_ffffu128,
                d <= 0xffff_ffff_ffff_ffffu128,
        ;
        s * d + (self.start as u128)
    }

    /// The length of one step in seconds.
    pub fn time_step(&self) -> (r: u64)
        ensures
            r == self.time_step_spec(),
    {
        self.time_step
    }

    /// The number of steps taken since the clock was started.
    pub fn steps(&self) -> (r: u64)
        ensures
            r == self.steps_spec(),
    {
        self.steps
    }

    /// Advances the clock by one step.
    pub fn tick(&mut self)
        requires
            old(self).steps_spec() < u64::MAX,
        ensures
            final(self).is_tick_of(&*old(self)),
            final(self).time_spec() == old(self).time_spec() + old(self).time_step_spec(),
    {
        let prev = self.steps;
        self.steps = prev + 1;
        let dt = self.time_step;
        assert((prev as nat + 1) * (dt as nat) == (prev as nat) * (dt as nat) + dt as nat)
            by (nonlinear_arith);
    }
}

/// A clock driven step by step never drifts: after `k` steps from a fresh
/// start it reads exactly `start + k * time_step`.
///
/// `run[0]` is the freshly started clock and each `run[i + 1]` is `run[i]`
/// after one `tick`.
pub proof fn lemma_clock_never_drifts(run: Seq<Clock>, k: int)
    requires
        0 <= k < run.len(),
        run[0].steps_spec() == 0,
        forall|i: int| 0 <= i < k ==> #[trigger] run[i + 1].is_tick_of(&run[i]),
    ensures
        run[k].time_spec() == run[0].start_spec() + k * run[0].time_step_spec(),
        run[k].steps_spec() == k,
        run[k].start_spec() == run[0].start_spec(),
        run[k].time_step_spec() == run[0].time_step_spec(),
    decreases k,
{
    if k > 0 {
        lemma_clock_never_drifts(run, k - 1);
        let j = k - 1;
        assert(run[j + 1].is_tick_of(&run[j]));
        assert(run[k].time_spec() == run[0].start_spec() + k * run[0].time_step_spec())
            by (nonlinear_arith)
            requires
                run[k].steps_spec() == k,
                run[k].time_step_spec() == run[0].time_step_spec(),
                run[k].start_spec() == run[0].start_spec(),
                run[k].time_spec() == run[k].start_spec() + run[k].steps_spec()
                    * run[k].time_step_spec(),
        ;
    }
}

} // verus!
