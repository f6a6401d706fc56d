use vstd::prelude::*;

use crate::clock::Clock;
use crate::error::{ConfigError, ProtocolError};
use crate::results::{forces_by_body, sorted_by_body, WorkDone};

verus! {

/// The controller's side of the step loop: the number of bodies in the store
/// and the simulation clock.
///
/// A step goes through only with a complete result set, one result per body;
/// the clock then advances by exactly one step. A step whose results break the
/// protocol is aborted and leaves the clock where it was.
pub struct Stepper {
    body_count: usize,
    clock: Clock,
}

impl Stepper {
    pub closed spec fn body_count_spec(&self) -> nat {
        self.body_count as nat
    }

    pub closed spec fn clock_spec(&self) -> Clock {
        self.clock
    }

    /// A stepper for `body_count` bodies whose clock starts at `start` seconds
    /// and advances `time_step` seconds per step; a zero step is refused.
    pub fn new(body_count: usize, start: u64, time_step: u64) -> (r: Result<Stepper, ConfigError>)
        ensures
            time_step == 0 <==> r is Err,
            r is Err ==> r->Err_0 == ConfigError::NonPositiveTimeStep,
            r is Ok ==> r->Ok_0.body_count_spec() == body_count && r->Ok_0.clock_spec().start_spec()
                == start && r->Ok_0.clock_spec().time_step_spec() == time_step
                && r->Ok_0.clock_spec().steps_spec() == 0,
    {
        match Clock::new(start, time_step) {
            Ok(clock) => Ok(Stepper { body_count, clock }),
            Err(e) => Err(e),
        }
    }

    /// The number of bodies in the store.
    pub fn body_count(&self) -> (r: usize)
        ensures
            r == self.body_count_spec(),
    {
        self.body_count
    }

    /// The simulation clock.
    pub fn clock(&self) -> (r: &Clock)
        ensures
            *r == self.clock_spec(),
    {
        &self.clock
    }

    /// Takes the results of one step. On success returns the force of each
    /// body in store order, for the caller to integrate, and advances the
    /// clock by one step; on a protocol error nothing changes.
    pub fn apply<F: Copy>(&mut self, work: &Vec<WorkDone<F>>) -> (r: Result<Vec<F>, ProtocolError>)
        requires
            old(self).clock_spec().steps_spec() < u64::MAX,
        ensures
            sorted_by_body(old(self).body_count_spec(), work@, r),
            final(self).body_count_spec() == old(self).body_count_spec(),
            r is Ok ==> final(self).clock_spec().is_tick_of(&old(self).clock_spec()),
            r is Err ==> final(self).clock_spec() == old(self).clock_spec(),
    {
        let r = forces_by_body(self.body_count, work);
        if r.is_ok() {
            self.clock.tick();
        }
        r
    }
}

} // verus!
