//! The runtime's clock, shared between its owners through a reference-counted handle.
use vstd::prelude::*;
use std::rc::Rc;

verus! {

/// A clock set by its owner. The instant is kept as nanoseconds since
/// the clock's origin.
pub struct Timer {
    now: u64,
}

impl Timer {
    /// The current instant.
    pub closed spec fn spec_now(&self) -> u64 {
        self.now
    }

    /// A clock reading `now`.
    pub fn new(now: u64) -> (r: Timer)
        ensures
            r.spec_now() == now,
    {
        Timer { now }
    }

    /// The current instant.
    pub fn now(&self) -> (r: u64)
        ensures
            r == self.spec_now(),
    {
        self.now
    }

    /// Sets the clock to `now`.
    pub fn advance_clock(&mut self, now: u64)
        ensures
            final(self).spec_now() == now,
    {
        self.now = now;
    }
}

/// A shared handle to the runtime's clock.
pub struct TimerRc(pub Rc<Timer>);

impl TimerRc {
    /// A handle to a new shared clock.
    pub fn new(timer: Timer) -> (r: TimerRc)
        ensures
            *r.0 == timer,
    {
        TimerRc(Rc::new(timer))
    }

    /// The clock this handle shares.
    pub fn timer(&self) -> (r: &Timer)
        ensures
            *r == *self.0,
    {
        &*self.0
    }
}

} // verus!
